//! Stable ids of the sample todo app. Other apps define their own.

use vstd::prelude::*;

use crate::text::{decimal, decimal_string, push_chars};

verus! {

pub const INPUT: &'static str = "todo-input";
pub const ADD: &'static str = "todo-add";
pub const LIST: &'static str = "todo-list";
/// Named scroll view for `screenshot mode=scrolled`.
pub const LIST_SCROLL: &'static str = "todo-list-scroll";
pub const EMPTY: &'static str = "todo-empty";
pub const STATUS: &'static str = "todo-status";
pub const WINDOW: &'static str = "todo-window";
pub const NAV: &'static str = "todo-nav";
pub const NAV_TODOS: &'static str = "nav-todos";
pub const NAV_SETTINGS: &'static str = "nav-settings";
/// Collapse/expand the nav sidebar (`visible` on `todo-nav`).
pub const NAV_TOGGLE: &'static str = "nav-toggle-sidebar";
pub const PAGE_TODOS: &'static str = "page-todos";
pub const PAGE_SETTINGS: &'static str = "page-settings";
pub const SETTINGS_CONFIRM_DELETE: &'static str = "settings-confirm-delete";

/// Focused keymap Action: go to Todos and focus the draft field.
pub const KEY_FOCUS_INPUT: &'static str = "todo.focus_input";
/// Global keymap Action: open Settings (no window focus required).
pub const KEY_GO_SETTINGS: &'static str = "todo.go_settings";
/// Destructive global Action: quit. Requires `confirm=true`.
pub const KEY_QUIT: &'static str = "app.quit";

pub const KEY_FOCUS_INPUT_CHORD: &'static str = "cmd-n";
pub const KEY_GO_SETTINGS_CHORD: &'static str = "cmd-shift-s";
pub const KEY_QUIT_CHORD: &'static str = "cmd-q";

pub const ITEM_PREFIX: &'static str = "todo-item-";
pub const TOGGLE_PREFIX: &'static str = "todo-toggle-";
pub const DELETE_PREFIX: &'static str = "todo-delete-";

fn numbered(prefix: &str, id: u64) -> (r: String)
    ensures
        r@ == prefix@ + decimal(id as nat),
{
    let mut out = prefix.to_owned();
    push_chars(&mut out, &decimal_string(id));
    out
}

/// `todo-item-{id}`: the row of a todo.
pub fn item(id: u64) -> (r: String)
    ensures
        r@ == ITEM_PREFIX@ + decimal(id as nat),
{
    numbered(ITEM_PREFIX, id)
}

/// `todo-toggle-{id}`: the checkbox of a todo.
pub fn toggle(id: u64) -> (r: String)
    ensures
        r@ == TOGGLE_PREFIX@ + decimal(id as nat),
{
    numbered(TOGGLE_PREFIX, id)
}

/// `todo-delete-{id}`: the delete button of a todo.
pub fn delete(id: u64) -> (r: String)
    ensures
        r@ == DELETE_PREFIX@ + decimal(id as nat),
{
    numbered(DELETE_PREFIX, id)
}

} // verus!
