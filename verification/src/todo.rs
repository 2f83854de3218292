//! Domain model of the sample todo app. The desktop window and the
//! headless host call the same methods, so an agent action (`click
//! todo-add`) and a human click run identical code.

pub mod ids;
pub mod tree;

use vstd::prelude::*;

use crate::keybinding::{keybinding_unavailable, KeybindingInfo, KEYBINDING_UNAVAILABLE};
use crate::protocol::{DeliveryMode, KeybindingScope, Op, PlatformKind};
use crate::screenshot::{
    confine_screenshot_path_in, confine_spec, require_screenshot_path, screenshot_unavailable,
    SCREENSHOT_UNAVAILABLE,
};
use crate::text::{
    chars_of, decimal, decimal_string, is_ws, push_chars, str_eq, string_of, tagged, trim,
    trim_chars, trim_end, trim_start,
};
use crate::virtual_input::{virtual_unavailable, VIRTUAL_UNAVAILABLE};
use crate::{numbered_id, parse_numbered_id};

verus! {

/// Which screen the app shows.
#[derive(Debug, Clone, Copy, PartialEq, Eq, Structural)]
pub enum Page {
    Todos,
    Settings,
}

impl Default for Page {
    fn default() -> (r: Self)
        ensures
            r == Page::Todos,
    {
        Page::Todos
    }
}

/// One todo.
#[derive(Debug, PartialEq, Eq)]
pub struct Todo {
    pub id: u64,
    pub title: String,
    pub done: bool,
}

/// A todo as plain values.
pub struct TodoEntry {
    pub id: u64,
    pub title: Seq<char>,
    pub done: bool,
}

impl View for Todo {
    type V = TodoEntry;

    open spec fn view(&self) -> TodoEntry {
        TodoEntry { id: self.id, title: self.title@, done: self.done }
    }
}

impl Clone for Todo {
    fn clone(&self) -> (r: Self)
        ensures
            r@ == self@,
    {
        Todo { id: self.id, title: self.title.clone(), done: self.done }
    }
}

pub open spec fn entries(v: Seq<Todo>) -> Seq<TodoEntry> {
    Seq::new(v.len(), |i: int| v[i]@)
}

/// GUI / client projection of a snapshot. The store stays the source of
/// truth.
#[derive(Debug, Clone, PartialEq, Eq)]
pub struct TodoView {
    pub items: Vec<Todo>,
    pub draft: String,
    pub page: Page,
    pub confirm_delete: bool,
    pub sidebar_open: bool,
}

impl Default for TodoView {
    /// No items, no draft, the todo page, sidebar open.
    fn default() -> (r: Self)
        ensures
            r.items@.len() == 0,
            r.draft@.len() == 0,
            r.page == Page::Todos,
            !r.confirm_delete,
            r.sidebar_open,
    {
        TodoView {
            items: Vec::new(),
            draft: String::new(),
            page: Page::Todos,
            confirm_delete: false,
            sidebar_open: true,
        }
    }
}

/// The state of a [`TodoStore`] as plain values.
pub struct TodoModel {
    pub next_id: u64,
    pub items: Seq<TodoEntry>,
    pub draft: Seq<char>,
    pub page: Page,
    pub confirm_delete: bool,
    pub sidebar_open: bool,
    pub platform: PlatformKind,
    pub shutdown: bool,
    pub app_focused: bool,
}

impl TodoModel {
    /// Ids are handed out in increasing order and never reused: every id is
    /// below `next_id` and the list is sorted by id, so no id occurs twice.
    pub open spec fn wf(self) -> bool {
        &&& self.next_id >= 1
        &&& forall|i: int| 0 <= i < self.items.len() ==> #[trigger] self.items[i].id < self.next_id
        &&& forall|i: int, j: int|
            0 <= i < j < self.items.len() ==> #[trigger] self.items[i].id < #[trigger] self.items[j].id
    }

    pub open spec fn has_id(self, id: u64) -> bool {
        exists|i: int| 0 <= i < self.items.len() && #[trigger] self.items[i].id == id
    }

    /// Where the todo with `id` sits.
    pub open spec fn pos(self, id: u64) -> int {
        choose|i: int| 0 <= i < self.items.len() && #[trigger] self.items[i].id == id
    }
}

pub open spec fn not_found(id: u64) -> Seq<char> {
    "todo "@ + decimal(id as nat) + " not found"@
}

pub open spec fn empty_title_error() -> Seq<char> {
    "cannot add an empty todo"@
}

/// `add(title)`: the trimmed title gets the next id; the draft is cleared.
pub open spec fn add_spec(m: TodoModel, title: Seq<char>) -> (TodoModel, Result<TodoEntry, Seq<char>>) {
    let t = trim(title);
    if t.len() == 0 {
        (m, Err(empty_title_error()))
    } else {
        let e = TodoEntry { id: m.next_id, title: t, done: false };
        (
            TodoModel { next_id: (m.next_id + 1) as u64, items: m.items.push(e), draft: Seq::empty(), ..m },
            Ok(e),
        )
    }
}

/// `toggle(id)`: flip `done` of the todo with `id`.
pub open spec fn toggle_spec(m: TodoModel, id: u64) -> (TodoModel, Result<TodoEntry, Seq<char>>) {
    if m.has_id(id) {
        let i = m.pos(id);
        let e = TodoEntry { done: !m.items[i].done, ..m.items[i] };
        (TodoModel { items: m.items.update(i, e), ..m }, Ok(e))
    } else {
        (m, Err(not_found(id)))
    }
}

/// `delete(id)`: remove the todo with `id` and hand it back.
pub open spec fn delete_spec(m: TodoModel, id: u64) -> (TodoModel, Result<TodoEntry, Seq<char>>) {
    if m.has_id(id) {
        let i = m.pos(id);
        (TodoModel { items: m.items.remove(i), ..m }, Ok(m.items[i]))
    } else {
        (m, Err(not_found(id)))
    }
}

pub open spec fn entry_result(r: Result<Todo, String>) -> Result<TodoEntry, Seq<char>> {
    match r {
        Ok(t) => Ok(t@),
        Err(e) => Err(e@),
    }
}


/// What a dispatched op hands back, before the host renders it as JSON.
#[derive(Debug)]
pub enum TodoReply {
    /// No payload.
    Empty,
    /// The todo an add, toggle or delete acted on.
    Item(Todo),
    /// Every todo, in order.
    List(Vec<Todo>),
    /// `{"sidebar_open": ..}` after a toggle.
    SidebarOpen(bool),
    /// `{"confirm_delete": ..}` after a toggle.
    ConfirmDelete(bool),
    /// `{"value": ..}`: the draft after an edit.
    Value(String),
    /// A keymap Action ran: `{"id", "scope", "path": "gpui.action"}`, with
    /// `"dangerous": true` for a destructive one.
    Action { id: String, scope: KeybindingScope, dangerous: bool },
    /// The keybinding catalog.
    Keybindings(Vec<KeybindingInfo>),
}

/// A catalog row as plain values: id, chord, scope, dangerous.
pub open spec fn info_row(k: KeybindingInfo) -> (Seq<char>, Seq<char>, KeybindingScope, bool) {
    (k.id@, k.chord@, k.scope, k.dangerous)
}

/// [`TodoReply`] as plain values.
pub enum ReplyView {
    Empty,
    Item(TodoEntry),
    List(Seq<TodoEntry>),
    SidebarOpen(bool),
    ConfirmDelete(bool),
    Value(Seq<char>),
    Action(Seq<char>, KeybindingScope, bool),
    Keybindings(Seq<(Seq<char>, Seq<char>, KeybindingScope, bool)>),
}

impl View for TodoReply {
    type V = ReplyView;

    open spec fn view(&self) -> ReplyView {
        match self {
            TodoReply::Empty => ReplyView::Empty,
            TodoReply::Item(t) => ReplyView::Item(t@),
            TodoReply::List(v) => ReplyView::List(entries(v@)),
            TodoReply::SidebarOpen(b) => ReplyView::SidebarOpen(*b),
            TodoReply::ConfirmDelete(b) => ReplyView::ConfirmDelete(*b),
            TodoReply::Value(s) => ReplyView::Value(s@),
            TodoReply::Action { id, scope, dangerous } => ReplyView::Action(id@, *scope, *dangerous),
            TodoReply::Keybindings(v) => ReplyView::Keybindings(
                Seq::new(v@.len(), |i: int| info_row(v@[i])),
            ),
        }
    }
}

pub open spec fn reply_result(r: Result<TodoReply, String>) -> Result<ReplyView, Seq<char>> {
    match r {
        Ok(x) => Ok(x@),
        Err(e) => Err(e@),
    }
}

/// The `args` fields an `invoke` reads, as the host found them: a string
/// `title`, an unsigned `id`, a string `page`.
#[derive(Debug, Clone)]
pub struct InvokeArgs {
    pub title: Option<String>,
    pub id: Option<u64>,
    pub page: Option<String>,
}

pub type Outcome = (TodoModel, Result<ReplyView, Seq<char>>);

pub open spec fn item_outcome(p: (TodoModel, Result<TodoEntry, Seq<char>>)) -> Outcome {
    (
        p.0,
        match p.1 {
            Ok(e) => Ok(ReplyView::Item(e)),
            Err(x) => Err(x),
        },
    )
}

pub open spec fn flip_sidebar(m: TodoModel) -> TodoModel {
    TodoModel { sidebar_open: !m.sidebar_open, ..m }
}

pub open spec fn flip_confirm(m: TodoModel) -> TodoModel {
    TodoModel { confirm_delete: !m.confirm_delete, ..m }
}

/// A click on a stable id.
pub open spec fn click_spec(m: TodoModel, target: Seq<char>) -> Outcome {
    if target == ids::NAV_TOGGLE@ {
        (flip_sidebar(m), Ok(ReplyView::SidebarOpen(!m.sidebar_open)))
    } else if target == ids::NAV_TODOS@ {
        (TodoModel { page: Page::Todos, ..m }, Ok(ReplyView::Empty))
    } else if target == ids::NAV_SETTINGS@ {
        (TodoModel { page: Page::Settings, ..m }, Ok(ReplyView::Empty))
    } else if target == ids::SETTINGS_CONFIRM_DELETE@ {
        (flip_confirm(m), Ok(ReplyView::ConfirmDelete(!m.confirm_delete)))
    } else if target == ids::ADD@ {
        item_outcome(add_spec(m, m.draft))
    } else if numbered_id(ids::TOGGLE_PREFIX@, target) is Some {
        item_outcome(toggle_spec(m, numbered_id(ids::TOGGLE_PREFIX@, target)->0))
    } else if numbered_id(ids::DELETE_PREFIX@, target) is Some {
        item_outcome(delete_spec(m, numbered_id(ids::DELETE_PREFIX@, target)->0))
    } else if numbered_id(ids::ITEM_PREFIX@, target) is Some {
        item_outcome(toggle_spec(m, numbered_id(ids::ITEM_PREFIX@, target)->0))
    } else {
        (m, Err("cannot click `"@ + target + "`"@))
    }
}

pub open spec fn not_editable(target: Seq<char>) -> Seq<char> {
    "`"@ + target + "` is not editable"@
}

/// Typing appends to the draft; only the input is editable.
pub open spec fn type_into_spec(m: TodoModel, target: Seq<char>, text: Seq<char>) -> Outcome {
    if target != ids::INPUT@ {
        (m, Err(not_editable(target)))
    } else {
        (TodoModel { draft: m.draft + text, ..m }, Ok(ReplyView::Value(m.draft + text)))
    }
}

/// Setting a value replaces the draft; only the input is editable.
pub open spec fn set_value_spec(m: TodoModel, target: Seq<char>, value: Seq<char>) -> Outcome {
    if target != ids::INPUT@ {
        (m, Err(not_editable(target)))
    } else {
        (TodoModel { draft: value, ..m }, Ok(ReplyView::Value(value)))
    }
}

/// Enter on the input or the add button adds the draft; Backspace on the
/// input drops its last character.
pub open spec fn key_spec(m: TodoModel, target: Seq<char>, key: Seq<char>) -> Outcome {
    if key == "Enter"@ && (target == ids::INPUT@ || target == ids::ADD@) {
        item_outcome(add_spec(m, m.draft))
    } else if target == ids::INPUT@ && key == "Backspace"@ {
        (
            TodoModel {
                draft: if m.draft.len() > 0 {
                    m.draft.drop_last()
                } else {
                    m.draft
                },
                ..m
            },
            Ok(ReplyView::Empty),
        )
    } else {
        (m, Err("unhandled key `"@ + key + "` on `"@ + target + "`"@))
    }
}

/// The body of a keymap Action, as the desktop listeners run it.
pub open spec fn perform_keybinding_spec(m: TodoModel, binding: Seq<char>) -> Outcome {
    if binding == ids::KEY_FOCUS_INPUT@ {
        (
            TodoModel { page: Page::Todos, ..m },
            Ok(ReplyView::Action(ids::KEY_FOCUS_INPUT@, KeybindingScope::Focused, false)),
        )
    } else if binding == ids::KEY_GO_SETTINGS@ {
        (
            TodoModel { page: Page::Settings, ..m },
            Ok(ReplyView::Action(ids::KEY_GO_SETTINGS@, KeybindingScope::Global, false)),
        )
    } else if binding == ids::KEY_QUIT@ {
        (
            TodoModel { shutdown: true, ..m },
            Ok(ReplyView::Action(ids::KEY_QUIT@, KeybindingScope::Global, true)),
        )
    } else {
        (m, Err("unknown binding `"@ + binding + "`"@))
    }
}

pub const DESKTOP_FIRE_DETAIL: &'static str =
    "desktop keybinding fire must run on the GPUI UI thread (Action / keymap dispatch). Mailbox intercept missing?";

/// A `keybinding` op on this store: refused on the desktop (the window's
/// listeners own it there); otherwise `activate` focuses the app first.
pub open spec fn fire_keybinding_spec(m: TodoModel, binding: Seq<char>, activate: bool) -> Outcome {
    if m.platform == PlatformKind::Desktop {
        (m, Err(tagged(KEYBINDING_UNAVAILABLE@, DESKTOP_FIRE_DETAIL@)))
    } else {
        let m1 = if activate {
            TodoModel { app_focused: true, ..m }
        } else {
            m
        };
        perform_keybinding_spec(m1, binding)
    }
}

/// A host `invoke` by name.
pub open spec fn invoke_spec(m: TodoModel, name: Seq<char>, args: InvokeArgs) -> Outcome {
    if name == "todo.add"@ {
        match args.title {
            Some(t) => item_outcome(add_spec(m, t@)),
            None => (m, Err("todo.add requires args.title"@)),
        }
    } else if name == "todo.toggle"@ {
        match args.id {
            Some(id) => item_outcome(toggle_spec(m, id)),
            None => (m, Err("expected args.id"@)),
        }
    } else if name == "todo.delete"@ {
        match args.id {
            Some(id) => item_outcome(delete_spec(m, id)),
            None => (m, Err("expected args.id"@)),
        }
    } else if name == "todo.list"@ {
        (m, Ok(ReplyView::List(m.items)))
    } else if name == "nav.go"@ {
        match args.page {
            Some(p) => if p@ == "todos"@ {
                (TodoModel { page: Page::Todos, ..m }, Ok(ReplyView::Empty))
            } else if p@ == "settings"@ {
                (TodoModel { page: Page::Settings, ..m }, Ok(ReplyView::Empty))
            } else {
                (m, Err("unknown page `"@ + p@ + "`"@))
            },
            None => (m, Err("nav.go requires args.page"@)),
        }
    } else if name == "todo.toggle_sidebar"@ {
        (flip_sidebar(m), Ok(ReplyView::SidebarOpen(!m.sidebar_open)))
    } else {
        (m, Err("unknown invoke `"@ + name + "`"@))
    }
}

pub const HEADLESS_SHOT_DETAIL: &'static str =
    "headless host has no pixel surface (viewport and scrolled)";
pub const DESKTOP_SHOT_DETAIL: &'static str =
    "desktop screenshot must run on the GPUI UI thread with a Window (mailbox intercept). This store has no pixel surface.";
pub const OTHER_SHOT_DETAIL: &'static str = "this host has no pixel surface";

pub open spec fn shot_detail(p: PlatformKind) -> Seq<char> {
    match p {
        PlatformKind::Headless => HEADLESS_SHOT_DETAIL@,
        PlatformKind::Desktop => DESKTOP_SHOT_DETAIL@,
        _ => OTHER_SHOT_DETAIL@,
    }
}

/// A screenshot on this store: the path is checked and confined under
/// `base` first, then the store reports that it has no pixels.
pub open spec fn screenshot_spec(m: TodoModel, path: Option<Seq<char>>, base: Seq<char>) -> Result<ReplyView, Seq<char>> {
    match path {
        Some(p) if trim(p).len() > 0 => match confine_spec(trim(p), base) {
            Err(e) => Err(e),
            Ok(_) => Err(tagged(SCREENSHOT_UNAVAILABLE@, shot_detail(m.platform))),
        },
        _ => Err("screenshot requires path"@),
    }
}

pub const NO_VIRTUAL_DETAIL: &'static str =
    "this host has no GPUI pointer/key pipeline. Virtual delivery synthesizes in-window events on the desktop GPUI host after a painted frame. Headless and store-only hosts implement semantic dispatch only \u{2014} use delivery=semantic, or run apps/todo with GPUI_AGENT=1.";

pub open spec fn opt_view(o: Option<String>) -> Option<Seq<char>> {
    match o {
        Some(s) => Some(s@),
        None => None,
    }
}

/// The sample catalog: one focused, one global, one destructive Action.
pub open spec fn catalog_rows() -> Seq<(Seq<char>, Seq<char>, KeybindingScope, bool)> {
    seq![
        (ids::KEY_FOCUS_INPUT@, ids::KEY_FOCUS_INPUT_CHORD@, KeybindingScope::Focused, false),
        (ids::KEY_GO_SETTINGS@, ids::KEY_GO_SETTINGS_CHORD@, KeybindingScope::Global, false),
        (ids::KEY_QUIT@, ids::KEY_QUIT_CHORD@, KeybindingScope::Global, true),
    ]
}

/// One protocol op on the store. Virtual delivery is refused: this host has
/// no pointer/key pipeline.
pub open spec fn dispatch_spec(m: TodoModel, op: Op, args: InvokeArgs, base: Seq<char>) -> Outcome {
    if op.is_virtual_input_spec() {
        (m, Err(tagged(VIRTUAL_UNAVAILABLE@, NO_VIRTUAL_DETAIL@)))
    } else {
        match op {
            Op::Click { target, .. } => click_spec(m, target@),
            Op::Type { target, text, .. } => type_into_spec(m, target@, text@),
            Op::SetValue { target, value } => set_value_spec(m, target@, value@),
            Op::Key { target, key, .. } => key_spec(m, target@, key@),
            Op::Keybinding { binding, activate, .. } => fire_keybinding_spec(m, binding@, activate),
            Op::Keybindings => (m, Ok(ReplyView::Keybindings(catalog_rows()))),
            Op::Invoke { name, .. } => invoke_spec(m, name@, args),
            Op::Screenshot { path, .. } => (m, screenshot_spec(m, opt_view(path), base)),
            Op::Shutdown => (TodoModel { shutdown: true, ..m }, Ok(ReplyView::Empty)),
            _ => (m, Ok(ReplyView::Empty)),
        }
    }
}

/// `format!("Scroll demo {i}")`.
pub open spec fn demo_title(i: nat) -> Seq<char> {
    "Scroll demo "@ + decimal(i)
}

/// The todos that `seed_overflow_demo(count)` appends after the ids below
/// `next_id`.
pub open spec fn demo_entries(next_id: u64, count: nat) -> Seq<TodoEntry> {
    Seq::new(count, |k: int| TodoEntry { id: (next_id + k) as u64, title: demo_title((k + 1) as nat), done: false })
}

/// A new store: no todos, the first id to hand out is 1, the todo page.
pub open spec fn new_store_model(platform: PlatformKind) -> TodoModel {
    TodoModel {
        next_id: 1,
        items: Seq::empty(),
        draft: Seq::empty(),
        page: Page::Todos,
        confirm_delete: false,
        sidebar_open: true,
        platform,
        shutdown: false,
        app_focused: false,
    }
}

/// The todo list and the app state around it.
#[derive(Debug)]
pub struct TodoStore {
    next_id: u64,
    items: Vec<Todo>,
    draft: String,
    page: Page,
    confirm_delete: bool,
    sidebar_open: bool,
    platform: PlatformKind,
    shutdown: bool,
    /// Headless stand-in for OS window focus.
    app_focused: bool,
}

impl View for TodoStore {
    type V = TodoModel;

    closed spec fn view(&self) -> TodoModel {
        TodoModel {
            next_id: self.next_id,
            items: entries(self.items@),
            draft: self.draft@,
            page: self.page,
            confirm_delete: self.confirm_delete,
            sidebar_open: self.sidebar_open,
            platform: self.platform,
            shutdown: self.shutdown,
            app_focused: self.app_focused,
        }
    }
}

impl Clone for TodoStore {
    fn clone(&self) -> (r: Self)
        ensures
            r@ == self@,
    {
        proof {
            use_type_invariant(self);
        }
        let mut items: Vec<Todo> = Vec::new();
        let mut i: usize = 0;
        while i < self.items.len()
            invariant
                i <= self.items.len(),
                entries(items@) == entries(self.items@).subrange(0, i as int),
            decreases self.items.len() - i,
        {
            let c = self.items[i].clone();
            assert(c@ == entries(self.items@)[i as int]);
            let ghost before = items@;
            items.push(c);
            assert(entries(items@) =~= entries(before).push(c@));
            i += 1;
            assert(entries(items@) =~= entries(self.items@).subrange(0, i as int));
        }
        assert(entries(self.items@).subrange(0, i as int) =~= entries(self.items@));
        TodoStore {
            next_id: self.next_id,
            items,
            draft: self.draft.clone(),
            page: self.page,
            confirm_delete: self.confirm_delete,
            sidebar_open: self.sidebar_open,
            platform: self.platform,
            shutdown: self.shutdown,
            app_focused: self.app_focused,
        }
    }
}

impl TodoStore {
    #[verifier::type_invariant]
    closed spec fn inv(self) -> bool {
        self@.wf()
    }

    /// Every store is well formed: ids below `next_id`, strictly increasing.
    pub fn check_wf(&self)
        ensures
            self@.wf(),
    {
        proof {
            use_type_invariant(self);
        }
    }

    pub fn new(platform: PlatformKind) -> (r: Self)
        ensures
            r@ == new_store_model(platform),
    {
        let r = TodoStore {
            next_id: 1,
            items: Vec::new(),
            draft: String::new(),
            page: Page::Todos,
            confirm_delete: false,
            sidebar_open: true,
            platform,
            shutdown: false,
            app_focused: false,
        };
        assert(r@.items =~= Seq::<TodoEntry>::empty());
        r
    }

    /// The id the next added todo gets.
    pub fn next_id(&self) -> (r: u64)
        ensures
            r == self@.next_id,
    {
        self.next_id
    }

    pub fn page(&self) -> (r: Page)
        ensures
            r == self@.page,
    {
        self.page
    }

    /// Which runtime this store serves.
    pub fn platform(&self) -> (r: PlatformKind)
        ensures
            r == self@.platform,
    {
        self.platform
    }

    pub fn confirm_delete(&self) -> (r: bool)
        ensures
            r == self@.confirm_delete,
    {
        self.confirm_delete
    }

    pub fn go(&mut self, page: Page)
        ensures
            final(self)@ == (TodoModel { page, ..old(self)@ }),
    {
        proof {
            use_type_invariant(&*self);
        }
        self.page = page;
    }

    pub fn toggle_confirm_delete(&mut self)
        ensures
            final(self)@ == (TodoModel { confirm_delete: !old(self)@.confirm_delete, ..old(self)@ }),
    {
        proof {
            use_type_invariant(&*self);
        }
        self.confirm_delete = !self.confirm_delete;
    }

    pub fn sidebar_open(&self) -> (r: bool)
        ensures
            r == self@.sidebar_open,
    {
        self.sidebar_open
    }

    pub fn toggle_sidebar(&mut self)
        ensures
            final(self)@ == (TodoModel { sidebar_open: !old(self)@.sidebar_open, ..old(self)@ }),
    {
        proof {
            use_type_invariant(&*self);
        }
        self.sidebar_open = !self.sidebar_open;
    }

    pub fn items(&self) -> (r: &[Todo])
        ensures
            entries(r@) == self@.items,
    {
        self.items.as_slice()
    }

    pub fn draft(&self) -> (r: &str)
        ensures
            r@ == self@.draft,
    {
        self.draft.as_str()
    }

    pub fn set_draft(&mut self, draft: &str)
        ensures
            final(self)@ == (TodoModel { draft: draft@, ..old(self)@ }),
    {
        proof {
            use_type_invariant(&*self);
        }
        self.draft = draft.to_owned();
    }

    fn mark_shutdown(&mut self)
        ensures
            final(self)@ == (TodoModel { shutdown: true, ..old(self)@ }),
    {
        proof {
            use_type_invariant(&*self);
        }
        self.shutdown = true;
    }

    pub fn wants_shutdown(&self) -> (r: bool)
        ensures
            r == self@.shutdown,
    {
        self.shutdown
    }

    pub fn set_app_focused(&mut self, focused: bool)
        ensures
            final(self)@ == (TodoModel { app_focused: focused, ..old(self)@ }),
    {
        proof {
            use_type_invariant(&*self);
        }
        self.app_focused = focused;
    }

    pub fn is_app_focused(&self) -> (r: bool)
        ensures
            r == self@.app_focused,
    {
        self.app_focused
    }

    /// Add a todo with the trimmed `title`; an empty title is refused.
    pub fn add(&mut self, title: &str) -> (r: Result<Todo, String>)
        requires
            old(self)@.next_id < u64::MAX,
        ensures
            (final(self)@, entry_result(r)) == add_spec(old(self)@, title@),
    {
        proof {
            use_type_invariant(&*self);
        }
        let t = trim_chars(&chars_of(title));
        if t.len() == 0 {
            return Err("cannot add an empty todo".to_owned());
        }
        let todo = Todo { id: self.next_id, title: string_of(t.as_slice()), done: false };
        let ghost m0 = self@;
        let copy = todo.clone();
        let mut items: Vec<Todo> = Vec::new();
        std::mem::swap(&mut items, &mut self.items);
        assert(self@.items =~= Seq::<TodoEntry>::empty());
        self.next_id = self.next_id + 1;
        items.push(copy);
        proof {
            let ni = entries(items@);
            assert(ni =~= m0.items.push(todo@));
            assert forall|i: int| 0 <= i < ni.len() implies #[trigger] ni[i].id < m0.next_id + 1 by {
                if i < m0.items.len() {
                    assert(ni[i] == m0.items[i]);
                }
            }
            assert forall|i: int, j: int| 0 <= i < j < ni.len() implies #[trigger] ni[i].id < #[trigger] ni[j].id by {
                assert(ni[i] == m0.items[i]);
                if j < m0.items.len() {
                    assert(ni[j] == m0.items[j]);
                }
            }
        }
        self.items = items;
        self.draft = String::new();
        proof {
            let e = TodoEntry { id: m0.next_id, title: trim(title@), done: false };
            assert(self@.items =~= m0.items.push(e));
            assert(self@.draft =~= Seq::<char>::empty());
        }
        Ok(todo)
    }

    /// Add the draft as a todo.
    pub fn add_from_draft(&mut self) -> (r: Result<Todo, String>)
        requires
            old(self)@.next_id < u64::MAX,
        ensures
            (final(self)@, entry_result(r)) == add_spec(old(self)@, old(self)@.draft),
    {
        let draft = self.draft.clone();
        self.add(draft.as_str())
    }

    fn find_index(&self, id: u64) -> (r: Option<usize>)
        ensures
            match r {
                Some(i) => i < self@.items.len() && self@.items[i as int].id == id && self@.has_id(id)
                    && self@.pos(id) == i,
                None => !self@.has_id(id),
            },
    {
        proof {
            use_type_invariant(self);
        }
        let mut i: usize = 0;
        while i < self.items.len()
            invariant
                i <= self.items.len(),
                self@.wf(),
                forall|k: int| 0 <= k < i ==> #[trigger] self@.items[k].id != id,
            decreases self.items.len() - i,
        {
            if self.items[i].id == id {
                proof {
                    assert(self@.items[i as int].id == id);
                    let p = self@.pos(id);
                    assert(self@.items[p].id == id);
                    if p != i {
                        if p < i {
                            assert(self@.items[p].id < self@.items[i as int].id);
                        } else {
                            assert(self@.items[i as int].id < self@.items[p].id);
                        }
                    }
                }
                return Some(i);
            }
            i += 1;
        }
        None
    }

    /// Flip `done` of the todo with `id`.
    pub fn toggle(&mut self, id: u64) -> (r: Result<Todo, String>)
        ensures
            (final(self)@, entry_result(r)) == toggle_spec(old(self)@, id),
    {
        match self.find_index(id) {
            None => Err(not_found_message(id)),
            Some(i) => {
                let ghost m0 = self@;
                let done = !self.items[i].done;
                let title = self.items[i].title.clone();
                let todo = Todo { id, title, done };
                let copy = todo.clone();
                self.set_item(i, copy);
                proof {
                    assert(self@.items =~= m0.items.update(i as int, todo@));
                }
                Ok(todo)
            },
        }
    }

    fn set_item(&mut self, i: usize, todo: Todo)
        requires
            i < old(self)@.items.len(),
            todo.id == old(self)@.items[i as int].id,
        ensures
            final(self)@ == (TodoModel { items: old(self)@.items.update(i as int, todo@), ..old(self)@ }),
    {
        proof {
            use_type_invariant(&*self);
        }
        let ghost m0 = self@;
        let mut items: Vec<Todo> = Vec::new();
        std::mem::swap(&mut items, &mut self.items);
        items.set(i, todo);
        proof {
            let ni = entries(items@);
            assert(ni =~= m0.items.update(i as int, todo@));
            assert forall|k: int| 0 <= k < ni.len() implies #[trigger] ni[k].id < m0.next_id by {
                assert(ni[k].id == m0.items[k].id);
            }
            assert forall|a: int, b: int| 0 <= a < b < ni.len() implies #[trigger] ni[a].id < #[trigger] ni[b].id by {
                assert(ni[a].id == m0.items[a].id);
                assert(ni[b].id == m0.items[b].id);
            }
        }
        self.items = items;
        proof {
            assert(self@.items =~= m0.items.update(i as int, todo@));
        }
    }

    /// Remove the todo with `id` and hand it back.
    pub fn delete(&mut self, id: u64) -> (r: Result<Todo, String>)
        ensures
            (final(self)@, entry_result(r)) == delete_spec(old(self)@, id),
    {
        match self.find_index(id) {
            None => Err(not_found_message(id)),
            Some(i) => {
                let ghost m0 = self@;
                let todo = self.remove_item(i);
                proof {
                    assert(self@.items =~= m0.items.remove(i as int));
                }
                Ok(todo)
            },
        }
    }

    fn remove_item(&mut self, i: usize) -> (r: Todo)
        requires
            i < old(self)@.items.len(),
        ensures
            final(self)@ == (TodoModel { items: old(self)@.items.remove(i as int), ..old(self)@ }),
            r@ == old(self)@.items[i as int],
    {
        proof {
            use_type_invariant(&*self);
        }
        let ghost m0 = self@;
        let mut items: Vec<Todo> = Vec::new();
        std::mem::swap(&mut items, &mut self.items);
        let r = items.remove(i);
        proof {
            let ni = entries(items@);
            assert(ni =~= m0.items.remove(i as int));
            assert forall|k: int| 0 <= k < ni.len() implies #[trigger] ni[k].id < m0.next_id by {
                if k < i {
                    assert(ni[k] == m0.items[k]);
                } else {
                    assert(ni[k] == m0.items[k + 1]);
                }
            }
            assert forall|a: int, b: int| 0 <= a < b < ni.len() implies #[trigger] ni[a].id < #[trigger] ni[b].id by {
                let a0 = if a < i { a } else { a + 1 };
                let b0 = if b < i { b } else { b + 1 };
                assert(ni[a] == m0.items[a0]);
                assert(ni[b] == m0.items[b0]);
            }
        }
        self.items = items;
        proof {
            assert(self@.items =~= m0.items.remove(i as int));
        }
        r
    }

    /// Add `"Scroll demo 1"` .. `"Scroll demo {count}"`.
    pub fn seed_overflow_demo(&mut self, count: usize)
        requires
            old(self)@.next_id + count < u64::MAX,
        ensures
            final(self)@ == (TodoModel {
                next_id: (old(self)@.next_id + count) as u64,
                items: old(self)@.items + demo_entries(old(self)@.next_id, count as nat),
                draft: if count > 0 { Seq::empty() } else { old(self)@.draft },
                ..old(self)@
            }),
    {
        let ghost m0 = self@;
        let mut i: usize = 0;
        while i < count
            invariant
                i <= count,
                m0.next_id + count < u64::MAX,
                self@ == (TodoModel {
                    next_id: (m0.next_id + i) as u64,
                    items: m0.items + demo_entries(m0.next_id, i as nat),
                    draft: if i > 0 { Seq::empty() } else { m0.draft },
                    ..m0
                }),
            decreases count - i,
        {
            let n: u64 = i as u64 + 1;
            let mut title = "Scroll demo ".to_owned();
            let digits = decimal_string(n);
            push_chars(&mut title, &digits);
            proof {
                lemma_demo_title_trimmed(n as nat);
            }
            let ghost before = self@;
            let _ = self.add(title.as_str());
            proof {
                assert(self@.items =~= m0.items + demo_entries(m0.next_id, (i + 1) as nat)) by {
                    assert(before.items =~= m0.items + demo_entries(m0.next_id, i as nat));
                }
            }
            i += 1;
        }
    }

    /// The sample catalog: one focused, one global, one destructive Action.
    pub fn keybinding_catalog() -> (r: Vec<KeybindingInfo>)
        ensures
            Seq::new(r@.len(), |i: int| info_row(r@[i])) == catalog_rows(),
    {
        let mut v: Vec<KeybindingInfo> = Vec::new();
        v.push(KeybindingInfo::new(ids::KEY_FOCUS_INPUT, ids::KEY_FOCUS_INPUT_CHORD, KeybindingScope::Focused, false));
        v.push(KeybindingInfo::new(ids::KEY_GO_SETTINGS, ids::KEY_GO_SETTINGS_CHORD, KeybindingScope::Global, false));
        v.push(KeybindingInfo::new(ids::KEY_QUIT, ids::KEY_QUIT_CHORD, KeybindingScope::Global, true));
        assert(Seq::new(v@.len(), |i: int| info_row(v@[i])) =~= catalog_rows());
        v
    }

    /// The bodies the desktop keymap Action listeners call. Headless hosts
    /// are the handler themselves.
    pub fn perform_keybinding(&mut self, binding: &str) -> (r: Result<TodoReply, String>)
        ensures
            (final(self)@, reply_result(r)) == perform_keybinding_spec(old(self)@, binding@),
    {
        proof {
            use_type_invariant(&*self);
        }
        if str_eq(binding, ids::KEY_FOCUS_INPUT) {
            self.go(Page::Todos);
            Ok(TodoReply::Action { id: ids::KEY_FOCUS_INPUT.to_owned(), scope: KeybindingScope::Focused, dangerous: false })
        } else if str_eq(binding, ids::KEY_GO_SETTINGS) {
            self.go(Page::Settings);
            Ok(TodoReply::Action { id: ids::KEY_GO_SETTINGS.to_owned(), scope: KeybindingScope::Global, dangerous: false })
        } else if str_eq(binding, ids::KEY_QUIT) {
            self.mark_shutdown();
            Ok(TodoReply::Action { id: ids::KEY_QUIT.to_owned(), scope: KeybindingScope::Global, dangerous: true })
        } else {
            Err(quoted("unknown binding `", binding, "`"))
        }
    }

    /// A `keybinding` op on this store.
    pub fn fire_keybinding(&mut self, binding: &str, activate: bool) -> (r: Result<TodoReply, String>)
        ensures
            (final(self)@, reply_result(r)) == fire_keybinding_spec(old(self)@, binding@, activate),
    {
        proof {
            use_type_invariant(&*self);
        }
        if self.platform == PlatformKind::Desktop {
            return Err(keybinding_unavailable(DESKTOP_FIRE_DETAIL));
        }
        if activate {
            self.app_focused = true;
        }
        self.perform_keybinding(binding)
    }

    /// A click on a stable id.
    pub fn click(&mut self, target: &str) -> (r: Result<TodoReply, String>)
        requires
            old(self)@.next_id < u64::MAX,
        ensures
            (final(self)@, reply_result(r)) == click_spec(old(self)@, target@),
    {
        proof {
            use_type_invariant(&*self);
        }
        if str_eq(target, ids::NAV_TOGGLE) {
            self.toggle_sidebar();
            return Ok(TodoReply::SidebarOpen(self.sidebar_open));
        }
        if str_eq(target, ids::NAV_TODOS) {
            self.page = Page::Todos;
            return Ok(TodoReply::Empty);
        }
        if str_eq(target, ids::NAV_SETTINGS) {
            self.page = Page::Settings;
            return Ok(TodoReply::Empty);
        }
        if str_eq(target, ids::SETTINGS_CONFIRM_DELETE) {
            self.confirm_delete = !self.confirm_delete;
            return Ok(TodoReply::ConfirmDelete(self.confirm_delete));
        }
        if str_eq(target, ids::ADD) {
            return item_reply(self.add_from_draft());
        }
        if let Some(id) = parse_numbered_id(ids::TOGGLE_PREFIX, target) {
            return item_reply(self.toggle(id));
        }
        if let Some(id) = parse_numbered_id(ids::DELETE_PREFIX, target) {
            return item_reply(self.delete(id));
        }
        if let Some(id) = parse_numbered_id(ids::ITEM_PREFIX, target) {
            return item_reply(self.toggle(id));
        }
        Err(quoted("cannot click `", target, "`"))
    }

    /// Typing appends to the draft.
    pub fn type_into(&mut self, target: &str, text: &str) -> (r: Result<TodoReply, String>)
        ensures
            (final(self)@, reply_result(r)) == type_into_spec(old(self)@, target@, text@),
    {
        proof {
            use_type_invariant(&*self);
        }
        if !str_eq(target, ids::INPUT) {
            return Err(quoted("`", target, "` is not editable"));
        }
        let mut d = self.draft.clone();
        d.append(text);
        self.draft = d;
        Ok(TodoReply::Value(self.draft.clone()))
    }

    /// Setting a value replaces the draft.
    pub fn set_value(&mut self, target: &str, value: &str) -> (r: Result<TodoReply, String>)
        ensures
            (final(self)@, reply_result(r)) == set_value_spec(old(self)@, target@, value@),
    {
        proof {
            use_type_invariant(&*self);
        }
        if !str_eq(target, ids::INPUT) {
            return Err(quoted("`", target, "` is not editable"));
        }
        self.draft = value.to_owned();
        Ok(TodoReply::Value(self.draft.clone()))
    }

    /// A named key on a stable id.
    pub fn key(&mut self, target: &str, key: &str) -> (r: Result<TodoReply, String>)
        requires
            old(self)@.next_id < u64::MAX,
        ensures
            (final(self)@, reply_result(r)) == key_spec(old(self)@, target@, key@),
    {
        proof {
            use_type_invariant(&*self);
        }
        let enter = str_eq(key, "Enter");
        if enter && (str_eq(target, ids::INPUT) || str_eq(target, ids::ADD)) {
            return item_reply(self.add_from_draft());
        }
        if str_eq(target, ids::INPUT) && str_eq(key, "Backspace") {
            let mut d = chars_of(self.draft.as_str());
            let ghost d0 = d@;
            d.pop();
            assert(d0.len() > 0 ==> d@ =~= d0.drop_last());
            self.draft = string_of(d.as_slice());
            return Ok(TodoReply::Empty);
        }
        let mut msg = quoted("unhandled key `", key, "` on `");
        msg.append(target);
        msg.append("`");
        Err(msg)
    }

    /// A host `invoke` by name, with the `args` fields it reads.
    pub fn invoke(&mut self, name: &str, args: &InvokeArgs) -> (r: Result<TodoReply, String>)
        requires
            old(self)@.next_id < u64::MAX,
        ensures
            (final(self)@, reply_result(r)) == invoke_spec(old(self)@, name@, *args),
    {
        proof {
            use_type_invariant(&*self);
        }
        if str_eq(name, "todo.add") {
            match &args.title {
                Some(t) => item_reply(self.add(t.as_str())),
                None => Err("todo.add requires args.title".to_owned()),
            }
        } else if str_eq(name, "todo.toggle") {
            match args.id {
                Some(id) => item_reply(self.toggle(id)),
                None => Err("expected args.id".to_owned()),
            }
        } else if str_eq(name, "todo.delete") {
            match args.id {
                Some(id) => item_reply(self.delete(id)),
                None => Err("expected args.id".to_owned()),
            }
        } else if str_eq(name, "todo.list") {
            Ok(TodoReply::List(self.items_copy()))
        } else if str_eq(name, "nav.go") {
            match &args.page {
                Some(p) => {
                    if str_eq(p.as_str(), "todos") {
                        self.page = Page::Todos;
                        Ok(TodoReply::Empty)
                    } else if str_eq(p.as_str(), "settings") {
                        self.page = Page::Settings;
                        Ok(TodoReply::Empty)
                    } else {
                        Err(quoted("unknown page `", p.as_str(), "`"))
                    }
                },
                None => Err("nav.go requires args.page".to_owned()),
            }
        } else if str_eq(name, "todo.toggle_sidebar") {
            self.toggle_sidebar();
            Ok(TodoReply::SidebarOpen(self.sidebar_open))
        } else {
            Err(quoted("unknown invoke `", name, "`"))
        }
    }

    fn items_copy(&self) -> (r: Vec<Todo>)
        ensures
            entries(r@) == self@.items,
    {
        let mut out: Vec<Todo> = Vec::new();
        let mut i: usize = 0;
        while i < self.items.len()
            invariant
                i <= self.items.len(),
                entries(out@) == entries(self.items@).subrange(0, i as int),
            decreases self.items.len() - i,
        {
            let c = self.items[i].clone();
            assert(c@ == entries(self.items@)[i as int]);
            let ghost before = out@;
            out.push(c);
            assert(entries(out@) =~= entries(before).push(c@));
            i += 1;
            assert(entries(out@) =~= entries(self.items@).subrange(0, i as int));
        }
        assert(entries(self.items@).subrange(0, i as int) =~= entries(self.items@));
        out
    }

    /// A screenshot on this store: the path is checked and confined under
    /// `base`, then the store reports that it has no pixels.
    pub fn screenshot(&self, path: Option<&str>, base: &str) -> (r: Result<TodoReply, String>)
        ensures
            reply_result(r) == screenshot_spec(
                self@,
                match path {
                    Some(p) => Some(p@),
                    None => None,
                },
                base@,
            ),
    {
        let p = match require_screenshot_path(path) {
            Ok(p) => p,
            Err(e) => return Err(e),
        };
        match confine_screenshot_path_in(p, base) {
            Ok(_) => {},
            Err(e) => return Err(e),
        }
        let detail = match self.platform {
            PlatformKind::Headless => HEADLESS_SHOT_DETAIL,
            PlatformKind::Desktop => DESKTOP_SHOT_DETAIL,
            _ => OTHER_SHOT_DETAIL,
        };
        Err(screenshot_unavailable(detail))
    }

    /// One protocol op on this store. `args` holds the `invoke` fields the
    /// host read from the op's JSON; `screenshot_base` is the directory
    /// screenshots are confined to.
    pub fn dispatch(&mut self, op: &Op, args: &InvokeArgs, screenshot_base: &str) -> (r: Result<TodoReply, String>)
        requires
            old(self)@.next_id < u64::MAX,
        ensures
            (final(self)@, reply_result(r)) == dispatch_spec(old(self)@, *op, *args, screenshot_base@),
    {
        proof {
            use_type_invariant(&*self);
        }
        if op.is_virtual_input() {
            return Err(virtual_unavailable(NO_VIRTUAL_DETAIL));
        }
        match op {
            Op::Click { target, .. } => self.click(target.as_str()),
            Op::Type { target, text, .. } => self.type_into(target.as_str(), text.as_str()),
            Op::SetValue { target, value } => self.set_value(target.as_str(), value.as_str()),
            Op::Key { target, key, .. } => self.key(target.as_str(), key.as_str()),
            Op::Keybinding { binding, activate, .. } => self.fire_keybinding(binding.as_str(), *activate),
            Op::Keybindings => Ok(TodoReply::Keybindings(TodoStore::keybinding_catalog())),
            Op::Invoke { name, .. } => self.invoke(name.as_str(), args),
            Op::Screenshot { path, .. } => {
                let p: Option<&str> = match path {
                    Some(s) => Some(s.as_str()),
                    None => None,
                };
                self.screenshot(p, screenshot_base)
            },
            Op::Shutdown => {
                self.mark_shutdown();
                Ok(TodoReply::Empty)
            },
            _ => Ok(TodoReply::Empty),
        }
    }
}

fn item_reply(r: Result<Todo, String>) -> (out: Result<TodoReply, String>)
    ensures
        reply_result(out) == match entry_result(r) {
            Ok(e) => Ok::<ReplyView, Seq<char>>(ReplyView::Item(e)),
            Err(x) => Err(x),
        },
{
    match r {
        Ok(t) => Ok(TodoReply::Item(t)),
        Err(e) => Err(e),
    }
}

fn quoted(a: &str, b: &str, c: &str) -> (r: String)
    ensures
        r@ == a@ + b@ + c@,
{
    let mut s = a.to_owned();
    s.append(b);
    s.append(c);
    s
}

proof fn lemma_demo_title_trimmed(i: nat)
    requires
        i >= 1,
    ensures
        trim(demo_title(i)) == demo_title(i),
        demo_title(i).len() > 0,
{
    let t = demo_title(i);
    reveal_strlit("Scroll demo ");
    crate::text::lemma_decimal_digits(i);
    assert(t[0] == 'S');
    assert(!is_ws(t[0]));
    assert(trim_start(t) == t);
    let d = decimal(i);
    assert(t.last() == d.last());
    assert(!is_ws(t.last()));
    assert(trim_end(t) == t);
}

impl Default for TodoStore {
    /// A headless store.
    fn default() -> (r: Self)
        ensures
            r@ == (TodoModel {
                next_id: 1,
                items: Seq::empty(),
                draft: Seq::empty(),
                page: Page::Todos,
                confirm_delete: false,
                sidebar_open: true,
                platform: PlatformKind::Headless,
                shutdown: false,
                app_focused: false,
            }),
    {
        TodoStore::new(PlatformKind::Headless)
    }
}

fn not_found_message(id: u64) -> (r: String)
    ensures
        r@ == not_found(id),
{
    let mut s = "todo ".to_owned();
    push_chars(&mut s, &decimal_string(id));
    s.append(" not found");
    s
}

/// Under the invariant an id names at most one todo, so `pos` is that
/// todo's index.
proof fn lemma_pos_unique(m: TodoModel, id: u64, i: int)
    requires
        m.wf(),
        0 <= i < m.items.len(),
        m.items[i].id == id,
    ensures
        m.has_id(id),
        m.pos(id) == i,
{
    assert(m.has_id(id));
    let p = m.pos(id);
    if p < i {
        assert(m.items[p].id < m.items[i].id);
    } else if i < p {
        assert(m.items[i].id < m.items[p].id);
    }
}

/// Adding, toggling and deleting keep the invariant: ids stay below
/// `next_id`, increasing along the list, and so unique.
pub proof fn lemma_item_ops_keep_wf(m: TodoModel, title: Seq<char>, id: u64)
    requires
        m.wf(),
    ensures
        m.next_id < u64::MAX ==> add_spec(m, title).0.wf(),
        toggle_spec(m, id).0.wf(),
        delete_spec(m, id).0.wf(),
{
    if m.has_id(id) {
        let i = m.pos(id);
        let t = toggle_spec(m, id).0;
        assert forall|a: int, b: int| 0 <= a < b < t.items.len() implies #[trigger] t.items[a].id
            < #[trigger] t.items[b].id by {
            assert(t.items[a].id == m.items[a].id);
            assert(t.items[b].id == m.items[b].id);
        }
        assert forall|a: int| 0 <= a < t.items.len() implies #[trigger] t.items[a].id < t.next_id by {
            assert(t.items[a].id == m.items[a].id);
        }
        let d = delete_spec(m, id).0;
        assert forall|a: int, b: int| 0 <= a < b < d.items.len() implies #[trigger] d.items[a].id
            < #[trigger] d.items[b].id by {
            let a0 = if a < i { a } else { a + 1 };
            let b0 = if b < i { b } else { b + 1 };
            assert(d.items[a] == m.items[a0]);
            assert(d.items[b] == m.items[b0]);
        }
        assert forall|a: int| 0 <= a < d.items.len() implies #[trigger] d.items[a].id < d.next_id by {
            let a0 = if a < i { a } else { a + 1 };
            assert(d.items[a] == m.items[a0]);
        }
    }
    if trim(title).len() > 0 && m.next_id < u64::MAX {
        let n = add_spec(m, title).0;
        assert forall|a: int, b: int| 0 <= a < b < n.items.len() implies #[trigger] n.items[a].id
            < #[trigger] n.items[b].id by {
            if b < m.items.len() {
                assert(n.items[a] == m.items[a]);
                assert(n.items[b] == m.items[b]);
            } else {
                assert(n.items[a] == m.items[a]);
            }
        }
        assert forall|a: int| 0 <= a < n.items.len() implies #[trigger] n.items[a].id < n.next_id by {
            if a < m.items.len() {
                assert(n.items[a] == m.items[a]);
            }
        }
    }
}

/// Toggling a todo twice leaves the store as it was.
pub proof fn lemma_toggle_twice(m: TodoModel, id: u64)
    requires
        m.wf(),
    ensures
        toggle_spec(toggle_spec(m, id).0, id).0 == m,
{
    if m.has_id(id) {
        let i = m.pos(id);
        let t = toggle_spec(m, id).0;
        lemma_item_ops_keep_wf(m, Seq::empty(), id);
        assert(t.items[i].id == id);
        lemma_pos_unique(t, id, i);
        let u = toggle_spec(t, id).0;
        assert(u.items =~= m.items);
    }
}

/// Deleting the todo that an add just created leaves the same todos as
/// before the add (the id is not handed out again).
pub proof fn lemma_delete_undoes_add(m: TodoModel, title: Seq<char>)
    requires
        m.wf(),
        m.next_id < u64::MAX,
        trim(title).len() > 0,
    ensures
        add_spec(m, title).1 matches Ok(e) && delete_spec(add_spec(m, title).0, e.id).0.items
            == m.items,
        add_spec(m, title).0.next_id > m.next_id,
{
    let n = add_spec(m, title).0;
    let i = m.items.len() as int;
    lemma_item_ops_keep_wf(m, title, 0);
    assert(n.items[i].id == m.next_id);
    lemma_pos_unique(n, m.next_id, i);
    assert(delete_spec(n, m.next_id).0.items =~= m.items);
}

} // verus!

verus! {

/// What one request does to the ids: `next_id` stays, or the request added
/// exactly one todo, at the end, with id `next_id`, and `next_id` moved on
/// by one.
pub open spec fn ids_step(m: TodoModel, m2: TodoModel) -> bool {
    ||| m2.next_id == m.next_id
    ||| m2.next_id == m.next_id + 1 && exists|e: TodoEntry| e.id == m.next_id && #[trigger] m.items.push(e) == m2.items
}

/// Every request hands out ids one at a time, in order: it either gives out
/// none or adds one todo carrying the next id.
pub proof fn lemma_dispatch_hands_out_ids(m: TodoModel, op: Op, args: InvokeArgs, base: Seq<char>)
    requires
        m.next_id < u64::MAX,
    ensures
        ids_step(m, dispatch_spec(m, op, args, base).0),
{
}


/// The store after the requests `ops` (op and `invoke` fields), in order.
pub open spec fn run_requests(m: TodoModel, ops: Seq<(Op, InvokeArgs)>, base: Seq<char>) -> TodoModel
    decreases ops.len(),
{
    if ops.len() == 0 {
        m
    } else {
        dispatch_spec(run_requests(m, ops.drop_last(), base), ops.last().0, ops.last().1, base).0
    }
}

/// How many of the requests `ops` added a todo.
pub open spec fn adds_in(m: TodoModel, ops: Seq<(Op, InvokeArgs)>, base: Seq<char>) -> nat
    decreases ops.len(),
{
    if ops.len() == 0 {
        0
    } else {
        adds_in(m, ops.drop_last(), base) + if run_requests(m, ops, base).next_id != run_requests(
            m,
            ops.drop_last(),
            base,
        ).next_id {
            1nat
        } else {
            0nat
        }
    }
}

/// Ids are handed out in order: after any requests, `next_id` has moved
/// on once per todo added, and the todo added by a request carries the id
/// one past the number added before it (counting from the store's first
/// `next_id`, 1 for a new store).
pub proof fn lemma_ids_count_adds(m: TodoModel, ops: Seq<(Op, InvokeArgs)>, base: Seq<char>)
    requires
        m.next_id + ops.len() < u64::MAX,
    ensures
        run_requests(m, ops, base).next_id == m.next_id + adds_in(m, ops, base),
        adds_in(m, ops, base) <= ops.len(),
        ops.len() > 0 && run_requests(m, ops, base).next_id != run_requests(m, ops.drop_last(), base).next_id
            ==> exists|e: TodoEntry|
            e.id == m.next_id + adds_in(m, ops.drop_last(), base) && #[trigger] run_requests(
                m,
                ops.drop_last(),
                base,
            ).items.push(e) == run_requests(m, ops, base).items,
    decreases ops.len(),
{
    if ops.len() > 0 {
        lemma_ids_count_adds(m, ops.drop_last(), base);
        let prev = run_requests(m, ops.drop_last(), base);
        lemma_dispatch_hands_out_ids(prev, ops.last().0, ops.last().1, base);
    }
}


/// A new store hands out ids 1, 2, 3, … in order: after any requests,
/// `next_id` is one past the number of todos they added, and a request
/// that adds a todo appends it with id one past the number added before
/// it. (That ids stay strictly increasing whatever the store does is its
/// type invariant, see `TodoStore::check_wf`.)
pub proof fn lemma_new_store_ids(platform: PlatformKind, ops: Seq<(Op, InvokeArgs)>, base: Seq<char>)
    requires
        ops.len() + 1 < u64::MAX,
    ensures
        run_requests(new_store_model(platform), ops, base).next_id == 1 + adds_in(new_store_model(platform), ops, base),
        ops.len() > 0 && run_requests(new_store_model(platform), ops, base).next_id != run_requests(
            new_store_model(platform),
            ops.drop_last(),
            base,
        ).next_id ==> exists|e: TodoEntry|
            e.id == 1 + adds_in(new_store_model(platform), ops.drop_last(), base) && #[trigger] run_requests(
                new_store_model(platform),
                ops.drop_last(),
                base,
            ).items.push(e) == run_requests(new_store_model(platform), ops, base).items,
{
    lemma_ids_count_adds(new_store_model(platform), ops, base);
}


/// Typing into the input appends the text to the draft and answers with
/// the new draft; nothing else about the store changes.
pub proof fn lemma_typing_appends(m: TodoModel, text: Seq<char>)
    ensures
        type_into_spec(m, ids::INPUT@, text).0.draft == m.draft + text,
        type_into_spec(m, ids::INPUT@, text).1 == Ok::<ReplyView, Seq<char>>(ReplyView::Value(m.draft + text)),
        type_into_spec(m, ids::INPUT@, text).0.items == m.items,
        type_into_spec(m, ids::INPUT@, text).0.next_id == m.next_id,
        type_into_spec(m, ids::INPUT@, text).0.page == m.page,
{
}

/// Typing `a` and then `b` into the input leaves the same draft as typing
/// `a` followed by `b` at once, and a request to type into the input does
/// just that (semantic delivery).
pub proof fn lemma_typing_twice(m: TodoModel, a: Seq<char>, b: Seq<char>, target: String, text: String, args: InvokeArgs, base: Seq<char>)
    ensures
        type_into_spec(type_into_spec(m, ids::INPUT@, a).0, ids::INPUT@, b).0.draft == type_into_spec(
            m,
            ids::INPUT@,
            a + b,
        ).0.draft,
        target@ == ids::INPUT@ ==> dispatch_spec(
            m,
            Op::Type { target, text, delivery: DeliveryMode::Semantic },
            args,
            base,
        ).0.draft == m.draft + text@,
{
    assert(m.draft + a + b =~= m.draft + (a + b));
}

} // verus!
