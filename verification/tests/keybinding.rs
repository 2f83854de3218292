use gpui_agent::keybinding::{authorize_keybinding_op, op_is_confirmed_quit};
use gpui_agent::protocol::Op;
use gpui_agent::dispatch::DispatchResult;
use gpui_agent::keybinding::{
    authorize_keybinding, complete_keybinding_action, intercept_keybinding_action,
    is_keybinding_unavailable, keybinding_unavailable, KeybindingInfo, KeybindingRequest,
};
use gpui_agent::protocol::KeybindingScope;

fn catalog() -> Vec<KeybindingInfo> {
    vec![
        KeybindingInfo::new("todo.focus_input", "cmd-n", KeybindingScope::Focused, false),
        KeybindingInfo::new("todo.go_settings", "cmd-shift-s", KeybindingScope::Global, false),
        KeybindingInfo::new("app.quit", "cmd-q", KeybindingScope::Global, true),
    ]
}

fn fire(
    binding: &str,
    scope: KeybindingScope,
    confirm: bool,
    activate: bool,
    focused: bool,
) -> Result<String, String> {
    let cat = catalog();
    authorize_keybinding(
        &cat,
        KeybindingRequest { binding, chord: None, scope, confirm, activate },
        focused,
    )
    .map(|row| row.id.clone())
}

#[test]
fn focused_without_focus_is_unavailable() {
    let err = fire("todo.focus_input", KeybindingScope::Focused, false, false, false).unwrap_err();
    assert!(is_keybinding_unavailable(&err), "{err}");
    assert!(err.contains("app not focused"), "{err}");
}

#[test]
fn focused_with_activate_is_ok_when_unfocused() {
    assert_eq!(
        fire("todo.focus_input", KeybindingScope::Focused, false, true, false).unwrap(),
        "todo.focus_input"
    );
}

#[test]
fn focused_ok_when_already_focused() {
    assert_eq!(
        fire("todo.focus_input", KeybindingScope::Focused, false, false, true).unwrap(),
        "todo.focus_input"
    );
}

#[test]
fn global_does_not_require_focus() {
    assert_eq!(
        fire("todo.go_settings", KeybindingScope::Global, false, false, false).unwrap(),
        "todo.go_settings"
    );
}

#[test]
fn global_rejects_activate() {
    let err = fire("todo.go_settings", KeybindingScope::Global, false, true, false).unwrap_err();
    assert!(err.contains("activate=true"), "{err}");
    assert!(!is_keybinding_unavailable(&err), "{err}");
}

#[test]
fn scope_mismatch_does_not_promote_to_global() {
    let err = fire("todo.focus_input", KeybindingScope::Global, false, false, true).unwrap_err();
    assert!(err.contains("registered as focused"), "{err}");
    assert!(err.contains("not global"), "{err}");
}

#[test]
fn unknown_binding() {
    let err = fire("nope.action", KeybindingScope::Focused, false, false, true).unwrap_err();
    assert!(err.contains("unknown binding"), "{err}");
}

#[test]
fn quit_requires_confirm_even_with_token_class_auth() {
    let err = fire("app.quit", KeybindingScope::Global, false, false, false).unwrap_err();
    assert!(err.contains("confirm=true"), "{err}");
    assert!(err.contains("app.quit"), "{err}");
    assert!(fire("app.quit", KeybindingScope::Global, true, false, false).is_ok());
}

#[test]
fn catalog_forgetting_dangerous_still_gates_quit() {
    let cat = [KeybindingInfo::new("app.quit", "cmd-q", KeybindingScope::Global, false)];
    let err = authorize_keybinding(
        &cat,
        KeybindingRequest {
            binding: "app.quit",
            chord: None,
            scope: KeybindingScope::Global,
            confirm: false,
            activate: false,
        },
        false,
    )
    .unwrap_err();
    assert!(err.contains("confirm=true"), "{err}");
}

#[test]
fn chord_must_match_when_supplied() {
    let cat = catalog();
    let err = authorize_keybinding(
        &cat,
        KeybindingRequest {
            binding: "todo.go_settings",
            chord: Some("cmd-q"),
            scope: KeybindingScope::Global,
            confirm: false,
            activate: false,
        },
        false,
    )
    .unwrap_err();
    assert!(err.contains("does not match"), "{err}");
    assert!(authorize_keybinding(
        &cat,
        KeybindingRequest {
            binding: "todo.go_settings",
            chord: Some("cmd-shift-s"),
            scope: KeybindingScope::Global,
            confirm: false,
            activate: false,
        },
        false,
    )
    .is_ok());
}

#[test]
fn no_op_action_fails_closed_without_listener_result() {
    let err = complete_keybinding_action(None).unwrap_err();
    assert!(is_keybinding_unavailable(&err), "{err}");
    assert!(err.contains("Action handler did not run"), "{err}");
}

#[test]
fn intercept_no_op_does_not_succeed_via_side_door_slot() {
    let mut mutated = false;
    let err = intercept_keybinding_action(|slot| {
        let _ = slot;
    })
    .unwrap_err();
    assert!(is_keybinding_unavailable(&err), "{err}");
    assert!(!mutated, "no-op Action must not mutate via intercept fallback");

    let mut path = serde_json::Map::new();
    path.insert("path".to_owned(), serde_json::Value::String("gpui.action".to_owned()));
    let ok = intercept_keybinding_action(|slot| {
        mutated = true;
        *slot = Some(Ok(DispatchResult::json(serde_json::Value::Object(path))));
    })
    .unwrap();
    assert!(mutated);
    assert_eq!(
        ok.value.unwrap().get("path").and_then(|v| v.as_str()),
        Some("gpui.action")
    );
}

#[test]
fn chords_compare_after_normalizing() {
    let cat = catalog();
    let ok = authorize_keybinding(
        &cat,
        KeybindingRequest {
            binding: "  todo.go_settings ",
            chord: Some(" Command  Shift S "),
            scope: KeybindingScope::Global,
            confirm: false,
            activate: false,
        },
        false,
    );
    assert_eq!(ok.map(|r| r.id.clone()).as_deref(), Ok("todo.go_settings"));
}

#[test]
fn empty_binding_is_a_request_error() {
    let err = fire("   ", KeybindingScope::Global, true, false, true).unwrap_err();
    assert_eq!(err, "keybinding requires binding (Action id)");
}

#[test]
fn unavailable_prefix_round_trips() {
    let e = keybinding_unavailable("x");
    assert_eq!(e, "keybinding_unavailable: x");
    assert!(is_keybinding_unavailable(&e));
    assert!(is_keybinding_unavailable("keybinding_unavailable"));
    assert!(!is_keybinding_unavailable("keybinding_unavailable_x"));
}

#[test]
fn list_uses_binding_is_dangerous_not_stored_flag() {
    let cat = [KeybindingInfo::new("app.quit", "cmd-q", KeybindingScope::Global, false)];
    let rows = gpui_agent::keybinding::keybinding_list(&cat);
    assert!(rows[0].dangerous);
    assert_eq!(rows[0].id, "app.quit");
    let rows = gpui_agent::keybinding::keybinding_list(&catalog());
    assert_eq!(rows[2].id, "app.quit");
    assert!(rows[2].dangerous);
    assert_eq!(rows[0].scope, KeybindingScope::Focused);
    assert!(!rows[1].dangerous);
}

#[test]
fn confirmed_quit_op_is_recognised() {
    let quit = |confirm| Op::Keybinding {
        binding: " App.Quit ".to_owned(),
        chord: None,
        scope: KeybindingScope::Global,
        confirm,
        activate: false,
    };
    assert!(op_is_confirmed_quit(&quit(true)));
    assert!(!op_is_confirmed_quit(&quit(false)));
    assert!(!op_is_confirmed_quit(&Op::Shutdown));
}

#[test]
fn authorize_op_reads_the_keybinding_fields() {
    let cat = catalog();
    let op = Op::keybinding("todo.go_settings".to_owned(), KeybindingScope::Global);
    assert_eq!(authorize_keybinding_op(&op, &cat, false).unwrap().id, "todo.go_settings");
    assert_eq!(authorize_keybinding_op(&Op::Hello, &cat, true).unwrap_err(), "not a keybinding fire op");
}
