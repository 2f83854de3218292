use gpui_agent::protocol::{
    DeliveryMode, HelloAuth, KeybindingScope, Op, Request, ScreenshotMode, PROTOCOL_VERSION,
};

#[test]
fn screenshot_mode_from_str_rejects_overpromises() {
    assert_eq!("scrolled".parse::<ScreenshotMode>().unwrap(), ScreenshotMode::Scrolled);
    for bad in ["full_content", "stitched", "full"] {
        let err = bad.parse::<ScreenshotMode>().unwrap_err();
        assert!(err.contains("viewport or scrolled"), "{err}");
    }
}

#[test]
fn names_parse_folded_and_default_when_empty() {
    assert_eq!(" Viewport ".parse::<ScreenshotMode>().unwrap(), ScreenshotMode::Viewport);
    assert_eq!("".parse::<ScreenshotMode>().unwrap(), ScreenshotMode::Viewport);
    assert_eq!("VIRTUAL".parse::<DeliveryMode>().unwrap(), DeliveryMode::Virtual);
    assert_eq!("".parse::<DeliveryMode>().unwrap(), DeliveryMode::Semantic);
    assert_eq!(
        "hid".parse::<DeliveryMode>().unwrap_err(),
        "unknown delivery `hid` (want semantic or virtual)"
    );
    assert_eq!(ScreenshotMode::Scrolled.as_str(), "scrolled");
    assert_eq!(DeliveryMode::Virtual.as_str(), "virtual");
    assert_eq!(ScreenshotMode::default(), ScreenshotMode::Viewport);
    assert_eq!(DeliveryMode::default(), DeliveryMode::Semantic);
}

#[test]
fn keybinding_scope_names() {
    assert_eq!("focused".parse::<KeybindingScope>().unwrap(), KeybindingScope::Focused);
    assert_eq!("Global".parse::<KeybindingScope>().unwrap(), KeybindingScope::Global);
    assert!("window".parse::<KeybindingScope>().is_err());
    assert_eq!(KeybindingScope::Focused.as_str(), "focused");
}

#[test]
fn click_without_delivery_is_semantic() {
    let op = Op::click("todo-add".to_owned());
    assert_eq!(op.delivery(), DeliveryMode::Semantic);
    assert!(!op.is_virtual_input());
}

#[test]
fn virtual_constructors_mark_virtual_input() {
    let op = Op::click_virtual("todo-add".to_owned());
    assert_eq!(op.delivery(), DeliveryMode::Virtual);
    assert!(op.is_virtual_input());
    assert!(Op::type_text_virtual("t".to_owned(), "x".to_owned()).is_virtual_input());
    assert!(Op::key_virtual("t".to_owned(), "enter".to_owned()).is_virtual_input());
    assert!(!Op::key("t".to_owned(), "enter".to_owned()).is_virtual_input());
    assert_eq!(Op::Hello.delivery(), DeliveryMode::Semantic);
}

#[test]
fn keybinding_op_is_a_keybinding() {
    let op = Op::keybinding("todo.go_settings".to_owned(), KeybindingScope::Global);
    assert!(op.is_keybinding());
    assert!(!op.is_virtual_input());
    match op {
        Op::Keybinding { binding, chord, scope, confirm, activate } => {
            assert_eq!(binding, "todo.go_settings");
            assert_eq!(chord, None);
            assert_eq!(scope, KeybindingScope::Global);
            assert!(!confirm);
            assert!(!activate);
        }
        other => panic!("{other:?}"),
    }
    assert!(!Op::Snapshot.is_keybinding());
}

#[test]
fn screenshot_constructors() {
    match Op::screenshot("a.png".to_owned()) {
        Op::Screenshot { path, mode, target, max_height_px } => {
            assert_eq!(path.as_deref(), Some("a.png"));
            assert_eq!(mode, ScreenshotMode::Viewport);
            assert!(target.is_none());
            assert!(max_height_px.is_none());
        }
        other => panic!("{other:?}"),
    }
    match Op::screenshot_scrolled("b.png".to_owned(), "list".to_owned(), Some(100)) {
        Op::Screenshot { mode, target, max_height_px, .. } => {
            assert_eq!(mode, ScreenshotMode::Scrolled);
            assert_eq!(target.as_deref(), Some("list"));
            assert_eq!(max_height_px, Some(100));
        }
        other => panic!("{other:?}"),
    }
}

#[test]
fn hello_auth_follows_token_configuration() {
    assert_eq!(HelloAuth::from_token_configured(Some("t")), HelloAuth::Required);
    assert_eq!(HelloAuth::from_token_configured(None), HelloAuth::NoToken);
    assert_eq!(HelloAuth::NoToken.as_str(), "none");
    assert_eq!(HelloAuth::Required.as_str(), "required");
}

#[test]
fn request_new_is_current_version_and_unauthenticated() {
    let req = Request::new("7", Op::Hello);
    assert_eq!(req.v, PROTOCOL_VERSION);
    assert_eq!(req.id, "7");
    assert!(req.token.is_none());
    assert!(req.auth.is_none());
    let req = req.with_auth("abc".to_owned());
    assert_eq!(req.auth.as_deref(), Some("abc"));
}
