use gpui_agent::virtual_input::{
    keystroke_token, text_keystrokes, virtual_unavailable, VIRTUAL_UNAVAILABLE,
};

#[test]
fn key_tokens() {
    assert_eq!(keystroke_token("Enter").unwrap(), "enter");
    assert_eq!(keystroke_token("Backspace").unwrap(), "backspace");
    assert_eq!(keystroke_token("a").unwrap(), "a");
    assert!(keystroke_token("F13").unwrap_err().starts_with(VIRTUAL_UNAVAILABLE));
    let cmd_q = keystroke_token("cmd-q").unwrap_err();
    assert!(cmd_q.starts_with(VIRTUAL_UNAVAILABLE), "{cmd_q}");
    assert!(cmd_q.contains("modifiers"), "{cmd_q}");
    assert!(cmd_q.contains("keybinding"), "{cmd_q}");
    assert!(keystroke_token("cmd-q").is_err());
    assert!(keystroke_token("ctrl-c").unwrap_err().contains("modifiers"));
}

#[test]
fn type_tokens() {
    assert_eq!(text_keystrokes("Hi ").unwrap(), ["H", "i", "space"]);
}

#[test]
fn key_aliases_and_empty() {
    assert_eq!(keystroke_token(" return ").unwrap(), "enter");
    assert_eq!(keystroke_token("Esc").unwrap(), "escape");
    assert_eq!(keystroke_token("DEL").unwrap(), "delete");
    assert_eq!(keystroke_token("Q").unwrap(), "q");
    assert_eq!(keystroke_token("").unwrap_err(), virtual_unavailable("empty key"));
}

#[test]
fn text_with_non_ascii_is_unavailable() {
    let err = text_keystrokes("hé").unwrap_err();
    assert!(err.starts_with(VIRTUAL_UNAVAILABLE), "{err}");
    assert_eq!(err, "virtual_unavailable: virtual type is ASCII-only in this slice (got 'é')");
    assert_eq!(text_keystrokes("").unwrap(), Vec::<String>::new());
    assert_eq!(text_keystrokes("a\n\t").unwrap(), ["a", "enter", "tab"]);
}
