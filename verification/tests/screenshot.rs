use gpui_agent::screenshot::{
    confine_screenshot_path, confine_screenshot_path_in, is_screenshot_unavailable,
    require_screenshot_path, screencapture_window_argv, screenshot_unavailable, written_png_verdict,
    SCREENSHOT_BACKEND_SCREENCAPTURE, TEST_PNG,
};

#[test]
fn prefix_matches() {
    let err = screenshot_unavailable("headless host has no pixel surface");
    assert!(is_screenshot_unavailable(&err));
    assert!(!is_screenshot_unavailable("virtual_unavailable: x"));
    assert!(TEST_PNG.starts_with(b"\x89PNG"));
}

#[test]
fn empty_path_is_a_request_error() {
    assert_eq!(require_screenshot_path(None).unwrap_err(), "screenshot requires path");
    assert_eq!(require_screenshot_path(Some("  ")).unwrap_err(), "screenshot requires path");
    assert!(confine_screenshot_path("", "/tmp/shots").is_err());
}

#[test]
fn screencapture_argv_is_this_window_only() {
    let base = "/tmp/gpui-agent-argv";
    let dest = confine_screenshot_path_in("todo.png", base).unwrap();
    let args = screencapture_window_argv(4242, &dest).unwrap();
    assert_eq!(args[0], "-l4242");
    assert!(args.contains(&"-o".to_string()));
    assert!(args.contains(&"-x".to_string()));
    assert_eq!(args.last().unwrap(), &dest);
    assert!(!args.last().unwrap().starts_with('-'));
    for forbidden in ["-i", "-S", "-w", "-C", "-R", "-W"] {
        assert!(!args.iter().any(|a| a == forbidden));
    }
    assert!(!args.iter().any(|a| a == "-l" || a == "-l0"));
}

#[test]
fn screencapture_refuses_window_id_zero() {
    let err = screencapture_window_argv(0, "/tmp/todo.png").unwrap_err();
    assert!(is_screenshot_unavailable(&err), "{err}");
    assert!(err.contains("CGWindowID"), "{err}");
}

#[test]
fn test_png_is_mock_helper_not_a_live_window_capture() {
    assert!(TEST_PNG.starts_with(b"\x89PNG"));
    assert_eq!(TEST_PNG.len(), 67, "1x1 fixture, not a window grab");
    assert_ne!(SCREENSHOT_BACKEND_SCREENCAPTURE, "test_png");
}

#[test]
fn screenshot_rejects_absolute_path() {
    let err = confine_screenshot_path("/tmp/evil.png", "/tmp/gpui-agent-screenshots").unwrap_err();
    assert!(err.contains("relative"), "absolute paths must be rejected: {err}");
}

#[test]
fn screenshot_rejects_dotdot() {
    let err = confine_screenshot_path_in("../etc/passwd.png", "/tmp/base").unwrap_err();
    assert!(err.contains("..") || err.contains("relative"), "{err}");
}

#[test]
fn screenshot_rejects_non_png_extension() {
    let err = confine_screenshot_path_in("notes.txt", "/tmp/base").unwrap_err();
    assert!(err.contains(".png"), "{err}");
}

#[test]
fn screenshot_relative_png_writes_under_base() {
    let dest = confine_screenshot_path_in("shot.png", "/tmp/base").unwrap();
    assert_eq!(dest, "/tmp/base/shot.png");
    let nested = confine_screenshot_path_in(" ./runs//003-add.png ", "/tmp/base/").unwrap();
    assert_eq!(nested, "/tmp/base/runs/003-add.png");
}

#[test]
fn confinement_refuses_home_and_hidden_names() {
    assert!(confine_screenshot_path_in("~/x.png", "/b").unwrap_err().contains("relative"));
    assert_eq!(
        confine_screenshot_path_in("a/.x.png", "/b").unwrap_err(),
        "screenshot filename must not start with '-' or '.'"
    );
    assert_eq!(
        confine_screenshot_path_in("-x.png", "/b").unwrap_err(),
        "screenshot filename must not start with '-' or '.'"
    );
    assert_eq!(confine_screenshot_path_in(".png", "/b").unwrap_err(), "screenshot path must end with .png");
    assert_eq!(confine_screenshot_path_in("./.", "/b").unwrap_err(), "screenshot requires path");
}

#[test]
fn written_png_is_kept_and_anything_else_refused() {
    assert!(written_png_verdict("shot.png", Ok(TEST_PNG.to_vec())).is_ok());
    let err = written_png_verdict("shot.png", Ok(b"GIF89a".to_vec())).unwrap_err();
    assert_eq!(err, "screenshot_unavailable: screencapture wrote a non-PNG at shot.png; refusing to keep it");
    let err = written_png_verdict("gone.png", Err("No such file".to_owned())).unwrap_err();
    assert_eq!(err, "screenshot_unavailable: screencapture produced no file at gone.png: No such file");
}
