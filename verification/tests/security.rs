use gpui_agent::security::is_truthy;
use gpui_agent::security::{
    from_parts, resolve_token, tokens_match, AddrInput, EnvInputs, ResolvedToken, SecurityError, TokenPolicy,
};

#[test]
fn tokens_match_compares_full_secret() {
    assert!(tokens_match("secret", "secret"));
    assert!(!tokens_match("secret", "secreT"));
    assert!(!tokens_match("secret", "secret!"));
    assert!(!tokens_match("", "x"));
    assert!(tokens_match("", ""));
}

#[test]
fn tokens_match_is_exact_on_unicode() {
    assert!(tokens_match("pässword", "pässword"));
    assert!(!tokens_match("pässword", "password"));
    assert!(!tokens_match("secret", "secre"));
}

#[test]
fn resolved_token_debug_redacts() {
    let rendered = ResolvedToken::Ephemeral("super-secret-token".into()).redacted();
    assert_eq!(rendered, "Ephemeral(<redacted>)");
    assert!(!rendered.contains("super-secret-token"));
    assert_eq!(ResolvedToken::Provided("x".into()).redacted(), "Provided(<redacted>)");
    assert_eq!(ResolvedToken::Open.redacted(), "Open");
}

#[test]
fn resolve_token_mints_64_hex_when_unset() {
    let a = resolve_token(None, false).unwrap();
    let b = resolve_token(None, false).unwrap();
    match (&a, &b) {
        (ResolvedToken::Ephemeral(left), ResolvedToken::Ephemeral(right)) => {
            assert_eq!(left.len(), 64);
            assert_eq!(right.len(), 64);
            assert!(left.chars().all(|c| c.is_ascii_hexdigit() && !c.is_ascii_uppercase()));
            assert_ne!(left, right, "two mints must not collide");
        }
        (x, y) => panic!("expected two ephemeral tokens, got {} and {}", x.redacted(), y.redacted()),
    }
    assert_eq!(a.policy(), TokenPolicy::Ephemeral);
}

#[test]
fn resolve_token_allow_empty_is_open() {
    let open = resolve_token(None, true).unwrap();
    assert!(open == ResolvedToken::Open);
    assert_eq!(open.token(), None);
    assert_eq!(open.policy(), TokenPolicy::Open);
}

#[test]
fn resolve_token_env_wins_over_allow_empty() {
    let got = resolve_token(Some("from-env"), true).unwrap();
    assert!(got == ResolvedToken::Provided("from-env".into()));
    assert_eq!(got.policy(), TokenPolicy::Env);
}

#[test]
fn resolve_token_empty_string_mints_not_open() {
    let got = resolve_token(Some(""), false).unwrap();
    assert!(matches!(got, ResolvedToken::Ephemeral(_)), "{}", got.redacted());
}

#[test]
fn resolved_token_accessors() {
    let t = ResolvedToken::Provided("shared".into());
    assert_eq!(t.token(), Some("shared"));
    assert_eq!(t.clone().into_token().as_deref(), Some("shared"));
    assert_eq!(ResolvedToken::Open.into_token(), None);
}

#[test]
fn switch_values_read_as_on_or_off() {
    for on in ["1", "true", " YES ", "On"] {
        assert!(is_truthy(Some(on)), "{on}");
    }
    for off in ["0", "", "no", "enabled"] {
        assert!(!is_truthy(Some(off)), "{off}");
    }
    assert!(!is_truthy(None));
}

fn inputs(enabled: bool, allow_release: bool, debug_assertions: bool) -> EnvInputs {
    EnvInputs { enabled, allow_release, addr: None, token: None, allow_empty_token: false, debug_assertions }
}

#[test]
fn from_parts_disabled_without_gpui_agent() {
    let cfg = from_parts(inputs(false, false, true)).unwrap();
    assert!(cfg.is_none());
}

#[test]
fn from_parts_release_blocked() {
    let mut i = inputs(true, false, false);
    i.token = Some("x".into());
    let err = from_parts(i).err().unwrap();
    assert!(matches!(err, SecurityError::ReleaseBlocked));
}

#[test]
fn from_parts_mints_when_token_unset() {
    let cfg = from_parts(inputs(true, false, true)).ok().unwrap().expect("enabled");
    assert_eq!(cfg.token.policy(), TokenPolicy::Ephemeral);
    assert_eq!(cfg.token.into_token().as_ref().map(String::len), Some(64));
}

#[test]
fn from_parts_open_when_allow_empty() {
    let mut i = inputs(true, false, true);
    i.allow_empty_token = true;
    let cfg = from_parts(i).ok().unwrap().expect("enabled");
    assert_eq!(cfg.token.policy(), TokenPolicy::Open);
    assert_eq!(cfg.token.into_token(), None);
}

#[test]
fn from_parts_uses_provided_token() {
    let mut i = inputs(true, true, false);
    i.addr = Some(AddrInput { raw: "127.0.0.1:9".into(), parsed: Some(("127.0.0.1:9".into(), true)) });
    i.token = Some("shared".into());
    i.allow_empty_token = true;
    let cfg = from_parts(i).ok().unwrap().expect("enabled");
    assert_eq!(cfg.addr.as_deref(), Some("127.0.0.1:9"));
    assert_eq!(cfg.token.policy(), TokenPolicy::Env);
    assert_eq!(cfg.token.into_token().as_deref(), Some("shared"));
}

#[test]
fn from_parts_refuses_bad_and_public_addresses() {
    let mut bad = inputs(true, false, true);
    bad.addr = Some(AddrInput { raw: "not-an-addr".into(), parsed: None });
    match from_parts(bad) {
        Err(SecurityError::BadAddr(raw)) => assert_eq!(raw, "not-an-addr"),
        _ => panic!("bad address accepted"),
    }
    let mut public = inputs(true, false, true);
    public.addr = Some(AddrInput { raw: "1.2.3.4:9".into(), parsed: Some(("1.2.3.4:9".into(), false)) });
    match from_parts(public) {
        Err(e) => assert_eq!(e.message(), "automation must bind a loopback address, got 1.2.3.4:9"),
        _ => panic!("public address accepted"),
    }
}
