use gpui_agent::dispatch::{authorize_request, route_request, Route};
use gpui_agent::hmac_auth::{
    challenge_for_nonce, challenge_nonce, hex_decode, hex_encode, hmac_hex, hmac_verify, NONCE_LEN,
};
use gpui_agent::protocol::{Op, Request, PROTOCOL_VERSION};

#[test]
fn rejects_wrong_version() {
    let mut req = Request::new("1", Op::Hello);
    req.v = 99;
    let resp = match route_request(&req, None, None) {
        Route::Refused(resp) => resp,
        other => panic!("{other:?}"),
    };
    assert!(!resp.ok);
    assert_eq!(resp.id, "1");
    assert_eq!(resp.v, PROTOCOL_VERSION);
    assert!(resp.error.clone().unwrap().contains("unsupported protocol"));
    assert_eq!(resp.error.unwrap(), "unsupported protocol version 99 (want 2)");
}

#[test]
fn authorize_rejects_virtual_wrong_version() {
    let mut req = Request::new("1", Op::click_virtual("todo-add".to_owned()));
    req.v = 99;
    let err = authorize_request(&req, None, None).unwrap_err();
    assert!(!err.ok);
    assert!(err.error.unwrap().contains("unsupported protocol"));
}

#[test]
fn rejects_missing_token() {
    let nonce = [0x11u8; 32];
    let req = Request::new("1", Op::Hello);
    let resp = match route_request(&req, Some("secret"), Some(&nonce)) {
        Route::Refused(resp) => resp,
        other => panic!("{other:?}"),
    };
    assert!(!resp.ok);
    assert_eq!(resp.error.as_deref(), Some("automation token required"));
}

#[test]
fn accepts_matching_token() {
    let nonce = [0x11u8; 32];
    let auth = hmac_hex("secret", &nonce).unwrap();
    let req = Request::new("1", Op::Hello).with_auth(auth);
    assert!(authorize_request(&req, Some("secret"), Some(&nonce)).is_ok());
}

#[test]
fn open_host_accepts_any_current_request() {
    let req = Request::new("1", Op::Hello).with_auth("garbage".to_owned());
    assert!(authorize_request(&req, None, None).is_ok());
}

#[test]
fn v2_raw_token_on_wire_is_rejected() {
    let req = Request::new("1", Op::Hello).with_token("secret".to_owned());
    assert_eq!(req.v, PROTOCOL_VERSION, "this red must not be a version mismatch");
    let nonce = [0x11u8; 32];
    let err = authorize_request(&req, Some("secret"), Some(&nonce)).unwrap_err();
    let msg = err.error.as_deref().unwrap_or("");
    assert!(msg.contains("token must not be sent on the wire"), "{err:?}");
    assert!(!msg.contains("unsupported protocol version"), "{msg}");
}

#[test]
fn v2_challenge_hmac_accepts_matching_token() {
    let nonce = [0x22u8; 32];
    let auth = hmac_hex("secret", &nonce).unwrap();
    let req = Request::new("1", Op::Hello).with_auth(auth);
    assert!(authorize_request(&req, Some("secret"), Some(&nonce)).is_ok());
}

#[test]
fn v2_hmac_from_wrong_nonce_is_rejected() {
    let nonce = [0x22u8; 32];
    let other = [0x33u8; 32];
    let auth = hmac_hex("secret", &other).unwrap();
    let req = Request::new("1", Op::Hello).with_auth(auth);
    let err = authorize_request(&req, Some("secret"), Some(&nonce)).unwrap_err();
    assert!(err.error.as_deref().unwrap_or("").contains("invalid automation token"), "{err:?}");
}

#[test]
fn short_nonce_counts_as_no_session() {
    let nonce = [0x22u8; 16];
    let auth = hmac_hex("secret", &nonce).unwrap();
    let req = Request::new("1", Op::Hello).with_auth(auth);
    assert_eq!(
        authorize_request(&req, Some("secret"), Some(&nonce)).unwrap_err().error.as_deref(),
        Some("automation token required")
    );
}

#[test]
fn hmac_matches_the_published_vector() {
    let tag = hmac_hex("key", b"The quick brown fox jumps over the lazy dog").unwrap();
    assert_eq!(tag, "f7bc83f430538424b13298e6aa6fb143ef4d59a14946175997479dbc2d1a3cd8");
    assert!(hmac_verify("key", b"The quick brown fox jumps over the lazy dog", &tag.to_uppercase()));
    assert!(!hmac_verify("kez", b"The quick brown fox jumps over the lazy dog", &tag));
}

#[test]
fn hex_round_trips_and_rejects_bad_input() {
    let bytes = [0u8, 1, 0x7f, 0x80, 0xff];
    let hex = hex_encode(&bytes);
    assert_eq!(hex, "00017f80ff");
    assert_eq!(hex_decode(&hex).unwrap(), bytes);
    assert_eq!(hex_decode(" 0A ").unwrap(), vec![10]);
    assert_eq!(hex_decode("abc").unwrap_err(), "hex length must be even");
    assert_eq!(hex_decode("zz").unwrap_err(), "invalid hex");
}

#[test]
fn challenge_round_trips_its_nonce() {
    let nonce = [0x5au8; NONCE_LEN];
    let c = challenge_for_nonce(&nonce);
    assert_eq!(c.v, PROTOCOL_VERSION);
    assert_eq!(c.op, "challenge");
    assert_eq!(challenge_nonce(&c).unwrap(), nonce);
    let mut bad = c.clone();
    bad.op = "hello".to_owned();
    assert_eq!(challenge_nonce(&bad).unwrap_err(), "expected op=challenge, got hello");
    let mut short = c.clone();
    short.nonce = "abcd".to_owned();
    assert_eq!(challenge_nonce(&short).unwrap_err(), "challenge nonce must be 32 bytes");
}
