//! The request gate every host applies before dispatching (protocol
//! version, then the session's HMAC answer), and the structured payloads
//! that hosts return from mutating ops.

use vstd::prelude::*;

use vstd::string::StringSliceAdditionalSpecFns;

use crate::hmac_auth::{hex_decode_spec, hmac_sha256_tag, hmac_verify, NONCE_LEN};
use crate::protocol::{error_response, ErrorResponse, Op, Request, ScreenshotMode, PROTOCOL_VERSION};
use crate::scroll_capture::{validate_spec, ScreenshotSpec};
use crate::text::{decimal, decimal_string};

verus! {

#[verifier::external_type_specification]
#[verifier::external_body]
pub struct ExJsonValue(serde_json::Value);

/// `serde_json::Value::clone` (derived): a deep copy, equal to the value.
pub assume_specification[ <serde_json::Value as Clone>::clone ](v: &serde_json::Value) -> (r: serde_json::Value)
    ensures
        r == *v,
;

/// Optional structured payload returned by `invoke` / mutating ops.
#[derive(Debug, Clone)]
pub struct DispatchResult {
    pub value: Option<serde_json::Value>,
}

impl DispatchResult {
    pub fn empty() -> (r: Self)
        ensures
            r.value is None,
    {
        DispatchResult { value: None }
    }

    pub fn json(value: serde_json::Value) -> (r: Self)
        ensures
            r.value == Some(value),
    {
        DispatchResult { value: Some(value) }
    }
}

/// Whether `auth` is the lowercase-hex HMAC of `nonce` under `key`.
pub open spec fn answers(auth: Seq<char>, key: Seq<u8>, nonce: Seq<u8>) -> bool {
    hex_decode_spec(auth) matches Ok(got) && got == hmac_sha256_tag(key, nonce)
}

pub open spec fn opt_chars(o: Option<String>) -> Option<Seq<char>> {
    match o {
        Some(s) => Some(s@),
        None => None,
    }
}

/// The request carries a non-empty raw token.
pub open spec fn raw_token_sent(token: Option<Seq<char>>) -> bool {
    token matches Some(t) && t.len() > 0
}

/// The answer to a request with version `v`, raw token `token` and
/// HMAC answer `auth`, on a host whose token (as bytes) is `key` and whose
/// session nonce is `nonce`.
pub open spec fn authorize_spec(
    v: u32,
    token: Option<Seq<char>>,
    auth: Option<Seq<char>>,
    key: Option<Seq<u8>>,
    nonce: Option<Seq<u8>>,
) -> Result<(), Seq<char>> {
    if v != PROTOCOL_VERSION {
        Err("unsupported protocol version "@ + decimal(v as nat) + " (want 2)"@)
    } else {
        match key {
            None => Ok(()),
            Some(k) => if raw_token_sent(token) {
                Err("token must not be sent on the wire"@)
            } else if !(nonce matches Some(n) && n.len() == NONCE_LEN) {
                Err("automation token required"@)
            } else {
                match auth {
                    None => Err("automation token required"@),
                    Some(a) => if answers(a, k, nonce->0) {
                        Ok(())
                    } else {
                        Err("invalid automation token"@)
                    },
                }
            },
        }
    }
}

/// `resp` is the error response `e` to the request `id`.
pub open spec fn refusal(resp: ErrorResponse, id: Seq<char>, e: Seq<char>) -> bool {
    &&& resp.v == PROTOCOL_VERSION
    &&& resp.id@ == id
    &&& !resp.ok
    &&& resp.error matches Some(x) && x@ == e
}

/// Why a request is refused, if it is.
fn authorize_error(req: &Request, expected_token: Option<&str>, session_nonce: Option<&[u8]>) -> (r:
    Result<(), String>)
    ensures
        match r {
            Ok(()) => authorize_spec(
                req.v,
                opt_chars(req.token),
                opt_chars(req.auth),
                match expected_token {
                    Some(t) => Some(t.spec_bytes()),
                    None => None,
                },
                match session_nonce {
                    Some(n) => Some(n@),
                    None => None,
                },
            ) is Ok,
            Err(e) => authorize_spec(
                req.v,
                opt_chars(req.token),
                opt_chars(req.auth),
                match expected_token {
                    Some(t) => Some(t.spec_bytes()),
                    None => None,
                },
                match session_nonce {
                    Some(n) => Some(n@),
                    None => None,
                },
            ) == Err::<(), Seq<char>>(e@),
        },
{
    if req.v != PROTOCOL_VERSION {
        let d = decimal_string(req.v as u64);
        return Err(crate::text::concat3("unsupported protocol version ", &d, " (want 2)"));
    }
    match expected_token {
        None => Ok(()),
        Some(expected) => {
            let raw_sent = match &req.token {
                Some(t) => !t.as_str().is_empty(),
                None => false,
            };
            if raw_sent {
                return Err("token must not be sent on the wire".to_owned());
            }
            let nonce = match session_nonce {
                Some(n) => {
                    if n.len() == NONCE_LEN {
                        n
                    } else {
                        return Err("automation token required".to_owned());
                    }
                },
                None => return Err("automation token required".to_owned()),
            };
            match &req.auth {
                None => Err("automation token required".to_owned()),
                Some(a) => {
                    if hmac_verify(expected, nonce, a.as_str()) {
                        Ok(())
                    } else {
                        Err("invalid automation token".to_owned())
                    }
                },
            }
        },
    }
}

/// Version and HMAC gate, applied before dispatching any request
/// (including virtual ops that skip the ordinary dispatch). A host with a
/// token refuses a raw token on the wire and wants the HMAC of the
/// session nonce; a host without one takes any current-version request.
/// A refusal is the error response for the request's id.
pub fn authorize_request(req: &Request, expected_token: Option<&str>, session_nonce: Option<&[u8]>) -> (r:
    Result<(), ErrorResponse>)
    ensures
        match authorize_spec(req.v, opt_chars(req.token), opt_chars(req.auth), opt_str_bytes(expected_token), opt_slice(session_nonce)) {
            Ok(()) => r is Ok,
            Err(e) => r matches Err(resp) && refusal(resp, req.id@, e),
        },
{
    match authorize_error(req, expected_token, session_nonce) {
        Ok(()) => Ok(()),
        Err(e) => Err(error_response(req.id.as_str(), e)),
    }
}

/// On a host with a token, a request passes exactly when it
/// is at the current version, carries no raw token, and answers this
/// session's nonce with the HMAC of that token: a request signed with
/// `hmac_hex(token, nonce)` is let through, and nothing else is.
pub proof fn lemma_gate_accepts_exactly_the_answer(
    token: Option<Seq<char>>,
    key: Seq<u8>,
    nonce: Seq<u8>,
    auth: Option<Seq<char>>,
)
    requires
        nonce.len() == NONCE_LEN,
    ensures
        authorize_spec(PROTOCOL_VERSION, token, auth, Some(key), Some(nonce)) is Ok <==> (
        !raw_token_sent(token) && (auth matches Some(a) && answers(a, key, nonce))),
        !raw_token_sent(token) ==> authorize_spec(
            PROTOCOL_VERSION,
            token,
            Some(crate::hmac_auth::hex_of(hmac_sha256_tag(key, nonce))),
            Some(key),
            Some(nonce),
        ) is Ok,
{
    crate::hmac_auth::lemma_hmac_answer_verifies(key, nonce);
}

/// A host without a token lets every current-version request through and
/// refuses every other version.
pub proof fn lemma_open_host_gate(v: u32, token: Option<Seq<char>>, auth: Option<Seq<char>>, nonce: Option<Seq<u8>>)
    ensures
        authorize_spec(v, token, auth, None, nonce) is Ok <==> v == PROTOCOL_VERSION,
{
}


/// Where a host sends a request once it is authorized.
#[derive(Debug, Clone, PartialEq, Eq)]
pub enum Route {
    /// Answer with this error response and handle nothing.
    Refused(ErrorResponse),
    /// Answer with the host's hello.
    Hello,
    /// Poll for readiness for this many milliseconds.
    WaitReady(u64),
    /// Poll the op's assert until it holds or its timeout passes.
    WaitUntil,
    /// Answer with the host's tree.
    Snapshot,
    /// Ask the host for the (already checked) screenshot.
    Screenshot,
    /// Check the op's assert against the host's tree.
    Assert,
    /// Answer with the host's keybinding list.
    Keybindings,
    /// Authorize the keybinding against the host's catalog and focus, then
    /// dispatch it.
    Keybinding,
    /// Hand the op to the host.
    Dispatch,
}

pub open spec fn opt_str_bytes(o: Option<&str>) -> Option<Seq<u8>> {
    match o {
        Some(t) => Some(t.spec_bytes()),
        None => None,
    }
}

pub open spec fn opt_slice(o: Option<&[u8]>) -> Option<Seq<u8>> {
    match o {
        Some(n) => Some(n@),
        None => None,
    }
}

/// The route of an authorized request, by its op.
pub open spec fn op_route(op: Op) -> Result<Route, Seq<char>> {
    match op {
        Op::Hello => Ok(Route::Hello),
        Op::Wait { timeout_ms: None } => Ok(Route::Hello),
        Op::Wait { timeout_ms: Some(ms) } => Ok(Route::WaitReady(ms)),
        Op::WaitUntil { .. } => Ok(Route::WaitUntil),
        Op::Snapshot => Ok(Route::Snapshot),
        Op::Screenshot { mode, target, max_height_px, .. } => match validate_spec(mode, opt_chars(target), max_height_px) {
            Ok(()) => Ok(Route::Screenshot),
            Err(e) => Err(e),
        },
        Op::Assert { .. } => Ok(Route::Assert),
        Op::Keybindings => Ok(Route::Keybindings),
        Op::Keybinding { .. } => Ok(Route::Keybinding),
        _ => Ok(Route::Dispatch),
    }
}

/// Authorization, then the route by op: a refused request and a
/// screenshot request that fails its protocol checks are answered with
/// their error before any host work.
pub fn route_request(req: &Request, expected_token: Option<&str>, session_nonce: Option<&[u8]>) -> (r: Route)
    ensures
        match authorize_spec(
            req.v,
            opt_chars(req.token),
            opt_chars(req.auth),
            opt_str_bytes(expected_token),
            opt_slice(session_nonce),
        ) {
            Err(e) => r matches Route::Refused(x) && refusal(x, req.id@, e),
            Ok(()) => match op_route(req.op) {
                Ok(route) => r == route,
                Err(e) => r matches Route::Refused(x) && refusal(x, req.id@, e),
            },
        },
{
    match authorize_request(req, expected_token, session_nonce) {
        Err(e) => return Route::Refused(e),
        Ok(()) => {},
    }
    match &req.op {
        Op::Hello => Route::Hello,
        Op::Wait { timeout_ms: None } => Route::Hello,
        Op::Wait { timeout_ms: Some(ms) } => Route::WaitReady(*ms),
        Op::WaitUntil { .. } => Route::WaitUntil,
        Op::Snapshot => Route::Snapshot,
        Op::Screenshot { path, mode, target, max_height_px } => {
            let spec = ScreenshotSpec::from_op(path, *mode, target, *max_height_px);
            match spec.validate_request() {
                Ok(()) => Route::Screenshot,
                Err(e) => Route::Refused(error_response(req.id.as_str(), e)),
            }
        },
        Op::Assert { .. } => Route::Assert,
        Op::Keybindings => Route::Keybindings,
        Op::Keybinding { .. } => Route::Keybinding,
        _ => Route::Dispatch,
    }
}

/// What a windowed host does on one turn of its UI loop.
#[derive(Debug, Clone, Copy, PartialEq, Eq, Structural)]
pub enum GuiTurn {
    /// A scrolled screenshot is under way: advance it and take nothing new.
    AdvanceScrolledShot,
    /// A keybinding is being fired: wait for it before taking more.
    AwaitKeybinding,
    /// Take queued requests in order.
    Drain,
}

/// A running scrolled screenshot comes first, then a pending keybinding;
/// otherwise queued requests are taken.
pub fn gui_turn(scrolled_job: bool, pending_keybinding: bool) -> (r: GuiTurn)
    ensures
        scrolled_job ==> r == GuiTurn::AdvanceScrolledShot,
        !scrolled_job && pending_keybinding ==> r == GuiTurn::AwaitKeybinding,
        !scrolled_job && !pending_keybinding ==> r == GuiTurn::Drain,
{
    if scrolled_job {
        GuiTurn::AdvanceScrolledShot
    } else if pending_keybinding {
        GuiTurn::AwaitKeybinding
    } else {
        GuiTurn::Drain
    }
}

/// Where a windowed host sends one queued request.
#[derive(Debug, Clone, Copy, PartialEq, Eq, Structural)]
pub enum GuiRoute {
    /// Fire the keybinding (it may hold the queue until it lands).
    Keybinding,
    /// Start a scrolled screenshot job (the queue waits for it).
    ScrolledShot,
    /// Capture the window as it is.
    WindowShot,
    /// Synthesize the input in the window.
    VirtualInput,
    /// Check the assertion against the tree with painted bounds.
    Assert,
    /// Hand the request to the store's request handler.
    Store,
}

pub open spec fn gui_route_spec(op: Op) -> GuiRoute {
    match op {
        Op::Keybinding { .. } => GuiRoute::Keybinding,
        Op::Screenshot { mode, .. } => if mode == ScreenshotMode::Scrolled {
            GuiRoute::ScrolledShot
        } else {
            GuiRoute::WindowShot
        },
        Op::Assert { .. } => GuiRoute::Assert,
        _ => if op.is_virtual_input_spec() {
            GuiRoute::VirtualInput
        } else {
            GuiRoute::Store
        },
    }
}

/// The route of a queued request in a windowed host: keybindings, then
/// screenshots by mode, virtual input, assertions against the painted tree,
/// and everything else through the store.
pub fn gui_route(op: &Op) -> (r: GuiRoute)
    ensures
        r == gui_route_spec(*op),
{
    match op {
        Op::Keybinding { .. } => GuiRoute::Keybinding,
        Op::Screenshot { mode, .. } => if mode.is_scrolled() {
            GuiRoute::ScrolledShot
        } else {
            GuiRoute::WindowShot
        },
        Op::Assert { .. } => GuiRoute::Assert,
        _ => if op.is_virtual_input() {
            GuiRoute::VirtualInput
        } else {
            GuiRoute::Store
        },
    }
}

/// The host quits once it has answered a `shutdown`.
pub fn quits_after(op: &Op) -> (r: bool)
    ensures
        r == (*op is Shutdown),
{
    match op {
        Op::Shutdown => true,
        _ => false,
    }
}

} // verus!
