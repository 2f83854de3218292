//! Host token policy: where the shared secret comes from, and how a
//! presented token is compared with it.

use vstd::prelude::*;

use vstd::string::StringSliceAdditionalSpecFns;

use crate::hmac_auth::{hex_encode, hex_of};

verus! {

/// Why automation refuses to start.
#[derive(Debug, Clone, PartialEq, Eq)]
pub enum SecurityError {
    /// `GPUI_AGENT` is not set to a truthy value.
    Disabled,
    /// Release build without `GPUI_AGENT_ALLOW_RELEASE=1`.
    ReleaseBlocked,
    /// The listen address (as written) is not loopback.
    NonLoopback(String),
    /// `GPUI_AGENT_ADDR` did not parse.
    BadAddr(String),
    /// OS entropy was unavailable while minting an ephemeral token.
    Entropy,
}

pub open spec fn security_text(e: SecurityError) -> Seq<char> {
    match e {
        SecurityError::Disabled => "automation is disabled (set GPUI_AGENT=1 to opt in)"@,
        SecurityError::ReleaseBlocked => "refusing to enable automation in a release build without GPUI_AGENT_ALLOW_RELEASE=1"@,
        SecurityError::NonLoopback(a) => "automation must bind a loopback address, got "@ + a@,
        SecurityError::BadAddr(a) => "invalid GPUI_AGENT_ADDR: "@ + a@,
        SecurityError::Entropy => "could not read OS entropy to mint an ephemeral token"@,
    }
}

impl SecurityError {
    /// The error's message.
    pub fn message(&self) -> (r: String)
        ensures
            r@ == security_text(*self),
    {
        match self {
            SecurityError::Disabled => "automation is disabled (set GPUI_AGENT=1 to opt in)".to_owned(),
            SecurityError::ReleaseBlocked => "refusing to enable automation in a release build without GPUI_AGENT_ALLOW_RELEASE=1".to_owned(),
            SecurityError::NonLoopback(a) => {
                let mut m = "automation must bind a loopback address, got ".to_owned();
                m.append(a.as_str());
                m
            },
            SecurityError::BadAddr(a) => {
                let mut m = "invalid GPUI_AGENT_ADDR: ".to_owned();
                m.append(a.as_str());
                m
            },
            SecurityError::Entropy => "could not read OS entropy to mint an ephemeral token".to_owned(),
        }
    }
}

/// How the host chose its shared secret.
#[derive(Debug, Clone, Copy, PartialEq, Eq, Structural)]
pub enum TokenPolicy {
    /// Non-empty `GPUI_AGENT_TOKEN` from the environment.
    Env,
    /// Minted because the env token was unset and empty-token was not allowed.
    Ephemeral,
    /// Explicit lab opt-out: `GPUI_AGENT_ALLOW_EMPTY_TOKEN=1`.
    Open,
}

/// Result of [`resolve_token`]: a secret, or an explicitly open socket.
#[derive(Clone, PartialEq, Eq)]
pub enum ResolvedToken {
    Provided(String),
    Ephemeral(String),
    Open,
}

impl ResolvedToken {
    pub fn token(&self) -> (r: Option<&str>)
        ensures
            match self {
                ResolvedToken::Provided(t) => r matches Some(s) && s@ == t@,
                ResolvedToken::Ephemeral(t) => r matches Some(s) && s@ == t@,
                ResolvedToken::Open => r is None,
            },
    {
        match self {
            ResolvedToken::Provided(t) => Some(t.as_str()),
            ResolvedToken::Ephemeral(t) => Some(t.as_str()),
            ResolvedToken::Open => None,
        }
    }

    pub fn policy(&self) -> (r: TokenPolicy)
        ensures
            r == (match self {
                ResolvedToken::Provided(_) => TokenPolicy::Env,
                ResolvedToken::Ephemeral(_) => TokenPolicy::Ephemeral,
                ResolvedToken::Open => TokenPolicy::Open,
            }),
    {
        match self {
            ResolvedToken::Provided(_) => TokenPolicy::Env,
            ResolvedToken::Ephemeral(_) => TokenPolicy::Ephemeral,
            ResolvedToken::Open => TokenPolicy::Open,
        }
    }

    /// What a log may show of this token: the variant, never the secret
    /// (`Provided(<redacted>)`, `Ephemeral(<redacted>)`, `Open`).
    pub fn redacted(&self) -> (r: &'static str)
        ensures
            r@ == (match self {
                ResolvedToken::Provided(_) => "Provided(<redacted>)"@,
                ResolvedToken::Ephemeral(_) => "Ephemeral(<redacted>)"@,
                ResolvedToken::Open => "Open"@,
            }),
    {
        match self {
            ResolvedToken::Provided(_) => "Provided(<redacted>)",
            ResolvedToken::Ephemeral(_) => "Ephemeral(<redacted>)",
            ResolvedToken::Open => "Open",
        }
    }

    pub fn into_token(self) -> (r: Option<String>)
        ensures
            match self {
                ResolvedToken::Provided(t) => r == Some(t),
                ResolvedToken::Ephemeral(t) => r == Some(t),
                ResolvedToken::Open => r is None,
            },
    {
        match self {
            ResolvedToken::Provided(t) => Some(t),
            ResolvedToken::Ephemeral(t) => Some(t),
            ResolvedToken::Open => None,
        }
    }
}

#[verifier::external_type_specification]
#[verifier::external_body]
pub struct ExRandomError(getrandom::Error);

/// `getrandom::getrandom` into a 32-byte buffer. The bytes come from the
/// OS; nothing is stated about their values.
#[verifier::external_body]
fn os_random_32() -> (r: Result<[u8; 32], getrandom::Error>) {
    let mut bytes = [0u8; 32];
    match getrandom::getrandom(&mut bytes) {
        Ok(()) => Ok(bytes),
        Err(err) => Err(err),
    }
}

/// A fresh 32-byte secret as 64 lowercase hex digits.
fn mint_ephemeral_token() -> (r: Result<String, SecurityError>)
    ensures
        match r {
            Ok(t) => exists|b: Seq<u8>| b.len() == 32 && t@ == hex_of(b),
            Err(e) => e == SecurityError::Entropy,
        },
{
    match os_random_32() {
        Ok(bytes) => {
            let t = hex_encode(vstd::array::array_as_slice(&bytes));
            assert(bytes@.len() == 32);
            Ok(t)
        },
        Err(_) => Err(SecurityError::Entropy),
    }
}

/// Pick a host token from environment-shaped inputs: a non-empty provided
/// token wins (even over `allow_empty`); otherwise `allow_empty` opens the
/// socket; otherwise a 32-byte hex secret is minted. An empty provided
/// token counts as unset.
pub fn resolve_token(token_env: Option<&str>, allow_empty: bool) -> (r: Result<
    ResolvedToken,
    SecurityError,
>)
    ensures
        match token_env {
            Some(t) if t@.len() > 0 => r matches Ok(ResolvedToken::Provided(p)) && p@ == t@,
            _ => if allow_empty {
                r == Ok::<ResolvedToken, SecurityError>(ResolvedToken::Open)
            } else {
                match r {
                    Ok(ResolvedToken::Ephemeral(m)) => exists|b: Seq<u8>|
                        b.len() == 32 && m@ == hex_of(b),
                    Ok(_) => false,
                    Err(e) => e == SecurityError::Entropy,
                }
            },
        },
{
    match token_env {
        Some(t) => {
            if !t.is_empty() {
                let owned = t.to_owned();
                assert(owned@ == t@);
                Ok(ResolvedToken::Provided(owned))
            } else {
                open_or_mint(allow_empty)
            }
        },
        None => open_or_mint(allow_empty),
    }
}

/// The token when none was provided: open if allowed, else minted.
fn open_or_mint(allow_empty: bool) -> (r: Result<ResolvedToken, SecurityError>)
    ensures
        if allow_empty {
            r == Ok::<ResolvedToken, SecurityError>(ResolvedToken::Open)
        } else {
            match r {
                Ok(ResolvedToken::Ephemeral(m)) => exists|b: Seq<u8>|
                    b.len() == 32 && m@ == hex_of(b),
                Ok(_) => false,
                Err(e) => e == SecurityError::Entropy,
            }
        },
{
    if allow_empty {
        Ok(ResolvedToken::Open)
    } else {
        match mint_ephemeral_token() {
            Ok(m) => Ok(ResolvedToken::Ephemeral(m)),
            Err(e) => Err(e),
        }
    }
}

/// Constant-time-style comparison of two byte strings: every position up
/// to the longer length is visited.
fn tokens_match_bytes(got: &[u8], expected: &[u8]) -> (r: bool)
    ensures
        r == (got@ == expected@),
{
    let len: usize = if got.len() > expected.len() { got.len() } else { expected.len() };
    let gl: usize = got.len();
    let el: usize = expected.len();
    let mut acc: usize = gl ^ el;
    assert(((gl ^ el) == 0) == (gl == el)) by (bit_vector);
    let mut i: usize = 0;
    while i < len
        invariant
            len == (if got@.len() > expected@.len() { got@.len() } else { expected@.len() }),
            i <= len,
            (acc == 0) == (got@.len() == expected@.len() && forall|k: int|
                0 <= k < i ==> got@[k] == expected@[k]),
        decreases len - i,
    {
        let a: u8 = if i < got.len() { got[i] } else { 0 };
        let b: u8 = if i < expected.len() { expected[i] } else { 0 };
        let x: u8 = a ^ b;
        assert((x == 0) == (a == b)) by (bit_vector)
            requires
                x == a ^ b,
        ;
        let prev = acc;
        acc = acc | (x as usize);
        assert((acc == 0) == (prev == 0 && x == 0)) by (bit_vector)
            requires
                acc == prev | (x as usize),
        ;
        i += 1;
    }
    if acc == 0 {
        assert(got@ =~= expected@);
    }
    acc == 0
}

proof fn lemma_encode_injective(a: Seq<char>, b: Seq<char>)
    requires
        vstd::utf8::encode_utf8(a) == vstd::utf8::encode_utf8(b),
    ensures
        a == b,
{
    vstd::utf8::encode_utf8_decode_utf8(a);
    vstd::utf8::encode_utf8_decode_utf8(b);
}

/// What [`resolve_token`] gives for an environment token `token` (as
/// characters) and the empty-token switch.
pub open spec fn resolved_ok(token: Option<Seq<char>>, allow_empty: bool, r: Result<ResolvedToken, SecurityError>) -> bool {
    if token matches Some(t) && t.len() > 0 {
        r matches Ok(ResolvedToken::Provided(p)) && Some(p@) == token
    } else if allow_empty {
        r == Ok::<ResolvedToken, SecurityError>(ResolvedToken::Open)
    } else {
        match r {
            Ok(ResolvedToken::Ephemeral(m)) => exists|b: Seq<u8>| b.len() == 32 && m@ == hex_of(b),
            Ok(_) => false,
            Err(e) => e == SecurityError::Entropy,
        }
    }
}

pub open spec fn opt_chars(o: Option<String>) -> Option<Seq<char>> {
    match o {
        Some(s) => Some(s@),
        None => None,
    }
}

/// A bind address from the environment: the text as written and, when it
/// parses as a socket address, its canonical text and whether it is a
/// loopback address.
#[derive(Debug, Clone)]
pub struct AddrInput {
    pub raw: String,
    pub parsed: Option<(String, bool)>,
}

/// The automation switches of the host's environment, as plain values.
#[derive(Debug, Clone)]
pub struct EnvInputs {
    pub enabled: bool,
    pub allow_release: bool,
    pub addr: Option<AddrInput>,
    pub token: Option<String>,
    pub allow_empty_token: bool,
    pub debug_assertions: bool,
}

/// The host configuration the environment asks for: the canonical bind
/// address (`None` for the default loopback address) and the token.
pub struct HostConfig {
    pub addr: Option<String>,
    pub token: ResolvedToken,
}

/// Decide the host configuration: off unless enabled; a release build
/// needs the release switch; the address must parse and be loopback; then
/// the token is resolved. The first refusal is the error.
pub fn from_parts(inputs: EnvInputs) -> (r: Result<Option<HostConfig>, SecurityError>)
    ensures
        !inputs.enabled ==> r matches Ok(None),
        inputs.enabled && !inputs.debug_assertions && !inputs.allow_release ==> r == Err::<
            Option<HostConfig>,
            SecurityError,
        >(SecurityError::ReleaseBlocked),
        inputs.enabled && (inputs.debug_assertions || inputs.allow_release) ==> match inputs.addr {
            Some(a) => match a.parsed {
                None => r matches Err(SecurityError::BadAddr(x)) && x@ == a.raw@,
                Some((text, false)) => r matches Err(SecurityError::NonLoopback(x)) && x@ == text@,
                Some((text, true)) => match r {
                    Ok(Some(c)) => c.addr == Some(text) && resolved_ok(opt_chars(inputs.token), inputs.allow_empty_token, Ok(c.token)),
                    Ok(None) => false,
                    Err(e) => resolved_ok(opt_chars(inputs.token), inputs.allow_empty_token, Err(e)),
                },
            },
            None => match r {
                Ok(Some(c)) => c.addr is None && resolved_ok(opt_chars(inputs.token), inputs.allow_empty_token, Ok(c.token)),
                Ok(None) => false,
                Err(e) => resolved_ok(opt_chars(inputs.token), inputs.allow_empty_token, Err(e)),
            },
        },
{
    if !inputs.enabled {
        return Ok(None);
    }
    if !inputs.debug_assertions && !inputs.allow_release {
        return Err(SecurityError::ReleaseBlocked);
    }
    let addr = match inputs.addr {
        Some(a) => match a.parsed {
            None => return Err(SecurityError::BadAddr(a.raw)),
            Some((text, loopback)) => {
                if !loopback {
                    return Err(SecurityError::NonLoopback(text));
                }
                Some(text)
            },
        },
        None => None,
    };
    let token = match &inputs.token {
        Some(t) => resolve_token(Some(t.as_str()), inputs.allow_empty_token),
        None => resolve_token(None, inputs.allow_empty_token),
    };
    match token {
        Ok(token) => Ok(Some(HostConfig { addr, token })),
        Err(e) => Err(e),
    }
}

/// Compare a presented token with the host secret, visiting every byte up
/// to the longer length.
pub fn tokens_match(got: &str, expected: &str) -> (r: bool)
    ensures
        r == (got@ == expected@),
{
    let r = tokens_match_bytes(got.as_bytes(), expected.as_bytes());
    proof {
        if r {
            lemma_encode_injective(got@, expected@);
        }
    }
    r
}

/// How a switch variable reads: `1`, `true`, `yes` or `on`, in any case
/// and with surrounding whitespace; unset or anything else is off.
pub open spec fn truthy_spec(value: Option<Seq<char>>) -> bool {
    match value {
        Some(v) => {
            let n = crate::text::lower(crate::text::trim(v));
            n == "1"@ || n == "true"@ || n == "yes"@ || n == "on"@
        },
        None => false,
    }
}

/// Whether the value of a switch variable turns it on.
pub fn is_truthy(value: Option<&str>) -> (r: bool)
    ensures
        r == truthy_spec(match value {
            Some(v) => Some(v@),
            None => None,
        }),
{
    match value {
        Some(v) => {
            let c = crate::text::chars_of(v);
            let t = crate::text::trim_chars(&c);
            let n = crate::text::lower_seq(&t);
            crate::protocol::eq_lit(&n, "1") || crate::protocol::eq_lit(&n, "true")
                || crate::protocol::eq_lit(&n, "yes") || crate::protocol::eq_lit(&n, "on")
        },
        None => false,
    }
}

} // verus!
