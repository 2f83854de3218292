//! Wire vocabulary shared by hosts and clients: protocol version, platform
//! kinds, delivery and screenshot modes, keymap scopes, hello/auth
//! metadata and assertion specs.

use vstd::prelude::*;

use crate::text::{chars_of, concat3, lower, lower_seq, seq_eq, trim, trim_chars};

verus! {

/// Bump when introducing a breaking change to the wire format.
pub const PROTOCOL_VERSION: u32 = 2;

/// Which runtime is serving the protocol.
#[derive(Debug, Clone, Copy, PartialEq, Eq, Structural)]
pub enum PlatformKind {
    Desktop,
    Headless,
    Web,
    Mobile,
}

pub open spec fn platform_name(p: PlatformKind) -> Seq<char> {
    match p {
        PlatformKind::Desktop => "desktop"@,
        PlatformKind::Headless => "headless"@,
        PlatformKind::Web => "web"@,
        PlatformKind::Mobile => "mobile"@,
    }
}

impl PlatformKind {
    pub fn as_str(self) -> (r: &'static str)
        ensures
            r@ == platform_name(self),
    {
        match self {
            PlatformKind::Desktop => "desktop",
            PlatformKind::Headless => "headless",
            PlatformKind::Web => "web",
            PlatformKind::Mobile => "mobile",
        }
    }
}

/// How click / type / key are delivered into the app: `semantic` calls the
/// widget handler by stable id, `virtual` synthesizes in-window events.
#[derive(Debug, Clone, Copy, PartialEq, Eq, Structural)]
pub enum DeliveryMode {
    Semantic,
    Virtual,
}

pub open spec fn delivery_name(d: DeliveryMode) -> Seq<char> {
    match d {
        DeliveryMode::Semantic => "semantic"@,
        DeliveryMode::Virtual => "virtual"@,
    }
}

/// The text that `DeliveryMode::from_str` compares: trimmed, ASCII-lowercased.
pub open spec fn folded(s: Seq<char>) -> Seq<char> {
    lower(trim(s))
}

pub open spec fn parse_delivery_spec(s: Seq<char>) -> Result<DeliveryMode, Seq<char>> {
    let f = folded(s);
    if f == "semantic"@ || f.len() == 0 {
        Ok(DeliveryMode::Semantic)
    } else if f == "virtual"@ {
        Ok(DeliveryMode::Virtual)
    } else {
        Err("unknown delivery `"@ + f + "` (want semantic or virtual)"@)
    }
}

/// Trimmed, lowercased characters of `s`.
pub fn folded_chars(s: &str) -> (r: Vec<char>)
    ensures
        r@ == folded(s@),
{
    let v = chars_of(s);
    let t = trim_chars(&v);
    lower_seq(&t)
}

/// Equality of a character buffer with a literal.
pub fn eq_lit(v: &Vec<char>, lit: &str) -> (r: bool)
    ensures
        r == (v@ == lit@),
{
    let l = chars_of(lit);
    seq_eq(v, &l)
}

impl Default for DeliveryMode {
    fn default() -> (r: Self)
        ensures
            r == DeliveryMode::Semantic,
    {
        DeliveryMode::Semantic
    }
}

impl DeliveryMode {
    pub fn as_str(self) -> (r: &'static str)
        ensures
            r@ == delivery_name(self),
    {
        match self {
            DeliveryMode::Semantic => "semantic",
            DeliveryMode::Virtual => "virtual",
        }
    }

    pub fn is_semantic(&self) -> (r: bool)
        ensures
            r == (*self == DeliveryMode::Semantic),
    {
        matches!(self, DeliveryMode::Semantic)
    }

    pub fn is_virtual(&self) -> (r: bool)
        ensures
            r == (*self == DeliveryMode::Virtual),
    {
        matches!(self, DeliveryMode::Virtual)
    }

    /// Parse a delivery name; empty means the default `semantic`.
    pub fn parse_name(s: &str) -> (r: Result<DeliveryMode, String>)
        ensures
            match r {
                Ok(d) => parse_delivery_spec(s@) == Ok::<DeliveryMode, Seq<char>>(d),
                Err(e) => parse_delivery_spec(s@) == Err::<DeliveryMode, Seq<char>>(e@),
            },
    {
        let f = folded_chars(s);
        if eq_lit(&f, "semantic") || f.len() == 0 {
            Ok(DeliveryMode::Semantic)
        } else if eq_lit(&f, "virtual") {
            Ok(DeliveryMode::Virtual)
        } else {
            Err(concat3("unknown delivery `", &f, "` (want semantic or virtual)"))
        }
    }
}

impl std::str::FromStr for DeliveryMode {
    type Err = String;

    fn from_str(s: &str) -> (r: Result<Self, Self::Err>)
        ensures
            match r {
                Ok(d) => parse_delivery_spec(s@) == Ok::<DeliveryMode, Seq<char>>(d),
                Err(e) => parse_delivery_spec(s@) == Err::<DeliveryMode, Seq<char>>(e@),
            },
    {
        DeliveryMode::parse_name(s)
    }
}

/// Which keymap an Action-id `keybinding` fire must use: the app's
/// focused-window map, or the app's own global map.
#[derive(Debug, Clone, Copy, PartialEq, Eq, Structural)]
pub enum KeybindingScope {
    Focused,
    Global,
}

pub open spec fn scope_name(s: KeybindingScope) -> Seq<char> {
    match s {
        KeybindingScope::Focused => "focused"@,
        KeybindingScope::Global => "global"@,
    }
}

pub open spec fn parse_scope_spec(s: Seq<char>) -> Result<KeybindingScope, Seq<char>> {
    let f = folded(s);
    if f == "focused"@ {
        Ok(KeybindingScope::Focused)
    } else if f == "global"@ {
        Ok(KeybindingScope::Global)
    } else {
        Err("unknown keybinding scope `"@ + f + "` (want focused or global)"@)
    }
}

impl KeybindingScope {
    pub fn as_str(self) -> (r: &'static str)
        ensures
            r@ == scope_name(self),
    {
        match self {
            KeybindingScope::Focused => "focused",
            KeybindingScope::Global => "global",
        }
    }

    pub fn parse_name(s: &str) -> (r: Result<KeybindingScope, String>)
        ensures
            match r {
                Ok(d) => parse_scope_spec(s@) == Ok::<KeybindingScope, Seq<char>>(d),
                Err(e) => parse_scope_spec(s@) == Err::<KeybindingScope, Seq<char>>(e@),
            },
    {
        let f = folded_chars(s);
        if eq_lit(&f, "focused") {
            Ok(KeybindingScope::Focused)
        } else if eq_lit(&f, "global") {
            Ok(KeybindingScope::Global)
        } else {
            Err(concat3("unknown keybinding scope `", &f, "` (want focused or global)"))
        }
    }
}

impl std::str::FromStr for KeybindingScope {
    type Err = String;

    fn from_str(s: &str) -> (r: Result<Self, Self::Err>)
        ensures
            match r {
                Ok(d) => parse_scope_spec(s@) == Ok::<KeybindingScope, Seq<char>>(d),
                Err(e) => parse_scope_spec(s@) == Err::<KeybindingScope, Seq<char>>(e@),
            },
    {
        KeybindingScope::parse_name(s)
    }
}

/// How `screenshot` captures pixels: the painted window (`viewport`), or a
/// named scroll target scrolled and stitched (`scrolled`).
#[derive(Debug, Clone, Copy, PartialEq, Eq, Structural)]
pub enum ScreenshotMode {
    Viewport,
    Scrolled,
}

pub open spec fn mode_name(m: ScreenshotMode) -> Seq<char> {
    match m {
        ScreenshotMode::Viewport => "viewport"@,
        ScreenshotMode::Scrolled => "scrolled"@,
    }
}

pub open spec fn parse_mode_spec(s: Seq<char>) -> Result<ScreenshotMode, Seq<char>> {
    let f = folded(s);
    if f == "viewport"@ || f.len() == 0 {
        Ok(ScreenshotMode::Viewport)
    } else if f == "scrolled"@ {
        Ok(ScreenshotMode::Scrolled)
    } else {
        Err("unknown screenshot mode `"@ + f + "` (want viewport or scrolled)"@)
    }
}

impl Default for ScreenshotMode {
    fn default() -> (r: Self)
        ensures
            r == ScreenshotMode::Viewport,
    {
        ScreenshotMode::Viewport
    }
}

impl ScreenshotMode {
    pub fn as_str(self) -> (r: &'static str)
        ensures
            r@ == mode_name(self),
    {
        match self {
            ScreenshotMode::Viewport => "viewport",
            ScreenshotMode::Scrolled => "scrolled",
        }
    }

    pub fn is_viewport(&self) -> (r: bool)
        ensures
            r == (*self == ScreenshotMode::Viewport),
    {
        matches!(self, ScreenshotMode::Viewport)
    }

    pub fn is_scrolled(&self) -> (r: bool)
        ensures
            r == (*self == ScreenshotMode::Scrolled),
    {
        matches!(self, ScreenshotMode::Scrolled)
    }

    pub fn parse_name(s: &str) -> (r: Result<ScreenshotMode, String>)
        ensures
            match r {
                Ok(d) => parse_mode_spec(s@) == Ok::<ScreenshotMode, Seq<char>>(d),
                Err(e) => parse_mode_spec(s@) == Err::<ScreenshotMode, Seq<char>>(e@),
            },
    {
        let f = folded_chars(s);
        if eq_lit(&f, "viewport") || f.len() == 0 {
            Ok(ScreenshotMode::Viewport)
        } else if eq_lit(&f, "scrolled") {
            Ok(ScreenshotMode::Scrolled)
        } else {
            Err(concat3("unknown screenshot mode `", &f, "` (want viewport or scrolled)"))
        }
    }
}

impl std::str::FromStr for ScreenshotMode {
    type Err = String;

    fn from_str(s: &str) -> (r: Result<Self, Self::Err>)
        ensures
            match r {
                Ok(d) => parse_mode_spec(s@) == Ok::<ScreenshotMode, Seq<char>>(d),
                Err(e) => parse_mode_spec(s@) == Err::<ScreenshotMode, Seq<char>>(e@),
            },
    {
        ScreenshotMode::parse_name(s)
    }
}

/// Whether the host enforces its token on every request.
#[derive(Debug, Clone, Copy, PartialEq, Eq, Structural)]
pub enum HelloAuth {
    /// The host accepts unauthenticated requests (wire name `none`).
    NoToken,
    Required,
}

impl Default for HelloAuth {
    fn default() -> (r: Self)
        ensures
            r == HelloAuth::NoToken,
    {
        HelloAuth::NoToken
    }
}

impl HelloAuth {
    pub fn from_token_configured(token: Option<&str>) -> (r: HelloAuth)
        ensures
            r == (if token is Some {
                HelloAuth::Required
            } else {
                HelloAuth::NoToken
            }),
    {
        if token.is_some() {
            HelloAuth::Required
        } else {
            HelloAuth::NoToken
        }
    }

    pub fn as_str(self) -> (r: &'static str)
        ensures
            r@ == (match self {
                HelloAuth::NoToken => "none"@,
                HelloAuth::Required => "required"@,
            }),
    {
        match self {
            HelloAuth::NoToken => "none",
            HelloAuth::Required => "required",
        }
    }
}

/// What a host reports in `hello`.
#[derive(Debug, Clone)]
pub struct HelloInfo {
    pub protocol: u32,
    pub app: String,
    pub platform: PlatformKind,
    /// The host's operating system name.
    pub os: String,
    pub ready: bool,
    /// Input delivery modes this host actually implements.
    pub deliveries: Vec<DeliveryMode>,
    pub auth: HelloAuth,
}

/// Fields an `assert` / `wait_until` checks on one node.
#[derive(Debug)]
pub struct AssertSpec {
    pub target: String,
    pub name: Option<String>,
    pub value: Option<String>,
    pub role: Option<String>,
    pub checked: Option<bool>,
    pub exists: Option<bool>,
    /// Host-declared visibility of the node.
    pub visible: Option<bool>,
    /// Whether the node's bounds intersect the painted window clip.
    pub in_viewport: Option<bool>,
}

/// An [`AssertSpec`] as plain values.
pub struct AssertView {
    pub target: Seq<char>,
    pub name: Option<Seq<char>>,
    pub value: Option<Seq<char>>,
    pub role: Option<Seq<char>>,
    pub checked: Option<bool>,
    pub exists: Option<bool>,
    pub visible: Option<bool>,
    pub in_viewport: Option<bool>,
}

pub open spec fn opt_str_view(o: Option<String>) -> Option<Seq<char>> {
    match o {
        Some(s) => Some(s@),
        None => None,
    }
}

impl View for AssertSpec {
    type V = AssertView;

    open spec fn view(&self) -> AssertView {
        AssertView {
            target: self.target@,
            name: opt_str_view(self.name),
            value: opt_str_view(self.value),
            role: opt_str_view(self.role),
            checked: self.checked,
            exists: self.exists,
            visible: self.visible,
            in_viewport: self.in_viewport,
        }
    }
}

/// No field asked for: an empty target and every check unset.
pub open spec fn empty_assert() -> AssertView {
    AssertView {
        target: Seq::empty(),
        name: None,
        value: None,
        role: None,
        checked: None,
        exists: None,
        visible: None,
        in_viewport: None,
    }
}

impl Default for AssertSpec {
    fn default() -> (r: Self)
        ensures
            r@ == empty_assert(),
    {
        let r = AssertSpec {
            target: String::new(),
            name: None,
            value: None,
            role: None,
            checked: None,
            exists: None,
            visible: None,
            in_viewport: None,
        };
        assert(r@.target =~= Seq::<char>::empty());
        r
    }
}

fn clone_opt(o: &Option<String>) -> (r: Option<String>)
    ensures
        opt_str_view(r) == opt_str_view(*o),
{
    match o {
        Some(s) => Some(s.clone()),
        None => None,
    }
}

impl Clone for AssertSpec {
    fn clone(&self) -> (r: Self)
        ensures
            r@ == self@,
    {
        AssertSpec {
            target: self.target.clone(),
            name: clone_opt(&self.name),
            value: clone_opt(&self.value),
            role: clone_opt(&self.role),
            checked: self.checked,
            exists: self.exists,
            visible: self.visible,
            in_viewport: self.in_viewport,
        }
    }
}

/// One protocol operation, tagged by `op` on the wire.
#[derive(Debug)]
pub enum Op {
    Hello,
    Snapshot,
    Click { target: String, delivery: DeliveryMode },
    Type { target: String, text: String, delivery: DeliveryMode },
    SetValue { target: String, value: String },
    Key { target: String, key: String, delivery: DeliveryMode },
    /// Fire a registered Action by stable id (keymap path), never OS HID.
    Keybinding {
        binding: String,
        chord: Option<String>,
        scope: KeybindingScope,
        confirm: bool,
        /// Opt-in host activate for `scope=focused` only.
        activate: bool,
    },
    /// List registered Action-id bindings.
    Keybindings,
    Assert { spec: AssertSpec },
    Invoke { name: String, args: serde_json::Value },
    Wait { timeout_ms: Option<u64> },
    /// Poll an [`AssertSpec`] until it holds or `timeout_ms` elapses.
    WaitUntil { timeout_ms: u64, spec: AssertSpec },
    Shutdown,
    /// Observe-only PNG of the app surface, written by the host at `path`.
    Screenshot {
        path: Option<String>,
        mode: ScreenshotMode,
        target: Option<String>,
        max_height_px: Option<u32>,
    },
}

impl Op {
    pub fn click(target: String) -> (r: Op)
        ensures
            r == (Op::Click { target, delivery: DeliveryMode::Semantic }),
    {
        Op::Click { target, delivery: DeliveryMode::Semantic }
    }

    pub fn click_virtual(target: String) -> (r: Op)
        ensures
            r == (Op::Click { target, delivery: DeliveryMode::Virtual }),
    {
        Op::Click { target, delivery: DeliveryMode::Virtual }
    }

    pub fn type_text(target: String, text: String) -> (r: Op)
        ensures
            r == (Op::Type { target, text, delivery: DeliveryMode::Semantic }),
    {
        Op::Type { target, text, delivery: DeliveryMode::Semantic }
    }

    pub fn type_text_virtual(target: String, text: String) -> (r: Op)
        ensures
            r == (Op::Type { target, text, delivery: DeliveryMode::Virtual }),
    {
        Op::Type { target, text, delivery: DeliveryMode::Virtual }
    }

    pub fn key(target: String, key: String) -> (r: Op)
        ensures
            r == (Op::Key { target, key, delivery: DeliveryMode::Semantic }),
    {
        Op::Key { target, key, delivery: DeliveryMode::Semantic }
    }

    pub fn key_virtual(target: String, key: String) -> (r: Op)
        ensures
            r == (Op::Key { target, key, delivery: DeliveryMode::Virtual }),
    {
        Op::Key { target, key, delivery: DeliveryMode::Virtual }
    }

    pub fn keybinding(binding: String, scope: KeybindingScope) -> (r: Op)
        ensures
            r == (Op::Keybinding { binding, chord: None, scope, confirm: false, activate: false }),
    {
        Op::Keybinding { binding, chord: None, scope, confirm: false, activate: false }
    }

    pub fn is_keybinding(&self) -> (r: bool)
        ensures
            r == (self is Keybinding || self is Keybindings),
    {
        match self {
            Op::Keybinding { .. } | Op::Keybindings => true,
            _ => false,
        }
    }

    pub fn screenshot(path: String) -> (r: Op)
        ensures
            r == (Op::Screenshot {
                path: Some(path),
                mode: ScreenshotMode::Viewport,
                target: None,
                max_height_px: None,
            }),
    {
        Op::Screenshot {
            path: Some(path),
            mode: ScreenshotMode::Viewport,
            target: None,
            max_height_px: None,
        }
    }

    pub fn screenshot_scrolled(path: String, target: String, max_height_px: Option<u32>) -> (r: Op)
        ensures
            r == (Op::Screenshot {
                path: Some(path),
                mode: ScreenshotMode::Scrolled,
                target: Some(target),
                max_height_px,
            }),
    {
        Op::Screenshot { path: Some(path), mode: ScreenshotMode::Scrolled, target: Some(target), max_height_px }
    }

    pub fn wait_until(spec: AssertSpec, timeout_ms: u64) -> (r: Op)
        ensures
            r == (Op::WaitUntil { timeout_ms, spec }),
    {
        Op::WaitUntil { timeout_ms, spec }
    }

    /// The delivery of click / type / key; every other op is semantic.
    pub open spec fn delivery_spec(&self) -> DeliveryMode {
        match self {
            Op::Click { delivery, .. } => *delivery,
            Op::Type { delivery, .. } => *delivery,
            Op::Key { delivery, .. } => *delivery,
            _ => DeliveryMode::Semantic,
        }
    }

    pub fn delivery(&self) -> (r: DeliveryMode)
        ensures
            r == self.delivery_spec(),
    {
        match self {
            Op::Click { delivery, .. } => *delivery,
            Op::Type { delivery, .. } => *delivery,
            Op::Key { delivery, .. } => *delivery,
            _ => DeliveryMode::Semantic,
        }
    }

    /// Click, type or key with virtual delivery.
    pub open spec fn is_virtual_input_spec(&self) -> bool {
        (self is Click || self is Type || self is Key) && self.delivery_spec() == DeliveryMode::Virtual
    }

    pub fn is_virtual_input(&self) -> (r: bool)
        ensures
            r == self.is_virtual_input_spec(),
    {
        match self {
            Op::Click { delivery, .. } => delivery.is_virtual(),
            Op::Type { delivery, .. } => delivery.is_virtual(),
            Op::Key { delivery, .. } => delivery.is_virtual(),
            _ => false,
        }
    }
}

/// Two ops agree on every field; `invoke` arguments are opaque JSON and
/// are not compared.
pub open spec fn same_op(a: Op, b: Op) -> bool {
    match (a, b) {
        (Op::Hello, Op::Hello) => true,
        (Op::Snapshot, Op::Snapshot) => true,
        (Op::Click { target: t1, delivery: d1 }, Op::Click { target: t2, delivery: d2 }) => t1@ == t2@ && d1 == d2,
        (Op::Type { target: t1, text: x1, delivery: d1 }, Op::Type { target: t2, text: x2, delivery: d2 }) => t1@
            == t2@ && x1@ == x2@ && d1 == d2,
        (Op::SetValue { target: t1, value: v1 }, Op::SetValue { target: t2, value: v2 }) => t1@ == t2@ && v1@ == v2@,
        (Op::Key { target: t1, key: k1, delivery: d1 }, Op::Key { target: t2, key: k2, delivery: d2 }) => t1@ == t2@
            && k1@ == k2@ && d1 == d2,
        (
            Op::Keybinding { binding: b1, chord: c1, scope: s1, confirm: f1, activate: a1 },
            Op::Keybinding { binding: b2, chord: c2, scope: s2, confirm: f2, activate: a2 },
        ) => b1@ == b2@ && opt_str_view(c1) == opt_str_view(c2) && s1 == s2 && f1 == f2 && a1 == a2,
        (Op::Keybindings, Op::Keybindings) => true,
        (Op::Assert { spec: s1 }, Op::Assert { spec: s2 }) => s1@ == s2@,
        (Op::Invoke { name: n1, .. }, Op::Invoke { name: n2, .. }) => n1@ == n2@,
        (Op::Wait { timeout_ms: t1 }, Op::Wait { timeout_ms: t2 }) => t1 == t2,
        (Op::WaitUntil { timeout_ms: t1, spec: s1 }, Op::WaitUntil { timeout_ms: t2, spec: s2 }) => t1 == t2 && s1@ == s2@,
        (Op::Shutdown, Op::Shutdown) => true,
        (
            Op::Screenshot { path: p1, mode: m1, target: t1, max_height_px: h1 },
            Op::Screenshot { path: p2, mode: m2, target: t2, max_height_px: h2 },
        ) => opt_str_view(p1) == opt_str_view(p2) && m1 == m2 && opt_str_view(t1) == opt_str_view(t2) && h1 == h2,
        _ => false,
    }
}

impl Clone for Op {
    fn clone(&self) -> (r: Self)
        ensures
            same_op(r, *self),
    {
        match self {
            Op::Hello => Op::Hello,
            Op::Snapshot => Op::Snapshot,
            Op::Click { target, delivery } => Op::Click { target: target.clone(), delivery: *delivery },
            Op::Type { target, text, delivery } => Op::Type { target: target.clone(), text: text.clone(), delivery: *delivery },
            Op::SetValue { target, value } => Op::SetValue { target: target.clone(), value: value.clone() },
            Op::Key { target, key, delivery } => Op::Key { target: target.clone(), key: key.clone(), delivery: *delivery },
            Op::Keybinding { binding, chord, scope, confirm, activate } => Op::Keybinding {
                binding: binding.clone(),
                chord: clone_opt(chord),
                scope: *scope,
                confirm: *confirm,
                activate: *activate,
            },
            Op::Keybindings => Op::Keybindings,
            Op::Assert { spec } => Op::Assert { spec: spec.clone() },
            Op::Invoke { name, args } => Op::Invoke { name: name.clone(), args: args.clone() },
            Op::Wait { timeout_ms } => Op::Wait { timeout_ms: *timeout_ms },
            Op::WaitUntil { timeout_ms, spec } => Op::WaitUntil { timeout_ms: *timeout_ms, spec: spec.clone() },
            Op::Shutdown => Op::Shutdown,
            Op::Screenshot { path, mode, target, max_height_px } => Op::Screenshot {
                path: clone_opt(path),
                mode: *mode,
                target: clone_opt(target),
                max_height_px: *max_height_px,
            },
        }
    }
}

/// A response reporting an error: the protocol version, the request's id,
/// `ok` false and the error, with no payload.
#[derive(Debug, Clone, PartialEq, Eq)]
pub struct ErrorResponse {
    pub v: u32,
    pub id: String,
    pub ok: bool,
    pub error: Option<String>,
}

/// `error` as the response to the request `id`.
pub fn error_response(id: &str, error: String) -> (r: ErrorResponse)
    ensures
        r.v == PROTOCOL_VERSION,
        r.id@ == id@,
        !r.ok,
        r.error matches Some(e) && e@ == error@,
{
    ErrorResponse { v: PROTOCOL_VERSION, id: id.to_owned(), ok: false, error: Some(error) }
}

/// One request frame. The token and the HMAC answer are secrets: the type
/// has no `Debug`, so neither can end up in a log by accident.
pub struct Request {
    pub v: u32,
    pub id: String,
    /// A raw token; a v2 host refuses a request that carries one.
    pub token: Option<String>,
    /// HMAC-SHA256(token, session nonce) as lowercase hex.
    pub auth: Option<String>,
    pub op: Op,
}

impl Request {
    /// A request for `op` at the current protocol version, unauthenticated.
    pub fn new(id: &str, op: Op) -> (r: Self)
        ensures
            r.v == PROTOCOL_VERSION,
            r.id@ == id@,
            r.token is None,
            r.auth is None,
            r.op == op,
    {
        Request { v: PROTOCOL_VERSION, id: id.to_owned(), token: None, auth: None, op }
    }

    /// The same request carrying a raw token (refused by current hosts,
    /// which want the HMAC answer instead).
    pub fn with_token(self, token: String) -> (r: Self)
        ensures
            r.v == self.v,
            r.id == self.id,
            r.token == Some(token),
            r.auth == self.auth,
            r.op == self.op,
    {
        Request { token: Some(token), ..self }
    }

    /// The same request carrying the HMAC answer `auth`.
    pub fn with_auth(self, auth: String) -> (r: Self)
        ensures
            r.v == self.v,
            r.id == self.id,
            r.token == self.token,
            r.auth == Some(auth),
            r.op == self.op,
    {
        Request { auth: Some(auth), ..self }
    }
}

} // verus!
