//! Verified core of an agent-automation toolkit for GPU-rendered desktop
//! apps: the wire vocabulary, the security gates (token resolution, token
//! comparison, HMAC challenge helpers, keybinding authorization, screenshot
//! path confinement), bitmap crop/stitch, keystroke planning, the recipe
//! text language, and the sample todo domain model.

pub mod text;
pub mod protocol;
pub mod dispatch;
pub mod keybinding;
pub mod screenshot;
pub mod scroll_capture;
pub mod virtual_input;
pub mod hmac_auth;
pub mod security;
pub mod ndjson;
pub mod server;
pub mod connections;
pub mod recipe;
pub mod plan;
pub mod todo;
pub mod schema;
pub mod record;
pub mod run;
pub mod resolve;
pub mod cli;
pub mod registry;
pub mod mailbox;
pub mod tree_ids;
pub mod assertion;
pub mod mcp;
pub mod placeholders;
pub mod bind;

pub use server::{MAX_CONNECTIONS, MAX_LINE_BYTES, MAX_MAILBOX_DEPTH};

use vstd::prelude::*;

verus! {

/// The number in `"{prefix}{n}"`: `target` starts with `prefix` and the
/// rest parses as a `u64`.
pub open spec fn numbered_id(prefix: Seq<char>, target: Seq<char>) -> Option<u64> {
    if text::starts_with(target, prefix) {
        text::parse_u64(target.subrange(prefix.len() as int, target.len() as int))
    } else {
        None
    }
}

/// Parse `"{prefix}{n}"` into `n`. Apps use this for numbered stable ids
/// (`row-3`, `tab-1`); prefixes themselves are app-defined.
pub fn parse_numbered_id(prefix: &str, target: &str) -> (r: Option<u64>)
    ensures
        r == numbered_id(prefix@, target@),
{
    let t = text::chars_of(target);
    let p = text::chars_of(prefix);
    if !text::starts_with_exec(&t, &p) {
        return None;
    }
    let rest = text::slice_chars(&t, p.len(), t.len());
    text::parse_u64_exec(&rest)
}

} // verus!
