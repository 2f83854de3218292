//! Checking an `assert` against the node it names: the fields the host
//! reported for the node, the absent case, and the viewport verdict the
//! host measured.

use vstd::prelude::*;

use crate::protocol::{opt_str_view, AssertSpec, AssertView};
use crate::text::{
    decimal, decimal_string, has_tag, has_tag_exec, push_chars, str_eq, strings_view, tagged,
    tagged_string,
};
use crate::tree_ids::{count_of, find_all, indices_of, require_unique};

verus! {

/// What an `assert` can compare on one node.
#[derive(Debug, Clone)]
pub struct NodeFacts {
    pub name: String,
    pub value: Option<String>,
    pub role: String,
    pub checked: Option<bool>,
    pub visible: bool,
}

/// `format!("{:?}", s)` of a string: quoted, with escapes.
pub uninterp spec fn str_debug(s: Seq<char>) -> Seq<char>;

/// `format!("{:?}", s)` for a `&str`: its `Debug` text (quoted, escaped).
/// Claimed: the result is a function of the text.
#[verifier::external_body]
fn debug_str(s: &str) -> (r: String)
    ensures
        r@ == str_debug(s@),
{
    format!("{s:?}")
}

/// `Debug` of an `Option<String>`.
pub open spec fn opt_debug(o: Option<Seq<char>>) -> Seq<char> {
    match o {
        Some(s) => "Some("@ + str_debug(s) + ")"@,
        None => "None"@,
    }
}

/// `Display` of a `bool`.
pub open spec fn bool_text(b: bool) -> Seq<char> {
    if b {
        "true"@
    } else {
        "false"@
    }
}

/// `Debug` of an `Option<bool>`.
pub open spec fn opt_bool_debug(o: Option<bool>) -> Seq<char> {
    match o {
        Some(b) => "Some("@ + bool_text(b) + ")"@,
        None => "None"@,
    }
}

/// The first field of `spec` that the node does not match, as the error
/// the assert reports.
pub open spec fn field_error(
    spec: AssertView,
    name: Seq<char>,
    value: Option<Seq<char>>,
    role: Seq<char>,
    checked: Option<bool>,
    visible: bool,
) -> Option<Seq<char>> {
    let t = spec.target;
    if spec.name matches Some(n) && name != n {
        Some(field_msg(t, "name"@, str_debug(spec.name->0), str_debug(name)))
    } else if spec.value matches Some(v) && value != Some(v) {
        Some(field_msg(t, "value"@, str_debug(spec.value->0), opt_debug(value)))
    } else if spec.role matches Some(r) && role != r {
        Some(field_msg(t, "role"@, str_debug(spec.role->0), str_debug(role)))
    } else if spec.checked matches Some(c) && checked != Some(c) {
        Some(field_msg(t, "checked"@, bool_text(spec.checked->0), opt_bool_debug(checked)))
    } else if spec.visible matches Some(v) && visible != v {
        Some(field_msg(t, "visible"@, bool_text(spec.visible->0), bool_text(visible)))
    } else {
        None
    }
}

/// `node `{target}` {field}: expected {expected}, got {got}`.
pub open spec fn field_msg(target: Seq<char>, field: Seq<char>, expected: Seq<char>, got: Seq<char>) -> Seq<char> {
    "node `"@ + target + "` "@ + field + ": expected "@ + expected + ", got "@ + got
}

fn bool_str(b: bool) -> (r: &'static str)
    ensures
        r@ == bool_text(b),
{
    if b {
        "true"
    } else {
        "false"
    }
}

fn opt_bool_string(o: Option<bool>) -> (r: String)
    ensures
        r@ == opt_bool_debug(o),
{
    match o {
        Some(b) => {
            let mut s = "Some(".to_owned();
            s.append(bool_str(b));
            s.append(")");
            s
        },
        None => "None".to_owned(),
    }
}

fn opt_string_debug(o: &Option<String>) -> (r: String)
    ensures
        r@ == opt_debug(opt_str_view(*o)),
{
    match o {
        Some(s) => {
            let mut out = "Some(".to_owned();
            let d = debug_str(s.as_str());
            out.append(d.as_str());
            out.append(")");
            out
        },
        None => "None".to_owned(),
    }
}

fn field_message(target: &str, field: &str, expected: &str, got: &str) -> (r: String)
    ensures
        r@ == field_msg(target@, field@, expected@, got@),
{
    let mut m = "node `".to_owned();
    m.append(target);
    m.append("` ");
    m.append(field);
    m.append(": expected ");
    m.append(expected);
    m.append(", got ");
    m.append(got);
    m
}

fn opt_eq(a: &Option<String>, b: &str) -> (r: bool)
    ensures
        r == (opt_str_view(*a) == Some(b@)),
{
    match a {
        Some(s) => str_eq(s.as_str(), b),
        None => false,
    }
}

/// Compare the fields an `assert` asks about with the node's: name, value,
/// role, checked, visible, in that order; the first mismatch is the error.
pub fn check_node_fields(spec: &AssertSpec, node: &NodeFacts) -> (r: Result<(), String>)
    ensures
        match field_error(spec@, node.name@, opt_str_view(node.value), node.role@, node.checked, node.visible) {
            Some(e) => r matches Err(x) && x@ == e,
            None => r is Ok,
        },
{
    let t = spec.target.as_str();
    if let Some(n) = &spec.name {
        if !str_eq(node.name.as_str(), n.as_str()) {
            let e = debug_str(n.as_str());
            let g = debug_str(node.name.as_str());
            return Err(field_message(t, "name", e.as_str(), g.as_str()));
        }
    }
    if let Some(v) = &spec.value {
        if !opt_eq(&node.value, v.as_str()) {
            let e = debug_str(v.as_str());
            let g = opt_string_debug(&node.value);
            return Err(field_message(t, "value", e.as_str(), g.as_str()));
        }
    }
    if let Some(ro) = &spec.role {
        if !str_eq(node.role.as_str(), ro.as_str()) {
            let e = debug_str(ro.as_str());
            let g = debug_str(node.role.as_str());
            return Err(field_message(t, "role", e.as_str(), g.as_str()));
        }
    }
    if let Some(c) = spec.checked {
        let same = match node.checked {
            Some(x) => x == c,
            None => false,
        };
        if !same {
            let g = opt_bool_string(node.checked);
            return Err(field_message(t, "checked", bool_str(c), g.as_str()));
        }
    }
    if let Some(v) = spec.visible {
        if node.visible != v {
            return Err(field_message(t, "visible", bool_str(v), bool_str(node.visible)));
        }
    }
    Ok(())
}

/// An `assert` with `exists=false`: no node may carry `target`.
pub fn check_absent(ids: &Vec<String>, target: &str) -> (r: Result<(), String>)
    ensures
        ({
            let n = count_of(strings_view(ids@), target@);
            if n == 0 {
                r is Ok
            } else if n == 1 {
                r matches Err(e) && e@ == "node `"@ + target@ + "` exists but should be absent"@
            } else {
                r matches Err(e) && e@ == "duplicate id `"@ + target@ + "` ("@ + decimal(n) + " nodes)"@
            }
        }),
{
    let found = find_all(ids, target);
    if found.len() == 0 {
        return Ok(());
    }
    if found.len() == 1 {
        let mut e = "node `".to_owned();
        e.append(target);
        e.append("` exists but should be absent");
        return Err(e);
    }
    let n = decimal_string(found.len() as u64);
    let mut e = "duplicate id `".to_owned();
    e.append(target);
    e.append("` (");
    push_chars(&mut e, &n);
    e.append(" nodes)");
    Err(e)
}

/// Compare the viewport state the host measured with the expected one.
pub fn check_in_viewport(target: &str, expected: bool, actual: bool) -> (r: Result<(), String>)
    ensures
        expected == actual ==> r is Ok,
        expected != actual ==> (r matches Err(e) && e@ == field_msg(
            target@,
            "in_viewport"@,
            bool_text(expected),
            bool_text(actual),
        )),
{
    if expected == actual {
        return Ok(());
    }
    Err(field_message(target, "in_viewport", bool_str(expected), bool_str(actual)))
}

/// Error tag of an `in_viewport` check that has no geometry to answer with.
pub const IN_VIEWPORT_UNAVAILABLE: &'static str = "in_viewport_unavailable";

/// `in_viewport_unavailable: {detail}`.
pub fn in_viewport_unavailable(detail: &str) -> (r: String)
    ensures
        r@ == tagged(IN_VIEWPORT_UNAVAILABLE@, detail@),
{
    tagged_string(IN_VIEWPORT_UNAVAILABLE, detail)
}

/// The error carries the `in_viewport_unavailable` tag.
pub fn is_in_viewport_unavailable(error: &str) -> (r: bool)
    ensures
        r == has_tag(error@, IN_VIEWPORT_UNAVAILABLE@),
{
    has_tag_exec(error, IN_VIEWPORT_UNAVAILABLE)
}

/// What a `wait_until` poll does after its assertion failed with `error`.
#[derive(Debug, PartialEq, Eq)]
pub enum WaitStep {
    /// Answer with this error now.
    Fail(String),
    /// Poll again.
    Retry,
}

/// A `wait_until` whose assertion failed: a headless host can never answer
/// `in_viewport`, so that error is final; past the deadline the answer is
/// `wait_until timed out: {error}`; otherwise poll again.
pub fn wait_until_step(error: &str, headless: bool, timed_out: bool) -> (r: WaitStep)
    ensures
        (has_tag(error@, IN_VIEWPORT_UNAVAILABLE@) && headless) ==> (r matches WaitStep::Fail(e) && e@ == error@),
        !(has_tag(error@, IN_VIEWPORT_UNAVAILABLE@) && headless) && timed_out ==> (r matches WaitStep::Fail(e)
            && e@ == "wait_until timed out: "@ + error@),
        !(has_tag(error@, IN_VIEWPORT_UNAVAILABLE@) && headless) && !timed_out ==> r is Retry,
{
    if is_in_viewport_unavailable(error) && headless {
        return WaitStep::Fail(error.to_owned());
    }
    if timed_out {
        let mut e = "wait_until timed out: ".to_owned();
        e.append(error);
        return WaitStep::Fail(e);
    }
    WaitStep::Retry
}

/// What checking an assertion against a tree's nodes leaves to do.
#[derive(Debug, PartialEq, Eq)]
pub enum AssertCheck {
    /// The verdict.
    Done(Result<(), String>),
    /// The node's fields hold; the node at this depth-first index must
    /// still be measured against its window for `in_viewport`.
    MeasureViewport(usize),
}

/// What `check_absent` answers: no node, one node, or several.
pub open spec fn absent_spec(ids: Seq<Seq<char>>, target: Seq<char>) -> Result<(), Seq<char>> {
    let n = count_of(ids, target);
    if n == 0 {
        Ok(())
    } else if n == 1 {
        Err("node `"@ + target + "` exists but should be absent"@)
    } else {
        Err("duplicate id `"@ + target + "` ("@ + decimal(n) + " nodes)"@)
    }
}

/// What `require_unique` answers: the one node with the id, or why not.
pub open spec fn unique_spec(ids: Seq<Seq<char>>, id: Seq<char>) -> Result<usize, Seq<char>> {
    let found = indices_of(ids, id, ids.len() as int);
    if found.len() == 0 {
        Err("node `"@ + id + "` not found"@)
    } else if found.len() == 1 {
        Ok(found[0])
    } else {
        Err("duplicate id `"@ + id + "` ("@ + decimal(found.len()) + " nodes)"@)
    }
}

pub open spec fn check_is_err(r: AssertCheck, e: Seq<char>) -> bool {
    r matches AssertCheck::Done(Err(x)) && x@ == e
}

/// Check an assertion against a tree given as its node ids and node facts
/// in depth-first order: `exists=false` wants no node with the id;
/// otherwise exactly one node must carry it, its fields must match, and
/// an `in_viewport` expectation leaves that node to be measured.
pub fn assert_nodes(ids: &Vec<String>, facts: &Vec<NodeFacts>, spec: &AssertSpec) -> (r: AssertCheck)
    requires
        ids@.len() == facts@.len(),
    ensures
        spec.exists == Some(false) ==> match absent_spec(strings_view(ids@), spec.target@) {
            Ok(()) => r == AssertCheck::Done(Ok(())),
            Err(e) => check_is_err(r, e),
        },
        spec.exists != Some(false) ==> match unique_spec(strings_view(ids@), spec.target@) {
            Err(e) => check_is_err(r, e),
            Ok(i) => match field_error(
                spec@,
                facts@[i as int].name@,
                opt_str_view(facts@[i as int].value),
                facts@[i as int].role@,
                facts@[i as int].checked,
                facts@[i as int].visible,
            ) {
                Some(e) => check_is_err(r, e),
                None => if spec.in_viewport is Some {
                    r == AssertCheck::MeasureViewport(i)
                } else {
                    r == AssertCheck::Done(Ok(()))
                },
            },
        },
{
    let absent = match spec.exists {
        Some(x) => !x,
        None => false,
    };
    if absent {
        return match check_absent(ids, spec.target.as_str()) {
            Ok(()) => AssertCheck::Done(Ok(())),
            Err(e) => AssertCheck::Done(Err(e)),
        };
    }
    let i = match require_unique(ids, spec.target.as_str()) {
        Ok(i) => i,
        Err(e) => return AssertCheck::Done(Err(e)),
    };
    let count = ids.len();
    proof {
        assert(strings_view(ids@).len() == count);
        crate::tree_ids::lemma_indices_in(strings_view(ids@), spec.target@, ids@.len() as int);
    }
    match check_node_fields(spec, &facts[i]) {
        Err(e) => return AssertCheck::Done(Err(e)),
        Ok(()) => {},
    }
    match spec.in_viewport {
        Some(_) => AssertCheck::MeasureViewport(i),
        None => AssertCheck::Done(Ok(())),
    }
}

/// Finish an `in_viewport` assertion with the host's measurement of the
/// node: its error as it is, else the expectation compared.
pub fn assert_viewport(spec: &AssertSpec, measured: Result<bool, String>) -> (r: Result<(), String>)
    ensures
        match measured {
            Err(e) => r matches Err(x) && x@ == e@,
            Ok(actual) => match spec.in_viewport {
                Some(expected) => if expected == actual {
                    r is Ok
                } else {
                    r matches Err(e) && e@ == field_msg(spec.target@, "in_viewport"@, bool_text(expected), bool_text(actual))
                },
                None => r is Ok,
            },
        },
{
    match measured {
        Err(e) => Err(e),
        Ok(actual) => match spec.in_viewport {
            Some(expected) => check_in_viewport(spec.target.as_str(), expected, actual),
            None => Ok(()),
        },
    }
}

} // verus!
