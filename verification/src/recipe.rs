//! Recipes: named lists of protocol ops with optional `needs` edges, and
//! the line-based `.wants` text form that compiles to them.

use vstd::prelude::*;

use crate::protocol::{
    empty_assert, parse_delivery_spec, AssertSpec, AssertView, DeliveryMode, Op,
};
use crate::placeholders::{
    add_name, lemma_checked_recipe_declares_placeholders, lists_names, op_names,
    op_placeholders, step_placeholders, steps_names,
};
use crate::schema::{Registry, SchemaKind};
use crate::tree_ids::sorted_strictly;
use crate::text::{
    chars_of, decimal, decimal_string, find_char, trim, trim_chars, split_on, split_chars,
    lemma_split_on_nonempty, find_char_exec, is_alnum, is_alnum_exec, is_alpha, is_ws, is_ws_exec,
    push_char, push_chars, slice_chars, split_once, split_once_chars, str_eq, string_of,
    strings_view,
};

verus! {

/// Recipe document version (not the wire protocol version).
pub const RECIPE_FORMAT_VERSION: u32 = 1;

/// Cap so one recipe cannot flood the mailbox / connection.
pub const MAX_RECIPE_STEPS: usize = 256;

/// The version a recipe document has when it names none.
pub fn recipe_v1() -> (r: u32)
    ensures
        r == RECIPE_FORMAT_VERSION,
{
    RECIPE_FORMAT_VERSION
}

/// One step of a recipe: a stable id, the ids it must run after, the op,
/// and whether to capture a PNG after it.
#[derive(Debug)]
pub struct RecipeStep {
    pub id: String,
    pub needs: Vec<String>,
    pub op: Op,
    pub screenshot: bool,
}

pub(crate) fn clone_strings(v: &Vec<String>) -> (r: Vec<String>)
    ensures
        strings_view(r@) == strings_view(v@),
{
    let mut out: Vec<String> = Vec::new();
    let mut i: usize = 0;
    while i < v.len()
        invariant
            i <= v.len(),
            strings_view(out@) == strings_view(v@).subrange(0, i as int),
        decreases v.len() - i,
    {
        let ghost before = out@;
        assert(before.len() == i) by {
            assert(strings_view(before).len() == before.len());
        }
        let c = v[i].clone();
        out.push(c);
        assert(strings_view(out@) =~= strings_view(v@).subrange(0, i + 1)) by {
            assert forall|k: int| 0 <= k < i implies strings_view(out@)[k] == strings_view(before)[k] by {
                assert(out@[k] == before[k]);
            }
        }
        i += 1;
    }
    assert(strings_view(v@).subrange(0, v.len() as int) =~= strings_view(v@));
    out
}

impl Clone for RecipeStep {
    fn clone(&self) -> (r: Self)
        ensures
            r.id@ == self.id@,
            strings_view(r.needs@) == strings_view(self.needs@),
            crate::protocol::same_op(r.op, self.op),
            r.screenshot == self.screenshot,
    {
        RecipeStep {
            id: self.id.clone(),
            needs: clone_strings(&self.needs),
            op: self.op.clone(),
            screenshot: self.screenshot,
        }
    }
}

/// A named DAG (or implicit sequence) of protocol ops.
#[derive(Debug, Clone)]
pub struct Recipe {
    pub v: u32,
    pub name: String,
    pub app: Option<String>,
    pub params: Vec<String>,
    pub steps: Vec<RecipeStep>,
}

impl Recipe {
    /// Some step names a need.
    pub fn uses_explicit_needs(&self) -> (r: bool)
        ensures
            r == exists|i: int| 0 <= i < self.steps@.len() && #[trigger] self.steps@[i].needs@.len() > 0,
    {
        let mut i: usize = 0;
        while i < self.steps.len()
            invariant
                i <= self.steps.len(),
                forall|k: int| 0 <= k < i ==> #[trigger] self.steps@[k].needs@.len() == 0,
            decreases self.steps.len() - i,
        {
            if self.steps[i].needs.len() > 0 {
                return true;
            }
            i += 1;
        }
        false
    }
}

// ---------------------------------------------------------------------------
// Tokens of a `.wants` line
// ---------------------------------------------------------------------------

pub open spec fn flush(buf: Seq<char>, toks: Seq<Seq<char>>) -> Seq<Seq<char>> {
    if buf.len() > 0 {
        toks.push(buf)
    } else {
        toks
    }
}

/// Split a line into tokens from position `i` on, inside the quote `quote`
/// (if any), with `buf` the token being read and `toks` those done.
///
/// Whitespace separates tokens. `"` and `'` quote: inside, `\` takes the
/// next character literally. A closing quote ends the token when whitespace
/// or the end of the line follows (an empty quoted token is kept); else the
/// token goes on.
pub open spec fn tokenize_from(
    s: Seq<char>,
    i: int,
    quote: Option<char>,
    buf: Seq<char>,
    toks: Seq<Seq<char>>,
) -> Result<Seq<Seq<char>>, Seq<char>>
    decreases s.len() - i,
{
    if i < 0 || i >= s.len() {
        match quote {
            Some(_) => Err("unterminated quote"@),
            None => Ok(flush(buf, toks)),
        }
    } else {
        let c = s[i];
        match quote {
            Some(q) => if c == q {
                if i + 1 >= s.len() || is_ws(s[i + 1]) {
                    tokenize_from(s, i + 1, None, Seq::empty(), toks.push(buf))
                } else {
                    tokenize_from(s, i + 1, None, buf, toks)
                }
            } else if c == '\\' {
                if i + 1 < s.len() {
                    tokenize_from(s, i + 2, Some(q), buf.push(s[i + 1]), toks)
                } else {
                    Err("unterminated quote"@)
                }
            } else {
                tokenize_from(s, i + 1, Some(q), buf.push(c), toks)
            },
            None => if c == '"' || c == '\'' {
                tokenize_from(s, i + 1, Some(c), buf, toks)
            } else if is_ws(c) {
                tokenize_from(s, i + 1, None, Seq::empty(), flush(buf, toks))
            } else {
                tokenize_from(s, i + 1, None, buf.push(c), toks)
            },
        }
    }
}

pub open spec fn tokenize_spec(line: Seq<char>) -> Result<Seq<Seq<char>>, Seq<char>> {
    tokenize_from(line, 0, None, Seq::empty(), Seq::empty())
}

/// Split one `.wants` line into tokens.
pub fn tokenize(line: &str) -> (r: Result<Vec<String>, String>)
    ensures
        match r {
            Ok(t) => tokenize_spec(line@) == Ok::<Seq<Seq<char>>, Seq<char>>(strings_view(t@)),
            Err(e) => tokenize_spec(line@) == Err::<Seq<Seq<char>>, Seq<char>>(e@),
        },
{
    let s = chars_of(line);
    let mut toks: Vec<String> = Vec::new();
    let mut buf: Vec<char> = Vec::new();
    let mut quote: Option<char> = None;
    let mut i: usize = 0;
    assert(strings_view(toks@) =~= Seq::<Seq<char>>::empty());
    while i < s.len()
        invariant
            i <= s.len(),
            s@ == line@,
            tokenize_spec(line@) == tokenize_from(s@, i as int, quote, buf@, strings_view(toks@)),
        decreases s.len() - i,
    {
        let c = s[i];
        match quote {
            Some(q) => {
                if c == q {
                    if i + 1 >= s.len() || is_ws_exec(s[i + 1]) {
                        let t = string_of(buf.as_slice());
                        let ghost before = toks@;
                        toks.push(t);
                        assert(strings_view(toks@) =~= strings_view(before).push(buf@));
                        buf = Vec::new();
                    }
                    quote = None;
                    i += 1;
                } else if c == '\\' {
                    if i + 1 < s.len() {
                        buf.push(s[i + 1]);
                        i += 2;
                    } else {
                        return Err("unterminated quote".to_owned());
                    }
                } else {
                    buf.push(c);
                    i += 1;
                }
            },
            None => {
                if c == '"' || c == '\'' {
                    quote = Some(c);
                } else if is_ws_exec(c) {
                    if buf.len() > 0 {
                        let t = string_of(buf.as_slice());
                        let ghost before = toks@;
                        toks.push(t);
                        assert(strings_view(toks@) =~= strings_view(before).push(buf@));
                        buf = Vec::new();
                    } else {
                        assert(buf@ =~= Seq::<char>::empty());
                    }
                } else {
                    buf.push(c);
                }
                i += 1;
            },
        }
    }
    if quote.is_some() {
        return Err("unterminated quote".to_owned());
    }
    if buf.len() > 0 {
        let t = string_of(buf.as_slice());
        let ghost before = toks@;
        toks.push(t);
        assert(strings_view(toks@) =~= strings_view(before).push(buf@));
    }
    Ok(toks)
}

// ---------------------------------------------------------------------------
// `assert` arguments
// ---------------------------------------------------------------------------

pub open spec fn parse_bool_spec(raw: Seq<char>) -> Result<bool, Seq<char>> {
    if raw == "true"@ {
        Ok(true)
    } else if raw == "false"@ {
        Ok(false)
    } else {
        Err("expected true/false, got "@ + raw)
    }
}

/// `true` or `false`.
pub fn parse_bool(raw: &str) -> (r: Result<bool, String>)
    ensures
        match r {
            Ok(b) => parse_bool_spec(raw@) == Ok::<bool, Seq<char>>(b),
            Err(e) => parse_bool_spec(raw@) == Err::<bool, Seq<char>>(e@),
        },
{
    if str_eq(raw, "true") {
        Ok(true)
    } else if str_eq(raw, "false") {
        Ok(false)
    } else {
        let mut e = "expected true/false, got ".to_owned();
        e.append(raw);
        Err(e)
    }
}

/// One `key=value` assert argument applied to `s`.
pub open spec fn assert_kv_spec(s: AssertView, key: Seq<char>, raw: Seq<char>) -> Result<AssertView, Seq<char>> {
    if key == "name"@ {
        Ok(AssertView { name: Some(raw), ..s })
    } else if key == "value"@ {
        Ok(AssertView { value: Some(raw), ..s })
    } else if key == "role"@ {
        Ok(AssertView { role: Some(raw), ..s })
    } else if key == "checked"@ {
        match parse_bool_spec(raw) {
            Ok(b) => Ok(AssertView { checked: Some(b), ..s }),
            Err(e) => Err(e),
        }
    } else if key == "exists"@ {
        match parse_bool_spec(raw) {
            Ok(b) => Ok(AssertView { exists: Some(b), ..s }),
            Err(e) => Err(e),
        }
    } else if key == "target"@ || key == "id"@ {
        Ok(AssertView { target: raw, ..s })
    } else {
        Err("unknown assert field `"@ + key + "`"@)
    }
}

/// Apply one `key=value` assert argument; on an error `spec` is unchanged.
pub fn apply_assert_kv(spec: &mut AssertSpec, key: &str, raw: &str) -> (r: Result<(), String>)
    ensures
        match assert_kv_spec(old(spec)@, key@, raw@) {
            Ok(s) => r is Ok && final(spec)@ == s,
            Err(e) => r matches Err(x) && x@ == e && final(spec)@ == old(spec)@,
        },
{
    if str_eq(key, "name") {
        spec.name = Some(raw.to_owned());
    } else if str_eq(key, "value") {
        spec.value = Some(raw.to_owned());
    } else if str_eq(key, "role") {
        spec.role = Some(raw.to_owned());
    } else if str_eq(key, "checked") {
        match parse_bool(raw) {
            Ok(b) => spec.checked = Some(b),
            Err(e) => return Err(e),
        }
    } else if str_eq(key, "exists") {
        match parse_bool(raw) {
            Ok(b) => spec.exists = Some(b),
            Err(e) => return Err(e),
        }
    } else if str_eq(key, "target") || str_eq(key, "id") {
        spec.target = raw.to_owned();
    } else {
        let mut e = "unknown assert field `".to_owned();
        e.append(key);
        e.append("`");
        return Err(e);
    }
    Ok(())
}

pub open spec fn starts_dash(t: Seq<char>) -> bool {
    t.len() > 0 && t[0] == '-'
}

/// Read the `assert` arguments from position `i` on into `s`.
pub open spec fn assert_from(t: Seq<Seq<char>>, i: int, s: AssertView) -> Result<AssertView, Seq<char>>
    decreases t.len() - i,
{
    if i < 0 || i >= t.len() {
        if s.target.len() == 0 {
            Err("assert needs a target"@)
        } else {
            Ok(s)
        }
    } else {
        let tok = t[i];
        let has_next = i + 1 < t.len();
        if tok == "--id"@ || tok == "--target"@ {
            if has_next {
                assert_from(t, i + 2, AssertView { target: t[i + 1], ..s })
            } else {
                Err("missing assert target"@)
            }
        } else if tok == "--name"@ {
            if has_next {
                assert_from(t, i + 2, AssertView { name: Some(t[i + 1]), ..s })
            } else {
                Err("missing --name"@)
            }
        } else if tok == "--value"@ {
            if has_next {
                assert_from(t, i + 2, AssertView { value: Some(t[i + 1]), ..s })
            } else {
                Err("missing --value"@)
            }
        } else if tok == "--role"@ {
            if has_next {
                assert_from(t, i + 2, AssertView { role: Some(t[i + 1]), ..s })
            } else {
                Err("missing --role"@)
            }
        } else if tok == "--checked"@ {
            if has_next && t[i + 1] == "true"@ {
                assert_from(t, i + 2, AssertView { checked: Some(true), ..s })
            } else if has_next && t[i + 1] == "false"@ {
                assert_from(t, i + 2, AssertView { checked: Some(false), ..s })
            } else {
                assert_from(t, i + 1, AssertView { checked: Some(true), ..s })
            }
        } else if tok == "--exists"@ {
            if has_next && t[i + 1] == "false"@ {
                assert_from(t, i + 2, AssertView { exists: Some(false), ..s })
            } else if has_next && t[i + 1] == "true"@ {
                assert_from(t, i + 2, AssertView { exists: Some(true), ..s })
            } else {
                assert_from(t, i + 1, AssertView { exists: Some(true), ..s })
            }
        } else if tok == "--absent"@ {
            assert_from(t, i + 1, AssertView { exists: Some(false), ..s })
        } else {
            match split_once(tok, '=') {
                Some((key, raw)) => match assert_kv_spec(s, key, raw) {
                    Ok(s2) => assert_from(t, i + 1, s2),
                    Err(e) => Err(e),
                },
                None => if s.target.len() == 0 && !starts_dash(tok) {
                    assert_from(t, i + 1, AssertView { target: tok, ..s })
                } else {
                    Err("bad assert token `"@ + tok + "`"@)
                },
            }
        }
    }
}

/// The arguments of a `.wants` `assert` line.
pub open spec fn assert_spec_of(t: Seq<Seq<char>>) -> Result<AssertView, Seq<char>> {
    assert_from(t, 0, empty_assert())
}

fn tok_is(tokens: &[String], i: usize, lit: &str) -> (r: bool)
    ensures
        r == (i < tokens@.len() && tokens@[i as int]@ == lit@),
{
    i < tokens.len() && str_eq(tokens[i].as_str(), lit)
}

/// Parse the arguments of a `.wants` `assert` line: flags (`--id`,
/// `--name`, `--value`, `--role`, `--checked`, `--exists`, `--absent`),
/// `key=value` pairs, or a bare target.
pub fn parse_assert_spec(tokens: &[String]) -> (r: Result<AssertSpec, String>)
    ensures
        match r {
            Ok(s) => assert_spec_of(strings_view(tokens@)) == Ok::<AssertView, Seq<char>>(s@),
            Err(e) => assert_spec_of(strings_view(tokens@)) == Err::<AssertView, Seq<char>>(e@),
        },
{
    let ghost t = strings_view(tokens@);
    let mut spec = AssertSpec::default();
    let mut i: usize = 0;
    while i < tokens.len()
        invariant
            i <= tokens.len() + 1,
            t == strings_view(tokens@),
            assert_spec_of(t) == assert_from(t, i as int, spec@),
        decreases tokens.len() + 1 - i,
    {
        let tok = tokens[i].as_str();
        let has_next = i + 1 < tokens.len();
        assert(t[i as int] == tok@);
        if str_eq(tok, "--id") || str_eq(tok, "--target") {
            if !has_next {
                return Err("missing assert target".to_owned());
            }
            spec.target = tokens[i + 1].clone();
            assert(t[i + 1] == tokens@[i + 1]@);
            i += 2;
        } else if str_eq(tok, "--name") {
            if !has_next {
                return Err("missing --name".to_owned());
            }
            spec.name = Some(tokens[i + 1].clone());
            assert(t[i + 1] == tokens@[i + 1]@);
            i += 2;
        } else if str_eq(tok, "--value") {
            if !has_next {
                return Err("missing --value".to_owned());
            }
            spec.value = Some(tokens[i + 1].clone());
            assert(t[i + 1] == tokens@[i + 1]@);
            i += 2;
        } else if str_eq(tok, "--role") {
            if !has_next {
                return Err("missing --role".to_owned());
            }
            spec.role = Some(tokens[i + 1].clone());
            assert(t[i + 1] == tokens@[i + 1]@);
            i += 2;
        } else if str_eq(tok, "--checked") {
            if tok_is(tokens, i + 1, "true") {
                spec.checked = Some(true);
                i += 2;
            } else if tok_is(tokens, i + 1, "false") {
                spec.checked = Some(false);
                i += 2;
            } else {
                spec.checked = Some(true);
                i += 1;
            }
        } else if str_eq(tok, "--exists") {
            if tok_is(tokens, i + 1, "false") {
                spec.exists = Some(false);
                i += 2;
            } else if tok_is(tokens, i + 1, "true") {
                spec.exists = Some(true);
                i += 2;
            } else {
                spec.exists = Some(true);
                i += 1;
            }
        } else if str_eq(tok, "--absent") {
            spec.exists = Some(false);
            i += 1;
        } else {
            let chars = chars_of(tok);
            match split_once_chars(&chars, '=') {
                Some((key, raw)) => {
                    let k = string_of(key.as_slice());
                    let v = string_of(raw.as_slice());
                    match apply_assert_kv(&mut spec, k.as_str(), v.as_str()) {
                        Ok(()) => {},
                        Err(e) => return Err(e),
                    }
                    i += 1;
                },
                None => {
                    if spec.target.as_str().is_empty() && !(chars.len() > 0 && chars[0] == '-') {
                        proof {
                            assert(spec@.target.len() == 0);
                        }
                        spec.target = tok.to_owned();
                        i += 1;
                    } else {
                        let mut e = "bad assert token `".to_owned();
                        e.append(tok);
                        e.append("`");
                        return Err(e);
                    }
                },
            }
        }
    }
    if spec.target.as_str().is_empty() {
        proof {
            assert(spec@.target.len() == 0);
        }
        return Err("assert needs a target".to_owned());
    }
    Ok(spec)
}

// ---------------------------------------------------------------------------
// `.wants` ops
// ---------------------------------------------------------------------------

/// `--delivery MODE` at the front of `t`: the mode and how many tokens it
/// took.
pub open spec fn take_delivery_spec(t: Seq<Seq<char>>) -> Result<(DeliveryMode, nat), Seq<char>> {
    if t.len() > 0 && t[0] == "--delivery"@ {
        if t.len() > 1 {
            match parse_delivery_spec(t[1]) {
                Ok(d) => Ok((d, 2nat)),
                Err(e) => Err(e),
            }
        } else {
            Err("--delivery needs semantic or virtual"@)
        }
    } else {
        Ok((DeliveryMode::Semantic, 0nat))
    }
}

/// An optional `--delivery MODE` in front of the tokens from `start` on.
pub fn take_delivery(tokens: &[String], start: usize) -> (r: Result<(DeliveryMode, usize), String>)
    requires
        start <= tokens@.len(),
    ensures
        match r {
            Ok((d, n)) => take_delivery_spec(strings_view(tokens@).subrange(start as int, tokens@.len() as int))
                == Ok::<(DeliveryMode, nat), Seq<char>>((d, n as nat)),
            Err(e) => take_delivery_spec(strings_view(tokens@).subrange(start as int, tokens@.len() as int))
                == Err::<(DeliveryMode, nat), Seq<char>>(e@),
        },
{
    let ghost t = strings_view(tokens@).subrange(start as int, tokens@.len() as int);
    if start < tokens.len() && str_eq(tokens[start].as_str(), "--delivery") {
        assert(t[0] == tokens@[start as int]@);
        if start + 1 < tokens.len() {
            assert(t[1] == tokens@[start + 1]@);
            match DeliveryMode::parse_name(tokens[start + 1].as_str()) {
                Ok(d) => Ok((d, 2)),
                Err(e) => Err(e),
            }
        } else {
            Err("--delivery needs semantic or virtual".to_owned())
        }
    } else {
        proof {
            if t.len() > 0 {
                assert(t[0] == tokens@[start as int]@);
            }
        }
        Ok((DeliveryMode::Semantic, 0))
    }
}

/// An op read from a `.wants` line, as plain values.
pub enum WantsOp {
    Wait,
    Hello,
    Snapshot,
    Shutdown,
    Click(Seq<char>, DeliveryMode),
    Type(Seq<char>, Seq<char>, DeliveryMode),
    SetValue(Seq<char>, Seq<char>),
    Key(Seq<char>, Seq<char>, DeliveryMode),
    Assert(AssertView),
    /// The name and the `KEY=VALUE` pairs of its arguments.
    Invoke(Seq<char>, Seq<(Seq<char>, Seq<char>)>),
}

/// `-` becomes `_`, so `set-value` and `set_value` name the same op.
pub open spec fn dash_to_underscore(s: Seq<char>) -> Seq<char> {
    Seq::new(s.len(), |i: int| if s[i] == '-' { '_' } else { s[i] })
}

/// The `KEY=VALUE` tokens of an `invoke` line from position `i` on.
pub open spec fn invoke_pairs_from(t: Seq<Seq<char>>, i: int) -> Result<Seq<(Seq<char>, Seq<char>)>, Seq<char>>
    decreases t.len() - i,
{
    if i < 0 || i >= t.len() {
        Ok(Seq::empty())
    } else {
        match split_once(t[i], '=') {
            None => Err("expected KEY=VALUE, got "@ + t[i]),
            Some(kv) => match invoke_pairs_from(t, i + 1) {
                Ok(rest) => Ok(seq![kv] + rest),
                Err(e) => Err(e),
            },
        }
    }
}

/// The op of one tokenized `.wants` line.
pub open spec fn wants_op_spec(t: Seq<Seq<char>>) -> Result<WantsOp, Seq<char>> {
    let name = dash_to_underscore(t[0]);
    let tail = t.subrange(1, t.len() as int);
    if name == "wait"@ {
        Ok(WantsOp::Wait)
    } else if name == "hello"@ {
        Ok(WantsOp::Hello)
    } else if name == "snapshot"@ {
        Ok(WantsOp::Snapshot)
    } else if name == "shutdown"@ {
        Ok(WantsOp::Shutdown)
    } else if name == "click"@ {
        match take_delivery_spec(tail) {
            Err(e) => Err(e),
            Ok((d, n)) => if tail.len() > n {
                Ok(WantsOp::Click(tail[n as int], d))
            } else {
                Err("click needs a target"@)
            },
        }
    } else if name == "type"@ {
        match take_delivery_spec(tail) {
            Err(e) => Err(e),
            Ok((d, n)) => if tail.len() >= n + 2 {
                Ok(WantsOp::Type(tail[n as int], tail[n as int + 1], d))
            } else {
                Err("type needs target and text"@)
            },
        }
    } else if name == "set_value"@ {
        if t.len() < 3 {
            Err("set-value needs target and value"@)
        } else {
            Ok(WantsOp::SetValue(t[1], t[2]))
        }
    } else if name == "key"@ {
        match take_delivery_spec(tail) {
            Err(e) => Err(e),
            Ok((d, n)) => if tail.len() >= n + 2 {
                Ok(WantsOp::Key(tail[n as int], tail[n as int + 1], d))
            } else {
                Err("key needs target and key name"@)
            },
        }
    } else if name == "assert"@ {
        match assert_spec_of(tail) {
            Ok(a) => Ok(WantsOp::Assert(a)),
            Err(e) => Err(e),
        }
    } else if name == "invoke"@ {
        if t.len() < 2 {
            Err("invoke needs a name"@)
        } else {
            match invoke_pairs_from(t, 2) {
                Ok(pairs) => Ok(WantsOp::Invoke(t[1], pairs)),
                Err(e) => Err(e),
            }
        }
    } else {
        Err("unknown op `"@ + name + "`"@)
    }
}

/// `op` is the protocol op that `w` describes; the arguments of an
/// `invoke` are the object of its pairs (see [`invoke_args_spec`]).
pub open spec fn op_is(op: Op, w: WantsOp) -> bool {
    match w {
        WantsOp::Wait => op == Op::Wait { timeout_ms: None },
        WantsOp::Hello => op is Hello,
        WantsOp::Snapshot => op is Snapshot,
        WantsOp::Shutdown => op is Shutdown,
        WantsOp::Click(target, d) => op matches Op::Click { target: t, delivery } && t@ == target && delivery == d,
        WantsOp::Type(target, text, d) => op matches Op::Type { target: t, text: x, delivery } && t@ == target && x@ == text && delivery == d,
        WantsOp::SetValue(target, value) => op matches Op::SetValue { target: t, value: v } && t@ == target && v@ == value,
        WantsOp::Key(target, key, d) => op matches Op::Key { target: t, key: k, delivery } && t@ == target && k@ == key && delivery == d,
        WantsOp::Assert(a) => op matches Op::Assert { spec } && spec@ == a,
        WantsOp::Invoke(name, pairs) => op matches Op::Invoke { name: n, args } && n@ == name && args
            == invoke_args_spec(pairs),
    }
}

/// What `serde_json::from_str::<Value>` gives for the text `raw`: the JSON
/// value it spells, or `None` when it is not JSON.
pub uninterp spec fn json_parsed(raw: Seq<char>) -> Option<serde_json::Value>;

/// The JSON string `Value::String(raw)`.
pub uninterp spec fn json_string_value(raw: Seq<char>) -> serde_json::Value;

/// The JSON object `serde_json::Value::Object` collected from `entries`.
pub uninterp spec fn json_object_value(entries: Seq<(Seq<char>, serde_json::Value)>) -> serde_json::Value;

/// `serde_json::from_str::<Value>`: the JSON value `raw` spells, if any.
/// The parse depends on the text alone.
#[verifier::external_body]
fn json_from_str(raw: &str) -> (r: Option<serde_json::Value>)
    ensures
        r == json_parsed(raw@),
{
    serde_json::from_str(raw).ok()
}

/// `serde_json::Value::String`: the JSON string holding `raw`.
#[verifier::external_body]
pub(crate) fn json_string(raw: &str) -> (r: serde_json::Value)
    ensures
        r == json_string_value(raw@),
{
    serde_json::Value::String(raw.to_owned())
}

pub open spec fn entries_view(e: Seq<(String, serde_json::Value)>) -> Seq<(Seq<char>, serde_json::Value)> {
    Seq::new(e.len(), |k: int| (e[k].0@, e[k].1))
}

/// `serde_json::Value::Object` of the entries, collected into a
/// `serde_json::Map`: the entries are inserted in the order given, so a
/// later key replaces an earlier one, and the map keeps its keys sorted.
/// The object depends on the entries alone.
#[verifier::external_body]
pub(crate) fn json_object(entries: Vec<(String, serde_json::Value)>) -> (r: serde_json::Value)
    ensures
        r == json_object_value(entries_view(entries@)),
{
    serde_json::Value::Object(entries.into_iter().collect())
}

/// The JSON array `serde_json::Value::Array` of `items`, in order.
pub uninterp spec fn json_array_value(items: Seq<serde_json::Value>) -> serde_json::Value;

/// The JSON number `serde_json::Value::from(n)`.
pub uninterp spec fn json_u64_value(n: u64) -> serde_json::Value;

/// `serde_json::Value::Array` of the items, in order.
#[verifier::external_body]
pub(crate) fn json_array(items: Vec<serde_json::Value>) -> (r: serde_json::Value)
    ensures
        r == json_array_value(items@),
{
    serde_json::Value::Array(items)
}

/// `serde_json::Value::from(u64)`: a JSON number.
#[verifier::external_body]
pub(crate) fn json_u64(n: u64) -> (r: serde_json::Value)
    ensures
        r == json_u64_value(n),
{
    serde_json::Value::from(n)
}

/// The JSON value of one `key=value` argument: the value as JSON when it
/// parses, else as a string.
pub open spec fn arg_json(raw: Seq<char>) -> serde_json::Value {
    match json_parsed(raw) {
        Some(v) => v,
        None => json_string_value(raw),
    }
}

/// The `args` object of `key=value` pairs, in order.
pub open spec fn invoke_args_spec(pairs: Seq<(Seq<char>, Seq<char>)>) -> serde_json::Value {
    json_object_value(Seq::new(pairs.len(), |k: int| (pairs[k].0, arg_json(pairs[k].1))))
}

/// The `args` object of an `invoke` line: each value is read as JSON when
/// it parses, else kept as a string.
pub fn invoke_args_json(pairs: &Vec<(String, String)>) -> (r: serde_json::Value)
    ensures
        r == invoke_args_spec(pairs_view(pairs@)),
{
    let mut entries: Vec<(String, serde_json::Value)> = Vec::new();
    let mut i: usize = 0;
    while i < pairs.len()
        invariant
            i <= pairs.len(),
            entries_view(entries@) == Seq::new(i as nat, |k: int| (pairs@[k].0@, arg_json(pairs@[k].1@))),
        decreases pairs.len() - i,
    {
        let raw = pairs[i].1.as_str();
        let value = match json_from_str(raw) {
            Some(v) => v,
            None => json_string(raw),
        };
        let key = pairs[i].0.clone();
        assert(key@ == pairs@[i as int].0@ && value == arg_json(pairs@[i as int].1@));
        let ghost pre = entries_view(entries@);
        entries.push((key, value));
        assert(entries_view(entries@) =~= pre.push((pairs@[i as int].0@, arg_json(pairs@[i as int].1@))));
        assert(entries_view(entries@) =~= Seq::new((i + 1) as nat, |k: int| (pairs@[k].0@, arg_json(pairs@[k].1@))));
        i += 1;
    }
    assert(Seq::new(pairs@.len(), |k: int| (pairs@[k].0@, arg_json(pairs@[k].1@))) =~= Seq::new(
        pairs_view(pairs@).len(),
        |k: int| (pairs_view(pairs@)[k].0, arg_json(pairs_view(pairs@)[k].1)),
    ));
    json_object(entries)
}

pub open spec fn pairs_view(p: Seq<(String, String)>) -> Seq<(Seq<char>, Seq<char>)> {
    Seq::new(p.len(), |k: int| (p[k].0@, p[k].1@))
}

/// Split each token from `start` on at its first `=`.
fn invoke_pairs(tokens: &[String], start: usize) -> (r: Result<Vec<(String, String)>, String>)
    requires
        start <= tokens@.len(),
    ensures
        match r {
            Ok(p) => invoke_pairs_from(strings_view(tokens@), start as int) == Ok::<
                Seq<(Seq<char>, Seq<char>)>,
                Seq<char>,
            >(pairs_view(p@)),
            Err(e) => invoke_pairs_from(strings_view(tokens@), start as int) == Err::<
                Seq<(Seq<char>, Seq<char>)>,
                Seq<char>,
            >(e@),
        },
{
    let ghost t = strings_view(tokens@);
    let mut out: Vec<(String, String)> = Vec::new();
    let mut i: usize = start;
    while i < tokens.len()
        invariant
            start <= i <= tokens.len(),
            t == strings_view(tokens@),
            invoke_pairs_from(t, start as int) == match invoke_pairs_from(t, i as int) {
                Ok(rest) => Ok::<Seq<(Seq<char>, Seq<char>)>, Seq<char>>(pairs_view(out@) + rest),
                Err(e) => Err(e),
            },
        decreases tokens.len() - i,
    {
        let chars = chars_of(tokens[i].as_str());
        assert(t[i as int] == chars@);
        match split_once_chars(&chars, '=') {
            Some((k, v)) => {
                let ghost before = out@;
                out.push((string_of(k.as_slice()), string_of(v.as_slice())));
                assert(pairs_view(out@) =~= pairs_view(before) + seq![(k@, v@)]);
                proof {
                    match invoke_pairs_from(t, i + 1) {
                        Ok(rest) => {
                            assert(pairs_view(before) + (seq![(k@, v@)] + rest) =~= pairs_view(out@) + rest);
                        },
                        Err(_) => {},
                    }
                }
                i += 1;
            },
            None => {
                let mut e = "expected KEY=VALUE, got ".to_owned();
                e.append(tokens[i].as_str());
                return Err(e);
            },
        }
    }
    assert(pairs_view(out@) + Seq::<(Seq<char>, Seq<char>)>::empty() =~= pairs_view(out@));
    Ok(out)
}

fn dash_to_underscore_exec(s: &str) -> (r: Vec<char>)
    ensures
        r@ == dash_to_underscore(s@),
{
    let v = chars_of(s);
    let mut out: Vec<char> = Vec::new();
    let mut i: usize = 0;
    while i < v.len()
        invariant
            i <= v.len(),
            v@ == s@,
            out@ == Seq::new(i as nat, |k: int| if v@[k] == '-' { '_' } else { v@[k] }),
        decreases v.len() - i,
    {
        out.push(if v[i] == '-' { '_' } else { v[i] });
        i += 1;
        assert(out@ =~= Seq::new(i as nat, |k: int| if v@[k] == '-' { '_' } else { v@[k] }));
    }
    assert(out@ =~= dash_to_underscore(s@));
    out
}

fn chars_are(v: &Vec<char>, lit: &str) -> (r: bool)
    ensures
        r == (v@ == lit@),
{
    let l = chars_of(lit);
    crate::text::seq_eq(v, &l)
}

/// Turn one tokenized `.wants` line into a recipe step with id `id`.
pub fn parse_wants_step(tokens: &[String], id: String) -> (r: Result<RecipeStep, String>)
    requires
        tokens@.len() > 0,
    ensures
        match r {
            Ok(step) => wants_op_spec(strings_view(tokens@)) matches Ok(w) && op_is(step.op, w)
                && step.id@ == id@ && step.needs@.len() == 0 && !step.screenshot,
            Err(e) => wants_op_spec(strings_view(tokens@)) == Err::<WantsOp, Seq<char>>(e@),
        },
{
    let ghost t = strings_view(tokens@);
    let ghost tail = t.subrange(1, t.len() as int);
    let name = dash_to_underscore_exec(tokens[0].as_str());
    assert(t[0] == tokens@[0]@);
    assert(strings_view(tokens@).subrange(1, tokens@.len() as int) == tail);
    let op = if chars_are(&name, "wait") {
        Op::Wait { timeout_ms: None }
    } else if chars_are(&name, "hello") {
        Op::Hello
    } else if chars_are(&name, "snapshot") {
        Op::Snapshot
    } else if chars_are(&name, "shutdown") {
        Op::Shutdown
    } else if chars_are(&name, "click") {
        let (delivery, n) = match take_delivery(tokens, 1) {
            Ok(x) => x,
            Err(e) => return Err(e),
        };
        if 1 + n < tokens.len() {
            assert(tail[n as int] == tokens@[1 + n]@);
            Op::Click { target: tokens[1 + n].clone(), delivery }
        } else {
            return Err("click needs a target".to_owned());
        }
    } else if chars_are(&name, "type") {
        let (delivery, n) = match take_delivery(tokens, 1) {
            Ok(x) => x,
            Err(e) => return Err(e),
        };
        if 1 + n + 2 <= tokens.len() {
            assert(tail[n as int] == tokens@[1 + n]@);
            assert(tail[n + 1] == tokens@[2 + n]@);
            Op::Type { target: tokens[1 + n].clone(), text: tokens[2 + n].clone(), delivery }
        } else {
            return Err("type needs target and text".to_owned());
        }
    } else if chars_are(&name, "set_value") {
        if tokens.len() < 3 {
            return Err("set-value needs target and value".to_owned());
        }
        assert(t[1] == tokens@[1]@ && t[2] == tokens@[2]@);
        Op::SetValue { target: tokens[1].clone(), value: tokens[2].clone() }
    } else if chars_are(&name, "key") {
        let (delivery, n) = match take_delivery(tokens, 1) {
            Ok(x) => x,
            Err(e) => return Err(e),
        };
        if 1 + n + 2 <= tokens.len() {
            assert(tail[n as int] == tokens@[1 + n]@);
            assert(tail[n + 1] == tokens@[2 + n]@);
            Op::Key { target: tokens[1 + n].clone(), key: tokens[2 + n].clone(), delivery }
        } else {
            return Err("key needs target and key name".to_owned());
        }
    } else if chars_are(&name, "assert") {
        let rest = tail_of(tokens);
        assert(strings_view(rest@) =~= tail);
        match parse_assert_spec(rest.as_slice()) {
            Ok(spec) => Op::Assert { spec },
            Err(e) => return Err(e),
        }
    } else if chars_are(&name, "invoke") {
        if tokens.len() < 2 {
            return Err("invoke needs a name".to_owned());
        }
        assert(t[1] == tokens@[1]@);
        let pairs = match invoke_pairs(tokens, 2) {
            Ok(p) => p,
            Err(e) => return Err(e),
        };
        Op::Invoke { name: tokens[1].clone(), args: invoke_args_json(&pairs) }
    } else {
        let mut e = "unknown op `".to_owned();
        push_chars(&mut e, &name);
        e.append("`");
        return Err(e);
    };
    let needs: Vec<String> = Vec::new();
    Ok(RecipeStep { id, needs, op, screenshot: false })
}

/// The tokens after the first.
fn tail_of(tokens: &[String]) -> (r: Vec<String>)
    requires
        tokens@.len() > 0,
    ensures
        strings_view(r@) == strings_view(tokens@).subrange(1, tokens@.len() as int),
{
    let mut out: Vec<String> = Vec::new();
    let mut i: usize = 1;
    while i < tokens.len()
        invariant
            1 <= i <= tokens.len(),
            strings_view(out@) == strings_view(tokens@).subrange(1, i as int),
        decreases tokens.len() - i,
    {
        let ghost before = out@;
        assert(before.len() == i - 1) by {
            assert(strings_view(before).len() == before.len());
        }
        let c = tokens[i].clone();
        assert(c@ == tokens@[i as int]@);
        out.push(c);
        assert(strings_view(out@) =~= strings_view(tokens@).subrange(1, i + 1)) by {
            assert(strings_view(before) == strings_view(tokens@).subrange(1, i as int));
            assert forall|k: int| 0 <= k < i - 1 implies strings_view(out@)[k] == strings_view(before)[k] by {
                assert(out@[k] == before[k]);
            }
        }
        i += 1;
    }
    out
}

// ---------------------------------------------------------------------------
// `$param` placeholders
// ---------------------------------------------------------------------------

pub open spec fn word_char(c: char) -> bool {
    is_alnum(c) || c == '_'
}

/// An identifier: an ASCII letter or `_`, then letters, digits or `_`.
pub open spec fn ident_spec(s: Seq<char>) -> bool {
    &&& s.len() > 0
    &&& is_alpha(s[0]) || s[0] == '_'
    &&& forall|i: int| 1 <= i < s.len() ==> word_char(#[trigger] s[i])
}

fn word_char_exec(c: char) -> (r: bool)
    ensures
        r == word_char(c),
{
    is_alnum_exec(c) || c == '_'
}

fn ident_chars(s: &Vec<char>) -> (r: bool)
    ensures
        r == ident_spec(s@),
{
    if s.len() == 0 {
        return false;
    }
    let c = s[0];
    if !(('A' <= c && c <= 'Z') || ('a' <= c && c <= 'z') || c == '_') {
        return false;
    }
    let mut i: usize = 1;
    while i < s.len()
        invariant
            1 <= i <= s.len(),
            forall|k: int| 1 <= k < i ==> word_char(#[trigger] s@[k]),
        decreases s.len() - i,
    {
        if !word_char_exec(s[i]) {
            return false;
        }
        i += 1;
    }
    true
}

/// Whether `name` can be a `$param` name.
pub fn is_ident(name: &str) -> (r: bool)
    ensures
        r == ident_spec(name@),
{
    ident_chars(&chars_of(name))
}

/// The end of the run of word characters starting at `i`.
pub open spec fn word_end(s: Seq<char>, i: int) -> int
    decreases s.len() - i,
{
    if i < 0 || i >= s.len() || !word_char(s[i]) {
        i
    } else {
        word_end(s, i + 1)
    }
}

pub proof fn lemma_word_end(s: Seq<char>, i: int)
    requires
        0 <= i <= s.len(),
    ensures
        i <= word_end(s, i) <= s.len(),
        forall|k: int| i <= k < word_end(s, i) ==> word_char(#[trigger] s[k]),
        word_end(s, i) < s.len() ==> !word_char(s[word_end(s, i)]),
    decreases s.len() - i,
{
    if i < s.len() && word_char(s[i]) {
        lemma_word_end(s, i + 1);
    }
}

/// The placeholder after the `$` at `dollar`: `${name}` or `$name`, with the
/// position just past it.
pub open spec fn placeholder_at(s: Seq<char>, dollar: int) -> Option<(Seq<char>, int)> {
    let i = dollar + 1;
    if i >= s.len() {
        None
    } else if s[i] == '{' {
        match find_char(s.subrange(i + 1, s.len() as int), '}') {
            None => None,
            Some(k) => {
                let end = i + 1 + k;
                let name = s.subrange(i + 1, end);
                if ident_spec(name) {
                    Some((name, end + 1))
                } else {
                    None
                }
            },
        }
    } else {
        let end = word_end(s, i);
        if end == i {
            None
        } else {
            let name = s.subrange(i, end);
            if ident_spec(name) {
                Some((name, end))
            } else {
                None
            }
        }
    }
}

pub proof fn lemma_placeholder_advances(s: Seq<char>, dollar: int)
    requires
        0 <= dollar < s.len(),
    ensures
        placeholder_at(s, dollar) matches Some((_, next)) ==> dollar < next <= s.len(),
{
    let i = dollar + 1;
    if i < s.len() {
        lemma_word_end(s, i);
        if s[i] == '{' {
            let t = s.subrange(i + 1, s.len() as int);
            if find_char(t, '}') is Some {
                crate::text::lemma_find_char_bound(t, '}');
            }
        }
    }
}

/// Read the placeholder after the `$` at `dollar`.
pub fn parse_placeholder(chars: &Vec<char>, dollar: usize) -> (r: Option<(String, usize)>)
    requires
        dollar < chars.len(),
    ensures
        match r {
            Some((name, next)) => placeholder_at(chars@, dollar as int) == Some((name@, next as int)),
            None => placeholder_at(chars@, dollar as int) is None,
        },
{
    let i = dollar + 1;
    if i >= chars.len() {
        return None;
    }
    if chars[i] == '{' {
        let rest = slice_chars(chars, i + 1, chars.len());
        let k = match find_char_exec(&rest, '}') {
            Some(k) => k,
            None => return None,
        };
        let end = i + 1 + k;
        let name = slice_chars(chars, i + 1, end);
        assert(name@ == chars@.subrange(i + 1, end as int));
        if ident_chars(&name) {
            return Some((string_of(name.as_slice()), end + 1));
        }
        return None;
    }
    let mut end: usize = i;
    while end < chars.len() && word_char_exec(chars[end])
        invariant
            i <= end <= chars.len(),
            word_end(chars@, i as int) == word_end(chars@, end as int),
        decreases chars.len() - end,
    {
        end += 1;
    }
    if end == i {
        return None;
    }
    let name = slice_chars(chars, i, end);
    if ident_chars(&name) {
        Some((string_of(name.as_slice()), end))
    } else {
        None
    }
}

/// Every `$param` name in `s` from position `i` on, in order.
pub open spec fn placeholders_from(s: Seq<char>, i: int) -> Seq<Seq<char>>
    decreases s.len() - i,
{
    if i < 0 || i >= s.len() {
        Seq::empty()
    } else {
        match placeholder_at(s, i) {
            Some((name, next)) if s[i] == '$' && i < next <= s.len() => seq![name] + placeholders_from(s, next),
            _ => placeholders_from(s, i + 1),
        }
    }
}

/// The `$param` names that `s` uses, in order of appearance.
pub fn collect_placeholders(s: &str) -> (r: Vec<String>)
    ensures
        strings_view(r@) == placeholders_from(s@, 0),
{
    let chars = chars_of(s);
    let mut out: Vec<String> = Vec::new();
    let mut i: usize = 0;
    assert(strings_view(out@) =~= Seq::<Seq<char>>::empty());
    while i < chars.len()
        invariant
            i <= chars.len(),
            chars@ == s@,
            placeholders_from(s@, 0) == strings_view(out@) + placeholders_from(s@, i as int),
        decreases chars.len() - i,
    {
        proof {
            lemma_placeholder_advances(chars@, i as int);
        }
        if chars[i] == '$' {
            if let Some((name, next)) = parse_placeholder(&chars, i) {
                let ghost before = out@;
                let ghost nv = name@;
                out.push(name);
                assert(strings_view(out@) =~= strings_view(before).push(nv));
                assert(strings_view(before) + (seq![nv] + placeholders_from(s@, next as int))
                    =~= strings_view(out@) + placeholders_from(s@, next as int));
                i = next;
                continue;
            }
        }
        i += 1;
    }
    assert(strings_view(out@) + Seq::<Seq<char>>::empty() =~= strings_view(out@));
    out
}

/// The value bound to `name`: the last pair with that key.
pub open spec fn lookup(set: Seq<(Seq<char>, Seq<char>)>, name: Seq<char>) -> Option<Seq<char>>
    decreases set.len(),
{
    if set.len() == 0 {
        None
    } else if set.last().0 == name {
        Some(set.last().1)
    } else {
        lookup(set.drop_last(), name)
    }
}

pub open spec fn missing_param(name: Seq<char>) -> Seq<char> {
    "missing --set "@ + name + "=\u{2026}"@
}

/// `s` from position `i` on with each `$param` replaced by its value.
pub open spec fn substitute_from(s: Seq<char>, i: int, set: Seq<(Seq<char>, Seq<char>)>) -> Result<Seq<char>, Seq<char>>
    decreases s.len() - i,
{
    if i < 0 || i >= s.len() {
        Ok(Seq::empty())
    } else {
        match placeholder_at(s, i) {
            Some((name, next)) if s[i] == '$' && i < next <= s.len() => match lookup(set, name) {
                None => Err(missing_param(name)),
                Some(v) => match substitute_from(s, next, set) {
                    Ok(rest) => Ok(v + rest),
                    Err(e) => Err(e),
                },
            },
            _ => match substitute_from(s, i + 1, set) {
                Ok(rest) => Ok(seq![s[i]] + rest),
                Err(e) => Err(e),
            },
        }
    }
}

fn lookup_exec(set: &Vec<(String, String)>, name: &str) -> (r: Option<usize>)
    ensures
        match r {
            Some(k) => k < set.len() && lookup(pairs_view(set@), name@) == Some(set@[k as int].1@),
            None => lookup(pairs_view(set@), name@) is None,
        },
{
    let ghost pv = pairs_view(set@);
    let mut k: usize = set.len();
    assert(pv.subrange(0, pv.len() as int) =~= pv);
    while k > 0
        invariant
            k <= set.len(),
            pv == pairs_view(set@),
            lookup(pv, name@) == lookup(pv.subrange(0, k as int), name@),
        decreases k,
    {
        let ghost front = pv.subrange(0, k as int);
        assert(front.drop_last() =~= pv.subrange(0, k - 1));
        assert(front.last() == pv[k - 1]);
        if str_eq(set[k - 1].0.as_str(), name) {
            return Some(k - 1);
        }
        k -= 1;
    }
    None
}

/// Replace each `$param` / `${param}` in `input` by its value in `set` (the
/// last pair with that name, as a map built from the pairs would hold); a
/// placeholder with no value is an error.
pub fn substitute_string(input: &str, set: &Vec<(String, String)>) -> (r: Result<String, String>)
    ensures
        match r {
            Ok(out) => substitute_from(input@, 0, pairs_view(set@)) == Ok::<Seq<char>, Seq<char>>(out@),
            Err(e) => substitute_from(input@, 0, pairs_view(set@)) == Err::<Seq<char>, Seq<char>>(e@),
        },
{
    let ghost sv = pairs_view(set@);
    let chars = chars_of(input);
    let mut out = String::new();
    let mut i: usize = 0;
    while i < chars.len()
        invariant
            i <= chars.len(),
            chars@ == input@,
            sv == pairs_view(set@),
            substitute_from(input@, 0, sv) == match substitute_from(input@, i as int, sv) {
                Ok(rest) => Ok::<Seq<char>, Seq<char>>(out@ + rest),
                Err(e) => Err(e),
            },
        decreases chars.len() - i,
    {
        proof {
            lemma_placeholder_advances(chars@, i as int);
        }
        if chars[i] == '$' {
            if let Some((name, next)) = parse_placeholder(&chars, i) {
                match lookup_exec(set, name.as_str()) {
                    None => {
                        let mut e = "missing --set ".to_owned();
                        e.append(name.as_str());
                        e.append("=\u{2026}");
                        return Err(e);
                    },
                    Some(k) => {
                        let ghost o0 = out@;
                        out.append(set[k].1.as_str());
                        proof {
                            match substitute_from(input@, next as int, sv) {
                                Ok(rest) => {
                                    assert(o0 + (set@[k as int].1@ + rest) =~= out@ + rest);
                                },
                                Err(_) => {},
                            }
                        }
                        i = next;
                        continue;
                    },
                }
            }
        }
        let ghost o0 = out@;
        push_char(&mut out, chars[i]);
        proof {
            match substitute_from(input@, i + 1, sv) {
                Ok(rest) => {
                    assert(o0 + (seq![chars@[i as int]] + rest) =~= out@ + rest);
                },
                Err(_) => {},
            }
        }
        i += 1;
    }
    assert(out@ + Seq::<char>::empty() =~= out@);
    Ok(out)
}

/// Split `--set KEY=VALUE` arguments at their first `=`, in order.
pub open spec fn set_pairs_spec(pairs: Seq<Seq<char>>) -> Result<Seq<(Seq<char>, Seq<char>)>, Seq<char>> {
    invoke_pairs_from(pairs, 0)
}

/// Split `--set KEY=VALUE` arguments at their first `=`, in order. Collected
/// into a map, a later pair replaces an earlier one with the same key.
pub fn parse_set(pairs: &Vec<String>) -> (r: Result<Vec<(String, String)>, String>)
    ensures
        match r {
            Ok(p) => set_pairs_spec(strings_view(pairs@)) == Ok::<Seq<(Seq<char>, Seq<char>)>, Seq<char>>(pairs_view(p@)),
            Err(e) => set_pairs_spec(strings_view(pairs@)) == Err::<Seq<(Seq<char>, Seq<char>)>, Seq<char>>(e@),
        },
{
    invoke_pairs(pairs.as_slice(), 0)
}

/// Every declared parameter has a value in `set`; otherwise the first one
/// without is reported as `missing --set NAME=…`.
pub fn check_params_bound(params: &Vec<String>, set: &Vec<(String, String)>) -> (r: Result<(), String>)
    ensures
        r is Ok <==> forall|i: int| 0 <= i < params@.len() ==> (#[trigger] lookup(pairs_view(set@), params@[i]@)) is Some,
        r matches Err(e) ==> exists|i: int|
            0 <= i < params@.len() && lookup(pairs_view(set@), params@[i]@) is None
                && e@ == missing_param(params@[i]@)
                && forall|j: int| 0 <= j < i ==> (#[trigger] lookup(pairs_view(set@), params@[j]@)) is Some,
{
    let mut i: usize = 0;
    while i < params.len()
        invariant
            i <= params.len(),
            forall|j: int| 0 <= j < i ==> (#[trigger] lookup(pairs_view(set@), params@[j]@)) is Some,
        decreases params.len() - i,
    {
        if lookup_exec(set, params[i].as_str()).is_none() {
            let mut e = "missing --set ".to_owned();
            e.append(params[i].as_str());
            e.append("=\u{2026}");
            proof {
                reveal_strlit("missing --set ");
                reveal_strlit("=\u{2026}");
            }
            return Err(e);
        }
        i += 1;
    }
    Ok(())
}

// ---------------------------------------------------------------------------
// Validation
// ---------------------------------------------------------------------------

pub open spec fn step_id(steps: Seq<RecipeStep>, i: int) -> Seq<char> {
    steps[i].id@
}

/// Why step `i`'s id is refused: empty after trimming, or repeating an
/// earlier id.
pub open spec fn id_error_at(steps: Seq<RecipeStep>, i: int) -> Option<Seq<char>> {
    if trim(step_id(steps, i)).len() == 0 {
        Some("step id cannot be empty"@)
    } else if exists|j: int| 0 <= j < i && #[trigger] step_id(steps, j) == step_id(steps, i) {
        Some("duplicate step id `"@ + step_id(steps, i) + "`"@)
    } else {
        None
    }
}

/// The first id error of the steps from `i` on.
pub open spec fn first_id_error(steps: Seq<RecipeStep>, i: int) -> Option<Seq<char>>
    decreases steps.len() - i,
{
    if i < 0 || i >= steps.len() {
        None
    } else {
        match id_error_at(steps, i) {
            Some(e) => Some(e),
            None => first_id_error(steps, i + 1),
        }
    }
}

pub open spec fn names_step(steps: Seq<RecipeStep>, id: Seq<char>) -> bool {
    exists|j: int| 0 <= j < steps.len() && #[trigger] step_id(steps, j) == id
}

/// The first bad need of step `i`, from need `k` on: one that names no
/// step, or the step itself.
pub open spec fn need_error_from(steps: Seq<RecipeStep>, i: int, k: int) -> Option<Seq<char>>
    decreases steps[i].needs@.len() - k,
{
    if k < 0 || k >= steps[i].needs@.len() {
        None
    } else {
        let need = steps[i].needs@[k]@;
        if !names_step(steps, need) {
            Some("step `"@ + step_id(steps, i) + "` needs unknown `"@ + need + "`"@)
        } else if need == step_id(steps, i) {
            Some("step `"@ + step_id(steps, i) + "` cannot need itself"@)
        } else {
            need_error_from(steps, i, k + 1)
        }
    }
}

/// The first placeholder of `found`, from `k` on, that `params` does not
/// declare.
pub open spec fn placeholder_error_from(found: Seq<Seq<char>>, params: Seq<Seq<char>>, k: int) -> Option<Seq<char>>
    decreases found.len() - k,
{
    if k < 0 || k >= found.len() {
        None
    } else if !params.contains(found[k]) {
        Some("placeholder $"@ + found[k] + " is not declared in recipe.params"@)
    } else {
        placeholder_error_from(found, params, k + 1)
    }
}

/// An `invoke` must name an invoke schema of the registry.
pub open spec fn invoke_error(op: Op, registry: Registry) -> Option<Seq<char>> {
    match op {
        Op::Invoke { name, .. } => match registry.find(name@) {
            Some(j) => if registry.entries()[j].kind == SchemaKind::Invoke {
                None
            } else {
                Some("invoke `"@ + name@ + "` is registered but is not an invoke schema"@)
            },
            None => Some("unknown invoke `"@ + name@ + "` (not in schema registry; fail closed)"@),
        },
        _ => None,
    }
}

/// The first error of step `i`: its needs, then the placeholders found in
/// its op, then its invoke name.
pub open spec fn step_error(
    steps: Seq<RecipeStep>,
    registry: Registry,
    found: Seq<Seq<Seq<char>>>,
    params: Seq<Seq<char>>,
    i: int,
) -> Option<Seq<char>> {
    match need_error_from(steps, i, 0) {
        Some(e) => Some(e),
        None => match placeholder_error_from(found[i], params, 0) {
            Some(e) => Some(e),
            None => invoke_error(steps[i].op, registry),
        },
    }
}

pub open spec fn first_step_error(
    steps: Seq<RecipeStep>,
    registry: Registry,
    found: Seq<Seq<Seq<char>>>,
    params: Seq<Seq<char>>,
    i: int,
) -> Option<Seq<char>>
    decreases steps.len() - i,
{
    if i < 0 || i >= steps.len() {
        None
    } else {
        match step_error(steps, registry, found, params, i) {
            Some(e) => Some(e),
            None => first_step_error(steps, registry, found, params, i + 1),
        }
    }
}

/// Why a recipe is refused, checked in this order: its version, its name,
/// its step count, its step ids, then each step in turn.
pub open spec fn recipe_error(recipe: Recipe, registry: Registry, found: Seq<Seq<Seq<char>>>) -> Option<Seq<char>> {
    let steps = recipe.steps@;
    if recipe.v != RECIPE_FORMAT_VERSION {
        Some("unsupported recipe version "@ + decimal(recipe.v as nat) + " (want 1)"@)
    } else if trim(recipe.name@).len() == 0 {
        Some("recipe name cannot be empty"@)
    } else if steps.len() == 0 {
        Some("recipe has no steps"@)
    } else if steps.len() > MAX_RECIPE_STEPS {
        Some("recipe has "@ + decimal(steps.len()) + " steps (max 256)"@)
    } else {
        match first_id_error(steps, 0) {
            Some(e) => Some(e),
            None => first_step_error(steps, registry, found, strings_view(recipe.params@), 0),
        }
    }
}

/// The recipe-level checks pass: version, name, step count.
pub open spec fn header_ok(recipe: Recipe) -> bool {
    &&& recipe.v == RECIPE_FORMAT_VERSION
    &&& trim(recipe.name@).len() != 0
    &&& 0 < recipe.steps@.len() <= MAX_RECIPE_STEPS
}

pub open spec fn found_view(found: Seq<Vec<String>>) -> Seq<Seq<Seq<char>>> {
    Seq::new(found.len(), |i: int| strings_view(found[i]@))
}

fn contains_str(v: &Vec<String>, x: &str) -> (r: bool)
    ensures
        r == strings_view(v@).contains(x@),
{
    let mut i: usize = 0;
    while i < v.len()
        invariant
            i <= v.len(),
            forall|j: int| 0 <= j < i ==> #[trigger] strings_view(v@)[j] != x@,
        decreases v.len() - i,
    {
        if str_eq(v[i].as_str(), x) {
            assert(strings_view(v@)[i as int] == x@);
            return true;
        }
        i += 1;
    }
    proof {
        if strings_view(v@).contains(x@) {
            let j = choose|j: int| 0 <= j < strings_view(v@).len() && strings_view(v@)[j] == x@;
            assert(strings_view(v@)[j] != x@);
        }
    }
    false
}

pub(crate) fn step_id_index(steps: &Vec<RecipeStep>, upto: usize, id: &str) -> (r: bool)
    requires
        upto <= steps.len(),
    ensures
        r == exists|j: int| 0 <= j < upto && #[trigger] step_id(steps@, j) == id@,
{
    let mut j: usize = 0;
    while j < upto
        invariant
            j <= upto <= steps.len(),
            forall|q: int| 0 <= q < j ==> #[trigger] step_id(steps@, q) != id@,
        decreases upto - j,
    {
        if str_eq(steps[j].id.as_str(), id) {
            assert(step_id(steps@, j as int) == id@);
            return true;
        }
        j += 1;
    }
    false
}

/// Check a recipe against `found`, where `found[i]` lists the `$param`
/// names the op of step `i` uses (sorted, once each); the registry
/// supplies the invoke schemas.
pub fn validate_with_found(recipe: &Recipe, registry: &Registry, found: &Vec<Vec<String>>) -> (r: Result<(), String>)
    requires
        found@.len() == recipe.steps@.len(),
    ensures
        match recipe_error(*recipe, *registry, found_view(found@)) {
            Some(e) => r matches Err(x) && x@ == e,
            None => r is Ok,
        },
{
    proof {
        use_type_invariant(registry);
    }
    let steps = &recipe.steps;
    if recipe.v != RECIPE_FORMAT_VERSION {
        let mut e = "unsupported recipe version ".to_owned();
        push_chars(&mut e, &decimal_string(recipe.v as u64));
        e.append(" (want 1)");
        return Err(e);
    }
    if trim_chars(&chars_of(recipe.name.as_str())).len() == 0 {
        return Err("recipe name cannot be empty".to_owned());
    }
    if steps.len() == 0 {
        return Err("recipe has no steps".to_owned());
    }
    if steps.len() > MAX_RECIPE_STEPS {
        let mut e = "recipe has ".to_owned();
        push_chars(&mut e, &decimal_string(steps.len() as u64));
        e.append(" steps (max 256)");
        return Err(e);
    }
    let ghost sv = steps@;
    assert(header_ok(*recipe));
    let mut i: usize = 0;
    while i < steps.len()
        invariant
            i <= steps.len(),
            sv == steps@,
            steps == &recipe.steps,
            header_ok(*recipe),
            first_id_error(sv, 0) == first_id_error(sv, i as int),
        decreases steps.len() - i,
    {
        let id = steps[i].id.as_str();
        if trim_chars(&chars_of(id)).len() == 0 {
            return Err("step id cannot be empty".to_owned());
        }
        if step_id_index(steps, i, id) {
            let mut e = "duplicate step id `".to_owned();
            e.append(id);
            e.append("`");
            return Err(e);
        }
        i += 1;
    }
    let ghost fv = found_view(found@);
    let ghost pv = strings_view(recipe.params@);
    let mut i: usize = 0;
    while i < steps.len()
        invariant
            i <= steps.len(),
            sv == steps@,
            fv == found_view(found@),
            pv == strings_view(recipe.params@),
            found@.len() == sv.len(),
            registry.wf(),
            steps == &recipe.steps,
            header_ok(*recipe),
            first_id_error(sv, 0) is None,
            first_step_error(sv, *registry, fv, pv, 0) == first_step_error(sv, *registry, fv, pv, i as int),
        decreases steps.len() - i,
    {
        let id = steps[i].id.as_str();
        let mut k: usize = 0;
        while k < steps[i].needs.len()
            invariant
                i < steps.len(),
                sv == steps@,
                fv == found_view(found@),
                pv == strings_view(recipe.params@),
                found@.len() == sv.len(),
                registry.wf(),
                steps == &recipe.steps,
                header_ok(*recipe),
                first_id_error(sv, 0) is None,
                first_step_error(sv, *registry, fv, pv, 0) == first_step_error(sv, *registry, fv, pv, i as int),
                id@ == step_id(sv, i as int),
                k <= sv[i as int].needs@.len(),
                need_error_from(sv, i as int, 0) == need_error_from(sv, i as int, k as int),
            decreases sv[i as int].needs@.len() - k,
        {
            let need = steps[i].needs[k].as_str();
            if !step_id_index(steps, steps.len(), need) {
                let mut e = "step `".to_owned();
                e.append(id);
                e.append("` needs unknown `");
                e.append(need);
                e.append("`");
                return Err(e);
            }
            if str_eq(need, id) {
                let mut e = "step `".to_owned();
                e.append(id);
                e.append("` cannot need itself");
                return Err(e);
            }
            k += 1;
        }
        let names = &found[i];
        assert(fv[i as int] == strings_view(names@));
        let mut k: usize = 0;
        while k < names.len()
            invariant
                i < steps.len(),
                sv == steps@,
                fv == found_view(found@),
                found@.len() == sv.len(),
                registry.wf(),
                steps == &recipe.steps,
                header_ok(*recipe),
                first_id_error(sv, 0) is None,
                first_step_error(sv, *registry, fv, pv, 0) == first_step_error(sv, *registry, fv, pv, i as int),
                need_error_from(sv, i as int, 0) is None,
                k <= names.len(),
                fv[i as int] == strings_view(names@),
                pv == strings_view(recipe.params@),
                placeholder_error_from(fv[i as int], pv, 0) == placeholder_error_from(fv[i as int], pv, k as int),
            decreases names.len() - k,
        {
            assert(strings_view(names@)[k as int] == names@[k as int]@);
            if !contains_str(&recipe.params, names[k].as_str()) {
                let mut e = "placeholder $".to_owned();
                e.append(names[k].as_str());
                e.append(" is not declared in recipe.params");
                return Err(e);
            }
            k += 1;
        }
        match &steps[i].op {
            Op::Invoke { name, .. } => {
                match registry.get(name.as_str()) {
                    Some(schema) => {
                        if schema.kind != SchemaKind::Invoke {
                            let mut e = "invoke `".to_owned();
                            e.append(name.as_str());
                            e.append("` is registered but is not an invoke schema");
                            return Err(e);
                        }
                    },
                    None => {
                        let mut e = "unknown invoke `".to_owned();
                        e.append(name.as_str());
                        e.append("` (not in schema registry; fail closed)");
                        return Err(e);
                    },
                }
            },
            _ => {},
        }
        i += 1;
    }
    Ok(())
}

// ---------------------------------------------------------------------------
// `.wants` files
// ---------------------------------------------------------------------------

pub open spec fn strip_cr(l: Seq<char>) -> Seq<char> {
    if l.len() > 0 && l.last() == '\r' {
        l.drop_last()
    } else {
        l
    }
}

/// `str::lines`: split at `\n`, drop a `\r` before each `\n`; a final line
/// ending adds no empty line.
pub open spec fn lines_spec(s: Seq<char>) -> Seq<Seq<char>> {
    let p = split_on(s, '\n');
    let n = p.len() as int;
    Seq::new((n - 1) as nat, |i: int| strip_cr(p[i])) + if p[n - 1].len() > 0 {
        seq![p[n - 1]]
    } else {
        Seq::empty()
    }
}

/// The ops of the `.wants` lines from line `i` on. Blank lines and `#`
/// comments are skipped; a line that fails names its 1-based number.
pub open spec fn wants_from(lines: Seq<Seq<char>>, i: int) -> Result<Seq<WantsOp>, Seq<char>>
    decreases lines.len() - i,
{
    if i < 0 || i >= lines.len() {
        Ok(Seq::empty())
    } else {
        let line = trim(lines[i]);
        if line.len() == 0 || line[0] == '#' {
            wants_from(lines, i + 1)
        } else {
            match tokenize_spec(line) {
                Err(e) => Err(e),
                Ok(toks) => if toks.len() == 0 {
                    wants_from(lines, i + 1)
                } else {
                    match wants_op_spec(toks) {
                        Err(e) => Err("line "@ + decimal((i + 1) as nat) + ": "@ + e),
                        Ok(w) => match wants_from(lines, i + 1) {
                            Ok(rest) => Ok(seq![w] + rest),
                            Err(e) => Err(e),
                        },
                    }
                },
            }
        }
    }
}

/// The ops of a `.wants` text, or why it is refused.
pub open spec fn wants_spec(text: Seq<char>) -> Result<Seq<WantsOp>, Seq<char>> {
    match wants_from(lines_spec(text), 0) {
        Ok(ws) => if ws.len() == 0 {
            Err("recipe has no steps"@)
        } else {
            Ok(ws)
        },
        Err(e) => Err(e),
    }
}

/// `s{n}`: the id of the `n`-th step of a `.wants` recipe.
pub open spec fn wants_id(n: nat) -> Seq<char> {
    "s"@ + decimal(n)
}

pub open spec fn steps_match(steps: Seq<RecipeStep>, ws: Seq<WantsOp>) -> bool {
    &&& steps.len() == ws.len()
    &&& forall|k: int|
        0 <= k < steps.len() ==> op_is(#[trigger] steps[k].op, ws[k]) && steps[k].id@ == wants_id(
            (k + 1) as nat,
        ) && steps[k].needs@.len() == 0 && !steps[k].screenshot
}

fn lines_of(text: &str) -> (r: Vec<Vec<char>>)
    ensures
        r@.len() == lines_spec(text@).len(),
        forall|i: int| 0 <= i < r@.len() ==> #[trigger] r@[i]@ == lines_spec(text@)[i],
{
    let parts = split_chars(&chars_of(text), '\n');
    let ghost p = split_on(text@, '\n');
    proof {
        lemma_split_on_nonempty(text@, '\n');
    }
    let n = parts.len();
    let mut out: Vec<Vec<char>> = Vec::new();
    let mut i: usize = 0;
    while i + 1 < n
        invariant
            n == parts.len(),
            n == p.len(),
            n >= 1,
            i < n,
            p == split_on(text@, '\n'),
            forall|k: int| 0 <= k < n ==> #[trigger] parts@[k]@ == p[k],
            out@.len() == i,
            forall|k: int| 0 <= k < i ==> #[trigger] out@[k]@ == strip_cr(p[k]),
        decreases n - i,
    {
        let mut l = parts[i].clone();
        let ghost l0 = l@;
        assert(l0 == p[i as int]);
        if l.len() > 0 && l[l.len() - 1] == '\r' {
            l.pop();
            assert(l@ =~= l0.drop_last());
        }
        out.push(l);
        i += 1;
    }
    if parts[n - 1].len() > 0 {
        out.push(parts[n - 1].clone());
    }
    proof {
        let spec = lines_spec(text@);
        assert forall|k: int| 0 <= k < out@.len() implies #[trigger] out@[k]@ == spec[k] by {
            if k < n - 1 {
                assert(spec[k] == strip_cr(p[k]));
            } else {
                assert(spec[k] == p[n - 1]);
            }
        }
    }
    out
}

/// The steps of a `.wants` text (already trimmed): one protocol op per
/// line, `#` comments, ids `s1`, `s2`, ...
pub fn parse_wants_steps(text: &str) -> (r: Result<Vec<RecipeStep>, String>)
    ensures
        match r {
            Ok(steps) => wants_spec(text@) matches Ok(ws) && steps_match(steps@, ws),
            Err(e) => wants_spec(text@) == Err::<Seq<WantsOp>, Seq<char>>(e@),
        },
{
    let lines = lines_of(text);
    let ghost lv = Seq::new(lines@.len(), |i: int| lines@[i]@);
    assert(lv =~= lines_spec(text@));
    let mut steps: Vec<RecipeStep> = Vec::new();
    let ghost mut ws: Seq<WantsOp> = Seq::empty();
    let mut i: usize = 0;
    while i < lines.len()
        invariant
            i <= lines.len(),
            lv == lines_spec(text@),
            lv.len() == lines@.len(),
            forall|k: int| 0 <= k < lines@.len() ==> #[trigger] lines@[k]@ == lv[k],
            steps_match(steps@, ws),
            wants_from(lv, 0) == match wants_from(lv, i as int) {
                Ok(rest) => Ok::<Seq<WantsOp>, Seq<char>>(ws + rest),
                Err(e) => Err(e),
            },
            steps@.len() < i + 1,
        decreases lines.len() - i,
    {
        let line = trim_chars(&lines[i]);
        assert(line@ == trim(lv[i as int]));
        if line.len() == 0 || line[0] == '#' {
            i += 1;
            continue;
        }
        let text_line = string_of(line.as_slice());
        let tokens = match tokenize(text_line.as_str()) {
            Ok(t) => t,
            Err(e) => return Err(e),
        };
        if tokens.len() == 0 {
            proof {
                assert(strings_view(tokens@) =~= Seq::<Seq<char>>::empty());
            }
            i += 1;
            continue;
        }
        let mut id = "s".to_owned();
        push_chars(&mut id, &decimal_string(steps.len() as u64 + 1));
        let step = match parse_wants_step(tokens.as_slice(), id) {
            Ok(st) => st,
            Err(e) => {
                let mut m = "line ".to_owned();
                push_chars(&mut m, &decimal_string(i as u64 + 1));
                m.append(": ");
                m.append(e.as_str());
                return Err(m);
            },
        };
        let ghost w = wants_op_spec(strings_view(tokens@))->Ok_0;
        proof {
            match wants_from(lv, i + 1) {
                Ok(rest) => {
                    assert(ws + (seq![w] + rest) =~= ws.push(w) + rest);
                },
                Err(_) => {},
            }
        }
        let ghost before = steps@;
        steps.push(step);
        proof {
            ws = ws.push(w);
            assert forall|k: int| 0 <= k < steps@.len() implies op_is(#[trigger] steps@[k].op, ws[k]) && steps@[k].id@ == wants_id((k + 1) as nat) && steps@[k].needs@.len() == 0 && !steps@[k].screenshot by {
                if k < before.len() {
                    assert(steps@[k] == before[k]);
                }
            }
        }
        i += 1;
    }
    assert(ws + Seq::<WantsOp>::empty() =~= ws);
    if steps.len() == 0 {
        return Err("recipe has no steps".to_owned());
    }
    Ok(steps)
}

/// Check a recipe before it is planned: its version, name, step count and
/// step ids, then each step's needs, the `$param` names its op uses (each
/// must be declared in `params`) and its invoke name against the registry.
pub fn validate_recipe(recipe: &Recipe, registry: &Registry) -> (r: Result<(), String>)
    ensures
        exists|found: Seq<Seq<Seq<char>>>| {
            &&& lists_names(found, recipe.steps@)
            &&& match recipe_error(*recipe, *registry, found) {
                Some(e) => r matches Err(x) && x@ == e,
                None => r is Ok,
            }
        },
        r is Ok ==> forall|i: int, y: Seq<char>|
            0 <= i < recipe.steps@.len() && #[trigger] op_names(recipe.steps@[i].op).contains(y)
                ==> strings_view(recipe.params@).contains(y),
{
    proof {
        use_type_invariant(registry);
    }
    let found = step_placeholders(&recipe.steps);
    let r = validate_with_found(recipe, registry, &found);
    proof {
        let fv = found_view(found@);
        if r is Ok {
            lemma_checked_recipe_declares_placeholders(*recipe, *registry, fv);
        }
    }
    r
}

/// `recipe` is what the `.wants` text `text` spells, called `name`.
pub open spec fn wants_recipe(text: Seq<char>, name: Seq<char>, recipe: Recipe) -> bool {
    &&& wants_spec(text) matches Ok(ws) && steps_match(recipe.steps@, ws)
    &&& recipe.v == RECIPE_FORMAT_VERSION
    &&& recipe.name@ == name
    &&& recipe.app is None
    &&& sorted_strictly(strings_view(recipe.params@))
    &&& forall|y: Seq<char>| #[trigger] strings_view(recipe.params@).contains(y) <==> steps_names(recipe.steps@).contains(y)
}

/// Parse a `.wants` file into a recipe called `name`: the current format
/// version, no app, and as params every placeholder name its steps use,
/// sorted, once each.
pub fn parse_wants(text: &str, name: &str) -> (r: Result<Recipe, String>)
    ensures
        match r {
            Ok(recipe) => wants_recipe(text@, name@, recipe),
            Err(e) => wants_spec(text@) == Err::<Seq<WantsOp>, Seq<char>>(e@),
        },
{
    let steps = match parse_wants_steps(text) {
        Ok(steps) => steps,
        Err(e) => return Err(e),
    };
    let mut params: Vec<String> = Vec::new();
    assert(strings_view(params@) =~= Seq::<Seq<char>>::empty());
    let mut i: usize = 0;
    while i < steps.len()
        invariant
            i <= steps@.len(),
            sorted_strictly(strings_view(params@)),
            forall|y: Seq<char>| #[trigger] strings_view(params@).contains(y) <==>
                exists|k: int| 0 <= k < i && #[trigger] op_names(steps@[k].op).contains(y),
        decreases steps.len() - i,
    {
        let names = op_placeholders(&steps[i].op);
        let ghost before = strings_view(params@);
        let mut j: usize = 0;
        while j < names.len()
            invariant
                i < steps@.len(),
                j <= names@.len(),
                sorted_strictly(strings_view(params@)),
                forall|y: Seq<char>| #[trigger] strings_view(names@).contains(y) <==> op_names(steps@[i as int].op).contains(y),
                forall|y: Seq<char>| #[trigger] strings_view(params@).contains(y) <==>
                    (before.contains(y) || exists|q: int| 0 <= q < j && strings_view(names@)[q] == y),
            decreases names.len() - j,
        {
            let ghost mid = strings_view(params@);
            let x = names[j].clone();
            assert(x@ == strings_view(names@)[j as int]);
            add_name(&mut params, x);
            assert forall|y: Seq<char>| #[trigger] strings_view(params@).contains(y) <==>
                (before.contains(y) || exists|q: int| 0 <= q < j + 1 && strings_view(names@)[q] == y) by {
                assert(strings_view(params@).contains(y) <==> (mid.contains(y) || y == strings_view(names@)[j as int]));
                assert(mid.contains(y) <==> (before.contains(y) || exists|q: int| 0 <= q < j && strings_view(names@)[q] == y));
                if exists|q: int| 0 <= q < j + 1 && strings_view(names@)[q] == y {
                    let q = choose|q: int| 0 <= q < j + 1 && strings_view(names@)[q] == y;
                    if q < j {
                        assert(exists|q2: int| 0 <= q2 < j && strings_view(names@)[q2] == y);
                    }
                }
                if y == strings_view(names@)[j as int] {
                    assert(0 <= j < j + 1 && strings_view(names@)[j as int] == y);
                }
            }
            j += 1;
        }
        assert forall|y: Seq<char>| #[trigger] strings_view(params@).contains(y) <==>
            exists|k: int| 0 <= k < i + 1 && #[trigger] op_names(steps@[k].op).contains(y) by {
            assert(strings_view(params@).contains(y) <==> (before.contains(y) || exists|q: int| 0 <= q < j && strings_view(names@)[q] == y));
            assert(before.contains(y) <==> exists|k: int| 0 <= k < i && #[trigger] op_names(steps@[k].op).contains(y));
            if exists|q: int| 0 <= q < j && strings_view(names@)[q] == y {
                let q = choose|q: int| 0 <= q < j && strings_view(names@)[q] == y;
                assert(strings_view(names@).contains(y));
                assert(op_names(steps@[i as int].op).contains(y));
            }
            if op_names(steps@[i as int].op).contains(y) {
                assert(strings_view(names@).contains(y));
                let q = choose|q: int| 0 <= q < names@.len() && strings_view(names@)[q] == y;
                assert(0 <= q < j && strings_view(names@)[q] == y);
            }
            if exists|k: int| 0 <= k < i + 1 && #[trigger] op_names(steps@[k].op).contains(y) {
                let k = choose|k: int| 0 <= k < i + 1 && #[trigger] op_names(steps@[k].op).contains(y);
                if k < i {
                    assert(exists|k2: int| 0 <= k2 < i && #[trigger] op_names(steps@[k2].op).contains(y));
                }
            }
        }
        i += 1;
    }
    let recipe = Recipe { v: recipe_v1(), name: name.to_owned(), app: None, params, steps };
    assert forall|y: Seq<char>| #[trigger] strings_view(recipe.params@).contains(y) <==> steps_names(recipe.steps@).contains(y) by {}
    Ok(recipe)
}

/// The JSON object that `KEY=VALUE` arguments spell: each value is the
/// JSON it parses as, else a string; a later key replaces an earlier one.
pub fn invoke_args(pairs: &Vec<String>) -> (r: Result<serde_json::Value, String>)
    ensures
        match set_pairs_spec(strings_view(pairs@)) {
            Ok(p) => r == Ok::<serde_json::Value, String>(invoke_args_spec(p)),
            Err(e) => r matches Err(x) && x@ == e,
        },
{
    match parse_set(pairs) {
        Ok(p) => Ok(invoke_args_json(&p)),
        Err(e) => Err(e),
    }
}

/// A recipe file's text once trimmed: JSON for the caller to read into a
/// recipe, or the recipe its `.wants` lines spell.
#[derive(Debug)]
pub enum RecipeSource {
    Json(String),
    Wants(Recipe),
}

/// The text is read as JSON when the caller says so (a `.json` file) or
/// when, trimmed, it starts with `{`.
pub open spec fn json_source(text: Seq<char>, force_json: bool) -> bool {
    force_json || (trim(text).len() > 0 && trim(text)[0] == '{')
}

/// Read a recipe file's text: trimmed, it is JSON (see [`json_source`])
/// or `.wants` lines parsed into a recipe called `name`.
pub fn parse_recipe_source(text: &str, name: &str, force_json: bool) -> (r: Result<RecipeSource, String>)
    ensures
        json_source(text@, force_json) ==> (r matches Ok(RecipeSource::Json(t)) && t@ == trim(text@)),
        !json_source(text@, force_json) ==> match r {
            Ok(RecipeSource::Wants(recipe)) => wants_recipe(trim(text@), name@, recipe),
            Ok(RecipeSource::Json(_)) => false,
            Err(e) => wants_spec(trim(text@)) == Err::<Seq<WantsOp>, Seq<char>>(e@),
        },
{
    let trimmed = string_of(trim_chars(&chars_of(text)).as_slice());
    let is_json = if force_json {
        true
    } else {
        let cs = chars_of(trimmed.as_str());
        cs.len() > 0 && cs[0] == '{'
    };
    if is_json {
        Ok(RecipeSource::Json(trimmed))
    } else {
        match parse_wants(trimmed.as_str(), name) {
            Ok(recipe) => Ok(RecipeSource::Wants(recipe)),
            Err(e) => Err(e),
        }
    }
}


proof fn lemma_name_type(t: Seq<Seq<char>>)
    requires
        t.len() > 0,
        t[0] == "type"@,
    ensures
        dash_to_underscore(t[0]) == "type"@,
{
    reveal_strlit("type");
    assert(dash_to_underscore(t[0]) =~= "type"@);
}

proof fn lemma_name_key(t: Seq<Seq<char>>)
    requires
        t.len() > 0,
        t[0] == "key"@,
    ensures
        dash_to_underscore(t[0]) == "key"@,
{
    reveal_strlit("key");
    assert(dash_to_underscore(t[0]) =~= "key"@);
}

proof fn lemma_type_is_not_other(n: Seq<char>)
    requires
        n == "type"@ || n == "key"@,
    ensures
        n != "wait"@ && n != "hello"@ && n != "snapshot"@ && n != "shutdown"@ && n != "click"@,
        n == "key"@ ==> n != "type"@ && n != "set_value"@,
{
    reveal_strlit("type");
    reveal_strlit("key");
    reveal_strlit("wait");
    reveal_strlit("hello");
    reveal_strlit("snapshot");
    reveal_strlit("shutdown");
    reveal_strlit("click");
    reveal_strlit("set_value");
    if n == "type"@ {
        assert(n.len() != "hello"@.len());
        assert(n.len() != "snapshot"@.len());
        assert(n.len() != "shutdown"@.len());
        assert(n.len() != "click"@.len());
        assert(n[0] != "wait"@[0]);
    } else {
        assert(n.len() != "wait"@.len());
        assert(n.len() != "hello"@.len());
        assert(n.len() != "snapshot"@.len());
        assert(n.len() != "shutdown"@.len());
        assert(n.len() != "click"@.len());
        assert(n.len() != "type"@.len());
        assert(n.len() != "set_value"@.len());
    }
}

/// A `.wants` line `type T X` types the text `X` (the second token after
/// the name) into the target `T` (the first); with `--delivery M` in front
/// of them, the two tokens after it are read the same way, with delivery
/// `M`. The same holds of `key T K`: target first, key name second.
pub proof fn lemma_type_and_key_lines(t: Seq<Seq<char>>)
    requires
        t.len() >= 3,
        t[0] == "type"@ || t[0] == "key"@,
    ensures
        t[0] == "type"@ && t[1] != "--delivery"@ ==> wants_op_spec(t) == Ok::<WantsOp, Seq<char>>(
            WantsOp::Type(t[1], t[2], DeliveryMode::Semantic),
        ),
        t[0] == "type"@ && t.len() >= 5 && t[1] == "--delivery"@ && parse_delivery_spec(t[2]) is Ok
            ==> wants_op_spec(t) == Ok::<WantsOp, Seq<char>>(
            WantsOp::Type(t[3], t[4], parse_delivery_spec(t[2])->Ok_0),
        ),
        t[0] == "key"@ && t[1] != "--delivery"@ ==> wants_op_spec(t) == Ok::<WantsOp, Seq<char>>(
            WantsOp::Key(t[1], t[2], DeliveryMode::Semantic),
        ),
        t[0] == "key"@ && t.len() >= 5 && t[1] == "--delivery"@ && parse_delivery_spec(t[2]) is Ok
            ==> wants_op_spec(t) == Ok::<WantsOp, Seq<char>>(
            WantsOp::Key(t[3], t[4], parse_delivery_spec(t[2])->Ok_0),
        ),
{
    let tail = t.subrange(1, t.len() as int);
    assert(tail[0] == t[1]);
    assert(tail.len() == t.len() - 1);
    if t[0] == "type"@ {
        lemma_name_type(t);
        lemma_type_is_not_other(dash_to_underscore(t[0]));
        if t.len() >= 5 {
            assert(tail[1] == t[2] && tail[2] == t[3] && tail[3] == t[4]);
        } else {
            assert(tail[1] == t[2]);
        }
    } else {
        lemma_name_key(t);
        lemma_type_is_not_other(dash_to_underscore(t[0]));
        if t.len() >= 5 {
            assert(tail[1] == t[2] && tail[2] == t[3] && tail[3] == t[4]);
        } else {
            assert(tail[1] == t[2]);
        }
    }
}

} // verus!
