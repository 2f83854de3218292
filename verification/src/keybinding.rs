//! Allow-listed Action dispatch (`keybinding` / `keybindings` ops).
//!
//! This is not free-form virtual `key`: modifier chords are Action ids the
//! host registered, never OS HID. Every host applies [`authorize_keybinding`]
//! before it dispatches an Action.

use vstd::prelude::*;

use crate::dispatch::DispatchResult;
use crate::protocol::{KeybindingScope, Op, scope_name};
use crate::text::{
    chars_of, concat3, ends_with, is_upper, join, has_tag, has_tag_exec, is_ws, is_ws_exec, lower,
    lower_char, lower_seq, push_chars, seq_eq, tagged, tagged_string, trim, trim_chars, trim_end,
    trim_start,
};

verus! {

/// Stable error prefix so agents can branch without parsing prose.
pub const KEYBINDING_UNAVAILABLE: &'static str = "keybinding_unavailable";

pub fn keybinding_unavailable(detail: &str) -> (r: String)
    ensures
        r@ == tagged(KEYBINDING_UNAVAILABLE@, detail@),
{
    tagged_string(KEYBINDING_UNAVAILABLE, detail)
}

pub fn is_keybinding_unavailable(error: &str) -> (r: bool)
    ensures
        r == has_tag(error@, KEYBINDING_UNAVAILABLE@),
{
    has_tag_exec(error, KEYBINDING_UNAVAILABLE)
}

/// One row of the host's keybinding catalog.
#[derive(Debug, Clone)]
pub struct KeybindingInfo {
    pub id: String,
    pub chord: String,
    pub scope: KeybindingScope,
    pub dangerous: bool,
}

impl KeybindingInfo {
    pub fn new(id: &str, chord: &str, scope: KeybindingScope, dangerous: bool) -> (r: Self)
        ensures
            r.id@ == id@,
            r.chord@ == chord@,
            r.scope == scope,
            r.dangerous == dangerous,
    {
        KeybindingInfo { id: id.to_owned(), chord: chord.to_owned(), scope, dangerous }
    }
}

/// Fields of a `keybinding` op used by the shared authorize gate.
#[derive(Debug, Clone, Copy)]
pub struct KeybindingRequest<'a> {
    pub binding: &'a str,
    pub chord: Option<&'a str>,
    pub scope: KeybindingScope,
    pub confirm: bool,
    pub activate: bool,
}

/// Whitespace runs inside an already-trimmed string become one `-`: what
/// `split_whitespace().collect::<Vec<_>>().join("-")` produces.
pub open spec fn dash_runs(s: Seq<char>) -> Seq<char>
    decreases s.len(),
{
    if s.len() == 0 {
        s
    } else if is_ws(s[0]) {
        if s.len() > 1 && is_ws(s[1]) {
            dash_runs(s.drop_first())
        } else {
            seq!['-'] + dash_runs(s.drop_first())
        }
    } else {
        seq![s[0]] + dash_runs(s.drop_first())
    }
}

/// `str::replace(from, to)`: non-overlapping occurrences, left to right.
pub open spec fn replace_all(s: Seq<char>, from: Seq<char>, to: Seq<char>) -> Seq<char>
    recommends
        from.len() > 0,
    decreases s.len(),
{
    if s.len() == 0 || from.len() == 0 {
        s
    } else if from.len() <= s.len() && s.subrange(0, from.len() as int) == from {
        to + replace_all(s.subrange(from.len() as int, s.len() as int), from, to)
    } else {
        seq![s[0]] + replace_all(s.drop_first(), from, to)
    }
}

/// Canonical chord spelling: trimmed, lowercased, whitespace runs as `-`,
/// `command` as `cmd`, `control` as `ctrl`.
pub open spec fn normalize_chord_spec(chord: Seq<char>) -> Seq<char> {
    replace_all(
        replace_all(dash_runs(lower(trim(chord))), "command"@, "cmd"@),
        "control"@,
        "ctrl"@,
    )
}

pub open spec fn is_quit_binding_spec(binding: Seq<char>) -> bool {
    let n = lower(trim(binding));
    n == "quit"@ || n == "app.quit"@ || ends_with(n, ".quit"@)
}

pub open spec fn is_quit_chord_spec(chord: Seq<char>) -> bool {
    let n = normalize_chord_spec(chord);
    n == "cmd-q"@ || n == "super-q"@ || n == "meta-q"@ || n == "win-q"@
}

pub open spec fn dangerous_spec(entry: KeybindingInfo) -> bool {
    entry.dangerous || is_quit_binding_spec(entry.id@) || is_quit_chord_spec(entry.chord@)
}

proof fn lemma_dash_runs_step(s: Seq<char>, i: int)
    requires
        0 <= i < s.len(),
    ensures
        dash_runs(s.subrange(i, s.len() as int)) == (if is_ws(s[i]) {
            if i + 1 < s.len() && is_ws(s[i + 1]) {
                dash_runs(s.subrange(i + 1, s.len() as int))
            } else {
                seq!['-'] + dash_runs(s.subrange(i + 1, s.len() as int))
            }
        } else {
            seq![s[i]] + dash_runs(s.subrange(i + 1, s.len() as int))
        }),
{
    let t = s.subrange(i, s.len() as int);
    assert(t.drop_first() =~= s.subrange(i + 1, s.len() as int));
    assert(t[0] == s[i]);
    if t.len() > 1 {
        assert(t[1] == s[i + 1]);
    }
}

fn dash_runs_exec(s: &Vec<char>) -> (r: Vec<char>)
    ensures
        r@ == dash_runs(s@),
{
    let mut out: Vec<char> = Vec::new();
    let mut i: usize = 0;
    assert(s@.subrange(0, s.len() as int) =~= s@);
    assert(out@ + dash_runs(s@) =~= dash_runs(s@));
    while i < s.len()
        invariant
            i <= s.len(),
            out@ + dash_runs(s@.subrange(i as int, s.len() as int)) == dash_runs(s@),
        decreases s.len() - i,
    {
        proof {
            lemma_dash_runs_step(s@, i as int);
        }
        let ghost before = out@;
        if is_ws_exec(s[i]) {
            if i + 1 < s.len() && is_ws_exec(s[i + 1]) {
            } else {
                out.push('-');
                assert(out@ =~= before + seq!['-']);
            }
        } else {
            out.push(s[i]);
            assert(out@ =~= before + seq![s@[i as int]]);
        }
        i += 1;
    }
    assert(s@.subrange(s.len() as int, s.len() as int) =~= Seq::<char>::empty());
    assert(out@ + Seq::<char>::empty() =~= out@);
    out
}

proof fn lemma_replace_match(s: Seq<char>, i: int, from: Seq<char>, to: Seq<char>)
    requires
        0 <= i < s.len(),
        from.len() > 0,
    ensures
        replace_all(s.subrange(i, s.len() as int), from, to) == (if i + from.len() <= s.len()
            && s.subrange(i, i + from.len()) == from {
            to + replace_all(s.subrange(i + from.len(), s.len() as int), from, to)
        } else {
            seq![s[i]] + replace_all(s.subrange(i + 1, s.len() as int), from, to)
        }),
{
    let t = s.subrange(i, s.len() as int);
    assert(t.drop_first() =~= s.subrange(i + 1, s.len() as int));
    if i + from.len() <= s.len() {
        assert(t.subrange(0, from.len() as int) =~= s.subrange(i, i + from.len()));
        assert(t.subrange(from.len() as int, t.len() as int) =~= s.subrange(
            i + from.len(),
            s.len() as int,
        ));
    }
}

fn matches_at(s: &Vec<char>, i: usize, from: &Vec<char>) -> (r: bool)
    requires
        i <= s.len(),
    ensures
        r == (i + from.len() <= s.len() && s@.subrange(i as int, i + from.len()) == from@),
{
    if from.len() > s.len() - i {
        return false;
    }
    let mut k: usize = 0;
    while k < from.len()
        invariant
            i + from.len() <= s.len(),
            k <= from.len(),
            forall|j: int| 0 <= j < k ==> s@[i + j] == from@[j],
        decreases from.len() - k,
    {
        if s[i + k] != from[k] {
            assert(s@.subrange(i as int, i + from.len())[k as int] != from@[k as int]);
            return false;
        }
        k += 1;
    }
    assert(s@.subrange(i as int, i + from.len()) =~= from@);
    true
}

fn replace_exec(s: &Vec<char>, from: &Vec<char>, to: &Vec<char>) -> (r: Vec<char>)
    requires
        from.len() > 0,
    ensures
        r@ == replace_all(s@, from@, to@),
{
    let mut out: Vec<char> = Vec::new();
    let mut i: usize = 0;
    assert(s@.subrange(0, s.len() as int) =~= s@);
    while i < s.len()
        invariant
            i <= s.len(),
            from.len() > 0,
            out@ + replace_all(s@.subrange(i as int, s.len() as int), from@, to@) == replace_all(
                s@,
                from@,
                to@,
            ),
        decreases s.len() - i,
    {
        proof {
            lemma_replace_match(s@, i as int, from@, to@);
        }
        let ghost before = out@;
        if matches_at(s, i, from) {
            let mut k: usize = 0;
            while k < to.len()
                invariant
                    k <= to.len(),
                    out@ == before + to@.subrange(0, k as int),
                decreases to.len() - k,
            {
                out.push(to[k]);
                k += 1;
                assert(out@ =~= before + to@.subrange(0, k as int));
            }
            assert(to@.subrange(0, to.len() as int) =~= to@);
            assert(out@ + replace_all(s@.subrange(i + from.len(), s.len() as int), from@, to@)
                =~= before + (to@ + replace_all(
                s@.subrange(i + from.len(), s.len() as int),
                from@,
                to@,
            )));
            i = i + from.len();
        } else {
            out.push(s[i]);
            assert(out@ + replace_all(s@.subrange(i + 1, s.len() as int), from@, to@) =~= before
                + (seq![s@[i as int]] + replace_all(
                s@.subrange(i + 1, s.len() as int),
                from@,
                to@,
            )));
            i += 1;
        }
    }
    assert(s@.subrange(s.len() as int, s.len() as int) =~= Seq::<char>::empty());
    assert(out@ + Seq::<char>::empty() =~= out@);
    out
}

fn normalize_chord(chord: &str) -> (r: Vec<char>)
    ensures
        r@ == normalize_chord_spec(chord@),
{
    let v = chars_of(chord);
    let t = trim_chars(&v);
    let l = lower_seq(&t);
    let d = dash_runs_exec(&l);
    let command = chars_of("command");
    let cmd = chars_of("cmd");
    let control = chars_of("control");
    let ctrl = chars_of("ctrl");
    proof {
        reveal_strlit("command");
        reveal_strlit("control");
    }
    let a = replace_exec(&d, &command, &cmd);
    replace_exec(&a, &control, &ctrl)
}

fn chords_eq(registered: &str, given: &str) -> (r: bool)
    ensures
        r == (normalize_chord_spec(registered@) == normalize_chord_spec(given@)),
{
    let a = normalize_chord(registered);
    let b = normalize_chord(given);
    seq_eq(&a, &b)
}

fn eq_lit(v: &Vec<char>, lit: &str) -> (r: bool)
    ensures
        r == (v@ == lit@),
{
    let l = chars_of(lit);
    seq_eq(v, &l)
}

fn ends_with_lit(v: &Vec<char>, lit: &str) -> (r: bool)
    ensures
        r == ends_with(v@, lit@),
{
    let l = chars_of(lit);
    if l.len() > v.len() {
        return false;
    }
    let off: usize = v.len() - l.len();
    let mut k: usize = 0;
    while k < l.len()
        invariant
            off + l.len() == v.len(),
            l@ == lit@,
            k <= l.len(),
            forall|j: int| 0 <= j < k ==> v@[off + j] == l@[j],
        decreases l.len() - k,
    {
        if v[off + k] != l[k] {
            assert(v@.subrange(off as int, v.len() as int)[k as int] == v@[off + k]);
            assert(v@.subrange(off as int, v.len() as int)[k as int] != l@[k as int]);
            return false;
        }
        k += 1;
    }
    assert(v@.subrange(off as int, v.len() as int) =~= l@);
    true
}

/// Process-ending Action ids. Token auth is not enough: `confirm=true` is
/// required even if the host forgot `dangerous: true` on the catalog row.
pub fn is_quit_binding(binding: &str) -> (r: bool)
    ensures
        r == is_quit_binding_spec(binding@),
{
    let v = chars_of(binding);
    let t = trim_chars(&v);
    let n = lower_seq(&t);
    eq_lit(&n, "quit") || eq_lit(&n, "app.quit") || ends_with_lit(&n, ".quit")
}

pub fn is_quit_chord(chord: &str) -> (r: bool)
    ensures
        r == is_quit_chord_spec(chord@),
{
    let n = normalize_chord(chord);
    eq_lit(&n, "cmd-q") || eq_lit(&n, "super-q") || eq_lit(&n, "meta-q") || eq_lit(&n, "win-q")
}

/// A keybinding op that fires a quit Action with `confirm=true`: the host
/// may exit after replying.
pub fn op_is_confirmed_quit(op: &Op) -> (r: bool)
    ensures
        r == (op matches Op::Keybinding { binding, confirm, .. } && *confirm && is_quit_binding_spec(
            binding@,
        )),
{
    match op {
        Op::Keybinding { binding, confirm, .. } => *confirm && is_quit_binding(binding.as_str()),
        _ => false,
    }
}

pub fn binding_is_dangerous(entry: &KeybindingInfo) -> (r: bool)
    ensures
        r == dangerous_spec(*entry),
{
    entry.dangerous || is_quit_binding(entry.id.as_str()) || is_quit_chord(entry.chord.as_str())
}

/// Scope names of the catalog rows whose id is `binding`, in catalog order.
pub open spec fn scopes_for(rows: Seq<KeybindingInfo>, binding: Seq<char>) -> Seq<Seq<char>>
    decreases rows.len(),
{
    if rows.len() == 0 {
        Seq::empty()
    } else if rows.last().id@ == binding {
        scopes_for(rows.drop_last(), binding).push(scope_name(rows.last().scope))
    } else {
        scopes_for(rows.drop_last(), binding)
    }
}

pub open spec fn has_id(rows: Seq<KeybindingInfo>, binding: Seq<char>) -> bool {
    exists|i: int| 0 <= i < rows.len() && rows[i].id@ == binding
}

/// The first catalog row registered under `(binding, scope)`.
pub open spec fn is_first_entry(
    rows: Seq<KeybindingInfo>,
    binding: Seq<char>,
    scope: KeybindingScope,
    i: int,
) -> bool {
    &&& 0 <= i < rows.len()
    &&& rows[i].id@ == binding
    &&& rows[i].scope == scope
    &&& forall|j: int| 0 <= j < i ==> !(rows[j].id@ == binding && rows[j].scope == scope)
}

pub open spec fn has_entry(
    rows: Seq<KeybindingInfo>,
    binding: Seq<char>,
    scope: KeybindingScope,
) -> bool {
    exists|i: int| 0 <= i < rows.len() && rows[i].id@ == binding && rows[i].scope == scope
}

/// The error `authorize_keybinding` returns, once the entry `e` is known.
pub open spec fn entry_gate(
    e: KeybindingInfo,
    binding: Seq<char>,
    chord: Option<Seq<char>>,
    scope: KeybindingScope,
    confirm: bool,
    activate: bool,
    app_focused: bool,
) -> Option<Seq<char>> {
    let given = match chord {
        Some(c) => trim(c),
        None => Seq::empty(),
    };
    if given.len() > 0 && normalize_chord_spec(e.chord@) != normalize_chord_spec(given) {
        Some(
            "chord `"@ + given + "` does not match binding `"@ + binding + "` ("@ + e.chord@
                + ")"@,
        )
    } else if scope == KeybindingScope::Global && activate {
        Some("activate=true is only valid for scope=focused"@)
    } else if scope == KeybindingScope::Focused && !app_focused && !activate {
        Some(tagged(KEYBINDING_UNAVAILABLE@, "app not focused"@))
    } else if dangerous_spec(e) && !confirm {
        Some("confirm=true is required for dangerous keybinding `"@ + binding + "`"@)
    } else {
        None
    }
}

/// The refusal for a request that names no usable catalog row, if any.
pub open spec fn lookup_gate(
    rows: Seq<KeybindingInfo>,
    binding: Seq<char>,
    scope: KeybindingScope,
) -> Option<Seq<char>> {
    if binding.len() == 0 {
        Some("keybinding requires binding (Action id)"@)
    } else if !has_id(rows, binding) {
        Some("unknown binding `"@ + binding + "`"@)
    } else if !has_entry(rows, binding, scope) {
        Some(
            "binding `"@ + binding + "` is registered as "@ + join(scopes_for(rows, binding), "/"@)
                + ", not "@ + scope_name(scope),
        )
    } else {
        None
    }
}

proof fn lemma_scopes_for_step(rows: Seq<KeybindingInfo>, binding: Seq<char>, i: int)
    requires
        0 <= i < rows.len(),
    ensures
        scopes_for(rows.subrange(0, i + 1), binding) == (if rows[i].id@ == binding {
            scopes_for(rows.subrange(0, i), binding).push(scope_name(rows[i].scope))
        } else {
            scopes_for(rows.subrange(0, i), binding)
        }),
{
    let t = rows.subrange(0, i + 1);
    assert(t.drop_last() =~= rows.subrange(0, i));
    assert(t.last() == rows[i]);
}

fn joined_scopes(catalog: &[KeybindingInfo], binding: &Vec<char>) -> (r: Vec<char>)
    ensures
        r@ == join(scopes_for(catalog@, binding@), "/"@),
{
    let mut out: Vec<char> = Vec::new();
    let mut count: usize = 0;
    let mut i: usize = 0;
    let slash = chars_of("/");
    while i < catalog.len()
        invariant
            i <= catalog.len(),
            slash@ == "/"@,
            count == scopes_for(catalog@.subrange(0, i as int), binding@).len(),
            count <= i,
            out@ == join(scopes_for(catalog@.subrange(0, i as int), binding@), "/"@),
        decreases catalog.len() - i,
    {
        proof {
            lemma_scopes_for_step(catalog@, binding@, i as int);
        }
        let id = chars_of(catalog[i].id.as_str());
        if seq_eq(&id, binding) {
            let name = chars_of(catalog[i].scope.as_str());
            let ghost parts = scopes_for(catalog@.subrange(0, i as int), binding@).push(
                scope_name(catalog@[i as int].scope),
            );
            assert(parts.drop_last() =~= scopes_for(catalog@.subrange(0, i as int), binding@));
            if count > 0 {
                crate::text::extend_chars(&mut out, &slash);
            } else {
                out = Vec::new();
            }
            crate::text::extend_chars(&mut out, &name);
            count += 1;
        }
        i += 1;
    }
    assert(catalog@.subrange(0, catalog.len() as int) =~= catalog@);
    out
}

/// Index of the first row under `(binding, scope)`, if any.
fn find_entry(catalog: &[KeybindingInfo], binding: &Vec<char>, scope: KeybindingScope) -> (r:
    Option<usize>)
    ensures
        match r {
            Some(i) => is_first_entry(catalog@, binding@, scope, i as int),
            None => !has_entry(catalog@, binding@, scope),
        },
{
    let mut i: usize = 0;
    while i < catalog.len()
        invariant
            i <= catalog.len(),
            forall|j: int|
                0 <= j < i ==> !(#[trigger] catalog@[j].id@ == binding@ && catalog@[j].scope
                    == scope),
        decreases catalog.len() - i,
    {
        let id = chars_of(catalog[i].id.as_str());
        if seq_eq(&id, binding) && catalog[i].scope == scope {
            return Some(i);
        }
        i += 1;
    }
    None
}

fn any_id(catalog: &[KeybindingInfo], binding: &Vec<char>) -> (r: bool)
    ensures
        r == has_id(catalog@, binding@),
{
    let mut i: usize = 0;
    while i < catalog.len()
        invariant
            i <= catalog.len(),
            forall|j: int| 0 <= j < i ==> #[trigger] catalog@[j].id@ != binding@,
        decreases catalog.len() - i,
    {
        let id = chars_of(catalog[i].id.as_str());
        if seq_eq(&id, binding) {
            return true;
        }
        i += 1;
    }
    false
}

/// What the authorize gate answers: the first catalog row under
/// `(trimmed binding, scope)` once every check passed, else the first
/// refusal (see [`lookup_gate`] and [`entry_gate`]).
pub open spec fn keybinding_outcome(
    catalog: Seq<KeybindingInfo>,
    binding: Seq<char>,
    chord: Option<Seq<char>>,
    scope: KeybindingScope,
    confirm: bool,
    activate: bool,
    app_focused: bool,
    r: Result<KeybindingInfo, Seq<char>>,
) -> bool {
    let b = trim(binding);
    match r {
        Ok(e) => lookup_gate(catalog, b, scope) is None && exists|i: int|
            is_first_entry(catalog, b, scope, i) && e == catalog[i] && entry_gate(
                catalog[i],
                b,
                chord,
                scope,
                confirm,
                activate,
                app_focused,
            ) is None,
        Err(msg) => lookup_gate(catalog, b, scope) == Some(msg) || (lookup_gate(catalog, b, scope) is None
            && exists|i: int|
            is_first_entry(catalog, b, scope, i) && entry_gate(
                catalog[i],
                b,
                chord,
                scope,
                confirm,
                activate,
                app_focused,
            ) == Some(msg)),
    }
}

/// Shared gates every host applies before dispatching an Action.
///
/// Lookup is `(binding, scope)`. An optional `chord` is a resolve aid and
/// must match the catalog when present. `scope=focused` does not
/// auto-activate; `scope=global` never activates; dangerous rows need
/// `confirm=true`.
pub fn authorize_keybinding<'a>(
    catalog: &'a [KeybindingInfo],
    request: KeybindingRequest<'_>,
    app_focused: bool,
) -> (r: Result<&'a KeybindingInfo, String>)
    ensures
        keybinding_outcome(
            catalog@,
            request.binding@,
            match request.chord {
                Some(c) => Some(c@),
                None => None,
            },
            request.scope,
            request.confirm,
            request.activate,
            app_focused,
            match r {
                Ok(e) => Ok(*e),
                Err(m) => Err(m@),
            },
        ),
{
    let raw = chars_of(request.binding);
    let binding = trim_chars(&raw);
    let ghost chord_spec = match request.chord {
        Some(c) => Some(c@),
        None => None::<Seq<char>>,
    };
    if binding.len() == 0 {
        return Err("keybinding requires binding (Action id)".to_owned());
    }
    if !any_id(catalog, &binding) {
        return Err(concat3("unknown binding `", &binding, "`"));
    }
    let found = find_entry(catalog, &binding, request.scope);
    let idx = match found {
        Some(i) => i,
        None => {
            let actual = joined_scopes(catalog, &binding);
            let mut msg = concat3("binding `", &binding, "` is registered as ");
            push_chars(&mut msg, &actual);
            msg.append(", not ");
            msg.append(request.scope.as_str());
            assert(msg@ =~= "binding `"@ + binding@ + "` is registered as "@ + join(
                scopes_for(catalog@, binding@),
                "/"@,
            ) + ", not "@ + scope_name(request.scope));
            return Err(msg);
        },
    };
    let entry = &catalog[idx];
    assert(lookup_gate(catalog@, binding@, request.scope) is None);
    assert(is_first_entry(catalog@, binding@, request.scope, idx as int));
    let given: Vec<char> = match request.chord {
        Some(c) => {
            let cv = chars_of(c);
            trim_chars(&cv)
        },
        None => Vec::new(),
    };
    if given.len() > 0 {
        let g = crate::text::string_of(given.as_slice());
        if !chords_eq(entry.chord.as_str(), g.as_str()) {
            let mut msg = concat3("chord `", &given, "` does not match binding `");
            push_chars(&mut msg, &binding);
            msg.append("` (");
            msg.append(entry.chord.as_str());
            msg.append(")");
            assert(msg@ =~= "chord `"@ + given@ + "` does not match binding `"@ + binding@ + "` ("@
                + entry.chord@ + ")"@);
            return Err(msg);
        }
    }
    if request.scope == KeybindingScope::Global && request.activate {
        return Err("activate=true is only valid for scope=focused".to_owned());
    }
    if request.scope == KeybindingScope::Focused && !app_focused && !request.activate {
        return Err(keybinding_unavailable("app not focused"));
    }
    if binding_is_dangerous(entry) && !request.confirm {
        return Err(concat3("confirm=true is required for dangerous keybinding `", &binding, "`"));
    }
    Ok(entry)
}

impl<'a> KeybindingRequest<'a> {
    /// The authorize fields of a `keybinding` op; any other op is refused.
    pub fn from_op(op: &'a Op) -> (r: Result<Self, String>)
        ensures
            match op {
                Op::Keybinding { binding, chord, scope, confirm, activate } => r matches Ok(q)
                    && q.binding@ == binding@ && q.scope == *scope && q.confirm == *confirm
                    && q.activate == *activate && match chord {
                    Some(c) => q.chord matches Some(x) && x@ == c@,
                    None => q.chord is None,
                },
                _ => r matches Err(e) && e@ == "not a keybinding fire op"@,
            },
    {
        match op {
            Op::Keybinding { binding, chord, scope, confirm, activate } => {
                let c: Option<&str> = match chord {
                    Some(x) => Some(x.as_str()),
                    None => None,
                };
                Ok(KeybindingRequest {
                    binding: binding.as_str(),
                    chord: c,
                    scope: *scope,
                    confirm: *confirm,
                    activate: *activate,
                })
            },
            _ => Err("not a keybinding fire op".to_owned()),
        }
    }
}

/// [`authorize_keybinding`] on the fields of a `keybinding` op.
pub fn authorize_keybinding_op<'a>(op: &'a Op, catalog: &'a [KeybindingInfo], app_focused: bool) -> (r:
    Result<&'a KeybindingInfo, String>)
    ensures
        match op {
            Op::Keybinding { binding, chord, scope, confirm, activate } => keybinding_outcome(
                catalog@,
                binding@,
                match chord {
                    Some(c) => Some(c@),
                    None => None,
                },
                *scope,
                *confirm,
                *activate,
                app_focused,
                match r {
                    Ok(e) => Ok(*e),
                    Err(m) => Err(m@),
                },
            ),
            _ => r matches Err(e) && e@ == "not a keybinding fire op"@,
        },
{
    let req = match KeybindingRequest::from_op(op) {
        Ok(q) => q,
        Err(e) => return Err(e),
    };
    authorize_keybinding(catalog, req, app_focused)
}

/// The catalog as the keybinding list reports it: each row with
/// `dangerous` recomputed, so a quit the catalog forgot to flag is listed
/// as dangerous.
pub fn keybinding_list(catalog: &[KeybindingInfo]) -> (r: Vec<KeybindingInfo>)
    ensures
        r@.len() == catalog@.len(),
        forall|i: int|
            0 <= i < catalog@.len() ==> (#[trigger] r@[i]).id@ == catalog@[i].id@ && r@[i].chord@
                == catalog@[i].chord@ && r@[i].scope == catalog@[i].scope && r@[i].dangerous
                == dangerous_spec(catalog@[i]),
{
    let mut out: Vec<KeybindingInfo> = Vec::new();
    let mut i: usize = 0;
    while i < catalog.len()
        invariant
            i <= catalog@.len(),
            out@.len() == i,
            forall|k: int|
                0 <= k < i ==> (#[trigger] out@[k]).id@ == catalog@[k].id@ && out@[k].chord@
                    == catalog@[k].chord@ && out@[k].scope == catalog@[k].scope && out@[k].dangerous
                    == dangerous_spec(catalog@[k]),
        decreases catalog.len() - i,
    {
        let row = &catalog[i];
        out.push(
            KeybindingInfo::new(row.id.as_str(), row.chord.as_str(), row.scope, binding_is_dangerous(row)),
        );
        i += 1;
    }
    out
}

/// Mailbox reply after the host dispatched an Action. `listener_result` is
/// `Some` only if a keymap handler actually ran; a no-op Action fails closed.
pub fn complete_keybinding_action(listener_result: Option<Result<DispatchResult, String>>) -> (r:
    Result<DispatchResult, String>)
    ensures
        match listener_result {
            Some(res) => r == res,
            None => r matches Err(e) && e@ == tagged(
                KEYBINDING_UNAVAILABLE@,
                "Action handler did not run"@,
            ),
        },
{
    match listener_result {
        Some(result) => result,
        None => Err(keybinding_unavailable("Action handler did not run")),
    }
}

/// The reply for the slot a dispatch left: the listener's result, or the
/// fail-closed error when no listener ran.
pub open spec fn completion(slot: Option<Result<DispatchResult, String>>, r: Result<DispatchResult, String>) -> bool {
    match slot {
        Some(res) => r == res,
        None => r matches Err(e) && e@ == tagged(KEYBINDING_UNAVAILABLE@, "Action handler did not run"@),
    }
}

/// Run `dispatch_action`, which may invoke listeners that record their
/// reply into the slot, then complete the mailbox reply from the slot: an
/// Action whose listener never ran fails closed. The intercept itself runs
/// no Action body.
pub fn intercept_keybinding_action<F: FnOnce(&mut Option<Result<DispatchResult, String>>)>(
    dispatch_action: F,
) -> (r: Result<DispatchResult, String>)
    requires
        forall|slot: &mut Option<Result<DispatchResult, String>>| dispatch_action.requires((slot,)),
    ensures
        exists|slot: &mut Option<Result<DispatchResult, String>>|
            *slot is None && #[trigger] dispatch_action.ensures((slot,), ()) && completion(*final(slot), r),
{
    let mut listener_result: Option<Result<DispatchResult, String>> = None;
    dispatch_action(&mut listener_result);
    complete_keybinding_action(listener_result)
}

/// What every authorized keybinding has passed: a dangerous row (flagged
/// in the catalog, or a quit by id or chord, whatever the flag says) was
/// confirmed; a global binding was not asked to activate; a focused
/// binding had the app focused or was asked to activate it; and a chord
/// given with the request matched the row's.
pub proof fn lemma_authorized_gates(
    e: KeybindingInfo,
    binding: Seq<char>,
    chord: Option<Seq<char>>,
    scope: KeybindingScope,
    confirm: bool,
    activate: bool,
    app_focused: bool,
)
    requires
        entry_gate(e, binding, chord, scope, confirm, activate, app_focused) is None,
    ensures
        dangerous_spec(e) ==> confirm,
        is_quit_binding_spec(e.id@) || is_quit_chord_spec(e.chord@) ==> confirm,
        scope == KeybindingScope::Global ==> !activate,
        scope == KeybindingScope::Focused ==> app_focused || activate,
        (chord matches Some(c) && trim(c).len() > 0) ==> normalize_chord_spec(e.chord@)
            == normalize_chord_spec(trim(chord->0)),
{
}


/// Characters that trimming, lowercasing and joining whitespace leave as
/// they are: no whitespace, no capitals.
pub open spec fn plain_chord_text(s: Seq<char>) -> bool {
    forall|i: int| 0 <= i < s.len() ==> !is_ws(#[trigger] s[i]) && !is_upper(s[i])
}

proof fn lemma_dash_runs_plain(s: Seq<char>)
    requires
        plain_chord_text(s),
    ensures
        dash_runs(s) == s,
    decreases s.len(),
{
    if s.len() > 0 {
        let t = s.drop_first();
        assert(plain_chord_text(t)) by {
            assert forall|i: int| 0 <= i < t.len() implies !is_ws(#[trigger] t[i]) && !is_upper(t[i]) by {
                assert(t[i] == s[i + 1]);
            }
        }
        lemma_dash_runs_plain(t);
        assert(seq![s[0]] + t =~= s);
    }
}

/// Plain text is its own trimmed, lowercased, whitespace-joined form.
proof fn lemma_plain_prepared(s: Seq<char>)
    requires
        plain_chord_text(s),
    ensures
        dash_runs(lower(trim(s))) == s,
{
    assert(trim_start(s) == s);
    assert(trim_end(s) == s);
    assert(lower(s) =~= s) by {
        assert forall|i: int| 0 <= i < s.len() implies lower(s)[i] == s[i] by {
            assert(!is_upper(s[i]));
        }
    }
    lemma_dash_runs_plain(s);
}

/// Replacing `from` skips a prefix that never holds `from`'s first
/// character.
proof fn lemma_replace_skips(x: Seq<char>, rest: Seq<char>, from: Seq<char>, to: Seq<char>)
    requires
        from.len() > 0,
        forall|i: int| 0 <= i < x.len() ==> x[i] != from[0],
    ensures
        replace_all(x + rest, from, to) == x + replace_all(rest, from, to),
    decreases x.len(),
{
    if x.len() == 0 {
        assert(x + rest =~= rest);
        assert(x + replace_all(rest, from, to) =~= replace_all(rest, from, to));
    } else {
        let s = x + rest;
        assert(s[0] == x[0]);
        if from.len() <= s.len() {
            assert(s.subrange(0, from.len() as int)[0] != from[0]);
        }
        lemma_replace_skips(x.drop_first(), rest, from, to);
        assert(s.drop_first() =~= x.drop_first() + rest);
        assert(seq![x[0]] + (x.drop_first() + replace_all(rest, from, to)) =~= x + replace_all(rest, from, to));
    }
}

/// `head + rest` where `head` starts with `c` and holds no other `c`, and
/// `from` starts with `c` but is not how `head + rest` begins: replacing
/// `from` keeps `head` and goes on in `rest`.
proof fn lemma_replace_keeps_head(head: Seq<char>, rest: Seq<char>, from: Seq<char>, to: Seq<char>)
    requires
        head.len() > 0,
        from.len() > 0,
        head[0] == from[0],
        forall|i: int| 1 <= i < head.len() ==> head[i] != from[0],
        from.len() <= head.len() + rest.len() ==> (head + rest).subrange(0, from.len() as int) != from,
    ensures
        replace_all(head + rest, from, to) == head + replace_all(rest, from, to),
{
    let s = head + rest;
    let h1 = head.drop_first();
    assert forall|i: int| 0 <= i < h1.len() implies h1[i] != from[0] by {
        assert(h1[i] == head[i + 1]);
    }
    lemma_replace_skips(h1, rest, from, to);
    assert(s.drop_first() =~= h1 + rest);
    assert(seq![head[0]] + (h1 + replace_all(rest, from, to)) =~= head + replace_all(rest, from, to));
}

/// `from + rest` with `from` replaced at the front.
proof fn lemma_replace_front(from: Seq<char>, rest: Seq<char>, to: Seq<char>)
    requires
        from.len() > 0,
    ensures
        replace_all(from + rest, from, to) == to + replace_all(rest, from, to),
{
    let s = from + rest;
    assert(s.subrange(0, from.len() as int) =~= from);
    assert(s.subrange(from.len() as int, s.len() as int) =~= rest);
}

/// Spelling a chord's modifier out or short gives the same canonical
/// chord: `control…` and `ctrl…` normalize alike, and so do `command…` and
/// `cmd…`, whatever (plain) keys follow.
pub proof fn lemma_modifier_spellings_agree(rest: Seq<char>)
    requires
        plain_chord_text(rest),
    ensures
        normalize_chord_spec("control"@ + rest) == normalize_chord_spec("ctrl"@ + rest),
        normalize_chord_spec("command"@ + rest) == normalize_chord_spec("cmd"@ + rest),
        normalize_chord_spec("control"@ + rest) == "ctrl"@ + replace_all(
            replace_all(rest, "command"@, "cmd"@),
            "control"@,
            "ctrl"@,
        ),
{
    reveal_strlit("control");
    reveal_strlit("ctrl");
    reveal_strlit("command");
    reveal_strlit("cmd");
    let control = "control"@;
    let ctrl = "ctrl"@;
    let command = "command"@;
    let cmd = "cmd"@;
    let r1 = replace_all(rest, command, cmd);
    let r2 = replace_all(r1, control, ctrl);
    assert forall|w: Seq<char>| w == control || w == ctrl || w == command || w == cmd implies plain_chord_text(w + rest) by {
        assert forall|i: int| 0 <= i < (w + rest).len() implies !is_ws(#[trigger] (w + rest)[i]) && !is_upper((w + rest)[i]) by {
            if i >= w.len() {
                assert((w + rest)[i] == rest[i - w.len()]);
            }
        }
    }
    lemma_plain_prepared(control + rest);
    lemma_plain_prepared(ctrl + rest);
    lemma_plain_prepared(command + rest);
    lemma_plain_prepared(cmd + rest);
    // control + rest
    assert((control + rest).subrange(0, 7)[2] != command[2]);
    lemma_replace_keeps_head(control, rest, command, cmd);
    lemma_replace_front(control, r1, ctrl);
    // ctrl + rest
    if command.len() <= (ctrl + rest).len() {
        assert((ctrl + rest).subrange(0, 7)[1] != command[1]);
    }
    lemma_replace_keeps_head(ctrl, rest, command, cmd);
    if control.len() <= (ctrl + r1).len() {
        assert((ctrl + r1).subrange(0, 7)[1] != control[1]);
    }
    lemma_replace_keeps_head(ctrl, r1, control, ctrl);
    // command + rest
    lemma_replace_front(command, rest, cmd);
    if control.len() <= (cmd + r1).len() {
        assert((cmd + r1).subrange(0, 7)[1] != control[1]);
    }
    lemma_replace_keeps_head(cmd, r1, control, ctrl);
    // cmd + rest
    if command.len() <= (cmd + rest).len() {
        assert((cmd + rest).subrange(0, 7)[1] != command[1]);
    }
    lemma_replace_keeps_head(cmd, rest, command, cmd);
}

} // verus!
