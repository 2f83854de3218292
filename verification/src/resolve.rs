//! Deterministic, fail-closed intent -> schema-backed op. No model, no
//! shell: an intent is scored against the registry, an unknown or
//! ambiguous one is refused, and the op's fields are read from the prose.

use vstd::prelude::*;

use crate::protocol::{empty_assert, AssertSpec, Op, ScreenshotMode};
use crate::recipe::{
    entries_view, json_object, json_object_value, json_string, json_string_value, json_u64, json_u64_value,
};
use crate::schema::{Effect, OpSchema, Registry, SchemaKind};
use crate::text::{
    chars_of, decimal, decimal_string, is_alnum, is_alnum_exec, is_digit, is_digit_exec, is_ws,
    is_ws_exec, lower, lower_char, lower_char_exec, lower_seq, lex_lt, lex_lt_exec, parse_u64,
    parse_u64_exec, seq_eq, slice_chars, str_eq, string_of, strings_view, trim, trim_chars,
    lemma_lex_lt_total, lemma_lex_lt_asymmetric, lemma_lex_lt_transitive, lemma_lex_lt_irreflexive,
};

verus! {

/// A field of the op read from the intent: its name, value, and where the
/// value came from.
#[derive(Debug, Clone)]
pub struct TokenFill {
    pub name: String,
    pub value: String,
    pub source: String,
}

pub open spec fn fill_view(f: TokenFill) -> (Seq<char>, Seq<char>, Seq<char>) {
    (f.name@, f.value@, f.source@)
}

pub open spec fn fills_view(v: Seq<TokenFill>) -> Seq<(Seq<char>, Seq<char>, Seq<char>)> {
    Seq::new(v.len(), |i: int| fill_view(v[i]))
}

// ---------------------------------------------------------------------------
// Runs of characters
// ---------------------------------------------------------------------------

/// Which characters make up a run.
#[derive(Clone, Copy, PartialEq, Eq, Structural)]
pub enum RunKind {
    /// ASCII letters, digits and `.`: the words of an intent.
    Word,
    /// ASCII letters and digits: the words of a description.
    Alnum,
    /// Anything but whitespace: `split_whitespace`.
    NonWs,
}

pub open spec fn keeps(kind: RunKind, c: char) -> bool {
    match kind {
        RunKind::Word => is_alnum(c) || c == '.',
        RunKind::Alnum => is_alnum(c),
        RunKind::NonWs => !is_ws(c),
    }
}

/// The finished runs of `s` and the run still open at its end.
pub open spec fn runs_acc(s: Seq<char>, kind: RunKind) -> (Seq<Seq<char>>, Seq<char>)
    decreases s.len(),
{
    if s.len() == 0 {
        (Seq::empty(), Seq::empty())
    } else {
        let (w, cur) = runs_acc(s.drop_last(), kind);
        if keeps(kind, s.last()) {
            (w, cur.push(s.last()))
        } else {
            (if cur.len() > 0 {
                w.push(cur)
            } else {
                w
            }, Seq::empty())
        }
    }
}

/// The maximal non-empty runs of characters of `kind` in `s`, in order:
/// splitting at every other character and dropping the empty pieces.
pub open spec fn runs(s: Seq<char>, kind: RunKind) -> Seq<Seq<char>> {
    let (w, cur) = runs_acc(s, kind);
    if cur.len() > 0 {
        w.push(cur)
    } else {
        w
    }
}

fn keeps_exec(kind: &RunKind, c: char) -> (r: bool)
    ensures
        r == keeps(*kind, c),
{
    match kind {
        RunKind::Word => is_alnum_exec(c) || c == '.',
        RunKind::Alnum => is_alnum_exec(c),
        RunKind::NonWs => !is_ws_exec(c),
    }
}

pub open spec fn chars_view(v: Seq<Vec<char>>) -> Seq<Seq<char>> {
    Seq::new(v.len(), |i: int| v[i]@)
}

fn runs_exec(s: &Vec<char>, kind: RunKind) -> (r: Vec<Vec<char>>)
    ensures
        chars_view(r@) == runs(s@, kind),
{
    let mut w: Vec<Vec<char>> = Vec::new();
    let mut cur: Vec<char> = Vec::new();
    let mut i: usize = 0;
    assert(s@.subrange(0, 0) =~= Seq::<char>::empty());
    assert(chars_view(w@) =~= Seq::<Seq<char>>::empty());
    while i < s.len()
        invariant
            i <= s.len(),
            (chars_view(w@), cur@) == runs_acc(s@.subrange(0, i as int), kind),
        decreases s.len() - i,
    {
        let ghost pre = s@.subrange(0, i as int);
        assert(s@.subrange(0, i + 1).drop_last() =~= pre);
        assert(s@.subrange(0, i + 1).last() == s@[i as int]);
        let c = s[i];
        if keeps_exec(&kind, c) {
            cur.push(c);
        } else {
            if cur.len() > 0 {
                let ghost before = w@;
                let ghost cv = cur@;
                w.push(cur);
                assert(chars_view(w@) =~= chars_view(before).push(cv));
            }
            cur = Vec::new();
        }
        i += 1;
    }
    assert(s@.subrange(0, s.len() as int) =~= s@);
    if cur.len() > 0 {
        let ghost before = w@;
        let ghost cv = cur@;
        w.push(cur);
        assert(chars_view(w@) =~= chars_view(before).push(cv));
    }
    w
}

/// The lowercased words of an intent: runs of ASCII letters, digits and `.`.
pub open spec fn words_spec(intent: Seq<char>) -> Seq<Seq<char>> {
    Seq::new(runs(intent, RunKind::Word).len(), |i: int| lower(runs(intent, RunKind::Word)[i]))
}

/// The lowercased words of an intent.
pub fn words_of(intent: &str) -> (r: Vec<String>)
    ensures
        strings_view(r@) == words_spec(intent@),
{
    let pieces = runs_exec(&chars_of(intent), RunKind::Word);
    let mut out: Vec<String> = Vec::new();
    let mut i: usize = 0;
    while i < pieces.len()
        invariant
            i <= pieces.len(),
            chars_view(pieces@) == runs(intent@, RunKind::Word),
            strings_view(out@) == words_spec(intent@).subrange(0, i as int),
        decreases pieces.len() - i,
    {
        let ghost before = out@;
        assert(before.len() == i) by {
            assert(strings_view(before).len() == before.len());
        }
        let w = string_of(lower_seq(&pieces[i]).as_slice());
        assert(w@ == words_spec(intent@)[i as int]) by {
            assert(chars_view(pieces@)[i as int] == pieces@[i as int]@);
        }
        out.push(w);
        assert(strings_view(out@) =~= words_spec(intent@).subrange(0, i + 1)) by {
            assert forall|k: int| 0 <= k < i implies strings_view(out@)[k] == strings_view(before)[k] by {
                assert(out@[k] == before[k]);
            }
        }
        i += 1;
    }
    assert(words_spec(intent@).subrange(0, pieces.len() as int) =~= words_spec(intent@));
    out
}

// ---------------------------------------------------------------------------
// Substrings and trimming
// ---------------------------------------------------------------------------

/// The first position from `i` on where `b` occurs in `a`.
pub open spec fn find_sub_from(a: Seq<char>, b: Seq<char>, i: int) -> Option<int>
    decreases a.len() + 1 - i,
{
    if i < 0 || i + b.len() > a.len() {
        None
    } else if a.subrange(i, i + b.len()) == b {
        Some(i)
    } else {
        find_sub_from(a, b, i + 1)
    }
}

/// `str::find`: the first position of `b` in `a`.
pub open spec fn find_sub(a: Seq<char>, b: Seq<char>) -> Option<int> {
    find_sub_from(a, b, 0)
}

fn matches_at(a: &Vec<char>, b: &Vec<char>, i: usize) -> (r: bool)
    requires
        i + b.len() <= a.len(),
    ensures
        r == (a@.subrange(i as int, i + b.len()) == b@),
{
    let mut k: usize = 0;
    while k < b.len()
        invariant
            k <= b.len(),
            i + b.len() <= a.len(),
            forall|j: int| 0 <= j < k ==> a@[i + j] == b@[j],
        decreases b.len() - k,
    {
        if a[i + k] != b[k] {
            assert(a@.subrange(i as int, i + b.len())[k as int] != b@[k as int]);
            return false;
        }
        k += 1;
    }
    assert(a@.subrange(i as int, i + b.len()) =~= b@);
    true
}

fn find_sub_exec(a: &Vec<char>, b: &Vec<char>) -> (r: Option<usize>)
    ensures
        match r {
            Some(k) => find_sub(a@, b@) == Some(k as int) && k + b.len() <= a.len(),
            None => find_sub(a@, b@) is None,
        },
{
    if b.len() > a.len() {
        return None;
    }
    let last = a.len() - b.len();
    let mut i: usize = 0;
    while i <= last
        invariant
            b.len() <= a.len(),
            last == a.len() - b.len(),
            i <= last + 1,
            find_sub(a@, b@) == find_sub_from(a@, b@, i as int),
        decreases last + 1 - i,
    {
        if matches_at(a, b, i) {
            return Some(i);
        }
        if i == last {
            return None;
        }
        i += 1;
    }
    None
}

/// A character stripped from the ends of a token.
#[derive(Clone, Copy, PartialEq, Eq, Structural)]
pub enum Strip {
    /// `,` and `.`.
    CommaDot,
    /// ` `, `=`, `#` and `:` before an id number.
    IdSep,
    /// `#` before a number.
    Hash,
}

pub open spec fn strips(k: Strip, c: char) -> bool {
    match k {
        Strip::CommaDot => c == ',' || c == '.',
        Strip::IdSep => c == ' ' || c == '=' || c == '#' || c == ':',
        Strip::Hash => c == '#',
    }
}

fn strips_exec(k: &Strip, c: char) -> (r: bool)
    ensures
        r == strips(*k, c),
{
    match k {
        Strip::CommaDot => c == ',' || c == '.',
        Strip::IdSep => c == ' ' || c == '=' || c == '#' || c == ':',
        Strip::Hash => c == '#',
    }
}

/// `trim_start_matches`.
pub open spec fn strip_start(s: Seq<char>, k: Strip) -> Seq<char>
    decreases s.len(),
{
    if s.len() > 0 && strips(k, s[0]) {
        strip_start(s.drop_first(), k)
    } else {
        s
    }
}

/// `trim_end_matches`.
pub open spec fn strip_end(s: Seq<char>, k: Strip) -> Seq<char>
    decreases s.len(),
{
    if s.len() > 0 && strips(k, s.last()) {
        strip_end(s.drop_last(), k)
    } else {
        s
    }
}

/// `trim_matches`: both ends.
pub open spec fn strip_both(s: Seq<char>, k: Strip) -> Seq<char> {
    strip_end(strip_start(s, k), k)
}

fn strip_start_exec(s: &Vec<char>, k: Strip) -> (r: Vec<char>)
    ensures
        r@ == strip_start(s@, k),
{
    let mut i: usize = 0;
    assert(s@.subrange(0, s.len() as int) =~= s@);
    while i < s.len() && strips_exec(&k, s[i])
        invariant
            i <= s.len(),
            strip_start(s@, k) == strip_start(s@.subrange(i as int, s.len() as int), k),
        decreases s.len() - i,
    {
        assert(s@.subrange(i as int, s.len() as int).drop_first() =~= s@.subrange(i + 1, s.len() as int));
        i += 1;
    }
    slice_chars(s, i, s.len())
}

fn strip_end_exec(s: &Vec<char>, k: Strip) -> (r: Vec<char>)
    ensures
        r@ == strip_end(s@, k),
{
    let mut j: usize = s.len();
    assert(s@.subrange(0, s.len() as int) =~= s@);
    while j > 0 && strips_exec(&k, s[j - 1])
        invariant
            j <= s.len(),
            strip_end(s@, k) == strip_end(s@.subrange(0, j as int), k),
        decreases j,
    {
        assert(s@.subrange(0, j as int).drop_last() =~= s@.subrange(0, j - 1));
        j -= 1;
    }
    slice_chars(s, 0, j)
}

fn strip_both_exec(s: &Vec<char>, k: Strip) -> (r: Vec<char>)
    ensures
        r@ == strip_both(s@, k),
{
    let a = strip_start_exec(s, k);
    strip_end_exec(&a, k)
}

// ---------------------------------------------------------------------------
// Reading fields from prose
// ---------------------------------------------------------------------------

/// A token that looks like a stable id: after stripping `,` and `.`, it
/// holds a `-` and only ASCII letters, digits and `-`.
pub open spec fn id_like(t: Seq<char>) -> bool {
    let p = strip_both(t, Strip::CommaDot);
    &&& p.contains('-')
    &&& forall|i: int| 0 <= i < p.len() ==> is_alnum(#[trigger] p[i]) || p[i] == '-'
}

/// The first id-like token of `toks` from position `i` on, stripped.
pub open spec fn first_id_token(toks: Seq<Seq<char>>, i: int) -> Option<Seq<char>>
    decreases toks.len() - i,
{
    if i < 0 || i >= toks.len() {
        None
    } else if id_like(toks[i]) {
        Some(strip_both(toks[i], Strip::CommaDot))
    } else {
        first_id_token(toks, i + 1)
    }
}

pub open spec fn id_token_spec(intent: Seq<char>) -> Option<Seq<char>> {
    first_id_token(runs(intent, RunKind::NonWs), 0)
}

fn id_like_exec(t: &Vec<char>) -> (r: Option<Vec<char>>)
    ensures
        match r {
            Some(p) => id_like(t@) && p@ == strip_both(t@, Strip::CommaDot),
            None => !id_like(t@),
        },
{
    let p = strip_both_exec(t, Strip::CommaDot);
    let mut has_dash = false;
    let mut i: usize = 0;
    while i < p.len()
        invariant
            i <= p.len(),
            p@ == strip_both(t@, Strip::CommaDot),
            has_dash == exists|j: int| 0 <= j < i && p@[j] == '-',
            forall|j: int| 0 <= j < i ==> is_alnum(#[trigger] p@[j]) || p@[j] == '-',
        decreases p.len() - i,
    {
        let c = p[i];
        if !(is_alnum_exec(c) || c == '-') {
            assert(!id_like(t@)) by {
                let q = strip_both(t@, Strip::CommaDot);
                assert(q == p@);
                assert(!(is_alnum(q[i as int]) || q[i as int] == '-'));
            }
            return None;
        }
        if c == '-' {
            has_dash = true;
        }
        i += 1;
    }
    if has_dash {
        Some(p)
    } else {
        proof {
            if p@.contains('-') {
                let j = choose|j: int| 0 <= j < p@.len() && p@[j] == '-';
                assert(exists|q: int| 0 <= q < i && p@[q] == '-');
            }
        }
        None
    }
}

/// The first whitespace-separated token that looks like a stable id.
pub fn extract_id_token(intent: &str) -> (r: Option<String>)
    ensures
        match r {
            Some(t) => id_token_spec(intent@) == Some(t@),
            None => id_token_spec(intent@) is None,
        },
{
    let toks = runs_exec(&chars_of(intent), RunKind::NonWs);
    let ghost tv = chars_view(toks@);
    let mut i: usize = 0;
    while i < toks.len()
        invariant
            i <= toks.len(),
            tv == chars_view(toks@),
            tv == runs(intent@, RunKind::NonWs),
            id_token_spec(intent@) == first_id_token(tv, i as int),
        decreases toks.len() - i,
    {
        assert(tv[i as int] == toks@[i as int]@);
        if let Some(p) = id_like_exec(&toks[i]) {
            return Some(string_of(p.as_slice()));
        }
        i += 1;
    }
    None
}

/// The text between the first `"` or `'` and the next same quote.
pub open spec fn first_quoted_spec(s: Seq<char>) -> Option<Seq<char>> {
    if exists|q: int| 0 <= q < s.len() && (s[q] == '"' || s[q] == '\'') {
        let q = choose|q: int|
            0 <= q < s.len() && (s[q] == '"' || s[q] == '\'') && forall|j: int|
                0 <= j < q ==> s[j] != '"' && s[j] != '\'';
        let rest = s.subrange(q + 1, s.len() as int);
        match crate::text::find_char(rest, s[q]) {
            Some(k) => Some(rest.subrange(0, k as int)),
            None => None,
        }
    } else {
        None
    }
}

fn first_quoted_chars(s: &Vec<char>) -> (r: Option<Vec<char>>)
    ensures
        match r {
            Some(t) => first_quoted_spec(s@) == Some(t@),
            None => first_quoted_spec(s@) is None,
        },
{
    let mut i: usize = 0;
    while i < s.len()
        invariant
            i <= s.len(),
            forall|j: int| 0 <= j < i ==> s@[j] != '"' && s@[j] != '\'',
        decreases s.len() - i,
    {
        let c = s[i];
        if c == '"' || c == '\'' {
            let rest = slice_chars(s, i + 1, s.len());
            proof {
                let q = choose|q: int|
                    0 <= q < s@.len() && (s@[q] == '"' || s@[q] == '\'') && forall|j: int|
                        0 <= j < q ==> s@[j] != '"' && s@[j] != '\'';
                if q != i {
                    if q < i {
                        assert(s@[q] != '"' && s@[q] != '\'');
                    } else {
                        assert(s@[i as int] != '"' && s@[i as int] != '\'');
                    }
                }
            }
            return match crate::text::find_char_exec(&rest, c) {
                Some(k) => Some(slice_chars(&rest, 0, k)),
                None => None,
            };
        }
        i += 1;
    }
    None
}

/// The first quoted text of `input`.
pub fn first_quoted(input: &str) -> (r: Option<String>)
    ensures
        match r {
            Some(t) => first_quoted_spec(input@) == Some(t@),
            None => first_quoted_spec(input@) is None,
        },
{
    match first_quoted_chars(&chars_of(input)) {
        Some(t) => Some(string_of(t.as_slice())),
        None => None,
    }
}

/// The title after marker `m`: the text after its first occurrence in the
/// lowercased intent, trimmed; its quoted part if it has one, else the
/// text itself without end punctuation; nothing when the text is empty.
pub open spec fn title_after(s: Seq<char>, m: Seq<char>) -> Option<Seq<char>> {
    match find_sub(lower(s), m) {
        Some(k) => {
            let rest = trim(s.subrange(k + m.len(), s.len() as int));
            match first_quoted_spec(rest) {
                Some(q) => Some(q),
                None => if rest.len() > 0 {
                    Some(strip_both(rest, Strip::CommaDot))
                } else {
                    None
                },
            }
        },
        None => None,
    }
}

/// A title in prose: the first quoted text, else the text after
/// `titled `, `called ` or `named `.
pub open spec fn title_spec(s: Seq<char>) -> Option<Seq<char>> {
    match first_quoted_spec(s) {
        Some(q) => Some(q),
        None => match title_after(s, "titled "@) {
            Some(t) => Some(t),
            None => match title_after(s, "called "@) {
                Some(t) => Some(t),
                None => title_after(s, "named "@),
            },
        },
    }
}

fn title_after_exec(s: &Vec<char>, low: &Vec<char>, m: &str) -> (r: Option<Vec<char>>)
    requires
        low@ == lower(s@),
    ensures
        match r {
            Some(t) => title_after(s@, m@) == Some(t@),
            None => title_after(s@, m@) is None,
        },
{
    let mv = chars_of(m);
    match find_sub_exec(low, &mv) {
        Some(k) => {
            let rest = trim_chars(&slice_chars(s, k + mv.len(), s.len()));
            match first_quoted_chars(&rest) {
                Some(q) => Some(q),
                None => if rest.len() > 0 {
                    Some(strip_both_exec(&rest, Strip::CommaDot))
                } else {
                    None
                },
            }
        },
        None => None,
    }
}

/// A title in prose: the first quoted text, else the text after
/// `titled `, `called ` or `named `.
pub fn extract_title(intent: &str) -> (r: Option<String>)
    ensures
        match r {
            Some(t) => title_spec(intent@) == Some(t@),
            None => title_spec(intent@) is None,
        },
{
    let s = chars_of(intent);
    if let Some(q) = first_quoted_chars(&s) {
        return Some(string_of(q.as_slice()));
    }
    let low = lower_seq(&s);
    if let Some(t) = title_after_exec(&s, &low, "titled ") {
        return Some(string_of(t.as_slice()));
    }
    if let Some(t) = title_after_exec(&s, &low, "called ") {
        return Some(string_of(t.as_slice()));
    }
    match title_after_exec(&s, &low, "named ") {
        Some(t) => Some(string_of(t.as_slice())),
        None => None,
    }
}

/// The leading ASCII digits of `s`.
pub open spec fn digit_prefix(s: Seq<char>) -> Seq<char>
    decreases s.len(),
{
    if s.len() > 0 && is_digit(s[0]) {
        seq![s[0]] + digit_prefix(s.drop_first())
    } else {
        Seq::empty()
    }
}

/// The last token of `toks` before position `i` that parses as a number
/// once leading `#`s are dropped.
pub open spec fn last_number(toks: Seq<Seq<char>>, i: int) -> Option<u64>
    decreases i,
{
    if i <= 0 || i > toks.len() {
        None
    } else {
        match parse_u64(strip_start(toks[i - 1], Strip::Hash)) {
            Some(n) => Some(n),
            None => last_number(toks, i - 1),
        }
    }
}

/// An id in prose: the digits after the first `id` (past ` `, `=`, `#`,
/// `:`), else the last token that is a number (`#` allowed in front).
pub open spec fn id_spec(s: Seq<char>) -> Option<u64> {
    let from_marker = match find_sub(lower(s), "id"@) {
        Some(k) => {
            let num = digit_prefix(strip_start(s.subrange(k + 2, s.len() as int), Strip::IdSep));
            if num.len() > 0 {
                Some(parse_u64(num))
            } else {
                None
            }
        },
        None => None,
    };
    match from_marker {
        Some(r) => r,
        None => last_number(runs(s, RunKind::NonWs), runs(s, RunKind::NonWs).len() as int),
    }
}

fn digit_prefix_exec(s: &Vec<char>) -> (r: Vec<char>)
    ensures
        r@ == digit_prefix(s@),
{
    let mut i: usize = 0;
    while i < s.len() && is_digit_exec(s[i])
        invariant
            i <= s.len(),
            forall|j: int| 0 <= j < i ==> is_digit(#[trigger] s@[j]),
        decreases s.len() - i,
    {
        i += 1;
    }
    proof {
        lemma_digit_prefix(s@, i as int);
    }
    slice_chars(s, 0, i)
}

proof fn lemma_digit_prefix(s: Seq<char>, i: int)
    requires
        0 <= i <= s.len(),
        forall|j: int| 0 <= j < i ==> is_digit(#[trigger] s[j]),
        i == s.len() || !is_digit(s[i]),
    ensures
        digit_prefix(s) == s.subrange(0, i),
    decreases i,
{
    if i > 0 {
        let t = s.drop_first();
        assert forall|j: int| 0 <= j < i - 1 implies is_digit(#[trigger] t[j]) by {
            assert(t[j] == s[j + 1]);
        }
        if i - 1 < t.len() {
            assert(t[i - 1] == s[i]);
        }
        lemma_digit_prefix(t, i - 1);
        assert(seq![s[0]] + t.subrange(0, i - 1) =~= s.subrange(0, i));
    } else {
        assert(s.subrange(0, 0) =~= Seq::<char>::empty());
    }
}

/// An id in prose: the number after `id`, else the last number token.
pub fn extract_id(intent: &str) -> (r: Option<u64>)
    ensures
        r == id_spec(intent@),
{
    let s = chars_of(intent);
    let low = lower_seq(&s);
    let marker = chars_of("id");
    proof {
        reveal_strlit("id");
    }
    if let Some(k) = find_sub_exec(&low, &marker) {
        let rest = strip_start_exec(&slice_chars(&s, k + 2, s.len()), Strip::IdSep);
        let num = digit_prefix_exec(&rest);
        if num.len() > 0 {
            return parse_u64_exec(&num);
        }
    }
    let toks = runs_exec(&s, RunKind::NonWs);
    let ghost tv = chars_view(toks@);
    assert(id_spec(intent@) == last_number(tv, tv.len() as int));
    let mut i: usize = toks.len();
    while i > 0
        invariant
            i <= toks.len(),
            tv == chars_view(toks@),
            tv == runs(intent@, RunKind::NonWs),
            id_spec(intent@) == last_number(tv, tv.len() as int),
            last_number(tv, tv.len() as int) == last_number(tv, i as int),
        decreases i,
    {
        assert(tv[i - 1] == toks@[i - 1]@);
        let t = strip_start_exec(&toks[i - 1], Strip::Hash);
        if let Some(n) = parse_u64_exec(&t) {
            return Some(n);
        }
        i -= 1;
    }
    None
}

// ---------------------------------------------------------------------------
// Scoring
// ---------------------------------------------------------------------------

pub open spec fn contains_sub(a: Seq<char>, b: Seq<char>) -> bool {
    find_sub(a, b) is Some
}

/// How many keywords (with repeats) are among the words.
pub open spec fn keyword_hits(kws: Seq<Seq<char>>, words: Seq<Seq<char>>) -> nat
    decreases kws.len(),
{
    if kws.len() == 0 {
        0
    } else {
        keyword_hits(kws.drop_last(), words) + if words.contains(kws.last()) {
            1nat
        } else {
            0nat
        }
    }
}

/// How many description words (with repeats), lowercased and longer than
/// two characters, are among the words.
pub open spec fn desc_hits(pieces: Seq<Seq<char>>, words: Seq<Seq<char>>) -> nat
    decreases pieces.len(),
{
    if pieces.len() == 0 {
        0
    } else {
        desc_hits(pieces.drop_last(), words) + if lower(pieces.last()).len() > 2 && words.contains(
            lower(pieces.last()),
        ) {
            1nat
        } else {
            0nat
        }
    }
}

/// 10 when the schema's name occurs in the intent (case-insensitive), 2
/// per keyword among the intent's words, 1 per description word of three
/// or more letters among them.
pub open spec fn score_spec(intent: Seq<char>, words: Seq<Seq<char>>, s: OpSchema) -> int {
    (if contains_sub(lower(intent), lower(s.name@)) {
        10int
    } else {
        0int
    }) + 2 * keyword_hits(strings_view(s.keywords@), words) + desc_hits(
        runs(s.description@, RunKind::Alnum),
        words,
    )
}

/// The score of `s` cannot overflow an `i32`.
pub open spec fn score_fits(s: OpSchema) -> bool {
    10 + 2 * s.keywords@.len() + s.description@.len() <= i32::MAX
}

proof fn lemma_runs_len(s: Seq<char>, kind: RunKind)
    ensures
        runs_acc(s, kind).0.len() + (if runs_acc(s, kind).1.len() > 0 {
            1int
        } else {
            0int
        }) <= s.len(),
        runs_acc(s, kind).1.len() <= s.len(),
        runs(s, kind).len() <= s.len(),
    decreases s.len(),
{
    if s.len() > 0 {
        lemma_runs_len(s.drop_last(), kind);
    }
}

proof fn lemma_keyword_hits_bound(kws: Seq<Seq<char>>, words: Seq<Seq<char>>)
    ensures
        keyword_hits(kws, words) <= kws.len(),
    decreases kws.len(),
{
    if kws.len() > 0 {
        lemma_keyword_hits_bound(kws.drop_last(), words);
    }
}

proof fn lemma_desc_hits_bound(p: Seq<Seq<char>>, words: Seq<Seq<char>>)
    ensures
        desc_hits(p, words) <= p.len(),
    decreases p.len(),
{
    if p.len() > 0 {
        lemma_desc_hits_bound(p.drop_last(), words);
    }
}

fn contains_word(words: &Vec<String>, w: &Vec<char>) -> (r: bool)
    ensures
        r == strings_view(words@).contains(w@),
{
    let mut i: usize = 0;
    while i < words.len()
        invariant
            i <= words.len(),
            forall|j: int| 0 <= j < i ==> #[trigger] strings_view(words@)[j] != w@,
        decreases words.len() - i,
    {
        let c = chars_of(words[i].as_str());
        if seq_eq(&c, w) {
            assert(strings_view(words@)[i as int] == w@);
            return true;
        }
        i += 1;
    }
    proof {
        if strings_view(words@).contains(w@) {
            let j = choose|j: int| 0 <= j < strings_view(words@).len() && strings_view(words@)[j] == w@;
            assert(strings_view(words@)[j] != w@);
        }
    }
    false
}

/// How well `schema` matches an intent and its words.
pub fn score(intent: &str, words: &Vec<String>, schema: &OpSchema) -> (r: i32)
    requires
        score_fits(*schema),
    ensures
        r == score_spec(intent@, strings_view(words@), *schema),
{
    let ghost wv = strings_view(words@);
    let mut total: i32 = 0;
    let lower_intent = lower_seq(&chars_of(intent));
    let lower_name = lower_seq(&chars_of(schema.name.as_str()));
    if find_sub_exec(&lower_intent, &lower_name).is_some() {
        total = 10;
    }
    let ghost base = total as int;
    let mut k: usize = 0;
    while k < schema.keywords.len()
        invariant
            k <= schema.keywords.len(),
            wv == strings_view(words@),
            score_fits(*schema),
            base <= 10,
            total == base + 2 * keyword_hits(strings_view(schema.keywords@).subrange(0, k as int), wv),
        decreases schema.keywords.len() - k,
    {
        let ghost pre = strings_view(schema.keywords@).subrange(0, k as int);
        let ghost next = strings_view(schema.keywords@).subrange(0, k + 1);
        assert(next.drop_last() =~= pre);
        assert(next.last() == schema.keywords@[k as int]@);
        proof {
            lemma_keyword_hits_bound(pre, wv);
        }
        let kw = chars_of(schema.keywords[k].as_str());
        if contains_word(words, &kw) {
            total = total + 2;
        }
        k += 1;
    }
    assert(strings_view(schema.keywords@).subrange(0, schema.keywords.len() as int) =~= strings_view(schema.keywords@));
    let ghost mid = total as int;
    let pieces = runs_exec(&chars_of(schema.description.as_str()), RunKind::Alnum);
    proof {
        lemma_runs_len(schema.description@, RunKind::Alnum);
        lemma_keyword_hits_bound(strings_view(schema.keywords@), wv);
    }
    let ghost pv = chars_view(pieces@);
    let mut k: usize = 0;
    while k < pieces.len()
        invariant
            k <= pieces.len(),
            pv == chars_view(pieces@),
            pv == runs(schema.description@, RunKind::Alnum),
            pv.len() <= schema.description@.len(),
            wv == strings_view(words@),
            score_fits(*schema),
            mid <= 10 + 2 * schema.keywords@.len(),
            total == mid + desc_hits(pv.subrange(0, k as int), wv),
        decreases pieces.len() - k,
    {
        let ghost pre = pv.subrange(0, k as int);
        let ghost next = pv.subrange(0, k + 1);
        assert(next.drop_last() =~= pre);
        assert(next.last() == pieces@[k as int]@);
        proof {
            lemma_desc_hits_bound(pre, wv);
        }
        let w = lower_seq(&pieces[k]);
        if w.len() > 2 && contains_word(words, &w) {
            total = total + 1;
        }
        k += 1;
    }
    assert(pv.subrange(0, pieces.len() as int) =~= pv);
    total
}

// ---------------------------------------------------------------------------
// Building the op
// ---------------------------------------------------------------------------

/// The op an intent materializes to, as plain values. The JSON arguments of
/// an `invoke` are described by the title and id put in them.
pub enum MatOp {
    Hello,
    Wait,
    Snapshot,
    Screenshot,
    Shutdown,
    Click(Seq<char>),
    SetValue(Seq<char>, Seq<char>),
    Assert(Seq<char>),
    Invoke(Seq<char>, Option<Seq<char>>, Option<u64>),
}

pub open spec fn mat_op_is(op: Op, m: MatOp) -> bool {
    match m {
        MatOp::Hello => op is Hello,
        MatOp::Wait => op == Op::Wait { timeout_ms: None },
        MatOp::Snapshot => op is Snapshot,
        MatOp::Screenshot => op matches Op::Screenshot { path, mode, target, max_height_px } && path is None
            && mode == ScreenshotMode::Viewport && target is None && max_height_px is None,
        MatOp::Shutdown => op is Shutdown,
        MatOp::Click(t) => op matches Op::Click { target, delivery } && target@ == t && delivery
            == crate::protocol::DeliveryMode::Semantic,
        MatOp::SetValue(t, v) => op matches Op::SetValue { target, value } && target@ == t && value@ == v,
        MatOp::Assert(t) => op matches Op::Assert { spec } && spec@ == crate::protocol::AssertView {
            target: t,
            ..empty_assert()
        },
        MatOp::Invoke(n, t, i) => op matches Op::Invoke { name, args } && name@ == n && args
            == json_object_value(invoke_entries(t, i)),
    }
}

/// The arguments of an `invoke` read from an intent: the title, then the
/// id, each when the schema requires it.
pub open spec fn invoke_entries(title: Option<Seq<char>>, id: Option<u64>) -> Seq<(Seq<char>, serde_json::Value)> {
    (match title {
        Some(t) => seq![("title"@, json_string_value(t))],
        None => Seq::empty(),
    }) + (match id {
        Some(i) => seq![("id"@, json_u64_value(i))],
        None => Seq::empty(),
    })
}

pub type FillV = (Seq<char>, Seq<char>, Seq<char>);

pub open spec fn no_id_error() -> Seq<char> {
    "click/assert needs a stable id"@
}

/// How a schema's op is read from an intent.
pub open spec fn materialize_spec(intent: Seq<char>, s: OpSchema) -> Result<(MatOp, Seq<FillV>), Seq<char>> {
    let n = s.name@;
    match s.kind {
        SchemaKind::Protocol => if n == "hello"@ {
            Ok((MatOp::Hello, Seq::empty()))
        } else if n == "wait"@ {
            Ok((MatOp::Wait, Seq::empty()))
        } else if n == "snapshot"@ {
            Ok((MatOp::Snapshot, Seq::empty()))
        } else if n == "screenshot"@ {
            Ok((MatOp::Screenshot, Seq::empty()))
        } else if n == "shutdown"@ {
            Ok((MatOp::Shutdown, Seq::empty()))
        } else if n == "click"@ || n == "set_value"@ || n == "assert"@ {
            match id_token_spec(intent) {
                None => Err(no_id_error()),
                Some(t) => {
                    let tf: FillV = ("target"@, t, "token"@);
                    if n == "click"@ {
                        Ok((MatOp::Click(t), seq![tf]))
                    } else if n == "assert"@ {
                        Ok((MatOp::Assert(t), seq![tf]))
                    } else {
                        match title_spec(intent) {
                            None => Err("set_value needs a quoted value"@),
                            Some(v) => Ok((MatOp::SetValue(t, v), seq![tf, ("value"@, v, "quoted"@)])),
                        }
                    }
                },
            }
        } else {
            Err("resolved `"@ + n + "` but do not know how to materialize it from prose"@)
        },
        SchemaKind::Invoke => {
            let req = strings_view(s.required@);
            let title = if req.contains("title"@) {
                title_spec(intent)
            } else {
                None
            };
            let id = if req.contains("id"@) {
                id_spec(intent)
            } else {
                None
            };
            if req.contains("title"@) && title is None {
                Err(n + " requires title (quote it or write titled \u{2026})"@)
            } else if req.contains("id"@) && id is None {
                Err(n + " requires id"@)
            } else {
                let f1: Seq<FillV> = match title {
                    Some(t) => seq![("title"@, t, "quoted_or_titled"@)],
                    None => Seq::empty(),
                };
                let f2: Seq<FillV> = match id {
                    Some(i) => seq![("id"@, decimal(i as nat), "number"@)],
                    None => Seq::empty(),
                };
                Ok((MatOp::Invoke(n, title, id), f1 + f2))
            }
        },
        SchemaKind::Id => Ok((MatOp::Click(n), seq![("target"@, n, "schema"@)])),
    }
}

fn fill(name: &str, value: &str, source: &str) -> (r: TokenFill)
    ensures
        fill_view(r) == (name@, value@, source@),
{
    TokenFill { name: name.to_owned(), value: value.to_owned(), source: source.to_owned() }
}

/// The stable id an intent names, recorded as a filled field.
pub fn required_target(intent: &str, fills: &mut Vec<TokenFill>) -> (r: Result<String, String>)
    ensures
        match id_token_spec(intent@) {
            Some(t) => r matches Ok(x) && x@ == t && fills_view(final(fills)@) == fills_view(old(fills)@).push(
                ("target"@, t, "token"@),
            ),
            None => r matches Err(e) && e@ == no_id_error() && final(fills)@ == old(fills)@,
        },
{
    match extract_id_token(intent) {
        None => Err("click/assert needs a stable id".to_owned()),
        Some(t) => {
            let ghost before = fills@;
            fills.push(fill("target", t.as_str(), "token"));
            assert(fills_view(fills@) =~= fills_view(before).push(("target"@, t@, "token"@)));
            Ok(t)
        },
    }
}

pub open spec fn mat_result(r: Result<(Op, Vec<TokenFill>), String>, m: Result<(MatOp, Seq<FillV>), Seq<char>>) -> bool {
    match (r, m) {
        (Ok((op, f)), Ok((mo, fv))) => mat_op_is(op, mo) && fills_view(f@) == fv,
        (Err(e), Err(x)) => e@ == x,
        _ => false,
    }
}

/// Read the fields of `schema`'s op from the intent.
pub fn materialize(intent: &str, schema: &OpSchema) -> (r: Result<(Op, Vec<TokenFill>), String>)
    ensures
        mat_result(r, materialize_spec(intent@, *schema)),
{
    let mut fills: Vec<TokenFill> = Vec::new();
    assert(fills_view(fills@) =~= Seq::<FillV>::empty());
    let n = schema.name.as_str();
    match schema.kind {
        SchemaKind::Protocol => {
            if str_eq(n, "hello") {
                {
                    let res = Ok((Op::Hello, fills));
                    assert(mat_result(res, materialize_spec(intent@, *schema)));
                    res
                }
            } else if str_eq(n, "wait") {
                {
                    let res = Ok((Op::Wait { timeout_ms: None }, fills));
                    assert(mat_result(res, materialize_spec(intent@, *schema)));
                    res
                }
            } else if str_eq(n, "snapshot") {
                {
                    let res = Ok((Op::Snapshot, fills));
                    assert(mat_result(res, materialize_spec(intent@, *schema)));
                    res
                }
            } else if str_eq(n, "screenshot") {
                {
                    let res = Ok((Op::Screenshot { path: None, mode: ScreenshotMode::Viewport, target: None, max_height_px: None }, fills));
                    assert(mat_result(res, materialize_spec(intent@, *schema)));
                    res
                }
            } else if str_eq(n, "shutdown") {
                {
                    let res = Ok((Op::Shutdown, fills));
                    assert(mat_result(res, materialize_spec(intent@, *schema)));
                    res
                }
            } else if str_eq(n, "click") || str_eq(n, "set_value") || str_eq(n, "assert") {
                let target = match required_target(intent, &mut fills) {
                    Ok(t) => t,
                    Err(e) => return Err(e),
                };
                if str_eq(n, "click") {
                    {
                    let res = Ok((Op::Click { target, delivery: crate::protocol::DeliveryMode::Semantic }, fills));
                    assert(mat_result(res, materialize_spec(intent@, *schema)));
                    res
                }
                } else if str_eq(n, "assert") {
                    let mut spec = AssertSpec::default();
                    let ghost tv = target@;
                    spec.target = target;
                    assert(spec@ == crate::protocol::AssertView { target: tv, ..empty_assert() });
                    {
                    let res = Ok((Op::Assert { spec }, fills));
                    assert(mat_result(res, materialize_spec(intent@, *schema)));
                    res
                }
                } else {
                    let value = match extract_title(intent) {
                        Some(v) => v,
                        None => return Err("set_value needs a quoted value".to_owned()),
                    };
                    let ghost before = fills@;
                    fills.push(fill("value", value.as_str(), "quoted"));
                    assert(fills_view(fills@) =~= fills_view(before).push(("value"@, value@, "quoted"@)));
                    let ghost tf: FillV = ("target"@, target@, "token"@);
                    assert(fills_view(before) =~= seq![tf]);
                    assert(fills_view(fills@) =~= seq![tf, ("value"@, value@, "quoted"@)]);
                    let op = Op::SetValue { target, value };
                    assert(mat_op_is(op, MatOp::SetValue(tf.1, title_spec(intent@)->0)));
                    {
                    let res = Ok((op, fills));
                    assert(mat_result(res, materialize_spec(intent@, *schema)));
                    res
                }
                }
            } else {
                let mut e = "resolved `".to_owned();
                e.append(n);
                e.append("` but do not know how to materialize it from prose");
                Err(e)
            }
        },
        SchemaKind::Invoke => {
            let mut entries: Vec<(String, serde_json::Value)> = Vec::new();
            let needs_title = has_required(&schema.required, "title");
            let needs_id = has_required(&schema.required, "id");
            let ghost mut title: Option<Seq<char>> = None;
            let ghost mut idv: Option<u64> = None;
            if needs_title {
                let t = match extract_title(intent) {
                    Some(t) => t,
                    None => {
                        let mut e = schema.name.clone();
                        e.append(" requires title (quote it or write titled \u{2026})");
                        return Err(e);
                    },
                };
                let ghost before = fills@;
                fills.push(fill("title", t.as_str(), "quoted_or_titled"));
                assert(fills_view(fills@) =~= fills_view(before).push(("title"@, t@, "quoted_or_titled"@)));
                proof {
                    title = Some(t@);
                }
                let v = json_string(t.as_str());
                entries.push(("title".to_owned(), v));
                assert(entries_view(entries@) =~= seq![("title"@, json_string_value(t@))]);
            }
            assert(entries_view(entries@) =~= invoke_entries(title, None));
            if needs_id {
                let id = match extract_id(intent) {
                    Some(i) => i,
                    None => {
                        let mut e = schema.name.clone();
                        e.append(" requires id");
                        return Err(e);
                    },
                };
                let digits = string_of(decimal_string(id).as_slice());
                let ghost before = fills@;
                fills.push(fill("id", digits.as_str(), "number"));
                assert(fills_view(fills@) =~= fills_view(before).push(("id"@, decimal(id as nat), "number"@)));
                proof {
                    idv = Some(id);
                }
                let ghost pre = entries_view(entries@);
                entries.push(("id".to_owned(), json_u64(id)));
                assert(entries_view(entries@) =~= pre.push(("id"@, json_u64_value(id))));
            }
            assert(entries_view(entries@) =~= invoke_entries(title, idv));
            proof {
                let f1: Seq<FillV> = match title {
                    Some(t) => seq![("title"@, t, "quoted_or_titled"@)],
                    None => Seq::empty(),
                };
                let f2: Seq<FillV> = match idv {
                    Some(i) => seq![("id"@, decimal(i as nat), "number"@)],
                    None => Seq::empty(),
                };
                assert(fills_view(fills@) =~= f1 + f2);
            }
            let op = Op::Invoke { name: schema.name.clone(), args: json_object(entries) };
            assert(mat_op_is(op, MatOp::Invoke(n@, title, idv)));
            {
                    let res = Ok((op, fills));
                    assert(mat_result(res, materialize_spec(intent@, *schema)));
                    res
                }
        },
        SchemaKind::Id => {
            let ghost before = fills@;
            fills.push(fill("target", n, "schema"));
            assert(fills_view(fills@) =~= fills_view(before).push(("target"@, n@, "schema"@)));
            {
                    let res = Ok((Op::Click { target: schema.name.clone(), delivery: crate::protocol::DeliveryMode::Semantic }, fills));
                    assert(mat_result(res, materialize_spec(intent@, *schema)));
                    res
                }
        },
    }
}

fn has_required(req: &Vec<String>, name: &str) -> (r: bool)
    ensures
        r == strings_view(req@).contains(name@),
{
    let mut i: usize = 0;
    while i < req.len()
        invariant
            i <= req.len(),
            forall|j: int| 0 <= j < i ==> #[trigger] strings_view(req@)[j] != name@,
        decreases req.len() - i,
    {
        if str_eq(req[i].as_str(), name) {
            assert(strings_view(req@)[i as int] == name@);
            return true;
        }
        i += 1;
    }
    proof {
        if strings_view(req@).contains(name@) {
            let j = choose|j: int| 0 <= j < strings_view(req@).len() && strings_view(req@)[j] == name@;
            assert(strings_view(req@)[j] != name@);
        }
    }
    false
}

// ---------------------------------------------------------------------------
// Choosing the schema
// ---------------------------------------------------------------------------

pub open spec fn score_at(reg: Registry, t: Seq<char>, j: int) -> int {
    score_spec(t, words_spec(t), reg.entries()[j])
}

/// The best score among the first `i` entries, at least 0.
pub open spec fn best_upto(reg: Registry, t: Seq<char>, i: int) -> int
    decreases i,
{
    if i <= 0 {
        0
    } else {
        let b = best_upto(reg, t, i - 1);
        let s = score_at(reg, t, i - 1);
        if s > b {
            s
        } else {
            b
        }
    }
}

pub open spec fn best_score(reg: Registry, t: Seq<char>) -> int {
    best_upto(reg, t, reg.entries().len() as int)
}

/// Entry `j` has the best score.
pub open spec fn tied(reg: Registry, t: Seq<char>, j: int) -> bool {
    0 <= j < reg.entries().len() && score_at(reg, t, j) == best_score(reg, t)
}

pub open spec fn name_at(reg: Registry, j: int) -> Seq<char> {
    reg.entries()[j].name@
}

/// `j` has the smallest name among the best-scored entries other than
/// `except`.
pub open spec fn least_tied(reg: Registry, t: Seq<char>, j: int, except: int) -> bool {
    &&& tied(reg, t, j)
    &&& j != except
    &&& forall|k: int| tied(reg, t, k) && k != j && k != except ==> lex_lt(name_at(reg, j), #[trigger] name_at(reg, k))
}

/// An intent resolved to a schema: its name, the op, its effects, the best
/// score, the fields read from the prose, and idempotence.
#[derive(Debug)]
pub struct Resolved {
    pub schema: String,
    pub op: Op,
    pub effects: Vec<Effect>,
    pub score: i32,
    pub tokens_filled: Vec<TokenFill>,
    pub idempotent: bool,
}

/// How an intent resolves. Empty: refused. No schema scores 2 or more:
/// unknown. Two or more share the best score: ambiguous, naming the two
/// smallest names. Else the best schema's op is read from the prose.
pub open spec fn resolve_ok(reg: Registry, intent: Seq<char>, r: Result<Resolved, String>) -> bool {
    let t = trim(intent);
    if t.len() == 0 {
        r matches Err(e) && e@ == "empty intent"@
    } else if best_score(reg, t) < 2 {
        r matches Err(e) && e@ == "unknown intent (fail closed): "@ + t
    } else if exists|j1: int, j2: int| tied(reg, t, j1) && tied(reg, t, j2) && j1 != j2 {
        exists|j1: int, j2: int|
            #[trigger] least_tied(reg, t, j1, -1) && #[trigger] least_tied(reg, t, j2, j1) && (r matches Err(e) && e@
                == "ambiguous intent (fail closed): `"@ + t + "` matches `"@ + name_at(reg, j1) + "` and `"@
                + name_at(reg, j2) + "`"@)
    } else {
        exists|j: int|
            #[trigger] tied(reg, t, j) && {
                let s = reg.entries()[j];
                match (r, materialize_spec(t, s)) {
                    (Ok(x), Ok((mo, fv))) => x.schema@ == s.name@ && mat_op_is(x.op, mo) && fills_view(
                        x.tokens_filled@,
                    ) == fv && x.effects@ == s.effects@ && x.idempotent == s.idempotent && x.score
                        == best_score(reg, t),
                    (Err(e), Err(m)) => e@ == m,
                    _ => false,
                }
            }
    }
}

/// Every entry's score fits an `i32`.
pub open spec fn scores_fit(reg: Registry) -> bool {
    forall|j: int| 0 <= j < reg.entries().len() ==> score_fits(#[trigger] reg.entries()[j])
}

/// Whether every entry's score fits an `i32`, which [`resolve_intent`]
/// needs of its registry.
pub fn scores_fit_check(registry: &Registry) -> (r: bool)
    ensures
        r == scores_fit(*registry),
{
    let schemas = registry.schemas();
    let mut j: usize = 0;
    while j < schemas.len()
        invariant
            j <= schemas@.len(),
            schemas@ == registry.entries(),
            forall|k: int| 0 <= k < j ==> score_fits(#[trigger] registry.entries()[k]),
        decreases schemas.len() - j,
    {
        let s = &schemas[j];
        let desc = chars_of(s.description.as_str());
        let kw = s.keywords.len() as u64;
        let d = desc.len() as u64;
        if kw > 0x4000_0000 || d > 0x8000_0000 || 10 + 2 * kw + d > 0x7fff_ffff {
            assert(!score_fits(registry.entries()[j as int]));
            return false;
        }
        j += 1;
    }
    true
}

fn copy_effects(v: &Vec<Effect>) -> (r: Vec<Effect>)
    ensures
        r@ == v@,
{
    let mut out: Vec<Effect> = Vec::new();
    let mut i: usize = 0;
    while i < v.len()
        invariant
            i <= v.len(),
            out@ == v@.subrange(0, i as int),
        decreases v.len() - i,
    {
        out.push(v[i]);
        i += 1;
        assert(out@ =~= v@.subrange(0, i as int));
    }
    assert(v@.subrange(0, v.len() as int) =~= v@);
    out
}

/// Resolve an intent to the registry schema it names best, and read that
/// schema's op from it. Unknown or ambiguous intents are refused.
pub fn resolve_intent(intent: &str, registry: &Registry) -> (r: Result<Resolved, String>)
    requires
        scores_fit(*registry),
    ensures
        resolve_ok(*registry, intent@, r),
{
    proof {
        use_type_invariant(registry);
    }
    let tv = trim_chars(&chars_of(intent));
    let ghost t = tv@;
    if tv.len() == 0 {
        return Err("empty intent".to_owned());
    }
    let trimmed = string_of(tv.as_slice());
    let words = words_of(trimmed.as_str());
    let entries = registry.schemas();
    let ghost reg = *registry;
    let mut best: i32 = 0;
    let mut first: Option<usize> = None;
    let mut second: Option<usize> = None;
    let mut j: usize = 0;
    while j < entries.len()
        invariant
            j <= entries.len(),
            entries@ == reg.entries(),
            reg == *registry,
            registry.wf(),
            scores_fit(reg),
            trimmed@ == t,
            strings_view(words@) == words_spec(t),
            best == best_upto(reg, t, j as int),
            best >= 0,
            forall|k: int| 0 <= k < j ==> #[trigger] score_at(reg, t, k) <= best,
            // `first` is the least name among the best of the first `j`, if any scored.
            first is None <==> best == 0,
            first matches Some(f) ==> f < j && score_at(reg, t, f as int) == best && forall|k: int|
                0 <= k < j && score_at(reg, t, k) == best && k != f ==> lex_lt(name_at(reg, f as int), #[trigger] name_at(reg, k)),
            second matches Some(g) ==> first is Some && g < j && g != first->0 && score_at(reg, t, g as int) == best,
            second matches Some(g) ==> forall|k: int|
                0 <= k < j && score_at(reg, t, k) == best && k != first->0 && k != g ==> lex_lt(name_at(reg, g as int), #[trigger] name_at(reg, k)),
            second is None && first is Some ==> forall|k: int|
                0 <= k < j && score_at(reg, t, k) == best ==> k == first->0,
        decreases entries.len() - j,
    {
        let sc = score(trimmed.as_str(), &words, &entries[j]);
        assert(sc == score_at(reg, t, j as int));
        proof {
            assert(score_fits(reg.entries()[j as int]));
        }
        let name_j = chars_of(entries[j].name.as_str());
        if sc > best {
            best = sc;
            first = Some(j);
            second = None;
        } else if sc == best && sc > 0 {
            let f = first.unwrap();
            let name_f = chars_of(entries[f].name.as_str());
            proof {
                assert(name_at(reg, f as int) != name_at(reg, j as int));
                lemma_lex_lt_total(name_at(reg, f as int), name_at(reg, j as int));
            }
            if lex_lt_exec(&name_j, &name_f) {
                proof {
                    assert forall|k: int| 0 <= k < j + 1 && score_at(reg, t, k) == best && k != j implies lex_lt(name_at(reg, j as int), #[trigger] name_at(reg, k)) by {
                        if k != f {
                            lemma_lex_lt_transitive(name_at(reg, j as int), name_at(reg, f as int), name_at(reg, k));
                        }
                    }
                }
                second = first;
                first = Some(j);
            } else {
                let replace = match second {
                    None => true,
                    Some(g) => {
                        let name_g = chars_of(entries[g].name.as_str());
                        proof {
                            assert(name_at(reg, g as int) != name_at(reg, j as int));
                            lemma_lex_lt_total(name_at(reg, g as int), name_at(reg, j as int));
                        }
                        lex_lt_exec(&name_j, &name_g)
                    },
                };
                if replace {
                    proof {
                        if second is Some {
                            let g = second->0;
                            assert forall|k: int| 0 <= k < j + 1 && score_at(reg, t, k) == best && k != f && k != j implies lex_lt(name_at(reg, j as int), #[trigger] name_at(reg, k)) by {
                                if k != g {
                                    lemma_lex_lt_transitive(name_at(reg, j as int), name_at(reg, g as int), name_at(reg, k));
                                }
                            }
                        }
                    }
                    second = Some(j);
                }
            }
        }
        j += 1;
    }
    assert(best == best_score(reg, t));
    if best < 2 {
        let mut e = "unknown intent (fail closed): ".to_owned();
        e.append(trimmed.as_str());
        return Err(e);
    }
    let f = first.unwrap();
    assert(least_tied(reg, t, f as int, -1));
    match second {
        Some(g) => {
            assert(least_tied(reg, t, g as int, f as int));
            let mut e = "ambiguous intent (fail closed): `".to_owned();
            e.append(trimmed.as_str());
            e.append("` matches `");
            e.append(entries[f].name.as_str());
            e.append("` and `");
            e.append(entries[g].name.as_str());
            e.append("`");
            assert(tied(reg, t, f as int) && tied(reg, t, g as int));
            Err(e)
        },
        None => {
            proof {
                if exists|j1: int, j2: int| tied(reg, t, j1) && tied(reg, t, j2) && j1 != j2 {
                    let (j1, j2) = choose|j1: int, j2: int| tied(reg, t, j1) && tied(reg, t, j2) && j1 != j2;
                    assert(j1 == f as int && j2 == f as int);
                }
            }
            let schema = &entries[f];
            let (op, fills) = match materialize(trimmed.as_str(), schema) {
                Ok(x) => x,
                Err(e) => {
                    assert(tied(reg, t, f as int));
                    return Err(e);
                },
            };
            let res = Resolved {
                schema: schema.name.clone(),
                op,
                effects: copy_effects(&schema.effects),
                score: best,
                tokens_filled: fills,
                idempotent: schema.idempotent,
            };
            assert(tied(reg, t, f as int));
            Ok(res)
        },
    }
}


/// A description word that scores: longer than two letters once
/// lowercased, and among `words` that way.
pub open spec fn scoring_word(words: Seq<Seq<char>>) -> spec_fn(Seq<char>) -> bool {
    |p: Seq<char>| lower(p).len() > 2 && words.contains(lower(p))
}

/// A keyword that scores: among `words` as it is.
pub open spec fn scoring_keyword(words: Seq<Seq<char>>) -> spec_fn(Seq<char>) -> bool {
    |k: Seq<char>| words.contains(k)
}

proof fn lemma_desc_hits_count(pieces: Seq<Seq<char>>, words: Seq<Seq<char>>)
    ensures
        desc_hits(pieces, words) == pieces.filter(scoring_word(words)).len(),
    decreases pieces.len(),
{
    reveal(Seq::filter);
    if pieces.len() > 0 {
        lemma_desc_hits_count(pieces.drop_last(), words);
    }
}

proof fn lemma_keyword_hits_count(kws: Seq<Seq<char>>, words: Seq<Seq<char>>)
    ensures
        keyword_hits(kws, words) == kws.filter(scoring_keyword(words)).len(),
    decreases kws.len(),
{
    reveal(Seq::filter);
    if kws.len() > 0 {
        lemma_keyword_hits_count(kws.drop_last(), words);
    }
}

/// A schema's score for an intent with the words `words`: 10 when the
/// intent holds the schema's name (case-insensitive), 2 for each keyword
/// among the words, and 1 for each alphanumeric run of its description
/// that, lowercased, is longer than two letters and among the words.
pub proof fn lemma_score_counts_words(intent: Seq<char>, words: Seq<Seq<char>>, s: OpSchema)
    ensures
        score_spec(intent, words, s) == (if contains_sub(lower(intent), lower(s.name@)) {
            10int
        } else {
            0int
        }) + 2 * strings_view(s.keywords@).filter(scoring_keyword(words)).len() + runs(
            s.description@,
            RunKind::Alnum,
        ).filter(scoring_word(words)).len(),
        // Each scoring description word adds one point: the score is at
        // least their count.
        score_spec(intent, words, s) >= runs(s.description@, RunKind::Alnum).filter(scoring_word(words)).len(),
{
    lemma_desc_hits_count(runs(s.description@, RunKind::Alnum), words);
    lemma_keyword_hits_count(strings_view(s.keywords@), words);
}

} // verus!
