//! The `$param` names a recipe step uses: every placeholder in the strings
//! of its op, the invoke arguments walked as a JSON tree.

use vstd::prelude::*;

use crate::protocol::{opt_str_view, AssertSpec, Op};
use crate::recipe::{
    entries_view,
    collect_placeholders, first_step_error, found_view, placeholder_error_from,
    placeholders_from, recipe_error, step_error, RecipeStep, Recipe,
};
use crate::schema::Registry;
use crate::text::{lemma_lex_lt_irreflexive, lemma_lex_lt_transitive, lex_lt, str_eq, strings_view};
use crate::tree_ids::{insert_sorted, sorted_strictly};

verus! {

/// The text of a JSON string (`Value::as_str`).
pub uninterp spec fn json_str_of(v: serde_json::Value) -> Option<Seq<char>>;

/// The elements of a JSON array (`Value::as_array`), in order.
pub uninterp spec fn json_items_of(v: serde_json::Value) -> Option<Seq<serde_json::Value>>;

/// The entries of a JSON object (`Value::as_object`), in the map's order.
pub uninterp spec fn json_entries_of(v: serde_json::Value) -> Option<Seq<(Seq<char>, serde_json::Value)>>;

/// The number of values a JSON value holds, itself included.
pub uninterp spec fn json_nodes(v: serde_json::Value) -> nat;

/// `serde_json::Value::as_str`: the text of a JSON string, else `None`.
#[verifier::external_body]
pub(crate) fn json_as_str(v: &serde_json::Value) -> (r: Option<String>)
    ensures
        opt_str_view(r) == json_str_of(*v),
{
    match v.as_str() {
        Some(s) => Some(s.to_owned()),
        None => None,
    }
}

/// `serde_json::Value::as_array`: the elements of a JSON array, else `None`.
/// A `Value` is a finite tree, so each element holds fewer values than the
/// array.
#[verifier::external_body]
pub(crate) fn json_as_array(v: &serde_json::Value) -> (r: Option<Vec<serde_json::Value>>)
    ensures
        match r {
            Some(xs) => json_items_of(*v) == Some(xs@)
                && forall|k: int| 0 <= k < xs@.len() ==> #[trigger] json_nodes(xs@[k]) < json_nodes(*v),
            None => json_items_of(*v) is None,
        },
{
    v.as_array().cloned()
}

/// `serde_json::Value::as_object`: the entries of a JSON object, in the
/// map's order, else `None`. Each member value holds fewer values than the
/// object.
#[verifier::external_body]
pub(crate) fn json_as_object(v: &serde_json::Value) -> (r: Option<Vec<(String, serde_json::Value)>>)
    ensures
        match r {
            Some(es) => json_entries_of(*v) == Some(entries_view(es@))
                && forall|k: int| 0 <= k < es@.len() ==> #[trigger] json_nodes(es@[k].1) < json_nodes(*v),
            None => json_entries_of(*v) is None,
        },
{
    match v.as_object() {
        Some(m) => Some(m.clone().into_iter().collect()),
        None => None,
    }
}

fn member_values(es: Vec<(String, serde_json::Value)>) -> (r: Vec<serde_json::Value>)
    ensures
        r@ == Seq::new(es@.len(), |k: int| es@[k].1),
{
    let mut out: Vec<serde_json::Value> = Vec::new();
    let mut es = es;
    let ghost e0 = es@;
    let mut rest: Vec<(String, serde_json::Value)> = Vec::new();
    // Take the entries from the back, then restore their order.
    while es.len() > 0
        invariant
            es@.len() + rest@.len() == e0.len(),
            forall|k: int| 0 <= k < es@.len() ==> #[trigger] es@[k] == e0[k],
            forall|k: int| 0 <= k < rest@.len() ==> #[trigger] rest@[k] == e0[e0.len() - 1 - k],
        decreases es.len(),
    {
        let e = es.pop().unwrap();
        rest.push(e);
    }
    while rest.len() > 0
        invariant
            out@.len() + rest@.len() == e0.len(),
            forall|k: int| 0 <= k < out@.len() ==> #[trigger] out@[k] == e0[k].1,
            forall|k: int| 0 <= k < rest@.len() ==> #[trigger] rest@[k] == e0[e0.len() - 1 - k],
        decreases rest.len(),
    {
        let (_, x) = rest.pop().unwrap();
        out.push(x);
    }
    assert(out@ =~= Seq::new(e0.len(), |k: int| e0[k].1));
    out
}

/// The names the placeholders of `s` spell.
pub open spec fn text_names(s: Seq<char>) -> Set<Seq<char>> {
    Set::new(|x: Seq<char>| placeholders_from(s, 0).contains(x))
}

/// The values a JSON value holds directly: an array's elements or an
/// object's member values.
pub open spec fn json_children(v: serde_json::Value) -> Seq<serde_json::Value> {
    match json_items_of(v) {
        Some(xs) => xs,
        None => match json_entries_of(v) {
            Some(es) => Seq::new(es.len(), |k: int| es[k].1),
            None => Seq::empty(),
        },
    }
}

/// The placeholder names in the strings of `v`, looking `fuel` levels down.
pub open spec fn value_names_fuel(v: serde_json::Value, fuel: nat) -> Set<Seq<char>>
    decreases fuel, 0nat,
{
    match json_str_of(v) {
        Some(s) => text_names(s),
        None => if fuel == 0 {
            Set::empty()
        } else {
            children_names(json_children(v), (fuel - 1) as nat, json_children(v).len())
        },
    }
}

/// The placeholder names in the first `n` of `kids`.
pub open spec fn children_names(kids: Seq<serde_json::Value>, fuel: nat, n: nat) -> Set<Seq<char>>
    decreases fuel, n,
{
    if n == 0 || n > kids.len() {
        Set::empty()
    } else {
        children_names(kids, fuel, (n - 1) as nat).union(value_names_fuel(kids[n - 1], fuel))
    }
}

/// The placeholder names in every string a JSON value holds.
pub open spec fn value_names(v: serde_json::Value) -> Set<Seq<char>> {
    value_names_fuel(v, json_nodes(v))
}

proof fn lemma_children_names_fuel(kids: Seq<serde_json::Value>, f: nat, g: nat, n: nat)
    requires
        n <= kids.len(),
        forall|k: int| 0 <= k < n ==> #[trigger] value_names_fuel(kids[k], f) == value_names_fuel(kids[k], g),
    ensures
        children_names(kids, f, n) == children_names(kids, g, n),
    decreases n,
{
    if n > 0 {
        lemma_children_names_fuel(kids, f, g, (n - 1) as nat);
        assert(value_names_fuel(kids[n - 1], f) == value_names_fuel(kids[n - 1], g));
    }
}

/// Add `x` to the strictly sorted `out` unless it is there.
pub(crate) fn add_name(out: &mut Vec<String>, x: String)
    requires
        sorted_strictly(strings_view(old(out)@)),
    ensures
        sorted_strictly(strings_view(final(out)@)),
        forall|y: Seq<char>| #[trigger] strings_view(final(out)@).contains(y) <==> (strings_view(old(out)@).contains(y) || y == x@),
{
    let ghost o = out@;
    let mut j: usize = 0;
    while j < out.len()
        invariant
            j <= out@.len(),
            out@ == o,
            sorted_strictly(strings_view(o)),
            forall|q: int| 0 <= q < j ==> #[trigger] strings_view(out@)[q] != x@,
        decreases out.len() - j,
    {
        if str_eq(out[j].as_str(), x.as_str()) {
            assert(strings_view(out@)[j as int] == x@);
            assert forall|y: Seq<char>| #[trigger] strings_view(out@).contains(y) <==> (strings_view(o).contains(y) || y == x@) by {
                if y == x@ {
                    assert(strings_view(out@)[j as int] == y);
                }
            }
            return;
        }
        j += 1;
    }
    proof {
        if strings_view(out@).contains(x@) {
            let q = choose|q: int| 0 <= q < strings_view(out@).len() && strings_view(out@)[q] == x@;
            assert(strings_view(out@)[q] != x@);
        }
    }
    insert_sorted(out, x);
}

/// Add the placeholder names of `s` to the strictly sorted `out`.
fn add_text_names(s: &str, out: &mut Vec<String>)
    requires
        sorted_strictly(strings_view(old(out)@)),
    ensures
        sorted_strictly(strings_view(final(out)@)),
        forall|y: Seq<char>| #[trigger] strings_view(final(out)@).contains(y) <==> (strings_view(old(out)@).contains(y) || text_names(s@).contains(y)),
{
    let names = collect_placeholders(s);
    let ghost ns = strings_view(names@);
    let ghost o0 = strings_view(out@);
    let mut k: usize = 0;
    while k < names.len()
        invariant
            k <= names@.len(),
            ns == strings_view(names@),
            ns == placeholders_from(s@, 0),
            sorted_strictly(strings_view(out@)),
            forall|y: Seq<char>| #[trigger] strings_view(out@).contains(y) <==> (o0.contains(y) || exists|q: int| 0 <= q < k && ns[q] == y),
        decreases names.len() - k,
    {
        let x = names[k].clone();
        assert(x@ == ns[k as int]);
        let ghost before = strings_view(out@);
        add_name(out, x);
        proof {
            assert forall|y: Seq<char>| #[trigger] strings_view(out@).contains(y) <==> (o0.contains(y) || exists|q: int| 0 <= q < k + 1 && ns[q] == y) by {
                assert(strings_view(out@).contains(y) <==> (before.contains(y) || y == ns[k as int]));
                assert(before.contains(y) <==> (o0.contains(y) || exists|q: int| 0 <= q < k && ns[q] == y));
                if exists|q: int| 0 <= q < k + 1 && ns[q] == y {
                    let q = choose|q: int| 0 <= q < k + 1 && ns[q] == y;
                    if q < k {
                        assert(exists|q2: int| 0 <= q2 < k && ns[q2] == y);
                        assert(before.contains(y));
                    }
                }
                if strings_view(out@).contains(y) {
                    if !before.contains(y) {
                        assert(y == ns[k as int]);
                        assert(0 <= k < k + 1 && ns[k as int] == y);
                    } else if !o0.contains(y) {
                        let q = choose|q: int| 0 <= q < k && ns[q] == y;
                        assert(0 <= q < k + 1 && ns[q] == y);
                    }
                }
            }
        }
        k += 1;
    }
    proof {
        assert forall|y: Seq<char>| #[trigger] strings_view(out@).contains(y) <==> (o0.contains(y) || text_names(s@).contains(y)) by {
            assert(strings_view(out@).contains(y) <==> (o0.contains(y) || exists|q: int| 0 <= q < k && ns[q] == y));
            if text_names(s@).contains(y) {
                assert(ns.contains(y));
                let q = choose|q: int| 0 <= q < ns.len() && ns[q] == y;
                assert(0 <= q < k && ns[q] == y);
            }
            if exists|q: int| 0 <= q < k && ns[q] == y {
                let q = choose|q: int| 0 <= q < k && ns[q] == y;
                assert(ns.contains(y));
                assert(text_names(s@).contains(y));
            }
        }
    }
}

/// Add the placeholder names in the strings of `v` to the strictly sorted
/// `out`. The names do not change with more fuel than `v` has values.
fn add_value_names(v: &serde_json::Value, out: &mut Vec<String>)
    requires
        sorted_strictly(strings_view(old(out)@)),
    ensures
        sorted_strictly(strings_view(final(out)@)),
        forall|y: Seq<char>| #[trigger] strings_view(final(out)@).contains(y) <==> (strings_view(old(out)@).contains(y) || value_names(*v).contains(y)),
        forall|f: nat| f >= json_nodes(*v) ==> #[trigger] value_names_fuel(*v, f) == value_names(*v),
    decreases json_nodes(*v),
{
    let ghost n = json_nodes(*v);
    match json_as_str(v) {
        Some(s) => {
            add_text_names(s.as_str(), out);
            proof {
                assert(value_names(*v) == text_names(s@));
                assert forall|f: nat| f >= json_nodes(*v) implies #[trigger] value_names_fuel(*v, f) == value_names(*v) by {
                    assert(value_names_fuel(*v, f) == text_names(s@));
                }
            }
            return;
        },
        None => {},
    }
    let kids = match json_as_array(v) {
        Some(xs) => xs,
        None => match json_as_object(v) {
            Some(es) => member_values(es),
            None => Vec::new(),
        },
    };
    let ghost ks = kids@;
    assert(ks =~= json_children(*v));
    assert(forall|k: int| 0 <= k < ks.len() ==> #[trigger] json_nodes(ks[k]) < n);
    let ghost o0 = strings_view(out@);
    let mut k: usize = 0;
    while k < kids.len()
        invariant
            k <= ks.len(),
            ks == kids@,
            ks == json_children(*v),
            n == json_nodes(*v),
            forall|q: int| 0 <= q < ks.len() ==> #[trigger] json_nodes(ks[q]) < n,
            forall|q: int, f: nat| 0 <= q < k && f >= json_nodes(ks[q]) ==> #[trigger] value_names_fuel(ks[q], f) == value_names(ks[q]),
            sorted_strictly(strings_view(out@)),
            k > 0 ==> n > 0,
            k > 0 ==> forall|y: Seq<char>| #[trigger] strings_view(out@).contains(y) <==> (o0.contains(y) || children_names(ks, (n - 1) as nat, k as nat).contains(y)),
            k == 0 ==> strings_view(out@) == o0,
        decreases kids.len() - k,
    {
        assert(json_nodes(ks[k as int]) < n);
        let ghost before = strings_view(out@);
        add_value_names(&kids[k], out);
        proof {
            let g = (n - 1) as nat;
            assert(n > 0);
            assert(value_names_fuel(ks[k as int], g) == value_names(ks[k as int]));
            assert(children_names(ks, g, (k + 1) as nat) == children_names(ks, g, k as nat).union(value_names_fuel(ks[k as int], g)));
            assert forall|y: Seq<char>| #[trigger] strings_view(out@).contains(y) <==> (o0.contains(y) || children_names(ks, g, (k + 1) as nat).contains(y)) by {
                assert(strings_view(out@).contains(y) <==> (before.contains(y) || value_names(ks[k as int]).contains(y)));
                if k > 0 {
                    assert(before.contains(y) <==> (o0.contains(y) || children_names(ks, g, k as nat).contains(y)));
                } else {
                    assert(before == o0);
                    assert(children_names(ks, g, 0) =~= Set::empty());
                }
            }
        }
        k += 1;
    }
    proof {
        assert forall|f: nat| f >= json_nodes(*v) implies #[trigger] value_names_fuel(*v, f) == value_names(*v) by {
            if ks.len() > 0 {
                assert(json_nodes(ks[0]) < n);
                assert(f >= 1 && n >= 1);
                assert forall|q: int| 0 <= q < ks.len() implies #[trigger] value_names_fuel(ks[q], (f - 1) as nat) == value_names_fuel(ks[q], (n - 1) as nat) by {
                    assert(value_names_fuel(ks[q], (f - 1) as nat) == value_names(ks[q]));
                    assert(value_names_fuel(ks[q], (n - 1) as nat) == value_names(ks[q]));
                }
                lemma_children_names_fuel(ks, (f - 1) as nat, (n - 1) as nat, ks.len());
            } else {
                assert(value_names_fuel(*v, f) =~= Set::empty());
                assert(value_names_fuel(*v, n) =~= Set::empty());
            }
        }
        if ks.len() > 0 {
            assert(value_names(*v) == children_names(ks, (n - 1) as nat, ks.len()));
            assert forall|y: Seq<char>| #[trigger] strings_view(out@).contains(y) <==> (o0.contains(y) || value_names(*v).contains(y)) by {}
        } else {
            if n > 0 {
                assert(children_names(ks, (n - 1) as nat, 0) =~= Set::empty());
            }
            assert(value_names(*v) =~= Set::empty());
        }
    }
}

/// The placeholder names of an optional string.
pub open spec fn opt_names(o: Option<String>) -> Set<Seq<char>> {
    match o {
        Some(t) => text_names(t@),
        None => Set::empty(),
    }
}

/// The placeholder names in the strings of an assertion.
pub open spec fn assert_names(a: AssertSpec) -> Set<Seq<char>> {
    text_names(a.target@) + opt_names(a.name) + opt_names(a.value) + opt_names(a.role)
}

/// The placeholder names an op uses: those in every string of its JSON
/// form (tags, delivery modes and scopes hold none).
pub open spec fn op_names(op: Op) -> Set<Seq<char>> {
    match op {
        Op::Click { target, .. } => text_names(target@),
        Op::Type { target, text, .. } => text_names(target@) + text_names(text@),
        Op::SetValue { target, value } => text_names(target@) + text_names(value@),
        Op::Key { target, key, .. } => text_names(target@) + text_names(key@),
        Op::Keybinding { binding, chord, .. } => text_names(binding@) + opt_names(chord),
        Op::Assert { spec } => assert_names(spec),
        Op::Invoke { name, args } => text_names(name@) + value_names(args),
        Op::WaitUntil { spec, .. } => assert_names(spec),
        Op::Screenshot { path, target, .. } => opt_names(path) + opt_names(target),
        _ => Set::empty(),
    }
}

fn add_opt_names(o: &Option<String>, out: &mut Vec<String>)
    requires
        sorted_strictly(strings_view(old(out)@)),
    ensures
        sorted_strictly(strings_view(final(out)@)),
        forall|y: Seq<char>| #[trigger] strings_view(final(out)@).contains(y) <==> (strings_view(old(out)@).contains(y) || opt_names(*o).contains(y)),
{
    match o {
        Some(t) => add_text_names(t.as_str(), out),
        None => {},
    }
}

fn add_assert_names(a: &AssertSpec, out: &mut Vec<String>)
    requires
        sorted_strictly(strings_view(old(out)@)),
    ensures
        sorted_strictly(strings_view(final(out)@)),
        forall|y: Seq<char>| #[trigger] strings_view(final(out)@).contains(y) <==> (strings_view(old(out)@).contains(y) || assert_names(*a).contains(y)),
{
    let ghost o0 = strings_view(out@);
    add_text_names(a.target.as_str(), out);
    let ghost o1 = strings_view(out@);
    add_opt_names(&a.name, out);
    let ghost o2 = strings_view(out@);
    add_opt_names(&a.value, out);
    let ghost o3 = strings_view(out@);
    add_opt_names(&a.role, out);
    assert forall|y: Seq<char>| #[trigger] strings_view(out@).contains(y) <==> (o0.contains(y) || assert_names(*a).contains(y)) by {
        assert(o1.contains(y) <==> (o0.contains(y) || text_names(a.target@).contains(y)));
        assert(o2.contains(y) <==> (o1.contains(y) || opt_names(a.name).contains(y)));
        assert(o3.contains(y) <==> (o2.contains(y) || opt_names(a.value).contains(y)));
        assert(strings_view(out@).contains(y) <==> (o3.contains(y) || opt_names(a.role).contains(y)));
    }
}

/// The `$param` names `op` uses, sorted, once each.
pub fn op_placeholders(op: &Op) -> (r: Vec<String>)
    ensures
        sorted_strictly(strings_view(r@)),
        forall|y: Seq<char>| #[trigger] strings_view(r@).contains(y) <==> op_names(*op).contains(y),
{
    let mut out: Vec<String> = Vec::new();
    assert(strings_view(out@) =~= Seq::<Seq<char>>::empty());
    let ghost o0 = strings_view(out@);
    match op {
        Op::Click { target, .. } => add_text_names(target.as_str(), &mut out),
        Op::Type { target, text, .. } => {
            add_text_names(target.as_str(), &mut out);
            let ghost o1 = strings_view(out@);
            add_text_names(text.as_str(), &mut out);
            assert forall|y: Seq<char>| #[trigger] strings_view(out@).contains(y) <==> op_names(*op).contains(y) by {
                assert(o1.contains(y) <==> (o0.contains(y) || text_names(target@).contains(y)));
            }
        },
        Op::SetValue { target, value } => {
            add_text_names(target.as_str(), &mut out);
            let ghost o1 = strings_view(out@);
            add_text_names(value.as_str(), &mut out);
            assert forall|y: Seq<char>| #[trigger] strings_view(out@).contains(y) <==> op_names(*op).contains(y) by {
                assert(o1.contains(y) <==> (o0.contains(y) || text_names(target@).contains(y)));
            }
        },
        Op::Key { target, key, .. } => {
            add_text_names(target.as_str(), &mut out);
            let ghost o1 = strings_view(out@);
            add_text_names(key.as_str(), &mut out);
            assert forall|y: Seq<char>| #[trigger] strings_view(out@).contains(y) <==> op_names(*op).contains(y) by {
                assert(o1.contains(y) <==> (o0.contains(y) || text_names(target@).contains(y)));
            }
        },
        Op::Keybinding { binding, chord, .. } => {
            add_text_names(binding.as_str(), &mut out);
            let ghost o1 = strings_view(out@);
            add_opt_names(chord, &mut out);
            assert forall|y: Seq<char>| #[trigger] strings_view(out@).contains(y) <==> op_names(*op).contains(y) by {
                assert(o1.contains(y) <==> (o0.contains(y) || text_names(binding@).contains(y)));
            }
        },
        Op::Assert { spec } => add_assert_names(spec, &mut out),
        Op::Invoke { name, args } => {
            add_text_names(name.as_str(), &mut out);
            let ghost o1 = strings_view(out@);
            add_value_names(args, &mut out);
            assert forall|y: Seq<char>| #[trigger] strings_view(out@).contains(y) <==> op_names(*op).contains(y) by {
                assert(o1.contains(y) <==> (o0.contains(y) || text_names(name@).contains(y)));
            }
        },
        Op::WaitUntil { spec, .. } => add_assert_names(spec, &mut out),
        Op::Screenshot { path, target, .. } => {
            add_opt_names(path, &mut out);
            let ghost o1 = strings_view(out@);
            add_opt_names(target, &mut out);
            assert forall|y: Seq<char>| #[trigger] strings_view(out@).contains(y) <==> op_names(*op).contains(y) by {
                assert(o1.contains(y) <==> (o0.contains(y) || opt_names(*path).contains(y)));
            }
        },
        _ => {},
    }
    out
}

/// `found` lists, for each step, the placeholder names its op uses,
/// sorted, once each.
pub open spec fn lists_names(found: Seq<Seq<Seq<char>>>, steps: Seq<RecipeStep>) -> bool {
    &&& found.len() == steps.len()
    &&& forall|i: int| 0 <= i < found.len() ==> sorted_strictly(#[trigger] found[i])
    &&& forall|i: int, y: Seq<char>| 0 <= i < found.len() ==> (#[trigger] found[i].contains(y) <==> op_names(steps[i].op).contains(y))
}

/// The placeholder names of each step's op, in step order.
pub fn step_placeholders(steps: &Vec<RecipeStep>) -> (r: Vec<Vec<String>>)
    ensures
        lists_names(found_view(r@), steps@),
{
    let mut out: Vec<Vec<String>> = Vec::new();
    let mut i: usize = 0;
    while i < steps.len()
        invariant
            i <= steps@.len(),
            out@.len() == i,
            forall|k: int| 0 <= k < i ==> sorted_strictly(#[trigger] strings_view(out@[k]@)),
            forall|k: int, y: Seq<char>| 0 <= k < i ==> (#[trigger] strings_view(out@[k]@).contains(y) <==> op_names(steps@[k].op).contains(y)),
        decreases steps.len() - i,
    {
        let names = op_placeholders(&steps[i].op);
        out.push(names);
        i += 1;
    }
    let ghost fv = found_view(out@);
    assert forall|k: int| 0 <= k < fv.len() implies sorted_strictly(#[trigger] fv[k]) by {
        assert(fv[k] == strings_view(out@[k]@));
    }
    assert forall|k: int, y: Seq<char>| 0 <= k < fv.len() implies (#[trigger] fv[k].contains(y) <==> op_names(steps@[k].op).contains(y)) by {
        assert(fv[k] == strings_view(out@[k]@));
    }
    out
}

proof fn lemma_placeholders_declared(found: Seq<Seq<char>>, params: Seq<Seq<char>>, k: int)
    requires
        0 <= k,
        placeholder_error_from(found, params, k) is None,
    ensures
        forall|q: int| k <= q < found.len() ==> params.contains(#[trigger] found[q]),
    decreases found.len() - k,
{
    if k < found.len() {
        lemma_placeholders_declared(found, params, k + 1);
    }
}

proof fn lemma_steps_pass(
    steps: Seq<RecipeStep>,
    registry: Registry,
    found: Seq<Seq<Seq<char>>>,
    params: Seq<Seq<char>>,
    i: int,
)
    requires
        0 <= i,
        first_step_error(steps, registry, found, params, i) is None,
    ensures
        forall|q: int| i <= q < steps.len() ==> (#[trigger] step_error(steps, registry, found, params, q)) is None,
    decreases steps.len() - i,
{
    if i < steps.len() {
        lemma_steps_pass(steps, registry, found, params, i + 1);
    }
}

/// A recipe that passes the checks declares, in `params`, every `$param`
/// name that the op of any of its steps uses.
pub proof fn lemma_checked_recipe_declares_placeholders(recipe: Recipe, registry: Registry, found: Seq<Seq<Seq<char>>>)
    requires
        lists_names(found, recipe.steps@),
        recipe_error(recipe, registry, found) is None,
    ensures
        forall|i: int, y: Seq<char>|
            0 <= i < recipe.steps@.len() && #[trigger] op_names(recipe.steps@[i].op).contains(y)
                ==> strings_view(recipe.params@).contains(y),
{
    let steps = recipe.steps@;
    let params = strings_view(recipe.params@);
    lemma_steps_pass(steps, registry, found, params, 0);
    assert forall|i: int, y: Seq<char>|
        0 <= i < steps.len() && #[trigger] op_names(steps[i].op).contains(y) implies params.contains(y) by {
        assert(step_error(steps, registry, found, params, i) is None);
        lemma_placeholders_declared(found[i], params, 0);
        assert(found[i].contains(y));
        let q = choose|q: int| 0 <= q < found[i].len() && found[i][q] == y;
        assert(params.contains(found[i][q]));
    }
}

/// The placeholder names used by the ops of the steps.
pub open spec fn steps_names(steps: Seq<RecipeStep>) -> Set<Seq<char>> {
    Set::new(|y: Seq<char>| exists|i: int| 0 <= i < steps.len() && #[trigger] op_names(steps[i].op).contains(y))
}

/// Two strictly sorted lists that hold the same names are the same list:
/// the placeholder lists of a recipe's steps are determined by its ops.
pub proof fn lemma_sorted_names_unique(a: Seq<Seq<char>>, b: Seq<Seq<char>>)
    requires
        sorted_strictly(a),
        sorted_strictly(b),
        forall|y: Seq<char>| a.contains(y) <==> b.contains(y),
    ensures
        a == b,
    decreases a.len(),
{
    if a.len() == 0 {
        if b.len() > 0 {
            assert(b.contains(b[0]));
        }
        assert(a =~= b);
    } else {
        assert(a.contains(a[0]));
        assert(b.contains(a[0]));
        assert(b.contains(b[0]));
        let i = choose|i: int| 0 <= i < b.len() && b[i] == a[0];
        let j = choose|j: int| 0 <= j < a.len() && a[j] == b[0];
        if i > 0 {
            assert(lex_lt_pair(b, 0, i));
            if j == 0 {
                lemma_lex_lt_irreflexive(b[0]);
            } else {
                assert(lex_lt_pair(a, 0, j));
                lemma_lex_lt_transitive(a[0], b[0], a[0]);
                lemma_lex_lt_irreflexive(a[0]);
            }
        }
        assert(a[0] == b[0]);
        let a1 = a.drop_first();
        let b1 = b.drop_first();
        assert forall|p: int, q: int| 0 <= p < q < a1.len() implies lex_lt(#[trigger] a1[p], #[trigger] a1[q]) by {
            assert(lex_lt_pair(a, p + 1, q + 1));
        }
        assert forall|p: int, q: int| 0 <= p < q < b1.len() implies lex_lt(#[trigger] b1[p], #[trigger] b1[q]) by {
            assert(lex_lt_pair(b, p + 1, q + 1));
        }
        assert forall|y: Seq<char>| a1.contains(y) <==> b1.contains(y) by {
            if a1.contains(y) {
                let p = choose|p: int| 0 <= p < a1.len() && a1[p] == y;
                assert(lex_lt_pair(a, 0, p + 1));
                lemma_lex_lt_irreflexive(y);
                assert(a.contains(y));
                assert(b.contains(y));
                let q = choose|q: int| 0 <= q < b.len() && b[q] == y;
                assert(q != 0);
                assert(b1[q - 1] == y);
            }
            if b1.contains(y) {
                let p = choose|p: int| 0 <= p < b1.len() && b1[p] == y;
                assert(lex_lt_pair(b, 0, p + 1));
                lemma_lex_lt_irreflexive(y);
                assert(b.contains(y));
                assert(a.contains(y));
                let q = choose|q: int| 0 <= q < a.len() && a[q] == y;
                assert(q != 0);
                assert(a1[q - 1] == y);
            }
        }
        lemma_sorted_names_unique(a1, b1);
        assert forall|k: int| 0 <= k < a.len() implies a[k] == b[k] by {
            if k > 0 {
                assert(a[k] == a1[k - 1]);
                assert(b[k] == b1[k - 1]);
            }
        }
        assert(a =~= b);
    }
}

/// The per-step placeholder lists of a recipe are determined by its steps,
/// so the outcome `validate_recipe` states is a single one.
pub proof fn lemma_lists_names_unique(f1: Seq<Seq<Seq<char>>>, f2: Seq<Seq<Seq<char>>>, steps: Seq<RecipeStep>)
    requires
        lists_names(f1, steps),
        lists_names(f2, steps),
    ensures
        f1 == f2,
{
    assert forall|i: int| 0 <= i < f1.len() implies f1[i] == f2[i] by {
        assert(sorted_strictly(f1[i]));
        assert(sorted_strictly(f2[i]));
        assert forall|y: Seq<char>| f1[i].contains(y) <==> f2[i].contains(y) by {
            assert(f1[i].contains(y) <==> op_names(steps[i].op).contains(y));
            assert(f2[i].contains(y) <==> op_names(steps[i].op).contains(y));
        }
        lemma_sorted_names_unique(f1[i], f2[i]);
    }
    assert(f1 =~= f2);
}

spec fn lex_lt_pair(s: Seq<Seq<char>>, p: int, q: int) -> bool {
    lex_lt(s[p], s[q])
}

} // verus!
