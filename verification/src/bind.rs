//! Binding a recipe's `$params`: every placeholder in the strings of its
//! steps replaced by the value that `--set` gives it.

use vstd::prelude::*;

use crate::placeholders::{
    json_as_array, json_as_object, json_as_str, json_entries_of, json_items_of, json_nodes,
    json_str_of,
};
use crate::protocol::{opt_str_view, AssertSpec, AssertView, Op};
use crate::text::strings_view;
use crate::recipe::{
    check_params_bound, clone_strings, lookup, missing_param, Recipe, RecipeStep,
    entries_view, json_array, json_array_value, json_object, json_object_value, json_string,
    json_string_value, pairs_view, substitute_from, substitute_string,
};

verus! {

/// `$name` → value pairs; the last pair for a name wins.
pub type Bindings = Seq<(Seq<char>, Seq<char>)>;

/// The JSON value `v` with every string bound, looking `fuel` levels down;
/// the first failing string, in order, gives the error.
pub open spec fn json_subst_fuel(v: serde_json::Value, set: Bindings, fuel: nat) -> Result<serde_json::Value, Seq<char>>
    decreases fuel, 0nat,
{
    match json_str_of(v) {
        Some(s) => match substitute_from(s, 0, set) {
            Ok(t) => Ok(json_string_value(t)),
            Err(e) => Err(e),
        },
        None => match json_items_of(v) {
            Some(xs) => if xs.len() == 0 {
                Ok(json_array_value(Seq::empty()))
            } else if fuel == 0 {
                Ok(v)
            } else {
                match items_subst(xs, set, (fuel - 1) as nat, xs.len()) {
                    Ok(ys) => Ok(json_array_value(ys)),
                    Err(e) => Err(e),
                }
            },
            None => match json_entries_of(v) {
                Some(es) => if es.len() == 0 {
                    Ok(json_object_value(Seq::empty()))
                } else if fuel == 0 {
                    Ok(v)
                } else {
                    match entries_subst(es, set, (fuel - 1) as nat, es.len()) {
                        Ok(fs) => Ok(json_object_value(fs)),
                        Err(e) => Err(e),
                    }
                },
                None => Ok(v),
            },
        },
    }
}

/// The first `n` of `xs`, each bound.
pub open spec fn items_subst(xs: Seq<serde_json::Value>, set: Bindings, fuel: nat, n: nat) -> Result<Seq<serde_json::Value>, Seq<char>>
    decreases fuel, n,
{
    if n == 0 || n > xs.len() {
        Ok(Seq::empty())
    } else {
        match items_subst(xs, set, fuel, (n - 1) as nat) {
            Err(e) => Err(e),
            Ok(p) => match json_subst_fuel(xs[n - 1], set, fuel) {
                Err(e) => Err(e),
                Ok(y) => Ok(p.push(y)),
            },
        }
    }
}

/// The first `n` entries of `es`, each value bound (keys unchanged).
pub open spec fn entries_subst(
    es: Seq<(Seq<char>, serde_json::Value)>,
    set: Bindings,
    fuel: nat,
    n: nat,
) -> Result<Seq<(Seq<char>, serde_json::Value)>, Seq<char>>
    decreases fuel, n,
{
    if n == 0 || n > es.len() {
        Ok(Seq::empty())
    } else {
        match entries_subst(es, set, fuel, (n - 1) as nat) {
            Err(e) => Err(e),
            Ok(p) => match json_subst_fuel(es[n - 1].1, set, fuel) {
                Err(e) => Err(e),
                Ok(y) => Ok(p.push((es[n - 1].0, y))),
            },
        }
    }
}

/// The JSON value `v` with every string in it bound.
pub open spec fn json_subst(v: serde_json::Value, set: Bindings) -> Result<serde_json::Value, Seq<char>> {
    json_subst_fuel(v, set, json_nodes(v))
}

proof fn lemma_items_fuel(xs: Seq<serde_json::Value>, set: Bindings, f: nat, g: nat, n: nat)
    requires
        n <= xs.len(),
        forall|k: int| 0 <= k < n ==> #[trigger] json_subst_fuel(xs[k], set, f) == json_subst_fuel(xs[k], set, g),
    ensures
        items_subst(xs, set, f, n) == items_subst(xs, set, g, n),
    decreases n,
{
    if n > 0 {
        lemma_items_fuel(xs, set, f, g, (n - 1) as nat);
        assert(json_subst_fuel(xs[n - 1], set, f) == json_subst_fuel(xs[n - 1], set, g));
    }
}

proof fn lemma_entries_fuel(es: Seq<(Seq<char>, serde_json::Value)>, set: Bindings, f: nat, g: nat, n: nat)
    requires
        n <= es.len(),
        forall|k: int| 0 <= k < n ==> #[trigger] json_subst_fuel(es[k].1, set, f) == json_subst_fuel(es[k].1, set, g),
    ensures
        entries_subst(es, set, f, n) == entries_subst(es, set, g, n),
    decreases n,
{
    if n > 0 {
        lemma_entries_fuel(es, set, f, g, (n - 1) as nat);
        assert(json_subst_fuel(es[n - 1].1, set, f) == json_subst_fuel(es[n - 1].1, set, g));
    }
}

proof fn lemma_items_err_stays(xs: Seq<serde_json::Value>, set: Bindings, f: nat, m: nat, n: nat)
    requires
        m <= n <= xs.len(),
        items_subst(xs, set, f, m) is Err,
    ensures
        items_subst(xs, set, f, n) == items_subst(xs, set, f, m),
    decreases n,
{
    if n > m {
        lemma_items_err_stays(xs, set, f, m, (n - 1) as nat);
    }
}

proof fn lemma_entries_err_stays(es: Seq<(Seq<char>, serde_json::Value)>, set: Bindings, f: nat, m: nat, n: nat)
    requires
        m <= n <= es.len(),
        entries_subst(es, set, f, m) is Err,
    ensures
        entries_subst(es, set, f, n) == entries_subst(es, set, f, m),
    decreases n,
{
    if n > m {
        lemma_entries_err_stays(es, set, f, m, (n - 1) as nat);
    }
}

pub open spec fn json_result_is(r: Result<serde_json::Value, String>, s: Result<serde_json::Value, Seq<char>>) -> bool {
    match s {
        Ok(w) => r == Ok::<serde_json::Value, String>(w),
        Err(e) => r matches Err(x) && x@ == e,
    }
}

/// Bind every string in the JSON value `v`, walking arrays and object
/// values in order; the first string with an unbound placeholder fails.
fn subst_json(v: &serde_json::Value, set: &Vec<(String, String)>) -> (r: Result<serde_json::Value, String>)
    ensures
        json_result_is(r, json_subst(*v, pairs_view(set@))),
        forall|f: nat| f >= json_nodes(*v) ==> #[trigger] json_subst_fuel(*v, pairs_view(set@), f) == json_subst(*v, pairs_view(set@)),
    decreases json_nodes(*v),
{
    let ghost n = json_nodes(*v);
    let ghost sv = pairs_view(set@);
    match json_as_str(v) {
        Some(s) => {
            proof {
                assert forall|f: nat| f >= n implies #[trigger] json_subst_fuel(*v, sv, f) == json_subst(*v, sv) by {}
            }
            return match substitute_string(s.as_str(), set) {
                Ok(t) => Ok(json_string(t.as_str())),
                Err(e) => Err(e),
            };
        },
        None => {},
    }
    match json_as_array(v) {
        Some(xs) => {
            if xs.len() == 0 {
                proof {
                    assert(xs@ =~= Seq::<serde_json::Value>::empty());
                    assert forall|f: nat| f >= n implies #[trigger] json_subst_fuel(*v, sv, f) == json_subst(*v, sv) by {}
                }
                return Ok(json_array(xs));
            }
            let ghost g = (n - 1) as nat;
            assert(json_nodes(xs@[0]) < n);
            let mut ys: Vec<serde_json::Value> = Vec::new();
            let mut k: usize = 0;
            while k < xs.len()
                invariant
                    0 < xs@.len(),
                    n > 0,
                    g == n - 1,
                    k <= xs@.len(),
                    json_items_of(*v) == Some(xs@),
                    json_str_of(*v) is None,
                    sv == pairs_view(set@),
                    n == json_nodes(*v),
                    forall|q: int| 0 <= q < xs@.len() ==> #[trigger] json_nodes(xs@[q]) < n,
                    forall|q: int, f: nat| 0 <= q < k && f >= json_nodes(xs@[q]) ==> #[trigger] json_subst_fuel(xs@[q], sv, f) == json_subst(xs@[q], sv),
                    items_subst(xs@, sv, g, k as nat) == Ok::<Seq<serde_json::Value>, Seq<char>>(ys@),
                decreases xs.len() - k,
            {
                assert(json_nodes(xs@[k as int]) < n);
                let y = subst_json(&xs[k], set);
                proof {
                    assert(json_subst_fuel(xs@[k as int], sv, g) == json_subst(xs@[k as int], sv));
                }
                match y {
                    Ok(w) => {
                        ys.push(w);
                    },
                    Err(e) => {
                        proof {
                            let m = (k + 1) as nat;
                            assert(items_subst(xs@, sv, g, m) is Err);
                            lemma_items_err_stays(xs@, sv, g, m, xs@.len());
                            assert forall|f: nat| f >= n implies #[trigger] json_subst_fuel(*v, sv, f) == json_subst(*v, sv) by {
                                let h = (f - 1) as nat;
                                assert forall|q: int| 0 <= q < m implies #[trigger] json_subst_fuel(xs@[q], sv, h) == json_subst_fuel(xs@[q], sv, g) by {
                                    assert(json_subst_fuel(xs@[q], sv, h) == json_subst(xs@[q], sv));
                                    assert(json_subst_fuel(xs@[q], sv, g) == json_subst(xs@[q], sv));
                                }
                                lemma_items_fuel(xs@, sv, h, g, m);
                                lemma_items_err_stays(xs@, sv, h, m, xs@.len());
                            }
                        }
                        return Err(e);
                    },
                }
                k += 1;
            }
            proof {
                assert forall|f: nat| f >= n implies #[trigger] json_subst_fuel(*v, sv, f) == json_subst(*v, sv) by {
                    let h = (f - 1) as nat;
                    assert forall|q: int| 0 <= q < xs@.len() implies #[trigger] json_subst_fuel(xs@[q], sv, h) == json_subst_fuel(xs@[q], sv, g) by {
                        assert(json_subst_fuel(xs@[q], sv, h) == json_subst(xs@[q], sv));
                        assert(json_subst_fuel(xs@[q], sv, g) == json_subst(xs@[q], sv));
                    }
                    lemma_items_fuel(xs@, sv, h, g, xs@.len());
                }
            }
            return Ok(json_array(ys));
        },
        None => {},
    }
    match json_as_object(v) {
        Some(es) => {
            let ghost ev = entries_view(es@);
            if es.len() == 0 {
                proof {
                    assert(ev =~= Seq::<(Seq<char>, serde_json::Value)>::empty());
                    assert forall|f: nat| f >= n implies #[trigger] json_subst_fuel(*v, sv, f) == json_subst(*v, sv) by {}
                }
                return Ok(json_object(es));
            }
            let ghost g = (n - 1) as nat;
            assert(json_nodes(es@[0].1) < n);
            let mut fs: Vec<(String, serde_json::Value)> = Vec::new();
            assert(entries_view(fs@) =~= Seq::<(Seq<char>, serde_json::Value)>::empty());
            let mut k: usize = 0;
            while k < es.len()
                invariant
                    0 < es@.len(),
                    n > 0,
                    g == n - 1,
                    k <= es@.len(),
                    ev == entries_view(es@),
                    json_items_of(*v) is None,
                    json_entries_of(*v) == Some(ev),
                    json_str_of(*v) is None,
                    sv == pairs_view(set@),
                    n == json_nodes(*v),
                    forall|q: int| 0 <= q < es@.len() ==> #[trigger] json_nodes(es@[q].1) < n,
                    forall|q: int, f: nat| 0 <= q < k && f >= json_nodes(es@[q].1) ==> #[trigger] json_subst_fuel(es@[q].1, sv, f) == json_subst(es@[q].1, sv),
                    entries_subst(ev, sv, g, k as nat) == Ok::<Seq<(Seq<char>, serde_json::Value)>, Seq<char>>(entries_view(fs@)),
                decreases es.len() - k,
            {
                assert(json_nodes(es@[k as int].1) < n);
                assert(ev[k as int] == (es@[k as int].0@, es@[k as int].1));
                let y = subst_json(&es[k].1, set);
                proof {
                    assert(json_subst_fuel(es@[k as int].1, sv, g) == json_subst(es@[k as int].1, sv));
                }
                match y {
                    Ok(w) => {
                        let key = es[k].0.clone();
                        let ghost before = entries_view(fs@);
                        fs.push((key, w));
                        assert(entries_view(fs@) =~= before.push((es@[k as int].0@, w)));
                    },
                    Err(e) => {
                        proof {
                            let m = (k + 1) as nat;
                            assert(entries_subst(ev, sv, g, m) is Err);
                            lemma_entries_err_stays(ev, sv, g, m, ev.len());
                            assert forall|f: nat| f >= n implies #[trigger] json_subst_fuel(*v, sv, f) == json_subst(*v, sv) by {
                                let h = (f - 1) as nat;
                                assert forall|q: int| 0 <= q < m implies #[trigger] json_subst_fuel(ev[q].1, sv, h) == json_subst_fuel(ev[q].1, sv, g) by {
                                    assert(ev[q].1 == es@[q].1);
                                    assert(json_subst_fuel(es@[q].1, sv, h) == json_subst(es@[q].1, sv));
                                    assert(json_subst_fuel(es@[q].1, sv, g) == json_subst(es@[q].1, sv));
                                }
                                lemma_entries_fuel(ev, sv, h, g, m);
                                lemma_entries_err_stays(ev, sv, h, m, ev.len());
                            }
                        }
                        return Err(e);
                    },
                }
                k += 1;
            }
            proof {
                assert forall|f: nat| f >= n implies #[trigger] json_subst_fuel(*v, sv, f) == json_subst(*v, sv) by {
                    let h = (f - 1) as nat;
                    assert forall|q: int| 0 <= q < ev.len() implies #[trigger] json_subst_fuel(ev[q].1, sv, h) == json_subst_fuel(ev[q].1, sv, g) by {
                        assert(ev[q].1 == es@[q].1);
                        assert(json_subst_fuel(es@[q].1, sv, h) == json_subst(es@[q].1, sv));
                        assert(json_subst_fuel(es@[q].1, sv, g) == json_subst(es@[q].1, sv));
                    }
                    lemma_entries_fuel(ev, sv, h, g, ev.len());
                }
            }
            return Ok(json_object(fs));
        },
        None => {},
    }
    proof {
        assert forall|f: nat| f >= n implies #[trigger] json_subst_fuel(*v, sv, f) == json_subst(*v, sv) by {}
    }
    Ok(v.clone())
}

/// The error binding `s` gives, if any.
pub open spec fn text_err(s: Seq<char>, set: Bindings) -> Option<Seq<char>> {
    match substitute_from(s, 0, set) {
        Ok(_) => None,
        Err(e) => Some(e),
    }
}

/// `s` bound (meaningful where `text_err` is `None`).
pub open spec fn text_out(s: Seq<char>, set: Bindings) -> Seq<char> {
    match substitute_from(s, 0, set) {
        Ok(t) => t,
        Err(_) => s,
    }
}

pub open spec fn opt_err(o: Option<Seq<char>>, set: Bindings) -> Option<Seq<char>> {
    match o {
        Some(t) => text_err(t, set),
        None => None,
    }
}

pub open spec fn opt_out(o: Option<Seq<char>>, set: Bindings) -> Option<Seq<char>> {
    match o {
        Some(t) => Some(text_out(t, set)),
        None => None,
    }
}

/// The first of two errors.
pub open spec fn first_err(a: Option<Seq<char>>, b: Option<Seq<char>>) -> Option<Seq<char>> {
    match a {
        Some(e) => Some(e),
        None => b,
    }
}

/// The error binding an assertion gives: its strings are bound in the
/// order of their JSON keys (`name`, `role`, `target`, `value`).
pub open spec fn assert_err(a: AssertView, set: Bindings) -> Option<Seq<char>> {
    first_err(opt_err(a.name, set), first_err(opt_err(a.role, set), first_err(text_err(a.target, set), opt_err(a.value, set))))
}

pub open spec fn assert_out(a: AssertView, set: Bindings) -> AssertView {
    AssertView {
        target: text_out(a.target, set),
        name: opt_out(a.name, set),
        value: opt_out(a.value, set),
        role: opt_out(a.role, set),
        ..a
    }
}

pub open spec fn json_err(v: serde_json::Value, set: Bindings) -> Option<Seq<char>> {
    match json_subst(v, set) {
        Ok(_) => None,
        Err(e) => Some(e),
    }
}

/// The error binding an op gives: its strings are bound in the order of
/// the keys of its JSON form (which the map keeps sorted).
pub open spec fn op_err(op: Op, set: Bindings) -> Option<Seq<char>> {
    match op {
        Op::Click { target, .. } => text_err(target@, set),
        Op::Type { target, text, .. } => first_err(text_err(target@, set), text_err(text@, set)),
        Op::SetValue { target, value } => first_err(text_err(target@, set), text_err(value@, set)),
        Op::Key { target, key, .. } => first_err(text_err(key@, set), text_err(target@, set)),
        Op::Keybinding { binding, chord, .. } => first_err(text_err(binding@, set), opt_err(opt_str_view(chord), set)),
        Op::Assert { spec } => assert_err(spec@, set),
        Op::Invoke { name, args } => first_err(json_err(args, set), text_err(name@, set)),
        Op::WaitUntil { spec, .. } => assert_err(spec@, set),
        Op::Screenshot { path, target, .. } => first_err(opt_err(opt_str_view(path), set), opt_err(opt_str_view(target), set)),
        _ => None,
    }
}

/// `r` is `op` with every string bound, all else unchanged.
pub open spec fn op_bound(op: Op, r: Op, set: Bindings) -> bool {
    match op {
        Op::Click { target, delivery } => r matches Op::Click { target: t, delivery: d }
            && t@ == text_out(target@, set) && d == delivery,
        Op::Type { target, text, delivery } => r matches Op::Type { target: t, text: x, delivery: d }
            && t@ == text_out(target@, set) && x@ == text_out(text@, set) && d == delivery,
        Op::SetValue { target, value } => r matches Op::SetValue { target: t, value: x }
            && t@ == text_out(target@, set) && x@ == text_out(value@, set),
        Op::Key { target, key, delivery } => r matches Op::Key { target: t, key: x, delivery: d }
            && t@ == text_out(target@, set) && x@ == text_out(key@, set) && d == delivery,
        Op::Keybinding { binding, chord, scope, confirm, activate } => r matches Op::Keybinding {
            binding: b,
            chord: c,
            scope: s,
            confirm: f,
            activate: a,
        } && b@ == text_out(binding@, set) && opt_str_view(c) == opt_out(opt_str_view(chord), set) && s == scope
            && f == confirm && a == activate,
        Op::Assert { spec } => r matches Op::Assert { spec: x } && x@ == assert_out(spec@, set),
        Op::Invoke { name, args } => r matches Op::Invoke { name: n, args: a } && n@ == text_out(name@, set)
            && json_subst(args, set) == Ok::<serde_json::Value, Seq<char>>(a),
        Op::WaitUntil { timeout_ms, spec } => r matches Op::WaitUntil { timeout_ms: t, spec: x } && t == timeout_ms
            && x@ == assert_out(spec@, set),
        Op::Screenshot { path, mode, target, max_height_px } => r matches Op::Screenshot {
            path: p,
            mode: m,
            target: t,
            max_height_px: h,
        } && opt_str_view(p) == opt_out(opt_str_view(path), set) && m == mode
            && opt_str_view(t) == opt_out(opt_str_view(target), set) && h == max_height_px,
        Op::Hello => r is Hello,
        Op::Snapshot => r is Snapshot,
        Op::Keybindings => r is Keybindings,
        Op::Wait { timeout_ms } => r == (Op::Wait { timeout_ms }),
        Op::Shutdown => r is Shutdown,
    }
}

fn subst_opt(o: &Option<String>, set: &Vec<(String, String)>) -> (r: Result<Option<String>, String>)
    ensures
        match opt_err(opt_str_view(*o), pairs_view(set@)) {
            Some(e) => r matches Err(x) && x@ == e,
            None => r matches Ok(t) && opt_str_view(t) == opt_out(opt_str_view(*o), pairs_view(set@)),
        },
{
    match o {
        Some(t) => match substitute_string(t.as_str(), set) {
            Ok(u) => Ok(Some(u)),
            Err(e) => Err(e),
        },
        None => Ok(None),
    }
}

fn subst_assert(a: &AssertSpec, set: &Vec<(String, String)>) -> (r: Result<AssertSpec, String>)
    ensures
        match assert_err(a@, pairs_view(set@)) {
            Some(e) => r matches Err(x) && x@ == e,
            None => r matches Ok(b) && b@ == assert_out(a@, pairs_view(set@)),
        },
{
    let name = match subst_opt(&a.name, set) {
        Ok(x) => x,
        Err(e) => return Err(e),
    };
    let role = match subst_opt(&a.role, set) {
        Ok(x) => x,
        Err(e) => return Err(e),
    };
    let target = match substitute_string(a.target.as_str(), set) {
        Ok(x) => x,
        Err(e) => return Err(e),
    };
    let value = match subst_opt(&a.value, set) {
        Ok(x) => x,
        Err(e) => return Err(e),
    };
    Ok(AssertSpec {
        target,
        name,
        value,
        role,
        checked: a.checked,
        exists: a.exists,
        visible: a.visible,
        in_viewport: a.in_viewport,
    })
}

fn subst_str(s: &String, set: &Vec<(String, String)>) -> (r: Result<String, String>)
    ensures
        match text_err(s@, pairs_view(set@)) {
            Some(e) => r matches Err(x) && x@ == e,
            None => r matches Ok(t) && t@ == text_out(s@, pairs_view(set@)),
        },
{
    substitute_string(s.as_str(), set)
}

/// Bind every `$param` in the strings of `op`, in the order of the keys of
/// its JSON form; the first unbound placeholder fails.
pub fn subst_op(op: &Op, set: &Vec<(String, String)>) -> (r: Result<Op, String>)
    ensures
        match op_err(*op, pairs_view(set@)) {
            Some(e) => r matches Err(x) && x@ == e,
            None => r matches Ok(o) && op_bound(*op, o, pairs_view(set@)),
        },
{
    match op {
        Op::Click { target, delivery } => {
            let t = match subst_str(target, set) { Ok(x) => x, Err(e) => return Err(e) };
            Ok(Op::Click { target: t, delivery: *delivery })
        },
        Op::Type { target, text, delivery } => {
            let t = match subst_str(target, set) { Ok(x) => x, Err(e) => return Err(e) };
            let x = match subst_str(text, set) { Ok(x) => x, Err(e) => return Err(e) };
            Ok(Op::Type { target: t, text: x, delivery: *delivery })
        },
        Op::SetValue { target, value } => {
            let t = match subst_str(target, set) { Ok(x) => x, Err(e) => return Err(e) };
            let x = match subst_str(value, set) { Ok(x) => x, Err(e) => return Err(e) };
            Ok(Op::SetValue { target: t, value: x })
        },
        Op::Key { target, key, delivery } => {
            let x = match subst_str(key, set) { Ok(x) => x, Err(e) => return Err(e) };
            let t = match subst_str(target, set) { Ok(x) => x, Err(e) => return Err(e) };
            Ok(Op::Key { target: t, key: x, delivery: *delivery })
        },
        Op::Keybinding { binding, chord, scope, confirm, activate } => {
            let b = match subst_str(binding, set) { Ok(x) => x, Err(e) => return Err(e) };
            let c = match subst_opt(chord, set) { Ok(x) => x, Err(e) => return Err(e) };
            Ok(Op::Keybinding { binding: b, chord: c, scope: *scope, confirm: *confirm, activate: *activate })
        },
        Op::Assert { spec } => {
            let x = match subst_assert(spec, set) { Ok(x) => x, Err(e) => return Err(e) };
            Ok(Op::Assert { spec: x })
        },
        Op::Invoke { name, args } => {
            let a = match subst_json(args, set) { Ok(x) => x, Err(e) => return Err(e) };
            let n = match subst_str(name, set) { Ok(x) => x, Err(e) => return Err(e) };
            Ok(Op::Invoke { name: n, args: a })
        },
        Op::WaitUntil { timeout_ms, spec } => {
            let x = match subst_assert(spec, set) { Ok(x) => x, Err(e) => return Err(e) };
            Ok(Op::WaitUntil { timeout_ms: *timeout_ms, spec: x })
        },
        Op::Screenshot { path, mode, target, max_height_px } => {
            let p = match subst_opt(path, set) { Ok(x) => x, Err(e) => return Err(e) };
            let t = match subst_opt(target, set) { Ok(x) => x, Err(e) => return Err(e) };
            Ok(Op::Screenshot { path: p, mode: *mode, target: t, max_height_px: *max_height_px })
        },
        Op::Hello => Ok(Op::Hello),
        Op::Snapshot => Ok(Op::Snapshot),
        Op::Keybindings => Ok(Op::Keybindings),
        Op::Wait { timeout_ms } => Ok(Op::Wait { timeout_ms: *timeout_ms }),
        Op::Shutdown => Ok(Op::Shutdown),
    }
}

/// The first declared param, from `i` on, that `set` leaves unbound.
pub open spec fn first_unbound(params: Seq<Seq<char>>, set: Bindings, i: int) -> Option<Seq<char>>
    decreases params.len() - i,
{
    if i < 0 || i >= params.len() {
        None
    } else if lookup(set, params[i]) is None {
        Some(missing_param(params[i]))
    } else {
        first_unbound(params, set, i + 1)
    }
}

proof fn lemma_first_unbound(params: Seq<Seq<char>>, set: Bindings, i: int, j: int)
    requires
        0 <= i <= j <= params.len(),
        forall|q: int| i <= q < j ==> (#[trigger] lookup(set, params[q])) is Some,
    ensures
        first_unbound(params, set, i) == first_unbound(params, set, j),
    decreases j - i,
{
    if i < j {
        lemma_first_unbound(params, set, i + 1, j);
    }
}

/// The first need, of the first `n`, that does not bind.
pub open spec fn needs_err(needs: Seq<String>, set: Bindings, n: nat) -> Option<Seq<char>>
    decreases n,
{
    if n == 0 || n > needs.len() {
        None
    } else {
        first_err(needs_err(needs, set, (n - 1) as nat), text_err(needs[n - 1]@, set))
    }
}

/// The error binding a step gives: its op, then its needs, then its id.
pub open spec fn step_err(step: RecipeStep, set: Bindings) -> Option<Seq<char>> {
    first_err(op_err(step.op, set), first_err(needs_err(step.needs@, set, step.needs@.len()), text_err(step.id@, set)))
}

/// The first error among the first `n` steps.
pub open spec fn steps_err(steps: Seq<RecipeStep>, set: Bindings, n: nat) -> Option<Seq<char>>
    decreases n,
{
    if n == 0 || n > steps.len() {
        None
    } else {
        first_err(steps_err(steps, set, (n - 1) as nat), step_err(steps[n - 1], set))
    }
}

/// `b` is step `a` with every string bound.
pub open spec fn step_bound(a: RecipeStep, b: RecipeStep, set: Bindings) -> bool {
    &&& op_bound(a.op, b.op, set)
    &&& b.id@ == text_out(a.id@, set)
    &&& b.needs@.len() == a.needs@.len()
    &&& forall|k: int| 0 <= k < a.needs@.len() ==> (#[trigger] b.needs@[k])@ == text_out(a.needs@[k]@, set)
    &&& b.screenshot == a.screenshot
}

/// Why binding `recipe` fails: a declared param without a value, else the
/// first string of its steps with an unbound placeholder.
pub open spec fn bind_err(recipe: Recipe, set: Bindings) -> Option<Seq<char>> {
    first_err(first_unbound(strings_view(recipe.params@), set, 0), steps_err(recipe.steps@, set, recipe.steps@.len()))
}

/// `b` is `recipe` with every step bound, all else unchanged.
pub open spec fn recipe_bound(recipe: Recipe, b: Recipe, set: Bindings) -> bool {
    &&& b.v == recipe.v
    &&& b.name@ == recipe.name@
    &&& opt_str_view(b.app) == opt_str_view(recipe.app)
    &&& strings_view(b.params@) == strings_view(recipe.params@)
    &&& b.steps@.len() == recipe.steps@.len()
    &&& forall|i: int| 0 <= i < recipe.steps@.len() ==> step_bound(#[trigger] recipe.steps@[i], b.steps@[i], set)
}

fn bind_step(step: &RecipeStep, set: &Vec<(String, String)>) -> (r: Result<RecipeStep, String>)
    ensures
        match step_err(*step, pairs_view(set@)) {
            Some(e) => r matches Err(x) && x@ == e,
            None => r matches Ok(b) && step_bound(*step, b, pairs_view(set@)),
        },
{
    let ghost sv = pairs_view(set@);
    let op = match subst_op(&step.op, set) {
        Ok(x) => x,
        Err(e) => return Err(e),
    };
    let mut needs: Vec<String> = Vec::new();
    let mut k: usize = 0;
    while k < step.needs.len()
        invariant
            k <= step.needs@.len(),
            sv == pairs_view(set@),
            needs@.len() == k,
            needs_err(step.needs@, sv, k as nat) is None,
            op_err(step.op, sv) is None,
            op_bound(step.op, op, sv),
            forall|q: int| 0 <= q < k ==> (#[trigger] needs@[q])@ == text_out(step.needs@[q]@, sv),
        decreases step.needs.len() - k,
    {
        match subst_str(&step.needs[k], set) {
            Ok(x) => needs.push(x),
            Err(e) => {
                proof {
                    let m = (k + 1) as nat;
                    assert(needs_err(step.needs@, sv, m) == Some(e@));
                    lemma_needs_err_stays(step.needs@, sv, m, step.needs@.len());
                }
                return Err(e);
            },
        }
        k += 1;
    }
    let id = match subst_str(&step.id, set) {
        Ok(x) => x,
        Err(e) => return Err(e),
    };
    Ok(RecipeStep { id, needs, op, screenshot: step.screenshot })
}

proof fn lemma_needs_err_stays(needs: Seq<String>, set: Bindings, m: nat, n: nat)
    requires
        m <= n <= needs.len(),
        needs_err(needs, set, m) is Some,
    ensures
        needs_err(needs, set, n) == needs_err(needs, set, m),
    decreases n,
{
    if n > m {
        lemma_needs_err_stays(needs, set, m, (n - 1) as nat);
    }
}

proof fn lemma_steps_err_stays(steps: Seq<RecipeStep>, set: Bindings, m: nat, n: nat)
    requires
        m <= n <= steps.len(),
        steps_err(steps, set, m) is Some,
    ensures
        steps_err(steps, set, n) == steps_err(steps, set, m),
    decreases n,
{
    if n > m {
        lemma_steps_err_stays(steps, set, m, (n - 1) as nat);
    }
}

/// Bind a recipe's `$params` from `set`: every declared param must have a
/// value; then each step is bound in turn, its op, its needs and its id.
pub fn apply_params(recipe: &Recipe, set: &Vec<(String, String)>) -> (r: Result<Recipe, String>)
    ensures
        match bind_err(*recipe, pairs_view(set@)) {
            Some(e) => r matches Err(x) && x@ == e,
            None => r matches Ok(b) && recipe_bound(*recipe, b, pairs_view(set@)),
        },
{
    let ghost sv = pairs_view(set@);
    let ghost pv = strings_view(recipe.params@);
    match check_params_bound(&recipe.params, set) {
        Ok(()) => {
            proof {
                assert forall|q: int| 0 <= q < pv.len() implies (#[trigger] lookup(sv, pv[q])) is Some by {
                    assert(pv[q] == recipe.params@[q]@);
                }
                lemma_first_unbound(pv, sv, 0, pv.len() as int);
            }
        },
        Err(e) => {
            proof {
                let i = choose|i: int|
                    0 <= i < recipe.params@.len() && lookup(sv, recipe.params@[i]@) is None
                        && e@ == missing_param(recipe.params@[i]@)
                        && forall|j: int| 0 <= j < i ==> (#[trigger] lookup(sv, recipe.params@[j]@)) is Some;
                assert forall|q: int| 0 <= q < i implies (#[trigger] lookup(sv, pv[q])) is Some by {
                    assert(pv[q] == recipe.params@[q]@);
                }
                lemma_first_unbound(pv, sv, 0, i);
                assert(pv[i] == recipe.params@[i]@);
            }
            return Err(e);
        },
    }
    let mut steps: Vec<RecipeStep> = Vec::new();
    let mut i: usize = 0;
    while i < recipe.steps.len()
        invariant
            i <= recipe.steps@.len(),
            sv == pairs_view(set@),
            steps@.len() == i,
            steps_err(recipe.steps@, sv, i as nat) is None,
            first_unbound(strings_view(recipe.params@), sv, 0) is None,
            forall|q: int| 0 <= q < i ==> step_bound(#[trigger] recipe.steps@[q], steps@[q], sv),
        decreases recipe.steps.len() - i,
    {
        match bind_step(&recipe.steps[i], set) {
            Ok(b) => steps.push(b),
            Err(e) => {
                proof {
                    let m = (i + 1) as nat;
                    assert(steps_err(recipe.steps@, sv, m) == Some(e@));
                    lemma_steps_err_stays(recipe.steps@, sv, m, recipe.steps@.len());
                }
                return Err(e);
            },
        }
        i += 1;
    }
    let app = match &recipe.app {
        Some(a) => Some(a.clone()),
        None => None,
    };
    Ok(Recipe { v: recipe.v, name: recipe.name.clone(), app, params: clone_strings(&recipe.params), steps })
}

} // verus!
