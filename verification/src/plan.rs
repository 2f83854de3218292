//! Scheduling recipe steps: resolve `needs` edges, reject cycles, and group
//! the steps into dependency levels ("waves") in a deterministic order.

use vstd::prelude::*;

use crate::protocol::Op;
use crate::bind::{apply_params, bind_err, recipe_bound};
use crate::placeholders::lists_names;
use crate::recipe::{
    pairs_view, recipe_error, step_id, step_id_index, validate_recipe, Recipe, RecipeStep,
};
use crate::schema::{Effect, OpSchema, Registry, SchemaKind};
use crate::text::{
    chars_of, lemma_lex_lt_asymmetric, lemma_lex_lt_irreflexive, lemma_lex_lt_total,
    lemma_lex_lt_transitive, lex_lt, lex_lt_exec, seq_eq, strings_view,
};

verus! {

pub open spec fn id_of(steps: Seq<RecipeStep>, i: int) -> Seq<char> {
    steps[i].id@
}

pub open spec fn need_of(steps: Seq<RecipeStep>, i: int, k: int) -> Seq<char> {
    steps[i].needs@[k]@
}

/// No two steps share an id.
pub open spec fn distinct_ids(steps: Seq<RecipeStep>) -> bool {
    forall|a: int, b: int|
        0 <= a < steps.len() && 0 <= b < steps.len() && a != b ==> #[trigger] id_of(steps, a)
            != #[trigger] id_of(steps, b)
}

/// The `k`-th need of step `i` names some step.
pub open spec fn need_known(steps: Seq<RecipeStep>, i: int, k: int) -> bool {
    exists|j: int| 0 <= j < steps.len() && #[trigger] id_of(steps, j) == need_of(steps, i, k)
}

pub open spec fn needs_known(steps: Seq<RecipeStep>) -> bool {
    forall|i: int, k: int|
        0 <= i < steps.len() && 0 <= k < steps[i].needs.len() ==> #[trigger] need_known(
            steps,
            i,
            k,
        )
}

/// `(i, k)` is the first unknown need, walking steps and then their needs in
/// order.
pub open spec fn first_unknown_need(steps: Seq<RecipeStep>, i: int, k: int) -> bool {
    &&& 0 <= i < steps.len()
    &&& 0 <= k < steps[i].needs.len()
    &&& !need_known(steps, i, k)
    &&& forall|i2: int, k2: int|
        0 <= i2 < i && 0 <= k2 < steps[i2].needs.len() ==> #[trigger] need_known(steps, i2, k2)
    &&& forall|k2: int| 0 <= k2 < k ==> #[trigger] need_known(steps, i, k2)
}

pub open spec fn unknown_need_message(need: Seq<char>) -> Seq<char> {
    "unknown need `"@ + need + "`"@
}

/// Step `i` names step `j` among its needs.
pub open spec fn depends_on(steps: Seq<RecipeStep>, i: int, j: int) -> bool {
    exists|k: int| 0 <= k < steps[i].needs.len() && #[trigger] need_of(steps, i, k) == id_of(steps, j)
}

/// No step names a need: the steps run in the order written.
pub open spec fn implicit_order(steps: Seq<RecipeStep>) -> bool {
    forall|i: int| 0 <= i < steps.len() ==> #[trigger] steps[i].needs.len() == 0
}

/// A level for every step, each step strictly above every step it needs.
pub open spec fn valid_levels(steps: Seq<RecipeStep>, lv: Seq<nat>) -> bool {
    &&& lv.len() == steps.len()
    &&& forall|i: int, j: int|
        0 <= i < steps.len() && 0 <= j < steps.len() && #[trigger] depends_on(steps, i, j) ==> lv[j]
            < lv[i]
}

/// Valid levels where each step sits exactly one above its highest need:
/// the length of the longest chain of needs below it.
pub open spec fn tight_levels(steps: Seq<RecipeStep>, lv: Seq<nat>) -> bool {
    &&& valid_levels(steps, lv)
    &&& forall|i: int|
        0 <= i < steps.len() && #[trigger] lv[i] > 0 ==> exists|j: int|
            0 <= j < steps.len() && depends_on(steps, i, j) && #[trigger] lv[j] + 1 == lv[i]
}

/// The needs graph has no cycle: some level assignment respects it.
pub open spec fn acyclic(steps: Seq<RecipeStep>) -> bool {
    exists|lv: Seq<nat>| valid_levels(steps, lv)
}

pub open spec fn strictly_sorted(s: Seq<Seq<char>>) -> bool {
    forall|a: int, b: int| 0 <= a < b < s.len() ==> lex_lt(#[trigger] s[a], #[trigger] s[b])
}

pub open spec fn waves_view(waves: Seq<Vec<String>>) -> Seq<Seq<Seq<char>>> {
    Seq::new(waves.len(), |w: int| strings_view(waves[w]@))
}

/// The ids of the steps at the indices `ix`.
pub open spec fn ids_at(steps: Seq<RecipeStep>, ix: Seq<usize>) -> Seq<Seq<char>> {
    Seq::new(ix.len(), |t: int| id_of(steps, ix[t] as int))
}

pub open spec fn flatten(waves: Seq<Seq<Seq<char>>>) -> Seq<Seq<char>>
    decreases waves.len(),
{
    if waves.len() == 0 {
        Seq::empty()
    } else {
        flatten(waves.drop_last()) + waves.last()
    }
}

/// Wave `w` holds exactly the ids of the steps at level `w`, sorted, and
/// no wave is empty.
pub open spec fn waves_of_levels(
    steps: Seq<RecipeStep>,
    lv: Seq<nat>,
    waves: Seq<Seq<Seq<char>>>,
) -> bool {
    &&& forall|i: int| 0 <= i < steps.len() ==> #[trigger] lv[i] < waves.len()
    &&& forall|w: int|
        0 <= w < waves.len() ==> strictly_sorted(#[trigger] waves[w]) && waves[w].len() > 0
    &&& forall|w: int, x: Seq<char>|
        0 <= w < waves.len() ==> (#[trigger] waves[w].contains(x) <==> exists|i: int|
            0 <= i < steps.len() && id_of(steps, i) == x && #[trigger] lv[i] == w)
}

/// `ordered` lists every step index once, in the order of the waves.
pub open spec fn order_follows(
    steps: Seq<RecipeStep>,
    ordered: Seq<usize>,
    waves: Seq<Seq<Seq<char>>>,
) -> bool {
    &&& ordered.len() == steps.len()
    &&& forall|t: int| 0 <= t < ordered.len() ==> #[trigger] ordered[t] < steps.len()
    &&& ids_at(steps, ordered) == flatten(waves)
}

/// The result of scheduling `steps`, as `schedule` returns it.
pub open spec fn schedule_result(
    steps: Seq<RecipeStep>,
    r: Result<(Seq<usize>, Seq<Seq<Seq<char>>>), Seq<char>>,
) -> bool {
    if implicit_order(steps) {
        r == Ok::<(Seq<usize>, Seq<Seq<Seq<char>>>), Seq<char>>(
            (
                Seq::new(steps.len(), |i: int| i as usize),
                Seq::new(steps.len(), |i: int| seq![id_of(steps, i)]),
            ),
        )
    } else if !needs_known(steps) {
        exists|i: int, k: int|
            first_unknown_need(steps, i, k) && r == Err::<
                (Seq<usize>, Seq<Seq<Seq<char>>>),
                Seq<char>,
            >(unknown_need_message(need_of(steps, i, k)))
    } else if !acyclic(steps) {
        r == Err::<(Seq<usize>, Seq<Seq<Seq<char>>>), Seq<char>>(
            "recipe has a dependency cycle"@,
        )
    } else {
        exists|lv: Seq<nat>, ordered: Seq<usize>, waves: Seq<Seq<Seq<char>>>|
            tight_levels(steps, lv) && waves_of_levels(steps, lv, waves) && order_follows(
                steps,
                ordered,
                waves,
            ) && r == Ok::<(Seq<usize>, Seq<Seq<Seq<char>>>), Seq<char>>((ordered, waves))
    }
}

pub open spec fn result_view(r: Result<(Vec<usize>, Vec<Vec<String>>), String>) -> Result<
    (Seq<usize>, Seq<Seq<Seq<char>>>),
    Seq<char>,
> {
    match r {
        Ok((o, w)) => Ok((o@, waves_view(w@))),
        Err(e) => Err(e@),
    }
}

/// `deps[i][k]` is the index of the step that the `k`-th need of step `i`
/// names.
pub open spec fn resolves(steps: Seq<RecipeStep>, deps: Seq<Seq<usize>>) -> bool {
    &&& deps.len() == steps.len()
    &&& forall|i: int| 0 <= i < steps.len() ==> #[trigger] deps[i].len() == steps[i].needs.len()
    &&& forall|i: int, k: int|
        0 <= i < steps.len() && 0 <= k < steps[i].needs.len() ==> #[trigger] deps[i][k]
            < steps.len() && id_of(steps, deps[i][k] as int) == need_of(steps, i, k)
}

pub open spec fn deps_view(deps: Seq<Vec<usize>>) -> Seq<Seq<usize>> {
    deps.map_values(|v: Vec<usize>| v@)
}

pub open spec fn ids_view(idc: Seq<Vec<char>>) -> Seq<Seq<char>> {
    idc.map_values(|v: Vec<char>| v@)
}

pub open spec fn ids_match(steps: Seq<RecipeStep>, idc: Seq<Vec<char>>) -> bool {
    idc.len() == steps.len() && forall|i: int| 0 <= i < steps.len() ==> #[trigger] idc[i]@ == id_of(
        steps,
        i,
    )
}

/// Every need of step `j` is placed.
pub open spec fn all_placed(deps: Seq<Seq<usize>>, placed: Seq<bool>, j: int) -> bool {
    forall|k: int| 0 <= k < deps[j].len() ==> #[trigger] placed[deps[j][k] as int]
}

/// Index `q` occurs in `w`.
pub open spec fn has_index(w: Seq<usize>, q: int) -> bool {
    exists|s: int| 0 <= s < w.len() && w[s] as int == q
}

pub open spec fn sorted_by_id(idc: Seq<Vec<char>>, wave: Seq<usize>) -> bool {
    forall|a: int, b: int|
        0 <= a < b < wave.len() ==> lex_lt(idc[#[trigger] wave[a] as int]@, idc[#[trigger] wave[b] as int]@)
}

pub open spec fn unplaced_count(placed: Seq<bool>) -> nat
    decreases placed.len(),
{
    if placed.len() == 0 {
        0
    } else {
        unplaced_count(placed.drop_last()) + if placed.last() {
            0nat
        } else {
            1nat
        }
    }
}

proof fn lemma_unplaced_count_bound(placed: Seq<bool>)
    ensures
        unplaced_count(placed) <= placed.len(),
        unplaced_count(placed) == 0 <==> forall|i: int| 0 <= i < placed.len() ==> #[trigger] placed[i],
    decreases placed.len(),
{
    if placed.len() > 0 {
        lemma_unplaced_count_bound(placed.drop_last());
        if unplaced_count(placed) == 0 {
            assert forall|i: int| 0 <= i < placed.len() implies #[trigger] placed[i] by {
                if i < placed.len() - 1 {
                    assert(placed.drop_last()[i] == placed[i]);
                }
            }
        }
        if forall|i: int| 0 <= i < placed.len() ==> #[trigger] placed[i] {
            assert forall|i: int| 0 <= i < placed.drop_last().len() implies #[trigger] placed.drop_last()[i] by {
                assert(placed[i]);
            }
            assert(placed[placed.len() - 1]);
        }
    }
}

proof fn lemma_unplaced_count_mark(placed: Seq<bool>, i: int)
    requires
        0 <= i < placed.len(),
        !placed[i],
    ensures
        unplaced_count(placed.update(i, true)) + 1 == unplaced_count(placed),
    decreases placed.len(),
{
    let p2 = placed.update(i, true);
    if i == placed.len() - 1 {
        assert(p2.drop_last() =~= placed.drop_last());
    } else {
        assert(p2.drop_last() =~= placed.drop_last().update(i, true));
        lemma_unplaced_count_mark(placed.drop_last(), i);
    }
}

proof fn lemma_depends_iff(steps: Seq<RecipeStep>, deps: Seq<Seq<usize>>, i: int, j: int)
    requires
        distinct_ids(steps),
        resolves(steps, deps),
        0 <= i < steps.len(),
        0 <= j < steps.len(),
    ensures
        depends_on(steps, i, j) <==> exists|k: int| 0 <= k < deps[i].len() && #[trigger] deps[i][k] == j,
{
    if depends_on(steps, i, j) {
        let k = choose|k: int| 0 <= k < steps[i].needs.len() && #[trigger] need_of(steps, i, k) == id_of(steps, j);
        assert(deps[i][k] < steps.len());
        assert(id_of(steps, deps[i][k] as int) == id_of(steps, j));
        assert(deps[i][k] == j);
    }
    if exists|k: int| 0 <= k < deps[i].len() && #[trigger] deps[i][k] == j {
        let k = choose|k: int| 0 <= k < deps[i].len() && #[trigger] deps[i][k] == j;
        assert(need_of(steps, i, k) == id_of(steps, j));
    }
}

/// When every unplaced step still waits on an unplaced step, no level
/// assignment can exist: the unplaced steps would need ever lower levels.
proof fn lemma_stuck_levels(
    steps: Seq<RecipeStep>,
    deps: Seq<Seq<usize>>,
    placed: Seq<bool>,
    lv: Seq<nat>,
    m: nat,
)
    requires
        distinct_ids(steps),
        resolves(steps, deps),
        placed.len() == steps.len(),
        valid_levels(steps, lv),
        forall|i: int|
            0 <= i < steps.len() && !#[trigger] placed[i] ==> exists|k: int|
                0 <= k < deps[i].len() && !placed[#[trigger] deps[i][k] as int],
    ensures
        forall|i: int| 0 <= i < steps.len() && !#[trigger] placed[i] ==> lv[i] >= m,
    decreases m,
{
    if m > 0 {
        lemma_stuck_levels(steps, deps, placed, lv, (m - 1) as nat);
        assert forall|i: int| 0 <= i < steps.len() && !#[trigger] placed[i] implies lv[i] >= m by {
            let k = choose|k: int| 0 <= k < deps[i].len() && !placed[#[trigger] deps[i][k] as int];
            let j = deps[i][k] as int;
            lemma_depends_iff(steps, deps, i, j);
            assert(depends_on(steps, i, j));
            assert(lv[j] >= m - 1);
        }
    }
}

fn find_step(idc: &Vec<Vec<char>>, need: &Vec<char>) -> (r: Option<usize>)
    ensures
        match r {
            Some(j) => j < idc.len() && idc@[j as int]@ == need@,
            None => forall|j: int| 0 <= j < idc.len() ==> #[trigger] idc@[j]@ != need@,
        },
{
    let mut j: usize = 0;
    while j < idc.len()
        invariant
            j <= idc.len(),
            forall|t: int| 0 <= t < j ==> #[trigger] idc@[t]@ != need@,
        decreases idc.len() - j,
    {
        if seq_eq(&idc[j], need) {
            return Some(j);
        }
        j += 1;
    }
    None
}

fn step_ids(steps: &[RecipeStep]) -> (idc: Vec<Vec<char>>)
    ensures
        ids_match(steps@, idc@),
{
    let mut idc: Vec<Vec<char>> = Vec::new();
    let mut i: usize = 0;
    while i < steps.len()
        invariant
            i <= steps.len(),
            idc.len() == i,
            forall|t: int| 0 <= t < i ==> #[trigger] idc@[t]@ == id_of(steps@, t),
        decreases steps.len() - i,
    {
        idc.push(chars_of(steps[i].id.as_str()));
        i += 1;
    }
    idc
}

/// Resolve every need to the index of the step it names, or report the
/// first need that names no step.
fn resolve_needs(steps: &[RecipeStep], idc: &Vec<Vec<char>>) -> (r: Result<Vec<Vec<usize>>, String>)
    requires
        ids_match(steps@, idc@),
    ensures
        match r {
            Ok(deps) => resolves(steps@, deps_view(deps@)) && needs_known(steps@),
            Err(e) => exists|i: int, k: int|
                first_unknown_need(steps@, i, k) && e@ == unknown_need_message(need_of(steps@, i, k)),
        },
{
    let mut deps: Vec<Vec<usize>> = Vec::new();
    let mut i: usize = 0;
    while i < steps.len()
        invariant
            i <= steps.len(),
            ids_match(steps@, idc@),
            deps.len() == i,
            forall|t: int| 0 <= t < i ==> #[trigger] deps@[t]@.len() == steps@[t].needs.len(),
            forall|t: int, k: int|
                0 <= t < i && 0 <= k < steps@[t].needs.len() ==> #[trigger] deps@[t]@[k]
                    < steps.len() && id_of(steps@, deps@[t]@[k] as int) == need_of(steps@, t, k),
            forall|t: int, k: int|
                0 <= t < i && 0 <= k < steps@[t].needs.len() ==> #[trigger] need_known(steps@, t, k),
        decreases steps.len() - i,
    {
        let needs = &steps[i].needs;
        let mut row: Vec<usize> = Vec::new();
        let mut k: usize = 0;
        while k < needs.len()
            invariant
                i < steps.len(),
                needs == steps@[i as int].needs,
                ids_match(steps@, idc@),
                k <= needs.len(),
                row.len() == k,
                forall|q: int| 0 <= q < k ==> #[trigger] row@[q] < steps.len() && id_of(steps@, row@[q] as int) == need_of(steps@, i as int, q),
                forall|q: int| 0 <= q < k ==> #[trigger] need_known(steps@, i as int, q),
                forall|t: int, q: int|
                    0 <= t < i && 0 <= q < steps@[t].needs.len() ==> #[trigger] need_known(steps@, t, q),
            decreases needs.len() - k,
        {
            let need = chars_of(needs[k].as_str());
            match find_step(idc, &need) {
                Some(j) => {
                    assert(id_of(steps@, j as int) == need_of(steps@, i as int, k as int));
                    row.push(j);
                },
                None => {
                    proof {
                        assert(need@ == need_of(steps@, i as int, k as int));
                        if need_known(steps@, i as int, k as int) {
                            let j = choose|j: int|
                                0 <= j < steps@.len() && #[trigger] id_of(steps@, j) == need_of(steps@, i as int, k as int);
                            assert(idc@[j]@ == id_of(steps@, j));
                            assert(false);
                        }
                        assert(first_unknown_need(steps@, i as int, k as int));
                    }
                    let mut msg = "unknown need `".to_owned();
                    msg.append(needs[k].as_str());
                    msg.append("`");
                    return Err(msg);
                },
            }
            k += 1;
        }
        deps.push(row);
        i += 1;
    }
    assert(resolves(steps@, deps_view(deps@)));
    Ok(deps)
}

fn all_needs_placed(row: &Vec<usize>, placed: &Vec<bool>) -> (r: bool)
    requires
        forall|k: int| 0 <= k < row.len() ==> #[trigger] row@[k] < placed.len(),
    ensures
        r == forall|k: int| 0 <= k < row.len() ==> #[trigger] placed@[row@[k] as int],
{
    let mut k: usize = 0;
    while k < row.len()
        invariant
            k <= row.len(),
            forall|q: int| 0 <= q < row.len() ==> #[trigger] row@[q] < placed.len(),
            forall|q: int| 0 <= q < k ==> #[trigger] placed@[row@[q] as int],
        decreases row.len() - k,
    {
        if !placed[row[k]] {
            return false;
        }
        k += 1;
    }
    true
}

/// Insert step `x` into `wave`, keeping it sorted by id.
fn insert_by_id(wave: &mut Vec<usize>, x: usize, idc: &Vec<Vec<char>>)
    requires
        x < idc.len(),
        forall|t: int| 0 <= t < old(wave).len() ==> #[trigger] old(wave)@[t] < idc.len() && old(wave)@[t] != x,
        forall|a: int, b: int|
            0 <= a < idc.len() && 0 <= b < idc.len() && a != b ==> #[trigger] idc@[a]@ != #[trigger] idc@[b]@,
        sorted_by_id(idc@, old(wave)@),
    ensures
        final(wave).len() == old(wave).len() + 1,
        forall|t: int| 0 <= t < final(wave).len() ==> #[trigger] final(wave)@[t] < idc.len(),
        forall|y: usize| final(wave)@.contains(y) <==> old(wave)@.contains(y) || y == x,
        sorted_by_id(idc@, final(wave)@),
{
    let ghost w0 = wave@;
    let mut p: usize = 0;
    while p < wave.len() && !lex_lt_exec(&idc[x], &idc[wave[p]])
        invariant
            p <= wave.len(),
            wave@ == w0,
            x < idc.len(),
            forall|t: int| 0 <= t < wave.len() ==> #[trigger] wave@[t] < idc.len() && wave@[t] != x,
            forall|a: int, b: int|
                0 <= a < idc.len() && 0 <= b < idc.len() && a != b ==> #[trigger] idc@[a]@ != #[trigger] idc@[b]@,
            forall|t: int| 0 <= t < p ==> lex_lt(idc@[#[trigger] wave@[t] as int]@, idc@[x as int]@),
        decreases wave.len() - p,
    {
        proof {
            assert(wave@[p as int] != x);
            assert(idc@[x as int]@ != idc@[wave@[p as int] as int]@);
            lemma_lex_lt_total(idc@[x as int]@, idc@[wave@[p as int] as int]@);
        }
        p += 1;
    }
    wave.insert(p, x);
    proof {
        let w = wave@;
        assert(w =~= w0.insert(p as int, x));
        assert forall|a: int, b: int| 0 <= a < b < w.len() implies lex_lt(
            idc@[#[trigger] w[a] as int]@,
            idc@[#[trigger] w[b] as int]@,
        ) by {
            if b < p {
                assert(w[a] == w0[a] && w[b] == w0[b]);
            } else if b == p {
                assert(w[a] == w0[a]);
            } else if a == p {
                // x sorts before w0[p], which is at most w0[b - 1].
                assert(w[b] == w0[b - 1]);
                assert(lex_lt(idc@[x as int]@, idc@[w0[p as int] as int]@));
                if b - 1 > p {
                    assert(lex_lt(idc@[w0[p as int] as int]@, idc@[w0[b - 1] as int]@));
                    lemma_lex_lt_transitive(
                        idc@[x as int]@,
                        idc@[w0[p as int] as int]@,
                        idc@[w0[b - 1] as int]@,
                    );
                }
            } else if a < p {
                assert(w[a] == w0[a] && w[b] == w0[b - 1]);
                assert(lex_lt(idc@[w0[a] as int]@, idc@[x as int]@));
                assert(lex_lt(idc@[x as int]@, idc@[w0[p as int] as int]@));
                lemma_lex_lt_transitive(idc@[w0[a] as int]@, idc@[x as int]@, idc@[w0[p as int] as int]@);
                if b - 1 > p {
                    assert(lex_lt(idc@[w0[p as int] as int]@, idc@[w0[b - 1] as int]@));
                    lemma_lex_lt_transitive(
                        idc@[w0[a] as int]@,
                        idc@[w0[p as int] as int]@,
                        idc@[w0[b - 1] as int]@,
                    );
                }
            } else {
                assert(w[a] == w0[a - 1] && w[b] == w0[b - 1]);
            }
        }
        assert forall|y: usize| w.contains(y) <==> w0.contains(y) || y == x by {
            if w.contains(y) {
                let t = choose|t: int| 0 <= t < w.len() && w[t] == y;
                if t < p {
                    assert(w0[t] == y);
                } else if t > p {
                    assert(w0[t - 1] == y);
                }
            }
            if w0.contains(y) {
                let t = choose|t: int| 0 <= t < w0.len() && w0[t] == y;
                if t < p {
                    assert(w[t] == y);
                } else {
                    assert(w[t + 1] == y);
                }
            }
            if y == x {
                assert(w[p as int] == x);
            }
        }
    }
}

/// The unplaced steps whose needs are all placed, sorted by id.
fn collect_ready(idc: &Vec<Vec<char>>, deps: &Vec<Vec<usize>>, placed: &Vec<bool>) -> (wave: Vec<usize>)
    requires
        idc.len() == deps.len(),
        placed.len() == deps.len(),
        forall|i: int, k: int|
            0 <= i < deps.len() && 0 <= k < deps@[i].len() ==> #[trigger] deps@[i]@[k] < deps.len(),
        forall|a: int, b: int|
            0 <= a < idc.len() && 0 <= b < idc.len() && a != b ==> #[trigger] idc@[a]@ != #[trigger] idc@[b]@,
    ensures
        forall|t: int| 0 <= t < wave.len() ==> #[trigger] wave@[t] < deps.len(),
        forall|j: usize|
            j < deps.len() ==> (#[trigger] wave@.contains(j) <==> !placed@[j as int] && all_placed(
                deps_view(deps@),
                placed@,
                j as int,
            )),
        forall|j: int|
            0 <= j < deps.len() ==> (#[trigger] has_index(wave@, j) <==> !placed@[j] && all_placed(
                deps_view(deps@),
                placed@,
                j,
            )),
        sorted_by_id(idc@, wave@),
{
    let ghost dv = deps_view(deps@);
    let mut wave: Vec<usize> = Vec::new();
    let mut j: usize = 0;
    while j < deps.len()
        invariant
            j <= deps.len(),
            idc.len() == deps.len(),
            placed.len() == deps.len(),
            dv == deps_view(deps@),
            forall|i: int, k: int|
                0 <= i < deps.len() && 0 <= k < deps@[i].len() ==> #[trigger] deps@[i]@[k] < deps.len(),
            forall|a: int, b: int|
                0 <= a < idc.len() && 0 <= b < idc.len() && a != b ==> #[trigger] idc@[a]@ != #[trigger] idc@[b]@,
            forall|t: int| 0 <= t < wave.len() ==> #[trigger] wave@[t] < j,
            forall|q: usize|
                q < j ==> (#[trigger] wave@.contains(q) <==> !placed@[q as int] && all_placed(dv, placed@, q as int)),
            sorted_by_id(idc@, wave@),
        decreases deps.len() - j,
    {
        let row = &deps[j];
        assert(forall|k: int| 0 <= k < row.len() ==> #[trigger] row@[k] < placed.len()) by {
            assert forall|k: int| 0 <= k < row.len() implies #[trigger] row@[k] < placed.len() by {
                assert(deps@[j as int]@[k] < deps.len());
            }
        }
        let ready = all_needs_placed(row, placed);
        assert(ready == all_placed(dv, placed@, j as int)) by {
            assert(dv[j as int] == row@);
        }
        let ghost before = wave@;
        let inserted = !placed[j] && ready;
        if inserted {
            insert_by_id(&mut wave, j, idc);
        }
        assert(!before.contains(j)) by {
            if before.contains(j) {
                let t = choose|t: int| 0 <= t < before.len() && before[t] == j;
                assert(before[t] < j);
            }
        }
        assert forall|y: usize| #[trigger] wave@.contains(y) <==> (before.contains(y) || (inserted && y == j)) by {
            if !inserted {
                assert(wave@ == before);
            }
        }
        assert forall|t: int| 0 <= t < wave.len() implies #[trigger] wave@[t] < j + 1 by {
            if wave@[t] != j {
                assert(before.contains(wave@[t]));
                let s = choose|s: int| 0 <= s < before.len() && before[s] == wave@[t];
                assert(before[s] < j);
            }
        }
        j += 1;
    }
    assert forall|q: int| 0 <= q < deps.len() implies (#[trigger] has_index(wave@, q) <==> !placed@[q] && all_placed(dv, placed@, q)) by {
        let qu = q as usize;
        assert(wave@.contains(qu) <==> !placed@[qu as int] && all_placed(dv, placed@, qu as int));
        if has_index(wave@, q) {
            let t = choose|t: int| 0 <= t < wave.len() && wave@[t] as int == q;
            assert(wave@[t] == qu);
        }
        if wave@.contains(qu) {
            let t = choose|t: int| 0 <= t < wave.len() && wave@[t] == qu;
            assert(wave@[t] as int == q);
        }
    }
    wave
}

/// Order the steps for execution and group them into waves.
///
/// When no step names a need, the steps run as written, one per wave.
/// Otherwise every need must name a step (else the first unknown one is
/// reported), the needs must not form a cycle, and the steps are grouped by
/// level: wave `w` holds the steps whose longest chain of needs has length
/// `w`, sorted by id. `ordered` lists the step indices wave by wave.
///
/// The ids have already been checked to be distinct (`validate_recipe`).
pub fn schedule(steps: &[RecipeStep]) -> (r: Result<(Vec<usize>, Vec<Vec<String>>), String>)
    requires
        distinct_ids(steps@),
    ensures
        schedule_result(steps@, result_view(r)),
{
    let n = steps.len();
    let mut implicit = true;
    let mut i: usize = 0;
    while i < n
        invariant
            n == steps.len(),
            i <= n,
            implicit == forall|t: int| 0 <= t < i ==> #[trigger] steps@[t].needs.len() == 0,
        decreases n - i,
    {
        if steps[i].needs.len() != 0 {
            implicit = false;
        }
        i += 1;
    }
    if implicit {
        let mut ordered: Vec<usize> = Vec::new();
        let mut waves: Vec<Vec<String>> = Vec::new();
        let mut i: usize = 0;
        while i < n
            invariant
                n == steps.len(),
                i <= n,
                ordered@ == Seq::new(i as nat, |t: int| t as usize),
                waves_view(waves@) == Seq::new(i as nat, |t: int| seq![id_of(steps@, t)]),
            decreases n - i,
        {
            ordered.push(i);
            let mut w: Vec<String> = Vec::new();
            let id = steps[i].id.clone();
            w.push(id);
            let ghost waves0 = waves@;
            let ghost w1 = w@;
            waves.push(w);
            assert(ordered@ =~= Seq::new((i + 1) as nat, |t: int| t as usize));
            assert(waves_view(waves@) =~= Seq::new((i + 1) as nat, |t: int| seq![id_of(steps@, t)])) by {
                assert(waves_view(waves0).len() == waves0.len());
                assert(waves0.len() == i);
                assert(waves@ == waves0.push(waves@[i as int]));
                assert(waves@[i as int]@ == w1);
                assert(strings_view(w1) =~= seq![id_of(steps@, i as int)]);
                assert forall|t: int| 0 <= t < i + 1 implies #[trigger] waves_view(waves@)[t] == seq![id_of(steps@, t)] by {
                    if t < i {
                        assert(waves@[t] == waves0[t]);
                        assert(waves_view(waves0)[t] == seq![id_of(steps@, t)]);
                    } else {
                        assert(waves_view(waves@)[t] == strings_view(w1));
                    }
                }
            }
            i += 1;
        }
        return Ok((ordered, waves));
    }
    let idc = step_ids(steps);
    let deps = match resolve_needs(steps, &idc) {
        Ok(d) => d,
        Err(e) => return Err(e),
    };
    let ghost sv = steps@;
    let ghost dv = deps_view(deps@);
    assert(!implicit_order(sv)) by {
        assert(!implicit);
    }
    assert forall|a: int, b: int|
        0 <= a < idc.len() && 0 <= b < idc.len() && a != b implies #[trigger] idc@[a]@ != #[trigger] idc@[b]@ by {
        assert(id_of(sv, a) != id_of(sv, b));
    }
    assert forall|q: int, k: int| 0 <= q < deps.len() && 0 <= k < deps@[q].len() implies #[trigger] deps@[q]@[k] < deps.len() by {
        assert(dv[q][k] < n);
    }
    let mut placed: Vec<bool> = Vec::new();
    let mut level: Vec<usize> = Vec::new();
    let mut t: usize = 0;
    while t < n
        invariant
            t <= n,
            placed@ == Seq::new(t as nat, |q: int| false),
            level.len() == t,
        decreases n - t,
    {
        placed.push(false);
        level.push(0);
        t += 1;
        assert(placed@ =~= Seq::new(t as nat, |q: int| false));
    }
    proof {
        assert(unplaced_count(placed@) == n) by {
            lemma_count_all_unplaced(placed@);
        }
    }
    let mut ordered: Vec<usize> = Vec::new();
    let mut waves: Vec<Vec<String>> = Vec::new();
    let mut r: usize = 0;
    proof {
        assert(flatten(waves_view(waves@)) =~= ids_at(sv, ordered@));
        assert(round_inv(sv, dv, placed@, level@, 0, waves_view(waves@), ordered@));
    }
    while ordered.len() < n
        invariant
            n == steps.len(),
            sv == steps@,
            distinct_ids(sv),
            ids_match(sv, idc@),
            resolves(sv, dv),
            dv == deps_view(deps@),
            needs_known(sv),
            !implicit_order(sv),
            idc.len() == n,
            deps.len() == n,
            forall|q: int, k: int| 0 <= q < deps.len() && 0 <= k < deps@[q].len() ==> #[trigger] deps@[q]@[k] < deps.len(),
            forall|a: int, b: int|
                0 <= a < idc.len() && 0 <= b < idc.len() && a != b ==> #[trigger] idc@[a]@ != #[trigger] idc@[b]@,
            r == waves.len(),
            r <= ordered.len(),
            ordered.len() + unplaced_count(placed@) == n,
            round_inv(sv, dv, placed@, level@, r as nat, waves_view(waves@), ordered@),
        decreases unplaced_count(placed@),
    {
        let wave = collect_ready(&idc, &deps, &placed);
        if wave.len() == 0 {
            proof {
                lemma_unplaced_count_bound(placed@);
                assert forall|q: int|
                    0 <= q < n && !#[trigger] placed@[q] implies exists|k: int|
                        0 <= k < dv[q].len() && !placed@[#[trigger] dv[q][k] as int] by {
                    assert(!has_index(wave@, q));
                    assert(!all_placed(dv, placed@, q));
                }
                if acyclic(sv) {
                    let lv = choose|lv: Seq<nat>| valid_levels(sv, lv);
                    let q = choose|q: int| 0 <= q < n && !#[trigger] placed@[q];
                    lemma_stuck_levels(sv, dv, placed@, lv, lv[q] + 1);
                }
            }
            return Err("recipe has a dependency cycle".to_owned());
        }
        let ghost placed0 = placed@;
        let ghost level0 = level@;
        let ghost ordered0 = ordered@;
        let ghost waves0 = waves_view(waves@);
        let mut ids_of_wave: Vec<String> = Vec::new();
        let mut t: usize = 0;
        while t < wave.len()
            invariant
                n == steps.len(),
                sv == steps@,
                placed.len() == n,
                level.len() == n,
                t <= wave.len(),
                forall|s: int| 0 <= s < wave.len() ==> #[trigger] wave@[s] < n,
                forall|q: int| 0 <= q < n ==> (has_index(wave@, q) ==> !placed0[q]),
                placed0.len() == n,
                distinct_ids(sv),
                ids_match(sv, idc@),
                sorted_by_id(idc@, wave@),
                forall|q: int|
                    0 <= q < n ==> #[trigger] placed@[q] == (placed0[q] || has_index(wave@.subrange(0, t as int), q)),
                forall|q: int|
                    0 <= q < n ==> #[trigger] level@[q] == (if has_index(wave@.subrange(0, t as int), q) { r } else { level0[q] }),
                ordered@ == ordered0 + wave@.subrange(0, t as int),
                strings_view(ids_of_wave@) == ids_at(sv, wave@.subrange(0, t as int)),
                ordered.len() + unplaced_count(placed@) == ordered0.len() + unplaced_count(placed0),
            decreases wave.len() - t,
        {
            let q = wave[t];
            proof {
                lemma_wave_entry_fresh(idc@, wave@, t as int);
                assert(wave@.contains(q));
                lemma_unplaced_count_mark(placed@, q as int);
            }
            let ghost placed_before = placed@;
            let ghost level_before = level@;
            placed.set(q, true);
            level.set(q, r);
            ordered.push(q);
            let ghost ids0 = ids_of_wave@;
            let id = steps[q].id.clone();
            assert(id@ == id_of(sv, q as int));
            ids_of_wave.push(id);
            proof {
                let sub0 = wave@.subrange(0, t as int);
                let sub1 = wave@.subrange(0, t + 1);
                assert(sub1 =~= sub0.push(q));
                lemma_push_has_index(sub0, q);
                assert(ids_of_wave@ == ids0.push(id));
                assert(ids0.len() == t) by {
                    assert(strings_view(ids0).len() == ids0.len());
                    assert(ids_at(sv, sub0).len() == sub0.len());
                }
                assert(strings_view(ids_of_wave@) =~= ids_at(sv, sub1)) by {
                    assert(strings_view(ids0) == ids_at(sv, sub0));
                    assert forall|s: int| 0 <= s < t implies #[trigger] ids_of_wave@[s]@ == id_of(sv, sub1[s] as int) by {
                        assert(ids_of_wave@[s] == ids0[s]);
                        assert(strings_view(ids0)[s] == ids_at(sv, sub0)[s]);
                    }
                }
                assert forall|x: int| 0 <= x < n implies #[trigger] placed@[x] == (placed0[x] || has_index(sub1, x)) by {
                    assert(placed@[x] == (placed_before[x] || x == q));
                }
                assert forall|x: int| 0 <= x < n implies #[trigger] level@[x] == (if has_index(sub1, x) { r } else { level0[x] }) by {
                    assert(level@[x] == (if x == q { r } else { level_before[x] }));
                }
            }
            t += 1;
        }
        proof {
            assert(wave@.subrange(0, wave.len() as int) =~= wave@);
        }
        let ghost wave_ids = ids_at(sv, wave@);
        let ghost waves_exec0 = waves@;
        waves.push(ids_of_wave);
        proof {
            assert(waves_view(waves@) =~= waves0.push(wave_ids)) by {
                assert forall|w: int| 0 <= w < waves0.len() implies #[trigger] waves_view(waves@)[w] == waves0[w] by {
                    assert(waves@[w] == waves_exec0[w]);
                }
            }
            lemma_round_step(sv, dv, idc@, placed0, level0, r as nat, waves0, ordered0, wave@, placed@, level@, ordered@);
        }
        r += 1;
    }
    proof {
        lemma_unplaced_count_bound(placed@);
        lemma_round_done(sv, dv, placed@, level@, r as nat, waves_view(waves@), ordered@);
    }
    Ok((ordered, waves))
}

/// What holds after `r` rounds of placing ready steps.
spec fn round_inv(
    sv: Seq<RecipeStep>,
    dv: Seq<Seq<usize>>,
    placed: Seq<bool>,
    level: Seq<usize>,
    r: nat,
    wv: Seq<Seq<Seq<char>>>,
    ordered: Seq<usize>,
) -> bool {
    let n = sv.len();
    &&& placed.len() == n
    &&& level.len() == n
    &&& wv.len() == r
    &&& forall|q: int| 0 <= q < n && #[trigger] placed[q] ==> level[q] < r
    &&& forall|q: int, k: int|
        0 <= q < n && placed[q] && 0 <= k < dv[q].len() ==> placed[#[trigger] dv[q][k] as int]
            && level[dv[q][k] as int] < level[q]
    &&& forall|q: int|
        0 <= q < n && placed[q] && #[trigger] level[q] > 0 ==> exists|k: int|
            0 <= k < dv[q].len() && level[#[trigger] dv[q][k] as int] + 1 == level[q]
    &&& r > 0 ==> forall|q: int|
        0 <= q < n && !#[trigger] placed[q] ==> exists|k: int|
            0 <= k < dv[q].len() && (!placed[#[trigger] dv[q][k] as int] || level[dv[q][k] as int] + 1
                == r)
    &&& forall|w: int| 0 <= w < r ==> strictly_sorted(#[trigger] wv[w]) && wv[w].len() > 0
    &&& forall|w: int, x: Seq<char>|
        0 <= w < r ==> (#[trigger] wv[w].contains(x) <==> exists|q: int|
            0 <= q < n && id_of(sv, q) == x && placed[q] && #[trigger] level[q] == w)
    &&& forall|q: int| 0 <= q < ordered.len() ==> #[trigger] ordered[q] < n
    &&& ids_at(sv, ordered) == flatten(wv)
}

proof fn lemma_push_has_index(s: Seq<usize>, x: usize)
    ensures
        forall|q: int| #[trigger] has_index(s.push(x), q) <==> (has_index(s, q) || q == x as int),
{
    assert forall|q: int| #[trigger] has_index(s.push(x), q) <==> (has_index(s, q) || q == x as int) by {
        if has_index(s.push(x), q) {
            let t = choose|t: int| 0 <= t < s.push(x).len() && s.push(x)[t] as int == q;
            if t < s.len() {
                assert(s[t] as int == q);
            }
        }
        if has_index(s, q) {
            let t = choose|t: int| 0 <= t < s.len() && s[t] as int == q;
            assert(s.push(x)[t] as int == q);
        }
        if q == x as int {
            assert(s.push(x)[s.len() as int] as int == q);
        }
    }
}

/// A wave sorted strictly by distinct ids repeats no step.
proof fn lemma_wave_entry_fresh(idc: Seq<Vec<char>>, wave: Seq<usize>, t: int)
    requires
        0 <= t < wave.len(),
        forall|s: int| 0 <= s < wave.len() ==> #[trigger] wave[s] < idc.len(),
        sorted_by_id(idc, wave),
    ensures
        !wave.subrange(0, t).contains(wave[t]),
{
    if wave.subrange(0, t).contains(wave[t]) {
        let s = choose|s: int| 0 <= s < t && wave.subrange(0, t)[s] == wave[t];
        assert(wave[s] == wave[t]);
        assert(lex_lt(idc[wave[s] as int]@, idc[wave[t] as int]@));
        lemma_lex_lt_irreflexive(idc[wave[t] as int]@);
    }
}

/// One round keeps the round invariant: the ready steps are placed at
/// level `r` and form wave `r`.
proof fn lemma_round_step(
    sv: Seq<RecipeStep>,
    dv: Seq<Seq<usize>>,
    idc: Seq<Vec<char>>,
    placed0: Seq<bool>,
    level0: Seq<usize>,
    r: nat,
    waves0: Seq<Seq<Seq<char>>>,
    ordered0: Seq<usize>,
    wave: Seq<usize>,
    placed: Seq<bool>,
    level: Seq<usize>,
    ordered: Seq<usize>,
)
    requires
        distinct_ids(sv),
        resolves(sv, dv),
        round_inv(sv, dv, placed0, level0, r, waves0, ordered0),
        ids_match(sv, idc),
        wave.len() > 0,
        forall|s: int| 0 <= s < wave.len() ==> #[trigger] wave[s] < sv.len(),
        forall|q: int|
            0 <= q < sv.len() ==> (has_index(wave, q) <==> !placed0[q] && all_placed(dv, placed0, q)),
        sorted_by_id(idc, wave),
        placed.len() == sv.len(),
        level.len() == sv.len(),
        forall|q: int| 0 <= q < sv.len() ==> #[trigger] placed[q] == (placed0[q] || has_index(wave, q)),
        forall|q: int|
            0 <= q < sv.len() ==> #[trigger] level[q] == (if has_index(wave, q) { r as usize } else { level0[q] }),
        ordered == ordered0 + wave,
        r < usize::MAX,
    ensures
        round_inv(sv, dv, placed, level, r + 1, waves0.push(ids_at(sv, wave)), ordered),
{
    let n = sv.len();
    let last = ids_at(sv, wave);
    let wv = waves0.push(last);
    assert(wv.drop_last() =~= waves0);
    assert(ids_at(sv, ordered) =~= ids_at(sv, ordered0) + last);
    assert forall|q: int| 0 <= q < n && #[trigger] placed[q] implies level[q] < r + 1 by {
        if !has_index(wave, q) {
            assert(placed0[q]);
        }
    }
    assert forall|a: int, b: int| 0 <= a < b < last.len() implies lex_lt(#[trigger] last[a], #[trigger] last[b]) by {
        assert(lex_lt(idc[wave[a] as int]@, idc[wave[b] as int]@));
    }
    assert forall|q: int, k: int|
        0 <= q < n && placed[q] && 0 <= k < dv[q].len() implies placed[#[trigger] dv[q][k] as int]
            && level[dv[q][k] as int] < level[q] by {
        let d = dv[q][k] as int;
        if !placed0[q] {
            assert(has_index(wave, q));
            assert(all_placed(dv, placed0, q));
            assert(placed0[d]);
            assert(!has_index(wave, d));
        } else {
            assert(!has_index(wave, q));
            assert(placed0[d] && level0[d] < level0[q]);
            assert(!has_index(wave, d));
        }
    }
    assert forall|q: int|
        0 <= q < n && placed[q] && #[trigger] level[q] > 0 implies exists|k: int|
            0 <= k < dv[q].len() && level[#[trigger] dv[q][k] as int] + 1 == level[q] by {
        if !placed0[q] {
            assert(has_index(wave, q));
            assert(all_placed(dv, placed0, q));
            assert(r > 0);
            let k = choose|k: int|
                0 <= k < dv[q].len() && (!placed0[#[trigger] dv[q][k] as int] || level0[dv[q][k] as int] + 1 == r);
            let d = dv[q][k] as int;
            assert(placed0[d]);
            assert(!has_index(wave, d));
            assert(level[d] + 1 == level[q]);
        } else {
            assert(!has_index(wave, q));
            let k = choose|k: int| 0 <= k < dv[q].len() && level0[#[trigger] dv[q][k] as int] + 1 == level0[q];
            let d = dv[q][k] as int;
            assert(placed0[d]);
            assert(!has_index(wave, d));
            assert(level[d] + 1 == level[q]);
        }
    }
    assert forall|q: int|
        0 <= q < n && !#[trigger] placed[q] implies exists|k: int|
            0 <= k < dv[q].len() && (!placed[#[trigger] dv[q][k] as int] || level[dv[q][k] as int] + 1 == r + 1) by {
        assert(!has_index(wave, q));
        assert(!all_placed(dv, placed0, q));
        let k = choose|k: int| 0 <= k < dv[q].len() && !placed0[#[trigger] dv[q][k] as int];
        let d = dv[q][k] as int;
        if placed[d] {
            assert(has_index(wave, d));
            assert(level[d] == r);
        }
    }
    assert forall|w: int| 0 <= w < r + 1 implies strictly_sorted(#[trigger] wv[w]) && wv[w].len() > 0 by {
        if w < r {
            assert(wv[w] == waves0[w]);
        }
    }
    assert forall|w: int, x: Seq<char>|
        0 <= w < r + 1 implies (#[trigger] wv[w].contains(x) <==> exists|q: int|
            0 <= q < n && id_of(sv, q) == x && placed[q] && #[trigger] level[q] == w) by {
        if w < r {
            assert(wv[w] == waves0[w]);
            if exists|q: int| 0 <= q < n && id_of(sv, q) == x && placed[q] && #[trigger] level[q] == w {
                let q = choose|q: int| 0 <= q < n && id_of(sv, q) == x && placed[q] && #[trigger] level[q] == w;
                if has_index(wave, q) {
                    assert(level[q] == r);
                }
                assert(placed0[q] && level0[q] == w);
            }
            if wv[w].contains(x) {
                let q = choose|q: int| 0 <= q < n && id_of(sv, q) == x && placed0[q] && #[trigger] level0[q] == w;
                assert(!has_index(wave, q));
                assert(placed[q] && level[q] == w);
            }
        } else {
            assert(wv[w] == last);
            if last.contains(x) {
                let s = choose|s: int| 0 <= s < last.len() && last[s] == x;
                let q = wave[s] as int;
                assert(has_index(wave, q));
                assert(placed[q] && level[q] == r);
            }
            if exists|q: int| 0 <= q < n && id_of(sv, q) == x && placed[q] && #[trigger] level[q] == w {
                let q = choose|q: int| 0 <= q < n && id_of(sv, q) == x && placed[q] && #[trigger] level[q] == w;
                if !has_index(wave, q) {
                    assert(placed0[q]);
                    assert(level0[q] < r);
                }
                let s = choose|s: int| 0 <= s < wave.len() && wave[s] as int == q;
                assert(last[s] == x);
            }
        }
    }
    assert forall|q: int| 0 <= q < ordered.len() implies #[trigger] ordered[q] < n by {
        if q >= ordered0.len() {
            assert(ordered[q] == wave[q - ordered0.len()]);
        }
    }
}

/// When every step is placed, the levels are tight and the waves and order
/// are those of `schedule_result`.
proof fn lemma_round_done(
    sv: Seq<RecipeStep>,
    dv: Seq<Seq<usize>>,
    placed: Seq<bool>,
    level: Seq<usize>,
    r: nat,
    wv: Seq<Seq<Seq<char>>>,
    ordered: Seq<usize>,
)
    requires
        distinct_ids(sv),
        resolves(sv, dv),
        round_inv(sv, dv, placed, level, r, wv, ordered),
        ordered.len() == sv.len(),
        forall|q: int| 0 <= q < placed.len() ==> #[trigger] placed[q],
    ensures
        exists|lv: Seq<nat>| tight_levels(sv, lv) && waves_of_levels(sv, lv, wv),
        order_follows(sv, ordered, wv),
        acyclic(sv),
{
    let n = sv.len();
    let lv = Seq::new(n, |q: int| level[q] as nat);
    assert forall|q: int, j: int|
        0 <= q < n && 0 <= j < n && #[trigger] depends_on(sv, q, j) implies lv[j] < lv[q] by {
        lemma_depends_iff(sv, dv, q, j);
        let k = choose|k: int| 0 <= k < dv[q].len() && #[trigger] dv[q][k] == j;
        assert(placed[q]);
    }
    assert forall|q: int| 0 <= q < n && #[trigger] lv[q] > 0 implies exists|j: int|
        0 <= j < n && depends_on(sv, q, j) && #[trigger] lv[j] + 1 == lv[q] by {
        assert(placed[q]);
        assert(level[q] > 0);
        let k = choose|k: int| 0 <= k < dv[q].len() && level[#[trigger] dv[q][k] as int] + 1 == level[q];
        let j = dv[q][k] as int;
        lemma_depends_iff(sv, dv, q, j);
        assert(lv[j] + 1 == lv[q]);
    }
    assert(tight_levels(sv, lv));
    assert forall|w: int, x: Seq<char>|
        0 <= w < wv.len() implies (#[trigger] wv[w].contains(x) <==> exists|q: int|
            0 <= q < sv.len() && id_of(sv, q) == x && #[trigger] lv[q] == w) by {
        if exists|q: int| 0 <= q < sv.len() && id_of(sv, q) == x && #[trigger] lv[q] == w {
            let q = choose|q: int| 0 <= q < sv.len() && id_of(sv, q) == x && #[trigger] lv[q] == w;
            assert(placed[q] && level[q] == w);
        }
        if wv[w].contains(x) {
            let q = choose|q: int| 0 <= q < n && id_of(sv, q) == x && placed[q] && #[trigger] level[q] == w;
            assert(lv[q] == w);
        }
    }
    assert forall|q: int| 0 <= q < sv.len() implies #[trigger] lv[q] < wv.len() by {
        assert(placed[q]);
    }
    assert(waves_of_levels(sv, lv, wv));
}

/// A step of a compiled plan: the op, its needs (implicit sequences are
/// chained to the previous step), and what its schema says of it.
#[derive(Debug, Clone)]
pub struct PlannedStep {
    pub id: String,
    pub op: Op,
    pub needs: Vec<String>,
    /// Capture a PNG after this step when screenshots are flagged.
    pub screenshot: bool,
    pub effects: Vec<Effect>,
    pub schema: Option<String>,
    pub idempotent: bool,
}

/// Waves of the listed order and of the reversed order, and whether they
/// differ.
#[derive(Debug, Clone)]
pub struct OrderCheck {
    pub order_dependent: bool,
    pub forward_waves: Vec<Vec<String>>,
    pub reverse_waves: Vec<Vec<String>>,
}

/// The registry name that describes a protocol op.
pub open spec fn op_schema_name(op: Op) -> Seq<char> {
    match op {
        Op::Hello => "hello"@,
        Op::Snapshot => "snapshot"@,
        Op::Click { .. } => "click"@,
        Op::Type { .. } => "type"@,
        Op::SetValue { .. } => "set_value"@,
        Op::Key { .. } => "key"@,
        Op::Keybinding { .. } => "keybinding"@,
        Op::Keybindings => "keybindings"@,
        Op::Assert { .. } => "assert"@,
        Op::Invoke { .. } => "invoke"@,
        Op::Wait { .. } => "wait"@,
        Op::WaitUntil { .. } => "wait_until"@,
        Op::Shutdown => "shutdown"@,
        Op::Screenshot { .. } => "screenshot"@,
    }
}

/// Schema name, effects and idempotence of one entry.
pub open spec fn entry_info(s: OpSchema) -> (Option<Seq<char>>, Seq<Effect>, bool) {
    (Some(s.name@), s.effects@, s.idempotent)
}

/// What the registry says of `name`; an unknown name is a non-idempotent
/// write.
pub open spec fn lookup_info(registry: Registry, name: Seq<char>) -> (Option<Seq<char>>, Seq<Effect>, bool) {
    match registry.find(name) {
        Some(j) => entry_info(registry.entries()[j]),
        None => (None, seq![Effect::Write], false),
    }
}

/// What the registry says of an op: an `invoke` by its own schema when that
/// is an invoke schema, else by the generic `invoke` entry; every other op
/// by its op name.
pub open spec fn annotation(op: Op, registry: Registry) -> (Option<Seq<char>>, Seq<Effect>, bool) {
    match op {
        Op::Invoke { name, .. } => match registry.find(name@) {
            Some(j) => if registry.entries()[j].kind == SchemaKind::Invoke {
                entry_info(registry.entries()[j])
            } else {
                lookup_info(registry, "invoke"@)
            },
            None => lookup_info(registry, "invoke"@),
        },
        _ => lookup_info(registry, op_schema_name(op)),
    }
}

fn op_name(op: &Op) -> (r: &'static str)
    ensures
        r@ == op_schema_name(*op),
{
    match op {
        Op::Hello => "hello",
        Op::Snapshot => "snapshot",
        Op::Click { .. } => "click",
        Op::Type { .. } => "type",
        Op::SetValue { .. } => "set_value",
        Op::Key { .. } => "key",
        Op::Keybinding { .. } => "keybinding",
        Op::Keybindings => "keybindings",
        Op::Assert { .. } => "assert",
        Op::Invoke { .. } => "invoke",
        Op::Wait { .. } => "wait",
        Op::WaitUntil { .. } => "wait_until",
        Op::Shutdown => "shutdown",
        Op::Screenshot { .. } => "screenshot",
    }
}

fn copy_effects(v: &Vec<Effect>) -> (r: Vec<Effect>)
    ensures
        r@ == v@,
{
    let mut out: Vec<Effect> = Vec::new();
    let mut i: usize = 0;
    while i < v.len()
        invariant
            i <= v.len(),
            out@ == v@.subrange(0, i as int),
        decreases v.len() - i,
    {
        out.push(v[i]);
        i += 1;
        assert(out@ =~= v@.subrange(0, i as int));
    }
    assert(v@.subrange(0, v.len() as int) =~= v@);
    out
}

fn info_of(s: &OpSchema) -> (r: (Option<String>, Vec<Effect>, bool))
    ensures
        (match r.0 {
            Some(n) => Some(n@),
            None => None,
        }, r.1@, r.2) == entry_info(*s),
{
    (Some(s.name.clone()), copy_effects(&s.effects), s.idempotent)
}

fn lookup(name: &str, registry: &Registry) -> (r: (Option<String>, Vec<Effect>, bool))
    ensures
        (match r.0 {
            Some(n) => Some(n@),
            None => None,
        }, r.1@, r.2) == lookup_info(*registry, name@),
{
    proof {
        use_type_invariant(registry);
    }
    match registry.get(name) {
        Some(schema) => info_of(schema),
        None => {
            let mut e: Vec<Effect> = Vec::new();
            e.push(Effect::Write);
            assert(e@ =~= seq![Effect::Write]);
            (None, e, false)
        },
    }
}

/// Schema name, effects and idempotence of `op` by the registry.
pub fn annotate(op: &Op, registry: &Registry) -> (r: (Option<String>, Vec<Effect>, bool))
    ensures
        (match r.0 {
            Some(n) => Some(n@),
            None => None,
        }, r.1@, r.2) == annotation(*op, *registry),
{
    proof {
        use_type_invariant(registry);
    }
    match op {
        Op::Invoke { name, .. } => {
            match registry.get(name.as_str()) {
                Some(schema) => {
                    if schema.kind == SchemaKind::Invoke {
                        info_of(schema)
                    } else {
                        lookup("invoke", registry)
                    }
                },
                None => lookup("invoke", registry),
            }
        },
        _ => lookup(op_name(op), registry),
    }
}

pub open spec fn opt_str(o: Option<String>) -> Option<Seq<char>> {
    match o {
        Some(s) => Some(s@),
        None => None,
    }
}

/// The needs a planned step lists: its own, or in an implicit sequence the
/// step before it.
pub open spec fn planned_needs(steps: Seq<RecipeStep>, i: int) -> Seq<Seq<char>> {
    if implicit_order(steps) {
        if i == 0 {
            Seq::empty()
        } else {
            seq![id_of(steps, i - 1)]
        }
    } else {
        strings_view(steps[i].needs@)
    }
}

/// `p` is step `i` of `steps` as the plan lists it.
pub open spec fn planned_from(steps: Seq<RecipeStep>, registry: Registry, i: int, p: PlannedStep) -> bool {
    &&& p.id@ == id_of(steps, i)
    &&& crate::protocol::same_op(p.op, steps[i].op)
    &&& strings_view(p.needs@) == planned_needs(steps, i)
    &&& p.screenshot == steps[i].screenshot
    &&& (opt_str(p.schema), p.effects@, p.idempotent) == annotation(steps[i].op, registry)
}

pub open spec fn effect_rank(e: Effect) -> nat {
    match e {
        Effect::Read => 0,
        Effect::Write => 1,
        Effect::Exit => 2,
    }
}

/// Every effect of any planned step, once each, in the order
/// `Read`, `Write`, `Exit`.
pub open spec fn effects_union(planned: Seq<PlannedStep>, effects: Seq<Effect>) -> bool {
    &&& forall|e: Effect| effects.contains(e) <==> exists|k: int| 0 <= k < planned.len() && #[trigger] planned[k].effects@.contains(e)
    &&& forall|a: int, b: int| 0 <= a < b < effects.len() ==> effect_rank(#[trigger] effects[a]) < effect_rank(#[trigger] effects[b])
}

/// The steps of a plan, its waves, the union of its effects, and whether it
/// must be confirmed (it may exit the app).
pub struct CompiledSteps {
    pub steps: Vec<PlannedStep>,
    pub waves: Vec<Vec<String>>,
    pub effects: Vec<Effect>,
    pub requires_yes: bool,
}

fn has_effect(v: &Vec<Effect>, e: Effect) -> (r: bool)
    ensures
        r == v@.contains(e),
{
    let mut i: usize = 0;
    while i < v.len()
        invariant
            i <= v.len(),
            forall|k: int| 0 <= k < i ==> #[trigger] v@[k] != e,
        decreases v.len() - i,
    {
        if v[i] == e {
            return true;
        }
        i += 1;
    }
    false
}

/// What compiling `steps` gives: on success, the planned steps in the
/// order [`schedule`] gives, each annotated by the registry, the waves,
/// the effects of the whole plan and whether it needs `--yes`; else the
/// scheduling error.
pub open spec fn compile_outcome(steps: Seq<RecipeStep>, registry: Registry, r: Result<CompiledSteps, String>) -> bool {
    match r {
        Ok(c) => (exists|ordered: Seq<usize>|
            schedule_result(steps, Ok((ordered, waves_view(c.waves@))))
                && c.steps@.len() == ordered.len()
                && forall|k: int| 0 <= k < ordered.len() ==> planned_from(steps, registry, #[trigger] ordered[k] as int, c.steps@[k]))
            && effects_union(c.steps@, c.effects@)
            && c.requires_yes == c.effects@.contains(Effect::Exit),
        Err(e) => schedule_result(steps, Err(e@)),
    }
}

/// Order validated, parameter-bound steps into a plan: waves as
/// [`schedule`] gives them, each step annotated by the registry, implicit
/// sequences chained, and the effects of the whole plan collected.
pub fn compile_steps(steps: &Vec<RecipeStep>, registry: &Registry) -> (r: Result<CompiledSteps, String>)
    requires
        distinct_ids(steps@),
    ensures
        compile_outcome(steps@, *registry, r),
{
    proof {
        use_type_invariant(registry);
    }
    let ghost sv = steps@;
    let implicit = all_needs_empty(steps);
    let (ordered, waves) = match schedule(steps.as_slice()) {
        Ok(x) => x,
        Err(e) => return Err(e),
    };
    let ghost ov = ordered@;
    assert(ordered@.len() == steps@.len()) by {
        if !implicit_order(sv) {
            let (lv, o2, w2) = choose|lv: Seq<nat>, o2: Seq<usize>, w2: Seq<Seq<Seq<char>>>|
                tight_levels(sv, lv) && waves_of_levels(sv, lv, w2) && order_follows(sv, o2, w2)
                    && result_view(Ok((ordered, waves))) == Ok::<(Seq<usize>, Seq<Seq<Seq<char>>>), Seq<char>>((o2, w2));
        }
    }
    assert(forall|t: int| 0 <= t < ov.len() ==> #[trigger] ov[t] < sv.len()) by {
        if !implicit_order(sv) {
            let (lv, o2, w2) = choose|lv: Seq<nat>, o2: Seq<usize>, w2: Seq<Seq<Seq<char>>>|
                tight_levels(sv, lv) && waves_of_levels(sv, lv, w2) && order_follows(sv, o2, w2)
                    && result_view(Ok((ordered, waves))) == Ok::<(Seq<usize>, Seq<Seq<Seq<char>>>), Seq<char>>((o2, w2));
        }
    }
    let mut planned: Vec<PlannedStep> = Vec::new();
    let mut has_read = false;
    let mut has_write = false;
    let mut has_exit = false;
    let mut k: usize = 0;
    while k < ordered.len()
        invariant
            k <= ordered.len(),
            sv == steps@,
            ov == ordered@,
            ov.len() == sv.len(),
            registry.wf(),
            implicit == implicit_order(sv),
            forall|t: int| 0 <= t < ov.len() ==> #[trigger] ov[t] < sv.len(),
            planned@.len() == k,
            forall|t: int| 0 <= t < k ==> planned_from(sv, *registry, #[trigger] ov[t] as int, planned@[t]),
            has_read == exists|t: int| 0 <= t < k && #[trigger] planned@[t].effects@.contains(Effect::Read),
            has_write == exists|t: int| 0 <= t < k && #[trigger] planned@[t].effects@.contains(Effect::Write),
            has_exit == exists|t: int| 0 <= t < k && #[trigger] planned@[t].effects@.contains(Effect::Exit),
        decreases ordered.len() - k,
    {
        let i = ordered[k];
        let step = &steps[i];
        let (schema, effects, idempotent) = annotate(&step.op, registry);
        let needs: Vec<String> = if implicit {
            let mut v: Vec<String> = Vec::new();
            if i > 0 {
                let prev = steps[i - 1].id.clone();
                v.push(prev);
            }
            v
        } else {
            clone_strings(&step.needs)
        };
        proof {
            if implicit {
                if i > 0 {
                    assert(strings_view(needs@) =~= seq![id_of(sv, i - 1)]);
                } else {
                    assert(strings_view(needs@) =~= Seq::<Seq<char>>::empty());
                }
            }
        }
        let r_ = has_effect(&effects, Effect::Read);
        let w_ = has_effect(&effects, Effect::Write);
        let x_ = has_effect(&effects, Effect::Exit);
        let p = PlannedStep {
            id: step.id.clone(),
            op: step.op.clone(),
            needs,
            screenshot: step.screenshot,
            effects,
            schema,
            idempotent,
        };
        let ghost before = planned@;
        planned.push(p);
        has_read = has_read || r_;
        has_write = has_write || w_;
        has_exit = has_exit || x_;
        proof {
            assert forall|t: int| 0 <= t < k + 1 implies planned_from(sv, *registry, #[trigger] ov[t] as int, planned@[t]) by {
                if t < k {
                    assert(planned@[t] == before[t]);
                }
            }
            assert(has_read == exists|t: int| 0 <= t < k + 1 && #[trigger] planned@[t].effects@.contains(Effect::Read)) by {
                if exists|t: int| 0 <= t < k + 1 && #[trigger] planned@[t].effects@.contains(Effect::Read) {
                    let t = choose|t: int| 0 <= t < k + 1 && #[trigger] planned@[t].effects@.contains(Effect::Read);
                    if t < k {
                        assert(planned@[t] == before[t]);
                    }
                }
                if has_read && !r_ {
                    let t = choose|t: int| 0 <= t < k && #[trigger] before[t].effects@.contains(Effect::Read);
                    assert(planned@[t] == before[t]);
                }
            }
            assert(has_write == exists|t: int| 0 <= t < k + 1 && #[trigger] planned@[t].effects@.contains(Effect::Write)) by {
                if exists|t: int| 0 <= t < k + 1 && #[trigger] planned@[t].effects@.contains(Effect::Write) {
                    let t = choose|t: int| 0 <= t < k + 1 && #[trigger] planned@[t].effects@.contains(Effect::Write);
                    if t < k {
                        assert(planned@[t] == before[t]);
                    }
                }
                if has_write && !w_ {
                    let t = choose|t: int| 0 <= t < k && #[trigger] before[t].effects@.contains(Effect::Write);
                    assert(planned@[t] == before[t]);
                }
            }
            assert(has_exit == exists|t: int| 0 <= t < k + 1 && #[trigger] planned@[t].effects@.contains(Effect::Exit)) by {
                if exists|t: int| 0 <= t < k + 1 && #[trigger] planned@[t].effects@.contains(Effect::Exit) {
                    let t = choose|t: int| 0 <= t < k + 1 && #[trigger] planned@[t].effects@.contains(Effect::Exit);
                    if t < k {
                        assert(planned@[t] == before[t]);
                    }
                }
                if has_exit && !x_ {
                    let t = choose|t: int| 0 <= t < k && #[trigger] before[t].effects@.contains(Effect::Exit);
                    assert(planned@[t] == before[t]);
                }
            }
        }
        k += 1;
    }
    let mut effects: Vec<Effect> = Vec::new();
    if has_read {
        effects.push(Effect::Read);
    }
    if has_write {
        effects.push(Effect::Write);
    }
    if has_exit {
        effects.push(Effect::Exit);
    }
    proof {
        let ev = effects@;
        assert forall|e: Effect| ev.contains(e) <==> exists|t: int| 0 <= t < planned@.len() && #[trigger] planned@[t].effects@.contains(e) by {
            if ev.contains(e) {
                let j = choose|j: int| 0 <= j < ev.len() && ev[j] == e;
            }
            match e {
                Effect::Read => { if has_read { assert(ev[0] == Effect::Read); } },
                Effect::Write => { if has_write { assert(ev[if has_read { 1int } else { 0int }] == Effect::Write); } },
                Effect::Exit => {
                    if has_exit {
                        assert(ev[ev.len() - 1] == Effect::Exit);
                    }
                },
            }
        }
    }
    let requires_yes = has_exit;
    proof {
        assert(requires_yes == effects@.contains(Effect::Exit));
        assert(schedule_result(sv, Ok((ov, waves_view(waves@))))) by {
            assert(result_view(Ok((ordered, waves))) == Ok::<(Seq<usize>, Seq<Seq<Seq<char>>>), Seq<char>>((ov, waves_view(waves@))));
        }
    }
    let c = CompiledSteps { steps: planned, waves, effects, requires_yes };
    proof {
        assert(c.steps@.len() == ov.len());
        assert(forall|k: int| 0 <= k < ov.len() ==> planned_from(sv, *registry, #[trigger] ov[k] as int, c.steps@[k]));
        assert(schedule_result(sv, Ok((ov, waves_view(c.waves@)))));
    }
    Ok(c)
}

fn all_needs_empty(steps: &Vec<RecipeStep>) -> (r: bool)
    ensures
        r == implicit_order(steps@),
{
    let mut i: usize = 0;
    while i < steps.len()
        invariant
            i <= steps.len(),
            forall|t: int| 0 <= t < i ==> #[trigger] steps@[t].needs.len() == 0,
        decreases steps.len() - i,
    {
        if steps[i].needs.len() != 0 {
            return false;
        }
        i += 1;
    }
    true
}

fn clone_strings(v: &Vec<String>) -> (r: Vec<String>)
    ensures
        strings_view(r@) == strings_view(v@),
{
    let mut out: Vec<String> = Vec::new();
    let mut i: usize = 0;
    while i < v.len()
        invariant
            i <= v.len(),
            strings_view(out@) == strings_view(v@).subrange(0, i as int),
        decreases v.len() - i,
    {
        let ghost before = out@;
        assert(before.len() == i) by {
            assert(strings_view(before).len() == before.len());
        }
        let c = v[i].clone();
        out.push(c);
        assert(strings_view(out@) =~= strings_view(v@).subrange(0, i + 1)) by {
            assert forall|k: int| 0 <= k < i implies strings_view(out@)[k] == strings_view(before)[k] by {
                assert(out@[k] == before[k]);
            }
        }
        i += 1;
    }
    assert(strings_view(v@).subrange(0, v.len() as int) =~= strings_view(v@));
    out
}

/// Each wave as a set of ids.
pub open spec fn wave_sets(w: Seq<Seq<Seq<char>>>) -> Seq<Set<Seq<char>>> {
    Seq::new(w.len(), |i: int| w[i].to_set())
}

fn contains_id(v: &Vec<String>, x: &String) -> (r: bool)
    ensures
        r == strings_view(v@).contains(x@),
{
    let mut i: usize = 0;
    while i < v.len()
        invariant
            i <= v.len(),
            forall|k: int| 0 <= k < i ==> #[trigger] strings_view(v@)[k] != x@,
        decreases v.len() - i,
    {
        if crate::text::str_eq(v[i].as_str(), x.as_str()) {
            assert(strings_view(v@)[i as int] == x@);
            return true;
        }
        i += 1;
    }
    proof {
        if strings_view(v@).contains(x@) {
            let k = choose|k: int| 0 <= k < strings_view(v@).len() && strings_view(v@)[k] == x@;
            assert(strings_view(v@)[k] != x@);
        }
    }
    false
}

/// Every id of `a` is in `b`.
fn ids_within(a: &Vec<String>, b: &Vec<String>) -> (r: bool)
    ensures
        r == forall|k: int| 0 <= k < a@.len() ==> strings_view(b@).contains(#[trigger] strings_view(a@)[k]),
{
    let mut i: usize = 0;
    while i < a.len()
        invariant
            i <= a.len(),
            forall|k: int| 0 <= k < i ==> strings_view(b@).contains(#[trigger] strings_view(a@)[k]),
        decreases a.len() - i,
    {
        if !contains_id(b, &a[i]) {
            assert(!strings_view(b@).contains(strings_view(a@)[i as int]));
            return false;
        }
        i += 1;
    }
    true
}

/// The waves hold the same id sets, wave by wave.
fn same_wave_sets(a: &Vec<Vec<String>>, b: &Vec<Vec<String>>) -> (r: bool)
    ensures
        r == (wave_sets(waves_view(a@)) == wave_sets(waves_view(b@))),
{
    let ghost wa = wave_sets(waves_view(a@));
    let ghost wb = wave_sets(waves_view(b@));
    if a.len() != b.len() {
        assert(wa.len() != wb.len());
        return false;
    }
    let mut i: usize = 0;
    while i < a.len()
        invariant
            i <= a.len(),
            a.len() == b.len(),
            wa == wave_sets(waves_view(a@)),
            wb == wave_sets(waves_view(b@)),
            forall|k: int| 0 <= k < i ==> #[trigger] wa[k] == wb[k],
        decreases a.len() - i,
    {
        let ghost x = strings_view(a@[i as int]@);
        let ghost y = strings_view(b@[i as int]@);
        assert(wa[i as int] == x.to_set());
        assert(wb[i as int] == y.to_set());
        let ab = ids_within(&a[i], &b[i]);
        let ba = ids_within(&b[i], &a[i]);
        if !(ab && ba) {
            proof {
                if !ab {
                    let k = choose|k: int| 0 <= k < a[i as int]@.len() && !y.contains(#[trigger] x[k]);
                    assert(x.to_set().contains(x[k]));
                    assert(!y.to_set().contains(x[k]));
                } else {
                    let k = choose|k: int| 0 <= k < b[i as int]@.len() && !x.contains(#[trigger] y[k]);
                    assert(y.to_set().contains(y[k]));
                    assert(!x.to_set().contains(y[k]));
                }
            }
            return false;
        }
        assert(x.to_set() =~= y.to_set()) by {
            assert forall|e: Seq<char>| x.to_set().contains(e) implies y.to_set().contains(e) by {
                let k = choose|k: int| 0 <= k < x.len() && x[k] == e;
                assert(y.contains(x[k]));
            }
            assert forall|e: Seq<char>| y.to_set().contains(e) implies x.to_set().contains(e) by {
                let k = choose|k: int| 0 <= k < y.len() && y[k] == e;
                assert(x.contains(y[k]));
            }
        }
        i += 1;
    }
    assert(wa =~= wb);
    true
}

/// The steps in reverse order.
pub open spec fn reversed_steps(steps: Seq<RecipeStep>, rev: Seq<RecipeStep>) -> bool {
    &&& rev.len() == steps.len()
    &&& forall|i: int|
        0 <= i < steps.len() ==> (#[trigger] rev[i]).id@ == steps[steps.len() - 1 - i].id@
            && strings_view(rev[i].needs@) == strings_view(steps[steps.len() - 1 - i].needs@)
}

/// What checking the order of `steps` gives: the waves scheduled as listed
/// and reversed, and whether their wave sets differ; else a scheduling
/// error of one of the two.
pub open spec fn order_outcome(steps: Seq<RecipeStep>, r: Result<OrderCheck, String>) -> bool {
    match r {
        Ok(c) => (exists|o: Seq<usize>| schedule_result(steps, Ok((o, waves_view(c.forward_waves@)))))
            && (exists|rev: Seq<RecipeStep>, o: Seq<usize>|
                reversed_steps(steps, rev) && schedule_result(rev, Ok((o, waves_view(c.reverse_waves@)))))
            && c.order_dependent == (wave_sets(waves_view(c.forward_waves@)) != wave_sets(
                waves_view(c.reverse_waves@),
            )),
        Err(e) => schedule_result(steps, Err(e@)) || exists|rev: Seq<RecipeStep>|
            reversed_steps(steps, rev) && schedule_result(rev, Err(e@)),
    }
}

/// Schedule the steps as listed and in reverse order, and report whether
/// the wave sets differ: a recipe whose waves depend on the listed order
/// relies on the implicit sequence rather than on its `needs`.
pub fn order_check(steps: &Vec<RecipeStep>) -> (r: Result<OrderCheck, String>)
    requires
        distinct_ids(steps@),
    ensures
        order_outcome(steps@, r),
{
    let (o1, forward) = match schedule(steps.as_slice()) {
        Ok(x) => x,
        Err(e) => return Err(e),
    };
    let n = steps.len();
    let mut rev: Vec<RecipeStep> = Vec::new();
    let mut i: usize = 0;
    while i < n
        invariant
            n == steps.len(),
            i <= n,
            rev@.len() == i,
            forall|k: int|
                0 <= k < i ==> (#[trigger] rev@[k]).id@ == steps@[n - 1 - k].id@ && strings_view(rev@[k].needs@)
                    == strings_view(steps@[n - 1 - k].needs@),
        decreases n - i,
    {
        let s = steps[n - 1 - i].clone();
        let ghost before = rev@;
        rev.push(s);
        proof {
            assert forall|k: int| 0 <= k < i + 1 implies (#[trigger] rev@[k]).id@ == steps@[n - 1 - k].id@ && strings_view(rev@[k].needs@)
                == strings_view(steps@[n - 1 - k].needs@) by {
                if k < i {
                    assert(rev@[k] == before[k]);
                }
            }
        }
        i += 1;
    }
    assert(reversed_steps(steps@, rev@));
    assert(distinct_ids(rev@)) by {
        assert forall|a: int, b: int| 0 <= a < rev@.len() && 0 <= b < rev@.len() && a != b implies #[trigger] id_of(rev@, a) != #[trigger] id_of(rev@, b) by {
            assert(id_of(rev@, a) == id_of(steps@, n - 1 - a));
            assert(id_of(rev@, b) == id_of(steps@, n - 1 - b));
        }
    }
    let (o2, reverse) = match schedule(rev.as_slice()) {
        Ok(x) => x,
        Err(e) => return Err(e),
    };
    let dependent = !same_wave_sets(&forward, &reverse);
    Ok(OrderCheck { order_dependent: dependent, forward_waves: forward, reverse_waves: reverse })
}

proof fn lemma_count_all_unplaced(placed: Seq<bool>)
    requires
        forall|q: int| 0 <= q < placed.len() ==> !#[trigger] placed[q],
    ensures
        unplaced_count(placed) == placed.len(),
    decreases placed.len(),
{
    if placed.len() > 0 {
        lemma_count_all_unplaced(placed.drop_last());
    }
}


proof fn lemma_tight_below(steps: Seq<RecipeStep>, a: Seq<nat>, b: Seq<nat>, i: int)
    requires
        tight_levels(steps, a),
        valid_levels(steps, b),
        0 <= i < steps.len(),
    ensures
        a[i] <= b[i],
    decreases a[i],
{
    if a[i] > 0 {
        let j = choose|j: int| 0 <= j < steps.len() && depends_on(steps, i, j) && #[trigger] a[j] + 1 == a[i];
        lemma_tight_below(steps, a, b, j);
    }
}

/// Levels are a function of the needs graph: two tight level assignments
/// for the same steps are the same, so every schedule of one recipe puts
/// each step in the same wave.
pub proof fn lemma_tight_levels_unique(steps: Seq<RecipeStep>, a: Seq<nat>, b: Seq<nat>)
    requires
        tight_levels(steps, a),
        tight_levels(steps, b),
    ensures
        a == b,
{
    assert forall|i: int| 0 <= i < steps.len() implies a[i] == b[i] by {
        lemma_tight_below(steps, a, b, i);
        lemma_tight_below(steps, b, a, i);
    }
    assert(a =~= b);
}

proof fn lemma_reversed_depends(steps: Seq<RecipeStep>, rev: Seq<RecipeStep>, a: int, b: int)
    requires
        reversed_steps(steps, rev),
        0 <= a < steps.len(),
        0 <= b < steps.len(),
    ensures
        depends_on(rev, a, b) == depends_on(steps, steps.len() - 1 - a, steps.len() - 1 - b),
{
    let n = steps.len();
    let ia = n - 1 - a;
    let ib = n - 1 - b;
    assert(rev[a].id@ == steps[ia].id@);
    assert(rev[b].id@ == steps[ib].id@);
    assert(strings_view(rev[a].needs@) == strings_view(steps[ia].needs@));
    assert(rev[a].needs@.len() == strings_view(rev[a].needs@).len());
    assert(steps[ia].needs@.len() == strings_view(steps[ia].needs@).len());
    assert forall|k: int| 0 <= k < rev[a].needs@.len() implies #[trigger] need_of(rev, a, k)
        == need_of(steps, ia, k) by {
        assert(strings_view(rev[a].needs@)[k] == strings_view(steps[ia].needs@)[k]);
    }
    if depends_on(rev, a, b) {
        let k = choose|k: int| 0 <= k < rev[a].needs.len() && #[trigger] need_of(rev, a, k) == id_of(rev, b);
        assert(need_of(steps, ia, k) == id_of(steps, ib));
    }
    if depends_on(steps, ia, ib) {
        let k = choose|k: int| 0 <= k < steps[ia].needs.len() && #[trigger] need_of(steps, ia, k) == id_of(steps, ib);
        assert(need_of(rev, a, k) == id_of(rev, b));
    }
}

/// The levels of the reversed steps are the levels of the steps, read
/// backwards.
proof fn lemma_reversed_levels(steps: Seq<RecipeStep>, rev: Seq<RecipeStep>, lv: Seq<nat>)
    requires
        reversed_steps(steps, rev),
        tight_levels(steps, lv),
    ensures
        tight_levels(rev, Seq::new(steps.len(), |a: int| lv[steps.len() - 1 - a])),
{
    let n = steps.len();
    let lr = Seq::new(n, |a: int| lv[n - 1 - a]);
    assert forall|a: int, b: int|
        0 <= a < rev.len() && 0 <= b < rev.len() && #[trigger] depends_on(rev, a, b) implies lr[b] < lr[a] by {
        lemma_reversed_depends(steps, rev, a, b);
    }
    assert forall|a: int| 0 <= a < rev.len() && #[trigger] lr[a] > 0 implies exists|b: int|
        0 <= b < rev.len() && depends_on(rev, a, b) && #[trigger] lr[b] + 1 == lr[a] by {
        let i = n - 1 - a;
        assert(lv[i] > 0);
        let j = choose|j: int| 0 <= j < n && depends_on(steps, i, j) && #[trigger] lv[j] + 1 == lv[i];
        let b = n - 1 - j;
        lemma_reversed_depends(steps, rev, a, b);
        assert(lr[b] == lv[j]);
    }
}

/// Two wave lists built from the same levels hold the same ids, wave by
/// wave.
proof fn lemma_waves_same_sets(
    steps: Seq<RecipeStep>,
    lv: Seq<nat>,
    w1: Seq<Seq<Seq<char>>>,
    rev: Seq<RecipeStep>,
    lr: Seq<nat>,
    w2: Seq<Seq<Seq<char>>>,
)
    requires
        reversed_steps(steps, rev),
        lv.len() == steps.len(),
        lr == Seq::new(steps.len(), |a: int| lv[steps.len() - 1 - a]),
        waves_of_levels(steps, lv, w1),
        waves_of_levels(rev, lr, w2),
    ensures
        wave_sets(w1) == wave_sets(w2),
{
    let n = steps.len();
    assert forall|w: int, x: Seq<char>| 0 <= w < w1.len() && 0 <= w < w2.len() implies
        #[trigger] w1[w].contains(x) == w2[w].contains(x) by {
        if w1[w].contains(x) {
            let i = choose|i: int| 0 <= i < n && id_of(steps, i) == x && #[trigger] lv[i] == w;
            let a = n - 1 - i;
            assert(rev[a].id@ == steps[i].id@);
            assert(lr[a] == w);
        }
        if w2[w].contains(x) {
            let a = choose|a: int| 0 <= a < n && id_of(rev, a) == x && #[trigger] lr[a] == w;
            let i = n - 1 - a;
            assert(rev[a].id@ == steps[i].id@);
            assert(lv[i] == w);
        }
    }
    if w1.len() < w2.len() {
        let k = w1.len() as int;
        assert(w2[k].len() > 0);
        assert(w2[k].contains(w2[k][0]));
        let a = choose|a: int| 0 <= a < n && id_of(rev, a) == w2[k][0] && #[trigger] lr[a] == k;
        assert(lv[n - 1 - a] < w1.len());
    }
    if w2.len() < w1.len() {
        let k = w2.len() as int;
        assert(w1[k].len() > 0);
        assert(w1[k].contains(w1[k][0]));
        let i = choose|i: int| 0 <= i < n && id_of(steps, i) == w1[k][0] && #[trigger] lv[i] == k;
        let a = n - 1 - i;
        assert(lr[a] == lv[i]);
        assert(lr[a] < w2.len());
    }
    assert forall|w: int| 0 <= w < w1.len() implies #[trigger] wave_sets(w1)[w] == wave_sets(w2)[w] by {
        assert(w1[w].to_set() =~= w2[w].to_set()) by {
            assert forall|x: Seq<char>| w1[w].to_set().contains(x) == w2[w].to_set().contains(x) by {
                assert(w1[w].contains(x) == w2[w].contains(x));
            }
        }
    }
    assert(wave_sets(w1) =~= wave_sets(w2));
}

/// Two strictly sorted lists with the same members are the same list.
proof fn lemma_sorted_same_members(s: Seq<Seq<char>>, t: Seq<Seq<char>>)
    requires
        strictly_sorted(s),
        strictly_sorted(t),
        forall|x: Seq<char>| s.contains(x) == t.contains(x),
    ensures
        s == t,
    decreases s.len(),
{
    if s.len() == 0 {
        if t.len() > 0 {
            assert(t.contains(t[0]));
        }
        assert(s =~= t);
    } else {
        if t.len() == 0 {
            assert(s.contains(s[0]));
        }
        assert(s.contains(s[0]));
        assert(t.contains(t[0]));
        let k = choose|k: int| 0 <= k < t.len() && t[k] == s[0];
        let m = choose|m: int| 0 <= m < s.len() && s[m] == t[0];
        if k > 0 {
            assert(lex_lt(t[0], t[k]));
            if m > 0 {
                assert(lex_lt(s[0], s[m]));
                lemma_lex_lt_asymmetric(t[0], s[0]);
            } else {
                lemma_lex_lt_irreflexive(t[0]);
            }
        }
        assert(t[0] == s[0]);
        let s2 = s.drop_first();
        let t2 = t.drop_first();
        assert forall|x: Seq<char>| s2.contains(x) == t2.contains(x) by {
            if s2.contains(x) {
                let p = choose|p: int| 0 <= p < s2.len() && s2[p] == x;
                assert(s[p + 1] == x);
                assert(lex_lt(s[0], s[p + 1]));
                lemma_lex_lt_irreflexive(x);
                assert(s.contains(x));
                let q = choose|q: int| 0 <= q < t.len() && t[q] == x;
                assert(q != 0);
                assert(t2[q - 1] == x);
            }
            if t2.contains(x) {
                let p = choose|p: int| 0 <= p < t2.len() && t2[p] == x;
                assert(t[p + 1] == x);
                assert(lex_lt(t[0], t[p + 1]));
                lemma_lex_lt_irreflexive(x);
                assert(t.contains(x));
                let q = choose|q: int| 0 <= q < s.len() && s[q] == x;
                assert(q != 0);
                assert(s2[q - 1] == x);
            }
        }
        assert(strictly_sorted(s2)) by {
            assert forall|a: int, b: int| 0 <= a < b < s2.len() implies lex_lt(#[trigger] s2[a], #[trigger] s2[b]) by {
                assert(s2[a] == s[a + 1] && s2[b] == s[b + 1]);
            }
        }
        assert(strictly_sorted(t2)) by {
            assert forall|a: int, b: int| 0 <= a < b < t2.len() implies lex_lt(#[trigger] t2[a], #[trigger] t2[b]) by {
                assert(t2[a] == t[a + 1] && t2[b] == t[b + 1]);
            }
        }
        lemma_sorted_same_members(s2, t2);
        assert(s =~= t) by {
            assert forall|i: int| 0 <= i < s.len() implies s[i] == t[i] by {
                if i > 0 {
                    assert(s[i] == s2[i - 1] && t[i] == t2[i - 1]);
                }
            }
        }
    }
}

/// Once any step names its needs, the waves do not depend on the order in
/// which the steps are listed: scheduling the steps and the same steps
/// reversed gives the same waves.
pub proof fn lemma_explicit_waves_ignore_listed_order(
    steps: Seq<RecipeStep>,
    rev: Seq<RecipeStep>,
    o1: Seq<usize>,
    w1: Seq<Seq<Seq<char>>>,
    o2: Seq<usize>,
    w2: Seq<Seq<Seq<char>>>,
)
    requires
        reversed_steps(steps, rev),
        !implicit_order(steps),
        schedule_result(steps, Ok((o1, w1))),
        schedule_result(rev, Ok((o2, w2))),
    ensures
        w1 == w2,
{
    let n = steps.len();
    assert(!implicit_order(rev)) by {
        let i = choose|i: int| 0 <= i < n && #[trigger] steps[i].needs.len() != 0;
        let a = n - 1 - i;
        assert(strings_view(rev[a].needs@) == strings_view(steps[i].needs@));
        assert(strings_view(rev[a].needs@).len() == rev[a].needs@.len());
        assert(strings_view(steps[i].needs@).len() == steps[i].needs@.len());
        assert(rev[a].needs.len() != 0);
    }
    let (lv, oa, wa) = choose|lv: Seq<nat>, ordered: Seq<usize>, waves: Seq<Seq<Seq<char>>>|
        tight_levels(steps, lv) && waves_of_levels(steps, lv, waves) && order_follows(steps, ordered, waves)
            && Ok::<(Seq<usize>, Seq<Seq<Seq<char>>>), Seq<char>>((o1, w1))
            == Ok::<(Seq<usize>, Seq<Seq<Seq<char>>>), Seq<char>>((ordered, waves));
    let (lv2, ob, wb) = choose|lv: Seq<nat>, ordered: Seq<usize>, waves: Seq<Seq<Seq<char>>>|
        tight_levels(rev, lv) && waves_of_levels(rev, lv, waves) && order_follows(rev, ordered, waves)
            && Ok::<(Seq<usize>, Seq<Seq<Seq<char>>>), Seq<char>>((o2, w2))
            == Ok::<(Seq<usize>, Seq<Seq<Seq<char>>>), Seq<char>>((ordered, waves));
    let lr = Seq::new(n, |a: int| lv[n - 1 - a]);
    lemma_reversed_levels(steps, rev, lv);
    lemma_tight_levels_unique(rev, lv2, lr);
    lemma_waves_same_sets(steps, lv, w1, rev, lr, w2);
    assert(waves_of_levels(steps, lv, w1));
    assert(waves_of_levels(rev, lv2, w2));
    assert(w1.len() == w2.len()) by {
        assert(wave_sets(w1).len() == w1.len());
        assert(wave_sets(w2).len() == w2.len());
    }
    assert forall|w: int| 0 <= w < w1.len() implies #[trigger] w1[w] == w2[w] by {
        assert(wave_sets(w1)[w] == wave_sets(w2)[w]);
        assert(wave_sets(w1)[w] == w1[w].to_set());
        assert(wave_sets(w2)[w] == w2[w].to_set());
        assert(strictly_sorted(w1[w]));
        assert(strictly_sorted(w2[w]));
        assert forall|x: Seq<char>| w1[w].contains(x) == w2[w].contains(x) by {
            assert(w1[w].to_set().contains(x) == w2[w].to_set().contains(x));
        }
        lemma_sorted_same_members(w1[w], w2[w]);
    }
    assert(w1 =~= w2);
}

/// `order_check` never flags a recipe whose steps name their needs: the
/// forward and reversed waves are identical.
pub proof fn lemma_order_check_explicit_needs(steps: Seq<RecipeStep>, c: OrderCheck)
    requires
        !implicit_order(steps),
        exists|o: Seq<usize>| schedule_result(steps, Ok((o, waves_view(c.forward_waves@)))),
        exists|rev: Seq<RecipeStep>, o: Seq<usize>|
            reversed_steps(steps, rev) && schedule_result(rev, Ok((o, waves_view(c.reverse_waves@)))),
        c.order_dependent == (wave_sets(waves_view(c.forward_waves@)) != wave_sets(
            waves_view(c.reverse_waves@),
        )),
    ensures
        waves_view(c.forward_waves@) == waves_view(c.reverse_waves@),
        !c.order_dependent,
{
    let o1 = choose|o: Seq<usize>| schedule_result(steps, Ok((o, waves_view(c.forward_waves@))));
    let (rev, o2) = choose|rev: Seq<RecipeStep>, o: Seq<usize>|
        reversed_steps(steps, rev) && schedule_result(rev, Ok((o, waves_view(c.reverse_waves@))));
    lemma_explicit_waves_ignore_listed_order(
        steps,
        rev,
        o1,
        waves_view(c.forward_waves@),
        o2,
        waves_view(c.reverse_waves@),
    );
}

/// No wave holds a step together with a step it needs: everything in one
/// wave could run at once.
pub proof fn lemma_wave_members_independent(
    steps: Seq<RecipeStep>,
    ordered: Seq<usize>,
    waves: Seq<Seq<Seq<char>>>,
    i: int,
    j: int,
    w: int,
)
    requires
        distinct_ids(steps),
        !implicit_order(steps),
        schedule_result(steps, Ok((ordered, waves))),
        0 <= i < steps.len(),
        0 <= j < steps.len(),
        depends_on(steps, i, j),
        0 <= w < waves.len(),
    ensures
        !(waves[w].contains(id_of(steps, i)) && waves[w].contains(id_of(steps, j))),
{
    let (lv, oa, wa) = choose|lv: Seq<nat>, o: Seq<usize>, ws: Seq<Seq<Seq<char>>>|
        tight_levels(steps, lv) && waves_of_levels(steps, lv, ws) && order_follows(steps, o, ws)
            && Ok::<(Seq<usize>, Seq<Seq<Seq<char>>>), Seq<char>>((ordered, waves))
            == Ok::<(Seq<usize>, Seq<Seq<Seq<char>>>), Seq<char>>((o, ws));
    if waves[w].contains(id_of(steps, i)) && waves[w].contains(id_of(steps, j)) {
        let a = choose|a: int| 0 <= a < steps.len() && id_of(steps, a) == id_of(steps, i) && #[trigger] lv[a] == w;
        let b = choose|b: int| 0 <= b < steps.len() && id_of(steps, b) == id_of(steps, j) && #[trigger] lv[b] == w;
        assert(a == i);
        assert(b == j);
    }
}

/// The first step, from `j` on, whose id an earlier step already has.
pub open spec fn dup_error(steps: Seq<RecipeStep>, j: int) -> Option<Seq<char>>
    decreases steps.len() - j,
{
    if j < 0 || j >= steps.len() {
        None
    } else if exists|q: int| 0 <= q < j && #[trigger] step_id(steps, q) == steps[j].id@ {
        Some("duplicate step id `"@ + steps[j].id@ + "`"@)
    } else {
        dup_error(steps, j + 1)
    }
}

proof fn lemma_no_dup(steps: Seq<RecipeStep>, j: int)
    requires
        0 <= j,
        dup_error(steps, j) is None,
    ensures
        forall|b: int, q: int| j <= b < steps.len() && 0 <= q < b ==> #[trigger] step_id(steps, q) != #[trigger] step_id(steps, b),
    decreases steps.len() - j,
{
    if j < steps.len() {
        lemma_no_dup(steps, j + 1);
        assert forall|b: int, q: int| j <= b < steps.len() && 0 <= q < b implies #[trigger] step_id(steps, q) != #[trigger] step_id(steps, b) by {
            if b == j {
                assert(!(exists|q2: int| 0 <= q2 < j && #[trigger] step_id(steps, q2) == steps[j].id@));
                assert(step_id(steps, b) == steps[j].id@);
            }
        }
    }
}

/// Refuse steps two of which share an id (binding can make two ids equal).
fn check_distinct_ids(steps: &Vec<RecipeStep>) -> (r: Result<(), String>)
    ensures
        match dup_error(steps@, 0) {
            Some(e) => r matches Err(x) && x@ == e,
            None => r is Ok && distinct_ids(steps@),
        },
{
    let mut j: usize = 0;
    while j < steps.len()
        invariant
            j <= steps@.len(),
            dup_error(steps@, 0) == dup_error(steps@, j as int),
        decreases steps.len() - j,
    {
        if step_id_index(steps, j, steps[j].id.as_str()) {
            let mut e = "duplicate step id `".to_owned();
            e.append(steps[j].id.as_str());
            e.append("`");
            return Err(e);
        }
        j += 1;
    }
    proof {
        lemma_no_dup(steps@, 0);
        assert forall|a: int, b: int|
            0 <= a < steps@.len() && 0 <= b < steps@.len() && a != b implies #[trigger] id_of(steps@, a) != #[trigger] id_of(steps@, b) by {
            if a < b {
                assert(step_id(steps@, a) != step_id(steps@, b));
            } else {
                assert(step_id(steps@, b) != step_id(steps@, a));
            }
        }
    }
    Ok(())
}

/// What compiling `steps` gives once their ids are checked to be distinct.
pub open spec fn checked_compile_outcome(steps: Seq<RecipeStep>, registry: Registry, r: Result<CompiledSteps, String>) -> bool {
    match dup_error(steps, 0) {
        Some(e) => r matches Err(x) && x@ == e,
        None => compile_outcome(steps, registry, r),
    }
}

fn compile_checked(steps: &Vec<RecipeStep>, registry: &Registry) -> (r: Result<CompiledSteps, String>)
    ensures
        checked_compile_outcome(steps@, *registry, r),
{
    proof {
        use_type_invariant(registry);
    }
    match check_distinct_ids(steps) {
        Ok(()) => compile_steps(steps, registry),
        Err(e) => Err(e),
    }
}

/// Compile a recipe: check it, bind its `$params` from `set` when it
/// declares any, then schedule and annotate the steps. A compiled recipe
/// has passed the recipe checks.
pub fn compile_recipe(recipe: &Recipe, set: &Vec<(String, String)>, registry: &Registry) -> (r: Result<CompiledSteps, String>)
    ensures
        exists|found: Seq<Seq<Seq<char>>>| {
            &&& lists_names(found, recipe.steps@)
            &&& match recipe_error(*recipe, *registry, found) {
                Some(e) => r matches Err(x) && x@ == e,
                None => if recipe.params@.len() == 0 {
                    checked_compile_outcome(recipe.steps@, *registry, r)
                } else {
                    match bind_err(*recipe, pairs_view(set@)) {
                        Some(e) => r matches Err(x) && x@ == e,
                        None => exists|b: Recipe|
                            recipe_bound(*recipe, b, pairs_view(set@)) && checked_compile_outcome(b.steps@, *registry, r),
                    }
                },
            }
        },
        r is Ok ==> exists|found: Seq<Seq<Seq<char>>>|
            lists_names(found, recipe.steps@) && recipe_error(*recipe, *registry, found) is None,
{
    proof {
        use_type_invariant(registry);
    }
    match validate_recipe(recipe, registry) {
        Ok(()) => {},
        Err(e) => return Err(e),
    }
    if recipe.params.len() == 0 {
        compile_checked(&recipe.steps, registry)
    } else {
        match apply_params(recipe, set) {
            Ok(b) => compile_checked(&b.steps, registry),
            Err(e) => Err(e),
        }
    }
}

/// What checking the order of `steps` gives once their ids are checked to
/// be distinct.
pub open spec fn checked_order_outcome(steps: Seq<RecipeStep>, r: Result<OrderCheck, String>) -> bool {
    match dup_error(steps, 0) {
        Some(e) => r matches Err(x) && x@ == e,
        None => order_outcome(steps, r),
    }
}

fn order_checked(steps: &Vec<RecipeStep>) -> (r: Result<OrderCheck, String>)
    ensures
        checked_order_outcome(steps@, r),
{
    match check_distinct_ids(steps) {
        Ok(()) => order_check(steps),
        Err(e) => Err(e),
    }
}

/// Check a recipe and bind it as [`compile_recipe`] does, then report
/// whether its waves depend on the order its steps are listed in.
pub fn order_check_recipe(recipe: &Recipe, set: &Vec<(String, String)>, registry: &Registry) -> (r: Result<OrderCheck, String>)
    ensures
        exists|found: Seq<Seq<Seq<char>>>| {
            &&& lists_names(found, recipe.steps@)
            &&& match recipe_error(*recipe, *registry, found) {
                Some(e) => r matches Err(x) && x@ == e,
                None => if recipe.params@.len() == 0 {
                    checked_order_outcome(recipe.steps@, r)
                } else {
                    match bind_err(*recipe, pairs_view(set@)) {
                        Some(e) => r matches Err(x) && x@ == e,
                        None => exists|b: Recipe|
                            recipe_bound(*recipe, b, pairs_view(set@)) && checked_order_outcome(b.steps@, r),
                    }
                },
            }
        },
{
    proof {
        use_type_invariant(registry);
    }
    match validate_recipe(recipe, registry) {
        Ok(()) => {},
        Err(e) => return Err(e),
    }
    if recipe.params.len() == 0 {
        order_checked(&recipe.steps)
    } else {
        match apply_params(recipe, set) {
            Ok(b) => order_checked(&b.steps),
            Err(e) => Err(e),
        }
    }
}

} // verus!
