//! Id checks on a semantic UI tree, read as the list of its node ids in
//! depth-first order (the host flattens the tree; bounds play no part).

use vstd::prelude::*;

use crate::text::{
    chars_of, decimal, decimal_string, lemma_lex_lt_asymmetric, lemma_lex_lt_irreflexive,
    lemma_lex_lt_total, lemma_lex_lt_transitive, lex_lt, lex_lt_exec, str_eq, strings_view,
};

verus! {

/// The positions, in order, of the first `n` ids that equal `id`.
pub open spec fn indices_of(ids: Seq<Seq<char>>, id: Seq<char>, n: int) -> Seq<usize>
    decreases n,
{
    if n <= 0 {
        Seq::empty()
    } else if ids[n - 1] == id {
        indices_of(ids, id, n - 1).push((n - 1) as usize)
    } else {
        indices_of(ids, id, n - 1)
    }
}

/// How many nodes carry `id`.
pub open spec fn count_of(ids: Seq<Seq<char>>, id: Seq<char>) -> nat {
    indices_of(ids, id, ids.len() as int).len()
}

/// Every node with `id`, in depth-first order.
pub fn find_all(ids: &Vec<String>, id: &str) -> (r: Vec<usize>)
    ensures
        r@ == indices_of(strings_view(ids@), id@, ids@.len() as int),
{
    let ghost s = strings_view(ids@);
    let mut out: Vec<usize> = Vec::new();
    let mut i: usize = 0;
    while i < ids.len()
        invariant
            i <= ids@.len(),
            s == strings_view(ids@),
            out@ == indices_of(s, id@, i as int),
        decreases ids.len() - i,
    {
        assert(s[i as int] == ids@[i as int]@);
        if str_eq(ids[i].as_str(), id) {
            out.push(i);
        }
        i += 1;
    }
    out
}

/// The one node with `id`: an error when none or several carry it.
pub fn require_unique(ids: &Vec<String>, id: &str) -> (r: Result<usize, String>)
    ensures
        ({
            let found = indices_of(strings_view(ids@), id@, ids@.len() as int);
            if found.len() == 0 {
                r matches Err(e) && e@ == "node `"@ + id@ + "` not found"@
            } else if found.len() == 1 {
                r == Ok::<usize, String>(found[0])
            } else {
                r matches Err(e) && e@ == "duplicate id `"@ + id@ + "` ("@ + decimal(found.len())
                    + " nodes)"@
            }
        }),
{
    let found = find_all(ids, id);
    if found.len() == 0 {
        let mut e = "node `".to_owned();
        e.append(id);
        e.append("` not found");
        return Err(e);
    }
    if found.len() == 1 {
        return Ok(found[0]);
    }
    let n = decimal_string(found.len() as u64);
    let mut e = "duplicate id `".to_owned();
    e.append(id);
    e.append("` (");
    crate::text::push_chars(&mut e, &n);
    e.append(" nodes)");
    Err(e)
}

pub open spec fn sorted_strictly(s: Seq<Seq<char>>) -> bool {
    forall|a: int, b: int| 0 <= a < b < s.len() ==> lex_lt(#[trigger] s[a], #[trigger] s[b])
}

/// Insert `x` into the strictly sorted `v` (which does not hold it).
pub(crate) fn insert_sorted(v: &mut Vec<String>, x: String)
    requires
        sorted_strictly(strings_view(old(v)@)),
        !strings_view(old(v)@).contains(x@),
    ensures
        sorted_strictly(strings_view(final(v)@)),
        forall|y: Seq<char>| strings_view(final(v)@).contains(y) <==> (strings_view(old(v)@).contains(y) || y == x@),
{
    let ghost s0 = strings_view(v@);
    let xc = chars_of(x.as_str());
    let mut p: usize = 0;
    while p < v.len() && !lex_lt_exec(&xc, &chars_of(v[p].as_str()))
        invariant
            p <= v@.len(),
            s0 == strings_view(v@),
            !s0.contains(x@),
            xc@ == x@,
            forall|k: int| 0 <= k < p ==> lex_lt(#[trigger] s0[k], x@),
        decreases v.len() - p,
    {
        proof {
            assert(s0[p as int] == v@[p as int]@);
            assert(s0[p as int] != x@) by {
                assert(s0.contains(s0[p as int]));
            }
            lemma_lex_lt_total(s0[p as int], x@);
        }
        p += 1;
    }
    let ghost n = v@.len();
    v.insert(p, x);
    proof {
        let s1 = strings_view(v@);
        assert(s1.len() == n + 1);
        assert forall|k: int| 0 <= k < n + 1 implies #[trigger] s1[k] == (if k < p {
            s0[k]
        } else if k == p {
            x@
        } else {
            s0[k - 1]
        }) by {}
        assert(p < n ==> lex_lt(x@, s0[p as int]));
        assert forall|a: int, b: int| 0 <= a < b < s1.len() implies lex_lt(#[trigger] s1[a], #[trigger] s1[b]) by {
            if a < p && b < p {
            } else if a < p && b == p {
            } else if a < p && b > p {
                assert(lex_lt(s0[a], x@));
                if p < n {
                    assert(lex_lt(x@, s0[p as int]));
                    if b - 1 > p {
                        assert(lex_lt(s0[p as int], s0[b - 1]));
                        lemma_lex_lt_transitive(x@, s0[p as int], s0[b - 1]);
                    }
                    lemma_lex_lt_transitive(s0[a], x@, s0[b - 1]);
                }
            } else if a == p {
                if b - 1 > p {
                    assert(lex_lt(s0[p as int], s0[b - 1]));
                    lemma_lex_lt_transitive(x@, s0[p as int], s0[b - 1]);
                }
            } else {
                assert(lex_lt(s0[a - 1], s0[b - 1]));
            }
        }
        assert forall|y: Seq<char>| s1.contains(y) <==> (s0.contains(y) || y == x@) by {
            if s1.contains(y) {
                let k = choose|k: int| 0 <= k < s1.len() && s1[k] == y;
                if k < p {
                    assert(s0[k] == y);
                } else if k > p {
                    assert(s0[k - 1] == y);
                }
            }
            if s0.contains(y) {
                let k = choose|k: int| 0 <= k < s0.len() && s0[k] == y;
                if k < p {
                    assert(s1[k] == y);
                } else {
                    assert(s1[k + 1] == y);
                }
            }
            if y == x@ {
                assert(s1[p as int] == y);
            }
        }
    }
}

/// The ids that more than one node carries, sorted, each once.
pub fn duplicate_ids(ids: &Vec<String>) -> (r: Vec<String>)
    ensures
        sorted_strictly(strings_view(r@)),
        forall|x: Seq<char>| strings_view(r@).contains(x) <==> count_of(strings_view(ids@), x) > 1,
{
    let ghost s = strings_view(ids@);
    let mut out: Vec<String> = Vec::new();
    let mut i: usize = 0;
    while i < ids.len()
        invariant
            i <= ids@.len(),
            s == strings_view(ids@),
            sorted_strictly(strings_view(out@)),
            forall|x: Seq<char>| strings_view(out@).contains(x) <==> (count_of(s, x) > 1 && exists|k: int| 0 <= k < i && s[k] == x),
        decreases ids.len() - i,
    {
        assert(s[i as int] == ids@[i as int]@);
        let count = find_all(ids, ids[i].as_str()).len();
        let ghost x = s[i as int];
        let mut seen = false;
        let mut j: usize = 0;
        while j < out.len()
            invariant
                i < ids@.len(),
                j <= out@.len(),
                x == ids@[i as int]@,
                seen == exists|k: int| 0 <= k < j && strings_view(out@)[k] == x,
            decreases out.len() - j,
        {
            assert(strings_view(out@)[j as int] == out@[j as int]@);
            if str_eq(out[j].as_str(), ids[i].as_str()) {
                seen = true;
            }
            j += 1;
        }
        assert(seen == strings_view(out@).contains(x));
        if count > 1 && !seen {
            let c = ids[i].clone();
            insert_sorted(&mut out, c);
        }
        proof {
            assert forall|y: Seq<char>| strings_view(out@).contains(y) <==> (count_of(s, y) > 1 && exists|k: int| 0 <= k < i + 1 && s[k] == y) by {
                if y == x {
                    assert(s[i as int] == y);
                }
                if exists|k: int| 0 <= k < i + 1 && s[k] == y {
                    let k = choose|k: int| 0 <= k < i + 1 && s[k] == y;
                    if k < i {
                        assert(exists|k2: int| 0 <= k2 < i && s[k2] == y);
                    }
                }
            }
        }
        i += 1;
    }
    proof {
        assert forall|x: Seq<char>| count_of(s, x) > 1 implies exists|k: int| 0 <= k < ids@.len() && s[k] == x by {
            lemma_indices_in(s, x, s.len() as int);
            let k = indices_of(s, x, s.len() as int)[0] as int;
            assert(s[k] == x);
        }
    }
    out
}

pub(crate) proof fn lemma_indices_in(ids: Seq<Seq<char>>, id: Seq<char>, n: int)
    requires
        0 <= n <= ids.len(),
        ids.len() <= usize::MAX,
    ensures
        forall|t: int| 0 <= t < indices_of(ids, id, n).len() ==> #[trigger] indices_of(ids, id, n)[t] < n && ids[indices_of(ids, id, n)[t] as int] == id,
    decreases n,
{
    if n > 0 {
        lemma_indices_in(ids, id, n - 1);
        let prev = indices_of(ids, id, n - 1);
        let cur = indices_of(ids, id, n);
        assert forall|t: int| 0 <= t < cur.len() implies #[trigger] cur[t] < n && ids[cur[t] as int] == id by {
            if t < prev.len() {
                assert(cur[t] == prev[t]);
            } else {
                assert(ids[n - 1] == id);
                assert(cur[t] == (n - 1) as usize);
            }
        }
    }
}

/// Whether every node id occurs once.
pub fn ids_are_unique(ids: &Vec<String>) -> (r: bool)
    ensures
        r == forall|x: Seq<char>| count_of(strings_view(ids@), x) <= 1,
{
    let d = duplicate_ids(ids);
    proof {
        if d.len() > 0 {
            assert(strings_view(d@).contains(strings_view(d@)[0]));
        }
        if d.len() == 0 {
            assert forall|x: Seq<char>| count_of(strings_view(ids@), x) <= 1 by {
                if count_of(strings_view(ids@), x) > 1 {
                    assert(strings_view(d@).contains(x));
                }
            }
        }
    }
    d.len() == 0
}

} // verus!
