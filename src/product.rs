//! Cartesian products of sequences, and the combinations of indices that
//! permutator enumerates.

use vstd::prelude::*;

verus! {

/// Every way to pick one element from each of `gs`, in lexicographic order of
/// the picks (the last set varies fastest). No sets give one empty pick.
pub open spec fn product<A>(gs: Seq<Seq<A>>) -> Seq<Seq<A>>
    decreases gs.len(),
{
    if gs.len() == 0 {
        seq![Seq::empty()]
    } else {
        let rest = product(gs.drop_first());
        gs[0].map_values(|a: A| rest.map_values(|t: Seq<A>| seq![a] + t)).flatten()
    }
}

/// For each set of `gs`, the sequence of its indices.
pub open spec fn index_sets<A>(gs: Seq<Seq<A>>) -> Seq<Seq<usize>> {
    gs.map_values(|g: Seq<A>| Seq::new(g.len(), |i: int| i as usize))
}

/// The elements of `gs` that the indices `t` pick, one per set.
pub open spec fn pick<A>(gs: Seq<Seq<A>>, t: Seq<usize>) -> Seq<A> {
    Seq::new(t.len(), |j: int| gs[j][t[j] as int])
}

/// `t` holds one index in range for each set of `gs`.
pub open spec fn valid_pick<A>(gs: Seq<Seq<A>>, t: Seq<usize>) -> bool {
    t.len() == gs.len() && forall|j: int| 0 <= j < t.len() ==> (t[j] as int) < #[trigger] gs[j].len()
}

pub proof fn lemma_flatten_map<A, B>(s: Seq<Seq<A>>, f: spec_fn(A) -> B)
    ensures
        s.flatten().map_values(f) == s.map_values(|x: Seq<A>| x.map_values(f)).flatten(),
    decreases s.len(),
{
    let m = s.map_values(|x: Seq<A>| x.map_values(f));
    if s.len() == 0 {
        assert(s.flatten().map_values(f) =~= m.flatten());
    } else {
        lemma_flatten_map(s.drop_first(), f);
        assert(m.drop_first() =~= s.drop_first().map_values(|x: Seq<A>| x.map_values(f)));
        assert((s[0] + s.drop_first().flatten()).map_values(f) =~= s[0].map_values(f) + s.drop_first().flatten().map_values(f));
    }
}

proof fn lemma_flatten_all<A>(s: Seq<Seq<A>>, p: spec_fn(A) -> bool)
    requires
        forall|i: int, j: int| 0 <= i < s.len() && 0 <= j < s[i].len() ==> p(#[trigger] s[i][j]),
    ensures
        forall|k: int| 0 <= k < s.flatten().len() ==> p(#[trigger] s.flatten()[k]),
    decreases s.len(),
{
    if s.len() > 0 {
        let r = s.drop_first();
        assert forall|i: int, j: int| 0 <= i < r.len() && 0 <= j < r[i].len() implies p(#[trigger] r[i][j]) by {
            assert(r[i] == s[i + 1]);
        }
        lemma_flatten_all(r, p);
        assert forall|k: int| 0 <= k < s.flatten().len() implies p(#[trigger] s.flatten()[k]) by {
            if k < s[0].len() {
                assert(s.flatten()[k] == s[0][k]);
            } else {
                assert(s.flatten()[k] == r.flatten()[k - s[0].len()]);
            }
        }
    }
}

/// Every combination that the index sets of `gs` give is a valid pick.
pub proof fn lemma_index_product_valid<A>(gs: Seq<Seq<A>>)
    requires
        forall|i: int| 0 <= i < gs.len() ==> #[trigger] gs[i].len() <= usize::MAX,
    ensures
        forall|k: int| 0 <= k < product(index_sets(gs)).len() ==> valid_pick(gs, #[trigger] product(index_sets(gs))[k]),
    decreases gs.len(),
{
    let ig = index_sets(gs);
    if gs.len() == 0 {
        assert(product(ig) == seq![Seq::<usize>::empty()]);
    } else {
        let r = gs.drop_first();
        assert(ig.drop_first() =~= index_sets(r));
        lemma_index_product_valid(r);
        let rest = product(ig.drop_first());
        let s = ig[0].map_values(|a: usize| rest.map_values(|t: Seq<usize>| seq![a] + t));
        let p = |t: Seq<usize>| valid_pick(gs, t);
        assert forall|i: int, j: int| 0 <= i < s.len() && 0 <= j < s[i].len() implies p(#[trigger] s[i][j]) by {
            let t = rest[j];
            assert(valid_pick(r, t));
            assert(s[i][j] == seq![i as usize] + t);
            assert forall|m: int| 0 <= m < (seq![i as usize] + t).len() implies ((seq![i as usize] + t)[m] as int) < #[trigger] gs[m].len() by {
                if m > 0 {
                    assert(r[m - 1] == gs[m]);
                }
            }
        }
        lemma_flatten_all(s, p);
    }
}

/// Picking through the combinations of indices gives the product itself.
pub proof fn lemma_pick_product<A>(gs: Seq<Seq<A>>)
    requires
        forall|i: int| 0 <= i < gs.len() ==> #[trigger] gs[i].len() <= usize::MAX,
    ensures
        product(index_sets(gs)).map_values(|t: Seq<usize>| pick(gs, t)) == product(gs),
    decreases gs.len(),
{
    let ig = index_sets(gs);
    let f = |t: Seq<usize>| pick(gs, t);
    if gs.len() == 0 {
        assert(pick(gs, Seq::<usize>::empty()) =~= Seq::<A>::empty());
        assert(product(ig).map_values(f) =~= product(gs));
    } else {
        let r = gs.drop_first();
        assert(ig.drop_first() =~= index_sets(r));
        lemma_pick_product(r);
        let rest = product(ig.drop_first());
        let prest = product(r);
        let s = ig[0].map_values(|a: usize| rest.map_values(|t: Seq<usize>| seq![a] + t));
        lemma_flatten_map(s, f);
        let lhs = s.map_values(|x: Seq<Seq<usize>>| x.map_values(f));
        let rhs = gs[0].map_values(|a: A| prest.map_values(|t: Seq<A>| seq![a] + t));
        assert forall|i: int| 0 <= i < lhs.len() implies #[trigger] lhs[i] == rhs[i] by {
            assert forall|m: int| 0 <= m < lhs[i].len() implies #[trigger] lhs[i][m] == rhs[i][m] by {
                let t = rest[m];
                assert(prest[m] == pick(r, t));
                let u = seq![i as usize] + t;
                assert(t.len() == r.len() && pick(r, t).len() == r.len()) by {
                    lemma_index_product_valid(r);
                    assert(ig.drop_first() =~= index_sets(r));
                }
                assert forall|j: int| 0 <= j < u.len() implies #[trigger] pick(gs, u)[j] == (seq![gs[0][i]] + pick(r, t))[j] by {
                    if j > 0 {
                        assert(r[j - 1] == gs[j]);
                        assert(u[j] == t[j - 1]);
                    } else {
                        assert(u[0] == i as usize);
                    }
                }
                assert(pick(gs, u) =~= seq![gs[0][i]] + pick(r, t));
            }
            assert(lhs[i] =~= rhs[i]);
        }
        assert(lhs =~= rhs);
    }
}

/// Relies on permutator::cartesian_product: it calls back once for each way
/// to pick one element of every set, in lexicographic order (the last set
/// varies fastest), and indexes the first set's first element before it starts.
#[verifier::external_body]
pub(crate) fn index_product(sets: &Vec<Vec<usize>>) -> (r: Vec<Vec<usize>>)
    requires
        sets@.len() > 0,
        sets@[0]@.len() > 0,
    ensures
        r@.map_values(|t: Vec<usize>| t@) == product(sets@.map_values(|g: Vec<usize>| g@)),
{
    let slices: Vec<&[usize]> = sets.iter().map(|g| g.as_slice()).collect();
    let mut out: Vec<Vec<usize>> = Vec::new();
    permutator::cartesian_product(&slices, |p| out.push(p.iter().map(|x| **x).collect()));
    out
}

/// The index sets `0..n` for each of `sizes`.
pub(crate) fn index_ranges(sizes: &Vec<usize>) -> (r: Vec<Vec<usize>>)
    ensures
        r@.len() == sizes@.len(),
        forall|i: int| 0 <= i < r@.len() ==> (#[trigger] r@[i])@ == Seq::new(sizes@[i] as nat, |k: int| k as usize),
{
    let mut out: Vec<Vec<usize>> = Vec::new();
    let mut i: usize = 0;
    while i < sizes.len()
        invariant
            i <= sizes@.len(),
            out@.len() == i,
            forall|h: int| 0 <= h < i ==> (#[trigger] out@[h])@ == Seq::new(sizes@[h] as nat, |k: int| k as usize),
        decreases sizes.len() - i,
    {
        let n = sizes[i];
        let mut v: Vec<usize> = Vec::new();
        let mut k: usize = 0;
        while k < n
            invariant
                k <= n,
                v@ == Seq::new(k as nat, |m: int| m as usize),
            decreases n - k,
        {
            v.push(k);
            assert(v@ =~= Seq::new((k + 1) as nat, |m: int| m as usize));
            k = k + 1;
        }
        out.push(v);
        i = i + 1;
    }
    out
}

} // verus!
