//! Stable ranking by a pair of keys.

use vstd::prelude::*;

verus! {

/// Whether key `a` goes before key `b`: the smaller first part does, and the
/// larger second part among equal first parts.
pub open spec fn goes_before(a: (i64, i64), b: (i64, i64)) -> bool {
    a.0 < b.0 || (a.0 == b.0 && a.1 > b.1)
}

/// The first place at or after `p` in `order` whose key goes after that of `k`.
pub open spec fn place_of(keys: Seq<(i64, i64)>, order: Seq<int>, k: int, p: int) -> int
    decreases order.len() - p,
{
    if p < 0 || p >= order.len() || goes_before(keys[k], keys[order[p]]) {
        p
    } else {
        place_of(keys, order, k, p + 1)
    }
}

/// The first `n` indices of `keys`, each put in before the first that goes
/// after it.
pub open spec fn ranked_upto(keys: Seq<(i64, i64)>, n: int) -> Seq<int>
    decreases n,
{
    if n <= 0 {
        Seq::empty()
    } else {
        let order = ranked_upto(keys, n - 1);
        order.insert(place_of(keys, order, n - 1, 0), n - 1)
    }
}

/// The indices of `keys` in the order of their keys.
pub open spec fn ranked(keys: Seq<(i64, i64)>) -> Seq<int> {
    ranked_upto(keys, keys.len() as int)
}

/// Whether `order` lists the first `n` indices once each, in the order of their
/// keys, and equal keys in the order of their indices.
pub open spec fn is_stable_order(keys: Seq<(i64, i64)>, order: Seq<int>, n: int) -> bool {
    &&& order.len() == n
    &&& forall|i: int| 0 <= i < n ==> 0 <= #[trigger] order[i] < n
    &&& forall|i: int, j: int|
        #![trigger order[i], order[j]]
        0 <= i < j < n ==> order[i] != order[j]
    &&& forall|x: int| 0 <= x < n ==> order.contains(x)
    &&& forall|i: int, j: int|
        #![trigger order[i], order[j]]
        0 <= i < j < n ==> !goes_before(keys[order[j]], keys[order[i]])
    &&& forall|i: int, j: int|
        #![trigger order[i], order[j]]
        0 <= i < j < n && keys[order[i]] == keys[order[j]] ==> order[i] < order[j]
}

proof fn lemma_place(keys: Seq<(i64, i64)>, order: Seq<int>, k: int, p: int)
    requires
        0 <= p <= order.len(),
    ensures
        p <= place_of(keys, order, k, p) <= order.len(),
        forall|q: int|
            p <= q < place_of(keys, order, k, p) ==> !goes_before(keys[k], keys[#[trigger] order[q]]),
        place_of(keys, order, k, p) < order.len() ==> goes_before(
            keys[k],
            keys[order[place_of(keys, order, k, p)]],
        ),
    decreases order.len() - p,
{
    if p < order.len() && !goes_before(keys[k], keys[order[p]]) {
        lemma_place(keys, order, k, p + 1);
    }
}

proof fn lemma_ranked(keys: Seq<(i64, i64)>, n: int)
    requires
        0 <= n <= keys.len(),
    ensures
        is_stable_order(keys, ranked_upto(keys, n), n),
    decreases n,
{
    if n > 0 {
        lemma_ranked(keys, n - 1);
        let old_order = ranked_upto(keys, n - 1);
        let p = place_of(keys, old_order, n - 1, 0);
        lemma_place(keys, old_order, n - 1, 0);
        let order = ranked_upto(keys, n);
        assert(order == old_order.insert(p, n - 1));
        assert forall|i: int| 0 <= i < n implies #[trigger] order[i] == (if i < p {
            old_order[i]
        } else if i == p {
            n - 1
        } else {
            old_order[i - 1]
        }) by {}
        assert forall|x: int| 0 <= x < n implies order.contains(x) by {
            if x == n - 1 {
                assert(order[p] == x);
            } else {
                assert(old_order.contains(x));
                let q = choose|q: int| 0 <= q < old_order.len() && old_order[q] == x;
                if q < p {
                    assert(order[q] == x);
                } else {
                    assert(order[q + 1] == x);
                }
            }
        }
        assert forall|i: int, j: int|
            #![trigger order[i], order[j]]
            0 <= i < j < n implies !goes_before(keys[order[j]], keys[order[i]]) by {
            if i == p {
                if p < old_order.len() {
                    assert(!goes_before(keys[old_order[j - 1]], keys[old_order[p]]) || j - 1 == p);
                }
            } else if j == p {
                assert(!goes_before(keys[n - 1], keys[old_order[i]]));
            }
        }
        assert forall|i: int, j: int|
            #![trigger order[i], order[j]]
            0 <= i < j < n && keys[order[i]] == keys[order[j]] implies order[i] < order[j] by {
            if i == p {
                assert(goes_before(keys[n - 1], keys[old_order[p]]));
                if j - 1 > p {
                    assert(!goes_before(keys[old_order[j - 1]], keys[old_order[p]]));
                }
            }
        }
    }
}

/// Ranking lists every index once, in the order of the keys, and leaves equal
/// keys in the order that they had.
pub proof fn ranking_is_stable(keys: Seq<(i64, i64)>)
    ensures
        is_stable_order(keys, ranked(keys), keys.len() as int),
{
    lemma_ranked(keys, keys.len() as int);
}

/// A sequence of indices as integers.
pub open spec fn as_ints(v: Seq<usize>) -> Seq<int> {
    Seq::new(v.len(), |i: int| v[i] as int)
}

/// Ranks the indices of `keys`.
pub fn rank(keys: &Vec<(i64, i64)>) -> (r: Vec<usize>)
    ensures
        as_ints(r@) == ranked(keys@),
        r@.len() == keys@.len(),
        forall|i: int| 0 <= i < r@.len() ==> (#[trigger] r@[i]) < keys@.len(),
{
    let mut out: Vec<usize> = Vec::new();
    let mut k: usize = 0;
    assert(as_ints(out@) =~= Seq::<int>::empty());
    while k < keys.len()
        invariant
            k <= keys@.len(),
            out@.len() == k,
            as_ints(out@) == ranked_upto(keys@, k as int),
            forall|i: int| 0 <= i < out@.len() ==> (#[trigger] out@[i]) < k,
        decreases keys@.len() - k,
    {
        let ghost order = as_ints(out@);
        let key = keys[k];
        let mut p: usize = 0;
        while p < out.len() && !(key.0 < keys[out[p]].0 || (key.0 == keys[out[p]].0 && key.1
            > keys[out[p]].1))
            invariant
                k < keys@.len(),
                key == keys@[k as int],
                p <= out@.len(),
                order == as_ints(out@),
                forall|i: int| 0 <= i < out@.len() ==> (#[trigger] out@[i]) < k,
                place_of(keys@, order, k as int, 0) == place_of(keys@, order, k as int, p as int),
            decreases out@.len() - p,
        {
            assert(order[p as int] == out@[p as int] as int);
            p = p + 1;
        }
        if p < out.len() {
            assert(order[p as int] == out@[p as int] as int);
        }
        out.insert(p, k);
        assert(as_ints(out@) =~= order.insert(p as int, k as int));
        k = k + 1;
    }
    out
}

} // verus!
