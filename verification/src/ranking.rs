//! Ranking of groups by a key, largest first.
//!
//! Groups with equal keys keep the order in which they were formed, so a
//! ranking is fully determined by the keys.

use vstd::prelude::*;

verus! {

/// Whether the group at `a` comes before the group at `b`: it has the
/// larger key, or the same key and was formed earlier.
pub open spec fn ranks_before(keys: Seq<i128>, a: int, b: int) -> bool {
    keys[a] > keys[b] || (keys[a] == keys[b] && a < b)
}

/// Whether `order` lists every position of `keys` once, each before all
/// those that it ranks before.
pub open spec fn is_ranking(keys: Seq<i128>, order: Seq<usize>) -> bool {
    &&& order.len() == keys.len()
    &&& forall|i: int| 0 <= i < order.len() ==> (#[trigger] order[i]) < keys.len()
    &&& forall|v: usize| v < keys.len() ==> #[trigger] order.contains(v)
    &&& forall|i: int, j: int|
        0 <= i < j < order.len() ==> ranks_before(keys, #[trigger] order[i] as int, #[trigger] order[j] as int)
}

/// The positions of `keys`, ranked by key from the largest to the smallest.
pub fn rank_descending(keys: &Vec<i128>) -> (order: Vec<usize>)
    ensures
        is_ranking(keys@, order@),
{
    let mut order: Vec<usize> = Vec::new();
    let mut i: usize = 0;
    while i < keys.len()
        invariant
            i <= keys.len(),
            order.len() == i,
            forall|k: int| 0 <= k < order.len() ==> (#[trigger] order[k]) < i,
            forall|v: usize| v < i ==> #[trigger] order@.contains(v),
            forall|a: int, b: int|
                0 <= a < b < order.len() ==> ranks_before(keys@, #[trigger] order[a] as int, #[trigger] order[b] as int),
        decreases keys.len() - i,
    {
        let key = keys[i];
        let mut p: usize = 0;
        while p < order.len() && keys[order[p]] >= key
            invariant
                p <= order.len(),
                order.len() == i,
                i < keys.len(),
                forall|k: int| 0 <= k < order.len() ==> (#[trigger] order[k]) < i,
                forall|k: int| 0 <= k < p ==> keys[(#[trigger] order[k]) as int] >= key,
            decreases order.len() - p,
        {
            p = p + 1;
        }
        let ghost before = order@;
        order.insert(p, i);
        proof {
            let after = order@;
            assert forall|k: int| 0 <= k < after.len() implies (#[trigger] after[k]) < i + 1 by {
                if k < p {
                    assert(after[k] == before[k]);
                } else if k > p {
                    assert(after[k] == before[k - 1]);
                }
            }
            assert forall|v: usize| v < i + 1 implies #[trigger] after.contains(v) by {
                if v == i {
                    assert(after[p as int] == v);
                } else {
                    assert(before.contains(v));
                    let k0 = choose|k: int| 0 <= k < before.len() && before[k] == v;
                    if k0 < p {
                        assert(after[k0] == v);
                    } else {
                        assert(after[k0 + 1] == v);
                    }
                }
            }
            assert forall|a: int, b: int| 0 <= a < b < after.len() implies ranks_before(
                keys@,
                #[trigger] after[a] as int,
                #[trigger] after[b] as int,
            ) by {
                let a0 = if a < p { a } else { a - 1 };
                let b0 = if b < p { b } else { b - 1 };
                if a != p && b != p {
                    assert(after[a] == before[a0]);
                    assert(after[b] == before[b0]);
                    assert(ranks_before(keys@, before[a0] as int, before[b0] as int));
                } else if a == p {
                    assert(after[b] == before[b0]);
                    if (p as int) < before.len() {
                        if b0 > p {
                            assert(ranks_before(keys@, before[p as int] as int, before[b0] as int));
                        }
                    }
                } else {
                    assert(after[a] == before[a]);
                    assert(before[a] < i);
                }
            }
        }
        i = i + 1;
    }
    order
}

/// Two rankings of the same keys agree on their first `n` places.
proof fn lemma_ranking_prefix(keys: Seq<i128>, a: Seq<usize>, b: Seq<usize>, n: int)
    requires
        is_ranking(keys, a),
        is_ranking(keys, b),
        0 <= n <= keys.len(),
    ensures
        forall|k: int| 0 <= k < n ==> a[k] == b[k],
    decreases n,
{
    if n > 0 {
        lemma_ranking_prefix(keys, a, b, n - 1);
        let i = n - 1;
        let x = a[i];
        let y = b[i];
        if x != y {
            assert(b.contains(x));
            let p = choose|p: int| 0 <= p < b.len() && b[p] == x;
            if p < i {
                assert(a[p] == b[p]);
                assert(ranks_before(keys, a[p] as int, a[i] as int));
            }
            assert(ranks_before(keys, b[i] as int, b[p] as int));
            assert(a.contains(y));
            let q = choose|q: int| 0 <= q < a.len() && a[q] == y;
            if q < i {
                assert(a[q] == b[q]);
                assert(ranks_before(keys, b[q] as int, b[i] as int));
            }
            assert(ranks_before(keys, a[i] as int, a[q] as int));
        }
    }
}

/// The keys determine their ranking: any two rankings of the same keys
/// are the same.
pub proof fn lemma_ranking_unique(keys: Seq<i128>, a: Seq<usize>, b: Seq<usize>)
    requires
        is_ranking(keys, a),
        is_ranking(keys, b),
    ensures
        a == b,
{
    lemma_ranking_prefix(keys, a, b, keys.len() as int);
    assert(a =~= b);
}

/// In a ranking, the keys never rise from one place to the next.
pub proof fn lemma_ranking_descends(keys: Seq<i128>, order: Seq<usize>, i: int, j: int)
    requires
        is_ranking(keys, order),
        0 <= i <= j < order.len(),
    ensures
        keys[order[i] as int] >= keys[order[j] as int],
{
    if i < j {
        assert(ranks_before(keys, order[i] as int, order[j] as int));
    }
}

} // verus!
