//! Nearest-rank percentiles.
//!
//! The percentile at `pct` percent over `n` samples is the sample at the
//! zero-based offset `floor(n * pct / 100)` of the samples in ascending
//! order. Nothing is interpolated, and there is no percentile where the
//! offset falls outside the samples.

use vstd::prelude::*;
use vstd::relations::{sorted_by, total_ordering};
use vstd::seq_lib::{lemma_sorted_unique, to_multiset_build, to_multiset_insert};

verus! {

/// The order by which samples are sorted.
pub open spec fn ascending() -> spec_fn(i64, i64) -> bool {
    |a: i64, b: i64| a <= b
}

/// The samples in ascending order.
pub open spec fn sorted_samples(samples: Seq<i64>) -> Seq<i64> {
    samples.sort_by(ascending())
}

/// The offset of the percentile at `pct` percent among `n` sorted samples.
pub open spec fn rank_offset(n: int, pct: int) -> int {
    n * pct / 100
}

/// The nearest-rank percentile of the samples at `pct` percent.
pub open spec fn nearest_rank(samples: Seq<i64>, pct: int) -> Option<i64> {
    let k = rank_offset(samples.len() as int, pct);
    if 0 <= k < samples.len() {
        Some(sorted_samples(samples)[k])
    } else {
        None
    }
}

/// `<=` on `i64` is a total order.
pub proof fn lemma_ascending_total()
    ensures
        total_ordering(ascending()),
{
    let r = ascending();
    assert forall|x: i64| #[trigger] r(x, x) by {}
    assert forall|x: i64, y: i64| #[trigger] r(x, y) && #[trigger] r(y, x) implies x == y by {}
    assert forall|x: i64, y: i64, z: i64| #[trigger] r(x, y) && #[trigger] r(y, z) implies r(
        x,
        z,
    ) by {}
    assert forall|x: i64, y: i64| #[trigger] r(x, y) || #[trigger] r(y, x) by {}
}

/// The sorted samples hold what the samples hold, in ascending order.
pub proof fn lemma_sorted_samples(samples: Seq<i64>)
    ensures
        sorted_samples(samples).len() == samples.len(),
        sorted_samples(samples).to_multiset() == samples.to_multiset(),
        forall|i: int, j: int|
            0 <= i < j < samples.len() ==> sorted_samples(samples)[i] <= sorted_samples(
                samples,
            )[j],
{
    lemma_ascending_total();
    samples.lemma_sort_by_ensures(ascending());
    vstd::seq_lib::to_multiset_len(samples);
    vstd::seq_lib::to_multiset_len(sorted_samples(samples));
    let s = sorted_samples(samples);
    assert forall|i: int, j: int| 0 <= i < j < samples.len() implies s[i] <= s[j] by {
        assert(ascending()(s[i], s[j]));
    }
}

/// A percentile is one of the samples, and there is one exactly where
/// its offset falls among the samples.
pub proof fn lemma_nearest_rank_is_sample(samples: Seq<i64>, pct: int)
    ensures
        nearest_rank(samples, pct) is Some <==> 0 <= rank_offset(samples.len() as int, pct)
            < samples.len(),
        nearest_rank(samples, pct) matches Some(v) ==> samples.contains(v),
{
    lemma_ascending_total();
    samples.lemma_sort_by_ensures(ascending());
    lemma_sorted_samples(samples);
    let k = rank_offset(samples.len() as int, pct);
    if 0 <= k < samples.len() {
        let sorted = sorted_samples(samples);
        assert(sorted.contains(sorted[k]));
    }
}

/// The samples in ascending order.
pub fn sort_samples(samples: &Vec<i64>) -> (out: Vec<i64>)
    ensures
        out@ == sorted_samples(samples@),
{
    let mut out: Vec<i64> = Vec::new();
    let mut i: usize = 0;
    assert(samples@.take(0) =~= out@);
    while i < samples.len()
        invariant
            i <= samples.len(),
            out.len() == i,
            sorted_by(out@, ascending()),
            out@.to_multiset() == samples@.take(i as int).to_multiset(),
        decreases samples.len() - i,
    {
        let x = samples[i];
        let mut p: usize = 0;
        while p < out.len() && out[p] <= x
            invariant
                p <= out.len(),
                forall|k: int| 0 <= k < p ==> out[k] <= x,
            decreases out.len() - p,
        {
            p = p + 1;
        }
        proof {
            let before = out@;
            let after = before.insert(p as int, x);
            to_multiset_insert(before, p as int, x);
            samples@.lemma_take_succ_push(i as int);
            to_multiset_build(samples@.take(i as int), x);
            assert forall|a: int, b: int| 0 <= a < b < after.len() implies ascending()(
                after[a],
                after[b],
            ) by {
                let a0 = if a < p { a } else { a - 1 };
                let b0 = if b < p { b } else { b - 1 };
                if a != p && b != p {
                    assert(ascending()(before[a0], before[b0]));
                } else if a == p {
                    assert(ascending()(before[p as int], before[b0]));
                }
            }
        }
        out.insert(p, x);
        i = i + 1;
    }
    proof {
        samples@.lemma_take_len();
        lemma_ascending_total();
        samples@.lemma_sort_by_ensures(ascending());
        lemma_sorted_unique(out@, sorted_samples(samples@), ascending());
    }
    out
}

/// The nearest-rank percentile of the samples at `pct` percent.
pub fn percentile(samples: &Vec<i64>, pct: u8) -> (r: Option<i64>)
    ensures
        r == nearest_rank(samples@, pct as int),
{
    let n = samples.len();
    assert((n as u128) * (pct as u128) <= 0xffff_ffff_ffff_ffff * 255) by (nonlinear_arith)
        requires
            n <= 0xffff_ffff_ffff_ffff,
            pct <= 255,
    ;
    let k: u128 = (n as u128) * (pct as u128) / 100;
    if k < n as u128 {
        let sorted = sort_samples(samples);
        proof {
            lemma_sorted_samples(samples@);
        }
        Some(sorted[k as usize])
    } else {
        None
    }
}

} // verus!
