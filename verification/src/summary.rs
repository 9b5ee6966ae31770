//! Order statistics of round-trip-time samples.

use vstd::prelude::*;
use vstd::relations::{sorted_by, total_ordering};
use vstd::seq_lib::lemma_sorted_unique;

verus! {

/// The order on samples.
pub open spec fn leq() -> spec_fn(u64, u64) -> bool {
    |a: u64, b: u64| a <= b
}

/// The samples in ascending order.
pub open spec fn ascending(s: Seq<u64>) -> Seq<u64> {
    s.sort_by(leq())
}

/// `ascending(s)` is sorted, has the elements of `s` with their multiplicity,
/// and so has the length of `s`.
pub proof fn lemma_ascending(s: Seq<u64>)
    ensures
        sorted_by(ascending(s), leq()),
        ascending(s).to_multiset() == s.to_multiset(),
        ascending(s).len() == s.len(),
        forall|i: int, j: int| 0 <= i <= j < s.len() ==> ascending(s)[i] <= ascending(s)[j],
{
    assert(total_ordering(leq()));
    s.lemma_sort_by_ensures(leq());
    s.to_multiset_ensures();
    ascending(s).to_multiset_ensures();
    assert forall|i: int, j: int| 0 <= i <= j < s.len() implies ascending(s)[i] <= ascending(
        s,
    )[j] by {
        if i < j {
            assert(leq()(ascending(s)[i], ascending(s)[j]));
        }
    }
}

/// A sequence that is sorted and has the elements of `s` is `ascending(s)`.
pub proof fn lemma_ascending_unique(s: Seq<u64>, t: Seq<u64>)
    requires
        forall|i: int, j: int| 0 <= i < j < t.len() ==> t[i] <= t[j],
        t.to_multiset() == s.to_multiset(),
    ensures
        t == ascending(s),
{
    assert(total_ordering(leq()));
    s.lemma_sort_by_ensures(leq());
    assert(sorted_by(t, leq())) by {
        assert forall|i: int, j: int| 0 <= i < j < t.len() implies #[trigger] leq()(
            t[i],
            t[j],
        ) by {}
    }
    lemma_sorted_unique(t, ascending(s), leq());
}

/// Whether a run of samples ascends.
pub open spec fn ascends(s: Seq<u64>) -> bool {
    forall|i: int, j: int| 0 <= i < j < s.len() ==> s[i] <= s[j]
}

/// Merges two ascending runs into one.
fn merge(a: &Vec<u64>, b: &Vec<u64>) -> (out: Vec<u64>)
    requires
        ascends(a@),
        ascends(b@),
    ensures
        ascends(out@),
        out@.to_multiset() == a@.to_multiset().add(b@.to_multiset()),
{
    broadcast use vstd::seq_lib::group_to_multiset_ensures;

    let mut out: Vec<u64> = Vec::new();
    let mut i: usize = 0;
    let mut j: usize = 0;
    assert(a@.take(0) =~= Seq::<u64>::empty());
    assert(b@.take(0) =~= Seq::<u64>::empty());
    assert(out@.to_multiset() =~= a@.take(0).to_multiset().add(b@.take(0).to_multiset()));
    while i < a.len() || j < b.len()
        invariant
            i <= a@.len(),
            j <= b@.len(),
            ascends(a@),
            ascends(b@),
            ascends(out@),
            out@.to_multiset() == a@.take(i as int).to_multiset().add(
                b@.take(j as int).to_multiset(),
            ),
            forall|k: int| 0 <= k < out@.len() && i < a@.len() ==> out@[k] <= a@[i as int],
            forall|k: int| 0 <= k < out@.len() && j < b@.len() ==> out@[k] <= b@[j as int],
        decreases a@.len() - i + b@.len() - j,
    {
        let from_a: bool = if j >= b.len() {
            true
        } else if i >= a.len() {
            false
        } else {
            a[i] <= b[j]
        };
        let ghost before = out@;
        if from_a {
            let x: u64 = a[i];
            out.push(x);
            proof {
                assert(a@.take(i + 1) == a@.take(i as int).push(x));
                vstd::seq_lib::to_multiset_build(a@.take(i as int), x);
                vstd::seq_lib::to_multiset_build(before, x);
                assert(out@.to_multiset() =~= a@.take(i + 1).to_multiset().add(
                    b@.take(j as int).to_multiset(),
                ));
            }
            i += 1;
        } else {
            let x: u64 = b[j];
            out.push(x);
            proof {
                assert(b@.take(j + 1) == b@.take(j as int).push(x));
                vstd::seq_lib::to_multiset_build(b@.take(j as int), x);
                vstd::seq_lib::to_multiset_build(before, x);
                assert(out@.to_multiset() =~= a@.take(i as int).to_multiset().add(
                    b@.take(j + 1).to_multiset(),
                ));
            }
            j += 1;
        }
    }
    assert(a@.take(a@.len() as int) =~= a@);
    assert(b@.take(b@.len() as int) =~= b@);
    out
}

/// Sorts `samples[lo..hi]`.
fn sort_range(samples: &[u64], lo: usize, hi: usize) -> (out: Vec<u64>)
    requires
        lo <= hi <= samples@.len(),
    ensures
        ascends(out@),
        out@.to_multiset() == samples@.subrange(lo as int, hi as int).to_multiset(),
    decreases hi - lo,
{
    broadcast use vstd::seq_lib::group_to_multiset_ensures;

    if hi - lo <= 1 {
        let mut out: Vec<u64> = Vec::new();
        if hi > lo {
            out.push(samples[lo]);
        }
        assert(out@ =~= samples@.subrange(lo as int, hi as int));
        return out;
    }
    let mid: usize = lo + (hi - lo) / 2;
    let left = sort_range(samples, lo, mid);
    let right = sort_range(samples, mid, hi);
    let out = merge(&left, &right);
    proof {
        let l = samples@.subrange(lo as int, mid as int);
        let r = samples@.subrange(mid as int, hi as int);
        assert(samples@.subrange(lo as int, hi as int) =~= l + r);
        vstd::seq_lib::lemma_multiset_commutative(l, r);
    }
    out
}

/// The samples in ascending order.
pub fn sort_samples(samples: &[u64]) -> (out: Vec<u64>)
    ensures
        out@ == ascending(samples@),
        out@.len() == samples@.len(),
{
    let out = sort_range(samples, 0, samples.len());
    proof {
        assert(samples@.subrange(0, samples@.len() as int) =~= samples@);
        lemma_ascending_unique(samples@, out@);
        lemma_ascending(samples@);
    }
    out
}

/// Index of the fifth percentile that the probe worker reports for `n`
/// samples: the whole part of `(n - 1) / 20`.
pub open spec fn burst_p05_index(n: nat) -> nat {
    ((n - 1) / 20) as nat
}

/// What a burst reports of its samples: the minimum, the fifth percentile and
/// the median; all absent when there is no sample.
pub open spec fn burst_summary(samples: Seq<u64>) -> (Option<u64>, Option<u64>, Option<u64>) {
    if samples.len() == 0 {
        (None, None, None)
    } else {
        let s = ascending(samples);
        (
            Some(s[0]),
            Some(s[burst_p05_index(samples.len()) as int]),
            Some(s[(samples.len() / 2) as int]),
        )
    }
}

/// Summarises one burst: minimum, fifth percentile, median.
pub fn summarize(samples: &[u64]) -> (r: (Option<u64>, Option<u64>, Option<u64>))
    ensures
        r == burst_summary(samples@),
        samples@.len() == 0 ==> r == (None::<u64>, None::<u64>, None::<u64>),
        samples@.len() == 1 ==> r == (Some(samples@[0]), Some(samples@[0]), Some(samples@[0])),
{
    if samples.len() == 0 {
        return (None, None, None);
    }
    let s = sort_samples(samples);
    let n: usize = s.len();
    proof {
        if n == 1 {
            lemma_ascending(samples@);
            samples@.to_multiset_ensures();
            s@.to_multiset_ensures();
            assert(s@.contains(s@[0]));
            assert(s@.to_multiset().count(s@[0]) > 0);
            assert(samples@.to_multiset().count(s@[0]) > 0);
            assert(samples@.contains(s@[0]));
        }
    }
    (Some(s[0]), Some(s[(n - 1) / 20]), Some(s[n / 2]))
}

/// Index of the quantile `percent / 100` among `n` sorted samples:
/// `(n - 1) * percent / 100`, rounded to the nearest whole number, halves
/// upwards.
pub open spec fn quantile_index(n: nat, percent: nat) -> nat {
    (((n - 1) * percent + 50) / 100) as nat
}

/// The quantile `percent / 100` of sorted samples; absent when there is none.
pub open spec fn quantile_of(sorted: Seq<u64>, percent: nat) -> Option<u64> {
    if sorted.len() == 0 {
        None
    } else {
        Some(sorted[quantile_index(sorted.len(), percent) as int])
    }
}

/// Picks the quantile `percent / 100` from sorted samples; there is none
/// beyond 100 percent.
pub fn quantile(sorted: &[u64], percent: u8) -> (q: Option<u64>)
    ensures
        percent <= 100 ==> q == quantile_of(sorted@, percent as nat),
        percent > 100 ==> q is None,
{
    if sorted.len() == 0 || percent > 100 {
        return None;
    }
    let n: u128 = (sorted.len() - 1) as u128;
    let p: u128 = percent as u128;
    assert(n * p <= 0xFFFF_FFFF_FFFF_FFFF * 100) by (nonlinear_arith)
        requires
            n <= 0xFFFF_FFFF_FFFF_FFFF,
            p <= 100,
    ;
    let idx: u128 = (n * p + 50) / 100;
    assert(idx <= n) by (nonlinear_arith)
        requires
            idx == (n * p + 50) / 100,
            p <= 100,
    ;
    Some(sorted[idx as usize])
}

} // verus!
