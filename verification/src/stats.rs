//! Per-target statistics of a session's records.

use vstd::prelude::*;
use crate::ids::{distinct, first_seen, lemma_first_seen, position};
use crate::record::BurstRecord;
use crate::summary::{ascending, lemma_ascending, quantile, quantile_of, sort_samples};
use crate::text::{chars_of, str_eq, texts};

verus! {

/// The statistics of one target: the number of samples, and their minimum,
/// quantiles and jitter in nanoseconds, absent where there is no sample.
#[derive(Clone, Copy, Debug, PartialEq, Eq)]
pub struct EndpointStats {
    pub count: usize,
    pub min: Option<u64>,
    pub p05: Option<u64>,
    pub p50: Option<u64>,
    pub p95: Option<u64>,
    pub jitter_ns: Option<u64>,
}

/// The statistics of one target, under the target's id.
#[derive(Clone, Debug)]
pub struct StatsEntry {
    pub id: String,
    pub stats: EndpointStats,
}

/// The jitter: the 95th percentile less the fifth, where both are there and
/// in this order.
pub open spec fn jitter_of(p05: Option<u64>, p95: Option<u64>) -> Option<u64> {
    match (p05, p95) {
        (Some(a), Some(b)) => if b >= a {
            Some((b - a) as u64)
        } else {
            None
        },
        _ => None,
    }
}

/// The statistics of a run of samples.
pub open spec fn stats_of(samples: Seq<u64>) -> EndpointStats {
    let s = ascending(samples);
    EndpointStats {
        count: samples.len() as usize,
        min: if s.len() == 0 {
            None
        } else {
            Some(s[0])
        },
        p05: quantile_of(s, 5),
        p50: quantile_of(s, 50),
        p95: quantile_of(s, 95),
        jitter_ns: jitter_of(quantile_of(s, 5), quantile_of(s, 95)),
    }
}

/// Computes the statistics of a run of samples.
pub fn endpoint_stats(samples: &[u64]) -> (st: EndpointStats)
    ensures
        st == stats_of(samples@),
        samples@.len() == 0 ==> st.min is None && st.p05 is None && st.p50 is None && st.p95 is None
            && st.jitter_ns is None,
        samples@.len() > 0 ==> st.min is Some && st.p05 is Some && st.p50 is Some && st.p95 is Some
            && st.jitter_ns is Some && st.min->0 <= st.p05->0 <= st.p50->0 <= st.p95->0,
{
    let s = sort_samples(samples);
    let p05 = quantile(s.as_slice(), 5);
    let p50 = quantile(s.as_slice(), 50);
    let p95 = quantile(s.as_slice(), 95);
    proof {
        lemma_ascending(samples@);
    }
    let jitter_ns: Option<u64> = match (p05, p95) {
        (Some(a), Some(b)) => if b >= a {
            Some(b - a)
        } else {
            None
        },
        _ => None,
    };
    let min: Option<u64> = if s.len() == 0 {
        None
    } else {
        Some(s[0])
    };
    EndpointStats { count: samples.len(), min, p05, p50, p95, jitter_ns }
}

/// The target ids of records, one for each record.
pub open spec fn record_ids(records: Seq<BurstRecord>) -> Seq<Seq<char>> {
    Seq::new(records.len(), |i: int| records[i].endpoint_id@)
}

/// The samples of the target `id`, in the order of the records.
pub open spec fn samples_of(records: Seq<BurstRecord>, id: Seq<char>) -> Seq<u64>
    decreases records.len(),
{
    if records.len() == 0 {
        Seq::empty()
    } else if records.last().endpoint_id@ == id {
        samples_of(records.drop_last(), id) + records.last().samples_ns@
    } else {
        samples_of(records.drop_last(), id)
    }
}

/// The ids of statistics, one for each entry.
pub open spec fn stat_ids(stats: Seq<StatsEntry>) -> Seq<Seq<char>> {
    Seq::new(stats.len(), |i: int| stats[i].id@)
}

/// The ids of the targets that records speak of, in the order in which they
/// first appear.
pub fn target_ids(records: &[BurstRecord]) -> (ids: Vec<String>)
    ensures
        texts(ids@) == first_seen(record_ids(records@)),
{
    let mut ids: Vec<String> = Vec::new();
    let mut i: usize = 0;
    assert(record_ids(records@.take(0)) =~= Seq::<Seq<char>>::empty());
    assert(texts(ids@) =~= Seq::<Seq<char>>::empty());
    while i < records.len()
        invariant
            i <= records@.len(),
            texts(ids@) == first_seen(record_ids(records@.take(i as int))),
        decreases records@.len() - i,
    {
        let ghost seen = record_ids(records@.take(i as int));
        let ghost next = record_ids(records@.take(i + 1));
        let ghost before = ids@;
        proof {
            assert(next.drop_last() =~= seen);
            assert(next.last() == records@[i as int].endpoint_id@);
        }
        let chars = chars_of(records[i].endpoint_id.as_str());
        match position(&ids, chars.as_slice()) {
            Some(k) => {
                proof {
                    assert(texts(ids@)[k as int] == chars@);
                    assert(first_seen(seen).contains(chars@));
                }
            },
            None => {
                ids.push(records[i].endpoint_id.clone());
                proof {
                    if first_seen(seen).contains(chars@) {
                        let k = choose|k: int|
                            0 <= k < first_seen(seen).len() && first_seen(seen)[k] == chars@;
                        assert(texts(before)[k] == before[k]@);
                    }
                    assert(texts(ids@) =~= texts(before).push(chars@));
                }
            },
        }
        i += 1;
    }
    assert(records@.take(records@.len() as int) =~= records@);
    ids
}

/// Gathers the samples of one target.
pub fn collect_samples(records: &[BurstRecord], id: &str) -> (out: Vec<u64>)
    ensures
        out@ == samples_of(records@, id@),
{
    let mut out: Vec<u64> = Vec::new();
    let mut i: usize = 0;
    while i < records.len()
        invariant
            i <= records@.len(),
            out@ == samples_of(records@.take(i as int), id@),
        decreases records@.len() - i,
    {
        proof {
            assert(records@.take(i + 1).drop_last() =~= records@.take(i as int));
            assert(records@.take(i + 1).last() == records@[i as int]);
        }
        let rec = &records[i];
        if str_eq(rec.endpoint_id.as_str(), id) {
            let ghost before = out@;
            let mut k: usize = 0;
            while k < rec.samples_ns.len()
                invariant
                    k <= rec.samples_ns@.len(),
                    out@ == before + rec.samples_ns@.take(k as int),
                decreases rec.samples_ns@.len() - k,
            {
                out.push(rec.samples_ns[k]);
                k += 1;
                assert(rec.samples_ns@.take(k as int) == rec.samples_ns@.take(k - 1).push(
                    rec.samples_ns@[k - 1],
                ));
            }
            assert(rec.samples_ns@.take(rec.samples_ns@.len() as int) =~= rec.samples_ns@);
        }
        i += 1;
    }
    assert(records@.take(records@.len() as int) =~= records@);
    out
}

/// What `build_stats` says of records: one entry for each target that they
/// speak of, in the order in which the targets first appear, with the
/// statistics of all the target's samples.
pub open spec fn summarises(records: Seq<BurstRecord>, stats: Seq<StatsEntry>) -> bool {
    let ids = first_seen(record_ids(records));
    &&& stats.len() == ids.len()
    &&& forall|k: int|
        0 <= k < ids.len() ==> {
            let entry = #[trigger] stats[k];
            &&& entry.id@ == ids[k]
            &&& entry.stats == stats_of(samples_of(records, ids[k]))
        }
}

/// Groups the samples of a session by target and summarises each group.
pub fn build_stats(records: &[BurstRecord]) -> (stats: Vec<StatsEntry>)
    ensures
        summarises(records@, stats@),
        distinct(stat_ids(stats@)),
{
    let ids = target_ids(records);
    let ghost names = first_seen(record_ids(records@));
    let mut stats: Vec<StatsEntry> = Vec::new();
    let mut k: usize = 0;
    while k < ids.len()
        invariant
            k <= ids@.len(),
            texts(ids@) == names,
            stats@.len() == k,
            forall|j: int|
                0 <= j < k ==> {
                    let entry = #[trigger] stats@[j];
                    &&& entry.id@ == names[j]
                    &&& entry.stats == stats_of(samples_of(records@, names[j]))
                },
        decreases ids@.len() - k,
    {
        let samples = collect_samples(records, ids[k].as_str());
        let st = endpoint_stats(samples.as_slice());
        assert(texts(ids@)[k as int] == ids@[k as int]@);
        stats.push(StatsEntry { id: ids[k].clone(), stats: st });
        k += 1;
    }
    assert(texts(ids@).len() == ids@.len());
    proof {
        lemma_first_seen(record_ids(records@));
        assert(stat_ids(stats@) =~= names);
    }
    stats
}

} // verus!
