//! What an analysis reports of each target: its statistics with the
//! distance they allow, the check of a claimed place against them, and the
//! change against a baseline.
//!
//! Rows are listed by target id, ascending.

use vstd::prelude::*;
use crate::calibration::{
    adjust_rtt_ns, adjusted, correction, reference_rtt, reference_rtt_ns, Calibration,
};
use crate::config::{endpoint_ids, resolve_endpoint, Endpoint};
use crate::geo::{distance_bound, max_distance_m};
use crate::ids::{first_index, resolve_last};
use crate::order::{char_rows, sorted_order, sorts};
use crate::stats::{stat_ids, EndpointStats, StatsEntry};
use crate::text::{chars_of, same_chars};

verus! {

/// The report of one target. Times are in nanoseconds, distances in metres.
#[derive(Clone, Debug)]
pub struct EndpointReport {
    pub id: String,
    pub host: String,
    pub count: usize,
    pub p05_ns: Option<u64>,
    pub p50_ns: Option<u64>,
    pub p95_ns: Option<u64>,
    pub jitter_ns: Option<u64>,
    pub p05_adj_ns: Option<u64>,
    pub p50_adj_ns: Option<u64>,
    pub max_dist_m_tight: Option<u64>,
    pub max_dist_m_loose: Option<u64>,
}

/// A report as contracts speak of it.
pub struct EndpointReportView {
    pub id: Seq<char>,
    pub host: Seq<char>,
    pub count: usize,
    pub p05_ns: Option<u64>,
    pub p50_ns: Option<u64>,
    pub p95_ns: Option<u64>,
    pub jitter_ns: Option<u64>,
    pub p05_adj_ns: Option<u64>,
    pub p50_adj_ns: Option<u64>,
    pub max_dist_m_tight: Option<u64>,
    pub max_dist_m_loose: Option<u64>,
}

impl View for EndpointReport {
    type V = EndpointReportView;

    open spec fn view(&self) -> EndpointReportView {
        EndpointReportView {
            id: self.id@,
            host: self.host@,
            count: self.count,
            p05_ns: self.p05_ns,
            p50_ns: self.p50_ns,
            p95_ns: self.p95_ns,
            jitter_ns: self.jitter_ns,
            p05_adj_ns: self.p05_adj_ns,
            p50_adj_ns: self.p50_adj_ns,
            max_dist_m_tight: self.max_dist_m_tight,
            max_dist_m_loose: self.max_dist_m_loose,
        }
    }
}

/// The check of a claimed place against one target: how far the claimed
/// place is from the endpoint, how far it can be at most by the fifth
/// percentile (tight) and by the median (loose) of the corrected round-trip
/// time, and whether the claim is thereby refuted.
#[derive(Clone, Debug)]
pub struct ClaimCheck {
    pub id: String,
    pub dist_m: u32,
    pub max_tight_m: Option<u64>,
    pub max_loose_m: Option<u64>,
    pub falsify_tight: Option<bool>,
    pub falsify_loose: Option<bool>,
}

/// A check as contracts speak of it.
pub struct ClaimCheckView {
    pub id: Seq<char>,
    pub dist_m: u32,
    pub max_tight_m: Option<u64>,
    pub max_loose_m: Option<u64>,
    pub falsify_tight: Option<bool>,
    pub falsify_loose: Option<bool>,
}

impl View for ClaimCheck {
    type V = ClaimCheckView;

    open spec fn view(&self) -> ClaimCheckView {
        ClaimCheckView {
            id: self.id@,
            dist_m: self.dist_m,
            max_tight_m: self.max_tight_m,
            max_loose_m: self.max_loose_m,
            falsify_tight: self.falsify_tight,
            falsify_loose: self.falsify_loose,
        }
    }
}

/// The change of a target's fifth percentile from the baseline to the
/// session.
#[derive(Clone, Debug)]
pub struct Delta {
    pub id: String,
    pub delta_p05_ns: i128,
    pub baseline_p05_ns: u64,
    pub session_p05_ns: u64,
}

/// A change as contracts speak of it.
pub struct DeltaView {
    pub id: Seq<char>,
    pub delta_p05_ns: i128,
    pub baseline_p05_ns: u64,
    pub session_p05_ns: u64,
}

impl View for Delta {
    type V = DeltaView;

    open spec fn view(&self) -> DeltaView {
        DeltaView {
            id: self.id@,
            delta_p05_ns: self.delta_p05_ns,
            baseline_p05_ns: self.baseline_p05_ns,
            session_p05_ns: self.session_p05_ns,
        }
    }
}

/// A quantile after correction.
pub open spec fn corrected(
    q: Option<u64>,
    id: Seq<char>,
    calibration: Option<&Calibration>,
) -> Option<u64> {
    match q {
        Some(v) => Some(adjusted(v, correction(calibration, id))),
        None => None,
    }
}

/// The distance that a quantile allows after correction.
pub open spec fn allowed(
    q: Option<u64>,
    id: Seq<char>,
    calibration: Option<&Calibration>,
    speed_m_s: u64,
) -> Option<u64> {
    match corrected(q, id, calibration) {
        Some(v) => distance_bound(v, speed_m_s),
        None => None,
    }
}

fn correct_quantile(q: Option<u64>, id: &str, calibration: Option<&Calibration>) -> (r: Option<u64>)
    ensures
        r == corrected(q, id@, calibration),
{
    match q {
        Some(v) => Some(adjust_rtt_ns(v, id, calibration)),
        None => None,
    }
}

fn allow(q: Option<u64>, id: &str, calibration: Option<&Calibration>, speed_m_s: u64) -> (r: Option<
    u64,
>)
    ensures
        r == allowed(q, id@, calibration, speed_m_s),
{
    match correct_quantile(q, id, calibration) {
        Some(v) => max_distance_m(v, speed_m_s),
        None => None,
    }
}

/// The report of one target: its statistics, the host of the endpoint that
/// its id resolves to, `?` where it resolves to none, and the distances that
/// its corrected fifth percentile and median allow.
pub open spec fn report_of(
    endpoints: Seq<Endpoint>,
    speed_m_s: u64,
    calibration: Option<&Calibration>,
    entry: StatsEntry,
) -> EndpointReportView {
    EndpointReportView {
        id: entry.id@,
        host: match resolve_last(endpoint_ids(endpoints), entry.id@) {
            Some(k) => endpoints[k].host@,
            None => "?"@,
        },
        count: entry.stats.count,
        p05_ns: entry.stats.p05,
        p50_ns: entry.stats.p50,
        p95_ns: entry.stats.p95,
        jitter_ns: entry.stats.jitter_ns,
        p05_adj_ns: corrected(entry.stats.p05, entry.id@, calibration),
        p50_adj_ns: corrected(entry.stats.p50, entry.id@, calibration),
        max_dist_m_tight: allowed(entry.stats.p05, entry.id@, calibration, speed_m_s),
        max_dist_m_loose: allowed(entry.stats.p50, entry.id@, calibration, speed_m_s),
    }
}

/// The reports of the targets that `order` lists, in that order.
pub open spec fn reports_over(
    endpoints: Seq<Endpoint>,
    speed_m_s: u64,
    calibration: Option<&Calibration>,
    stats: Seq<StatsEntry>,
    order: Seq<usize>,
) -> Seq<EndpointReportView> {
    Seq::new(
        order.len(),
        |i: int| report_of(endpoints, speed_m_s, calibration, stats[order[i] as int]),
    )
}

/// The views of reports.
pub open spec fn report_views(rows: Seq<EndpointReport>) -> Seq<EndpointReportView> {
    Seq::new(rows.len(), |i: int| rows[i]@)
}

fn stat_keys(stats: &[StatsEntry]) -> (keys: Vec<Vec<char>>)
    ensures
        char_rows(keys@) == stat_ids(stats@),
{
    let mut keys: Vec<Vec<char>> = Vec::new();
    let mut i: usize = 0;
    while i < stats.len()
        invariant
            i <= stats@.len(),
            keys@.len() == i,
            forall|j: int| 0 <= j < i ==> (#[trigger] keys@[j])@ == stats@[j].id@,
        decreases stats@.len() - i,
    {
        keys.push(chars_of(stats[i].id.as_str()));
        i += 1;
    }
    assert(char_rows(keys@) =~= stat_ids(stats@));
    keys
}

/// Reports each target of a session, by id.
pub fn endpoint_reports(
    stats: &[StatsEntry],
    endpoints: &[Endpoint],
    speed_m_s: u64,
    calibration: Option<&Calibration>,
) -> (rows: Vec<EndpointReport>)
    ensures
        rows@.len() == stats@.len(),
        exists|order: Seq<usize>|
            sorts(stat_ids(stats@), order) && report_views(rows@) == #[trigger] reports_over(
                endpoints@,
                speed_m_s,
                calibration,
                stats@,
                order,
            ),
{
    let keys = stat_keys(stats);
    let order = sorted_order(&keys);
    let mut rows: Vec<EndpointReport> = Vec::new();
    let mut i: usize = 0;
    while i < order.len()
        invariant
            i <= order@.len() == stats@.len(),
            sorts(stat_ids(stats@), order@),
            rows@.len() == i,
            forall|j: int|
                0 <= j < i ==> (#[trigger] rows@[j])@ == report_of(
                    endpoints@,
                    speed_m_s,
                    calibration,
                    stats@[order@[j] as int],
                ),
        decreases order@.len() - i,
    {
        let entry = &stats[order[i]];
        let id: &str = entry.id.as_str();
        let host: String = match resolve_endpoint(endpoints, id) {
            Some(k) => endpoints[k].host.clone(),
            None => "?".to_owned(),
        };
        rows.push(
            EndpointReport {
                id: entry.id.clone(),
                host,
                count: entry.stats.count,
                p05_ns: entry.stats.p05,
                p50_ns: entry.stats.p50,
                p95_ns: entry.stats.p95,
                jitter_ns: entry.stats.jitter_ns,
                p05_adj_ns: correct_quantile(entry.stats.p05, id, calibration),
                p50_adj_ns: correct_quantile(entry.stats.p50, id, calibration),
                max_dist_m_tight: allow(entry.stats.p05, id, calibration, speed_m_s),
                max_dist_m_loose: allow(entry.stats.p50, id, calibration, speed_m_s),
            },
        );
        i += 1;
    }
    assert(report_views(rows@) =~= reports_over(
        endpoints@,
        speed_m_s,
        calibration,
        stats@,
        order@,
    ));
    rows
}

/// Whether a distance exceeds what is allowed; unknown where nothing is
/// known of what is allowed.
pub open spec fn refuted(dist_m: u32, max_m: Option<u64>) -> Option<bool> {
    match max_m {
        Some(m) => Some(dist_m > m),
        None => None,
    }
}

/// The check of a claimed place against one target. `claim_dist_m[k]` is
/// the distance from the claimed place to endpoint `k`. There is no row
/// where the target's id resolves to no endpoint, the endpoint has no
/// coordinates or no distance, or the target has no reference round-trip
/// time.
pub open spec fn claim_of(
    endpoints: Seq<Endpoint>,
    claim_dist_m: Seq<u32>,
    speed_m_s: u64,
    calibration: Option<&Calibration>,
    entry: StatsEntry,
) -> Option<ClaimCheckView> {
    match resolve_last(endpoint_ids(endpoints), entry.id@) {
        None => None,
        Some(k) => if endpoints[k].lat is None || endpoints[k].lon is None || k
            >= claim_dist_m.len() || reference_rtt(entry.stats) is None {
            None
        } else {
            let tight = allowed(entry.stats.p05, entry.id@, calibration, speed_m_s);
            let loose = allowed(entry.stats.p50, entry.id@, calibration, speed_m_s);
            Some(
                ClaimCheckView {
                    id: entry.id@,
                    dist_m: claim_dist_m[k],
                    max_tight_m: tight,
                    max_loose_m: loose,
                    falsify_tight: refuted(claim_dist_m[k], tight),
                    falsify_loose: refuted(claim_dist_m[k], loose),
                },
            )
        },
    }
}

/// The checks of the first `n` targets that `order` lists.
pub open spec fn claims_over(
    endpoints: Seq<Endpoint>,
    claim_dist_m: Seq<u32>,
    speed_m_s: u64,
    calibration: Option<&Calibration>,
    stats: Seq<StatsEntry>,
    order: Seq<usize>,
    n: nat,
) -> Seq<ClaimCheckView>
    decreases n,
{
    if n == 0 {
        Seq::empty()
    } else {
        let prev = claims_over(
            endpoints,
            claim_dist_m,
            speed_m_s,
            calibration,
            stats,
            order,
            (n - 1) as nat,
        );
        match claim_of(
            endpoints,
            claim_dist_m,
            speed_m_s,
            calibration,
            stats[order[n - 1] as int],
        ) {
            Some(row) => prev.push(row),
            None => prev,
        }
    }
}

/// The views of checks.
pub open spec fn claim_views(rows: Seq<ClaimCheck>) -> Seq<ClaimCheckView> {
    Seq::new(rows.len(), |i: int| rows[i]@)
}

fn check_claim(
    entry: &StatsEntry,
    endpoints: &[Endpoint],
    claim_dist_m: &[u32],
    speed_m_s: u64,
    calibration: Option<&Calibration>,
) -> (r: Option<ClaimCheck>)
    ensures
        match r {
            Some(row) => claim_of(endpoints@, claim_dist_m@, speed_m_s, calibration, *entry)
                == Some(row@),
            None => claim_of(endpoints@, claim_dist_m@, speed_m_s, calibration, *entry) is None,
        },
{
    let id: &str = entry.id.as_str();
    let k: usize = match resolve_endpoint(endpoints, id) {
        Some(k) => k,
        None => {
            return None;
        },
    };
    if endpoints[k].lat.is_none() || endpoints[k].lon.is_none() || k >= claim_dist_m.len() {
        return None;
    }
    if reference_rtt_ns(&entry.stats).is_none() {
        return None;
    }
    let dist_m: u32 = claim_dist_m[k];
    let tight = allow(entry.stats.p05, id, calibration, speed_m_s);
    let loose = allow(entry.stats.p50, id, calibration, speed_m_s);
    let falsify_tight: Option<bool> = match tight {
        Some(m) => Some(dist_m as u64 > m),
        None => None,
    };
    let falsify_loose: Option<bool> = match loose {
        Some(m) => Some(dist_m as u64 > m),
        None => None,
    };
    Some(
        ClaimCheck {
            id: entry.id.clone(),
            dist_m,
            max_tight_m: tight,
            max_loose_m: loose,
            falsify_tight,
            falsify_loose,
        },
    )
}

/// Checks a claimed place against each target of a session, by id.
/// `claim_dist_m[k]` is the great-circle distance from the claimed place to
/// endpoint `k`. The claim is refuted tightly where that distance exceeds
/// what the corrected fifth percentile allows, and loosely where it exceeds
/// what the corrected median allows. A target without a reference round-trip
/// time or whose endpoint has no coordinates has no row.
pub fn claim_checks(
    stats: &[StatsEntry],
    endpoints: &[Endpoint],
    claim_dist_m: &[u32],
    speed_m_s: u64,
    calibration: Option<&Calibration>,
) -> (rows: Vec<ClaimCheck>)
    ensures
        exists|order: Seq<usize>|
            sorts(stat_ids(stats@), order) && claim_views(rows@) == #[trigger] claims_over(
                endpoints@,
                claim_dist_m@,
                speed_m_s,
                calibration,
                stats@,
                order,
                order.len(),
            ),
{
    let keys = stat_keys(stats);
    let order = sorted_order(&keys);
    let mut rows: Vec<ClaimCheck> = Vec::new();
    let mut i: usize = 0;
    assert(claim_views(rows@) =~= Seq::<ClaimCheckView>::empty());
    while i < order.len()
        invariant
            i <= order@.len() == stats@.len(),
            sorts(stat_ids(stats@), order@),
            claim_views(rows@) == claims_over(
                endpoints@,
                claim_dist_m@,
                speed_m_s,
                calibration,
                stats@,
                order@,
                i as nat,
            ),
        decreases order@.len() - i,
    {
        let ghost before = rows@;
        match check_claim(&stats[order[i]], endpoints, claim_dist_m, speed_m_s, calibration) {
            Some(row) => {
                let ghost view = row@;
                rows.push(row);
                assert(claim_views(rows@) =~= claim_views(before).push(view));
            },
            None => {},
        }
        i += 1;
    }
    rows
}

/// The statistics of the target `id` in a session, if it has any.
pub open spec fn stats_for(stats: Seq<StatsEntry>, id: Seq<char>) -> Option<EndpointStats> {
    match first_index(stat_ids(stats), id) {
        Some(k) => Some(stats[k].stats),
        None => None,
    }
}

/// The change of one target of the baseline; none where the session does
/// not know the target or either lacks the fifth percentile.
pub open spec fn delta_of(entry: StatsEntry, session: Seq<StatsEntry>) -> Option<DeltaView> {
    match stats_for(session, entry.id@) {
        None => None,
        Some(s) => match (entry.stats.p05, s.p05) {
            (Some(b), Some(v)) => Some(
                DeltaView {
                    id: entry.id@,
                    delta_p05_ns: (v - b) as i128,
                    baseline_p05_ns: b,
                    session_p05_ns: v,
                },
            ),
            _ => None,
        },
    }
}

/// The changes of the first `n` targets that `order` lists.
pub open spec fn deltas_over(
    base: Seq<StatsEntry>,
    session: Seq<StatsEntry>,
    order: Seq<usize>,
    n: nat,
) -> Seq<DeltaView>
    decreases n,
{
    if n == 0 {
        Seq::empty()
    } else {
        let prev = deltas_over(base, session, order, (n - 1) as nat);
        match delta_of(base[order[n - 1] as int], session) {
            Some(row) => prev.push(row),
            None => prev,
        }
    }
}

/// The views of changes.
pub open spec fn delta_views(rows: Seq<Delta>) -> Seq<DeltaView> {
    Seq::new(rows.len(), |i: int| rows[i]@)
}

fn find_stats(stats: &[StatsEntry], id: &[char]) -> (r: Option<EndpointStats>)
    ensures
        r == stats_for(stats@, id@),
{
    let ghost keys = stat_ids(stats@);
    let mut i: usize = 0;
    while i < stats.len()
        invariant
            i <= stats@.len(),
            keys == stat_ids(stats@),
            forall|j: int| 0 <= j < i ==> keys[j] != id@,
        decreases stats@.len() - i,
    {
        let chars = chars_of(stats[i].id.as_str());
        if same_chars(chars.as_slice(), id) {
            proof {
                assert(keys[i as int] == id@);
                crate::ids::lemma_first_index(keys, id@);
            }
            return Some(stats[i].stats);
        }
        i += 1;
    }
    proof {
        crate::ids::lemma_first_index(keys, id@);
    }
    None
}

/// The change of the fifth percentile of each target from a baseline to a
/// session, by id.
pub fn deltas(base: &[StatsEntry], session: &[StatsEntry]) -> (rows: Vec<Delta>)
    ensures
        exists|order: Seq<usize>|
            sorts(stat_ids(base@), order) && delta_views(rows@) == #[trigger] deltas_over(
                base@,
                session@,
                order,
                order.len(),
            ),
{
    let keys = stat_keys(base);
    let order = sorted_order(&keys);
    let mut rows: Vec<Delta> = Vec::new();
    let mut i: usize = 0;
    assert(delta_views(rows@) =~= Seq::<DeltaView>::empty());
    while i < order.len()
        invariant
            i <= order@.len() == base@.len() == keys@.len(),
            char_rows(keys@) == stat_ids(base@),
            sorts(stat_ids(base@), order@),
            delta_views(rows@) == deltas_over(base@, session@, order@, i as nat),
        decreases order@.len() - i,
    {
        let ghost before = rows@;
        let entry = &base[order[i]];
        assert(char_rows(keys@)[order@[i as int] as int] == keys@[order@[i as int] as int]@);
        match find_stats(session, keys[order[i]].as_slice()) {
            Some(s) => {
                match (entry.stats.p05, s.p05) {
                    (Some(b), Some(v)) => {
                        let row = Delta {
                            id: entry.id.clone(),
                            delta_p05_ns: (v as i128) - (b as i128),
                            baseline_p05_ns: b,
                            session_p05_ns: v,
                        };
                        let ghost view = row@;
                        rows.push(row);
                        assert(delta_views(rows@) =~= delta_views(before).push(view));
                    },
                    _ => {},
                }
            },
            None => {},
        }
        i += 1;
    }
    rows
}

} // verus!
