//! Calibration: what each target's round-trip time exceeds the physical
//! minimum by at a known place, and how measured times are corrected for it.

use vstd::prelude::*;
use crate::clock::now_unix_ms;
use crate::config::{as_index, endpoint_ids, find_endpoint, Config, Endpoint};
use crate::geo::{effective_speed, effective_speed_m_s, round_trip, round_trip_ns, PPM};
use crate::ids::{
    base_id, distinct, first_index, lemma_composite_resolves_to_base, resolve_first,
};
use crate::stats::{stat_ids, EndpointStats, StatsEntry};
use crate::text::{chars_of, decimal_string, find_char, same_chars, signed_decimal};

verus! {

/// The correction of one target: a delay to take off, in nanoseconds, and a
/// factor to divide by, in parts per million.
#[derive(Clone, Copy, Debug, PartialEq, Eq)]
pub struct EndpointCalibration {
    pub bias_ns: i64,
    pub scale_ppm: i64,
}

/// The correction of one target, under the target's id.
#[derive(Clone, Debug)]
pub struct CalibrationEntry {
    pub id: String,
    pub cal: EndpointCalibration,
}

/// A calibration: when and where it was gathered, the signal speed and path
/// stretch it was computed with, and the corrections.
#[derive(Clone, Debug)]
pub struct Calibration {
    pub generated_at: String,
    pub calibration_lat: i64,
    pub calibration_lon: i64,
    pub speed_m_s: u64,
    pub path_stretch_ppm: u64,
    pub endpoints: Vec<CalibrationEntry>,
}

/// The ids of calibration entries, one for each entry.
pub open spec fn entry_ids(entries: Seq<CalibrationEntry>) -> Seq<Seq<char>> {
    Seq::new(entries.len(), |i: int| entries[i].id@)
}

/// The correction that applies to a target: that of its very id, else that
/// of its base id.
pub open spec fn correction_for(entries: Seq<CalibrationEntry>, id: Seq<char>) -> Option<
    EndpointCalibration,
> {
    match resolve_first(entry_ids(entries), id) {
        Some(k) => Some(entries[k].cal),
        None => None,
    }
}

/// The correction that applies to a target under an optional calibration.
pub open spec fn correction(calibration: Option<&Calibration>, id: Seq<char>) -> Option<
    EndpointCalibration,
> {
    match calibration {
        Some(cal) => correction_for(cal.endpoints@, id),
        None => None,
    }
}

fn find_entry(entries: &Vec<CalibrationEntry>, id: &[char]) -> (r: Option<usize>)
    ensures
        as_index(r) == first_index(entry_ids(entries@), id@),
        r is Some ==> r->0 < entries@.len(),
{
    let mut i: usize = 0;
    let ghost keys = entry_ids(entries@);
    while i < entries.len()
        invariant
            i <= entries@.len(),
            keys == entry_ids(entries@),
            forall|j: int| 0 <= j < i ==> keys[j] != id@,
        decreases entries@.len() - i,
    {
        let chars = chars_of(entries[i].id.as_str());
        if same_chars(chars.as_slice(), id) {
            proof {
                assert(keys[i as int] == id@);
                crate::ids::lemma_first_index(keys, id@);
            }
            return Some(i);
        }
        i += 1;
    }
    proof {
        crate::ids::lemma_first_index(keys, id@);
    }
    None
}

/// Looks up the correction of a target: under its very id, else under its
/// base id.
pub fn calibration_entry(calibration: Option<&Calibration>, endpoint_id: &str) -> (r: Option<
    EndpointCalibration,
>)
    ensures
        r == correction(calibration, endpoint_id@),
{
    let cal = match calibration {
        Some(c) => c,
        None => {
            return None;
        },
    };
    let chars = chars_of(endpoint_id);
    match find_entry(&cal.endpoints, chars.as_slice()) {
        Some(k) => Some(cal.endpoints[k].cal),
        None => {
            let cut: usize = find_char(chars.as_slice(), '@');
            let mut base: Vec<char> = Vec::new();
            let mut i: usize = 0;
            while i < cut
                invariant
                    i <= cut <= chars@.len(),
                    base@ == chars@.take(i as int),
                decreases cut - i,
            {
                base.push(chars[i]);
                i += 1;
                assert(chars@.take(i as int) == chars@.take(i - 1).push(chars@[i - 1]));
            }
            match find_entry(&cal.endpoints, base.as_slice()) {
                Some(k) => Some(cal.endpoints[k].cal),
                None => None,
            }
        },
    }
}

/// For every composite id `X@Y` without an entry of its own, the lookup
/// gives the entry of `X`.
pub proof fn lemma_lookup_falls_back_to_base(
    entries: Seq<CalibrationEntry>,
    endpoint: Seq<char>,
    path: Seq<char>,
)
    requires
        !endpoint.contains('@'),
        !entry_ids(entries).contains(endpoint + seq!['@'] + path),
    ensures
        correction_for(entries, endpoint + seq!['@'] + path) == correction_for(entries, endpoint),
{
    lemma_composite_resolves_to_base(entry_ids(entries), endpoint, path);
    crate::ids::lemma_base_of_composite(endpoint, path);
}

/// The factor that a correction divides by: its scale, or 1 where the scale
/// is not positive.
pub open spec fn effective_scale(scale_ppm: i64) -> int {
    if scale_ppm <= 0 {
        PPM as int
    } else {
        scale_ppm as int
    }
}

/// A round-trip time corrected by `entry`: the time less the bias, divided
/// by the scale, and no less than 0; the time itself where there is no
/// correction. Parts of a nanosecond are dropped, and a time that cannot be
/// written is the largest that can.
pub open spec fn adjusted(rtt_ns: u64, entry: Option<EndpointCalibration>) -> u64 {
    match entry {
        None => rtt_ns,
        Some(c) => {
            let v = (rtt_ns - c.bias_ns) * PPM / effective_scale(c.scale_ppm);
            if v <= 0 {
                0
            } else if v > u64::MAX {
                u64::MAX
            } else {
                v as u64
            }
        },
    }
}

/// Corrects a round-trip time by one correction.
pub fn adjust_by(rtt_ns: u64, entry: Option<EndpointCalibration>) -> (adj: u64)
    ensures
        adj == adjusted(rtt_ns, entry),
{
    let c = match entry {
        Some(c) => c,
        None => {
            return rtt_ns;
        },
    };
    let scale: u128 = if c.scale_ppm <= 0 {
        1_000_000
    } else {
        c.scale_ppm as u128
    };
    let diff: i128 = (rtt_ns as i128) - (c.bias_ns as i128);
    if diff <= 0 {
        assert((rtt_ns - c.bias_ns) * PPM / effective_scale(c.scale_ppm) <= 0) by (nonlinear_arith)
            requires
                rtt_ns - c.bias_ns <= 0,
                effective_scale(c.scale_ppm) > 0,
                PPM == 1_000_000,
        ;
        return 0;
    }
    let num: u128 = (diff as u128) * 1_000_000;
    let v: u128 = num / scale;
    if v > u64::MAX as u128 {
        u64::MAX
    } else {
        v as u64
    }
}

/// Corrects the round-trip time of a target by the calibration, if there is
/// one and it speaks of the target.
pub fn adjust_rtt_ns(rtt_ns: u64, endpoint_id: &str, calibration: Option<&Calibration>) -> (adj:
    u64)
    ensures
        adj == adjusted(rtt_ns, correction(calibration, endpoint_id@)),
        calibration is None ==> adj == rtt_ns,
{
    adjust_by(rtt_ns, calibration_entry(calibration, endpoint_id))
}

/// A time that does not exceed the bias is corrected to 0; so is the bias
/// itself.
pub proof fn lemma_adjusted_floor(rtt_ns: u64, c: EndpointCalibration)
    requires
        rtt_ns <= c.bias_ns,
    ensures
        adjusted(rtt_ns, Some(c)) == 0,
{
    assert((rtt_ns - c.bias_ns) * PPM / effective_scale(c.scale_ppm) <= 0) by (nonlinear_arith)
        requires
            rtt_ns - c.bias_ns <= 0,
            effective_scale(c.scale_ppm) > 0,
            PPM == 1_000_000,
    ;
}

/// Correction undoes the distortion it stands for: a time that is the bias
/// and the scale times `r` is corrected to `r`.
pub proof fn lemma_adjusted_inverts(r: u64, rtt_ns: u64, c: EndpointCalibration)
    requires
        (rtt_ns - c.bias_ns) * PPM == effective_scale(c.scale_ppm) * r,
    ensures
        adjusted(rtt_ns, Some(c)) == r,
{
    let s = effective_scale(c.scale_ppm);
    assert((s * r) / s == r) by (nonlinear_arith)
        requires
            s > 0,
    ;
}

/// A corrected time grows with the measured time.
pub proof fn lemma_adjusted_monotone(a_ns: u64, b_ns: u64, entry: Option<EndpointCalibration>)
    requires
        a_ns <= b_ns,
    ensures
        adjusted(a_ns, entry) <= adjusted(b_ns, entry),
{
    match entry {
        Some(c) => {
            let s = effective_scale(c.scale_ppm);
            let x = (a_ns - c.bias_ns) * PPM;
            let y = (b_ns - c.bias_ns) * PPM;
            assert(x <= y) by (nonlinear_arith)
                requires
                    x == (a_ns - c.bias_ns) * PPM,
                    y == (b_ns - c.bias_ns) * PPM,
                    a_ns <= b_ns,
                    PPM == 1_000_000,
            ;
            assert(x / s <= y / s) by (nonlinear_arith)
                requires
                    x <= y,
                    s > 0,
            ;
        },
        None => {},
    }
}

/// The round-trip time that the physics is held against: the fifth
/// percentile, else the minimum, where it is more than 0.
pub open spec fn reference_rtt(st: EndpointStats) -> Option<u64> {
    let v = if st.p05 is Some {
        st.p05
    } else {
        st.min
    };
    match v {
        Some(x) => if x > 0 {
            Some(x)
        } else {
            None
        },
        None => None,
    }
}

/// Picks the round-trip time that the physics is held against.
pub fn reference_rtt_ns(st: &EndpointStats) -> (r: Option<u64>)
    ensures
        r == reference_rtt(*st),
{
    let v: Option<u64> = match st.p05 {
        Some(x) => Some(x),
        None => st.min,
    };
    match v {
        Some(x) => if x > 0 {
            Some(x)
        } else {
            None
        },
        None => None,
    }
}

/// What a measured time exceeds the expected time by: nothing where it does
/// not, or where no time is expected at speed 0.
pub open spec fn bias_over(rtt_ns: u64, expected: Option<u64>) -> i64 {
    match expected {
        None => 0,
        Some(e) => if rtt_ns <= e {
            0
        } else if rtt_ns - e > i64::MAX {
            i64::MAX
        } else {
            (rtt_ns - e) as i64
        },
    }
}

/// The correction that a target's statistics give at the calibration place.
/// `dist_m[k]` is the distance from that place to endpoint `k`. A target is
/// passed over where its base id names no endpoint, where the endpoint has
/// no coordinates or no distance, or where there is no reference time.
pub open spec fn correction_of(
    endpoints: Seq<Endpoint>,
    dist_m: Seq<u32>,
    speed_m_s: u64,
    entry: StatsEntry,
) -> Option<EndpointCalibration> {
    match first_index(endpoint_ids(endpoints), base_id(entry.id@)) {
        None => None,
        Some(k) => if endpoints[k].lat is None || endpoints[k].lon is None || k >= dist_m.len() {
            None
        } else {
            match reference_rtt(entry.stats) {
                None => None,
                Some(rtt) => Some(
                    EndpointCalibration {
                        bias_ns: bias_over(rtt, round_trip(dist_m[k], speed_m_s)),
                        scale_ppm: PPM as i64,
                    },
                ),
            }
        },
    }
}

/// The corrections that statistics give, one for each target that is not
/// passed over, in the order of the statistics.
pub open spec fn corrections(
    endpoints: Seq<Endpoint>,
    dist_m: Seq<u32>,
    speed_m_s: u64,
    stats: Seq<StatsEntry>,
) -> Seq<(Seq<char>, EndpointCalibration)>
    decreases stats.len(),
{
    if stats.len() == 0 {
        Seq::empty()
    } else {
        let prev = corrections(endpoints, dist_m, speed_m_s, stats.drop_last());
        match correction_of(endpoints, dist_m, speed_m_s, stats.last()) {
            Some(c) => prev.push((stats.last().id@, c)),
            None => prev,
        }
    }
}

/// The ids of corrections, one for each.
pub open spec fn pair_ids(pairs: Seq<(Seq<char>, EndpointCalibration)>) -> Seq<Seq<char>> {
    Seq::new(pairs.len(), |i: int| pairs[i].0)
}

/// Every correction is that of one of the targets, and where no target
/// occurs twice, no correction does.
pub proof fn lemma_corrections_ids(
    endpoints: Seq<Endpoint>,
    dist_m: Seq<u32>,
    speed_m_s: u64,
    stats: Seq<StatsEntry>,
)
    ensures
        forall|k: int|
            0 <= k < corrections(endpoints, dist_m, speed_m_s, stats).len() ==> stat_ids(
                stats,
            ).contains(#[trigger] pair_ids(corrections(endpoints, dist_m, speed_m_s, stats))[k]),
        distinct(stat_ids(stats)) ==> distinct(
            pair_ids(corrections(endpoints, dist_m, speed_m_s, stats)),
        ),
    decreases stats.len(),
{
    if stats.len() > 0 {
        let front = stats.drop_last();
        lemma_corrections_ids(endpoints, dist_m, speed_m_s, front);
        let prev = corrections(endpoints, dist_m, speed_m_s, front);
        let all = corrections(endpoints, dist_m, speed_m_s, stats);
        let last = stats.last().id@;
        assert forall|k: int| 0 <= k < all.len() implies stat_ids(stats).contains(
            #[trigger] pair_ids(all)[k],
        ) by {
            if k < prev.len() {
                let id = pair_ids(prev)[k];
                assert(pair_ids(all)[k] == id);
                let i = choose|i: int| 0 <= i < front.len() && stat_ids(front)[i] == id;
                assert(stat_ids(stats)[i] == id);
            } else {
                assert(stat_ids(stats)[stats.len() - 1] == last);
            }
        }
        if distinct(stat_ids(stats)) {
            assert forall|a: int, b: int| 0 <= a < b < front.len() implies stat_ids(front)[a]
                != stat_ids(front)[b] by {
                assert(stat_ids(front)[a] == stat_ids(stats)[a]);
                assert(stat_ids(front)[b] == stat_ids(stats)[b]);
            }
            assert forall|a: int, b: int| 0 <= a < b < all.len() implies pair_ids(all)[a]
                != pair_ids(all)[b] by {
                if b < prev.len() {
                    assert(pair_ids(all)[a] == pair_ids(prev)[a]);
                    assert(pair_ids(all)[b] == pair_ids(prev)[b]);
                } else {
                    let id = pair_ids(prev)[a];
                    assert(pair_ids(all)[a] == id);
                    let i = choose|i: int| 0 <= i < front.len() && stat_ids(front)[i] == id;
                    assert(stat_ids(stats)[i] == id);
                    assert(stat_ids(stats)[stats.len() - 1] == last);
                }
            }
        }
    }
}

/// The entries of a calibration, as pairs of id and correction.
pub open spec fn entry_pairs(entries: Seq<CalibrationEntry>) -> Seq<(Seq<char>, EndpointCalibration)> {
    Seq::new(entries.len(), |i: int| (entries[i].id@, entries[i].cal))
}

fn correct(endpoints: &[Endpoint], dist_m: &[u32], speed_m_s: u64, entry: &StatsEntry) -> (r:
    Option<EndpointCalibration>)
    ensures
        r == correction_of(endpoints@, dist_m@, speed_m_s, *entry),
{
    let chars = chars_of(entry.id.as_str());
    let cut: usize = find_char(chars.as_slice(), '@');
    let mut base: Vec<char> = Vec::new();
    let mut i: usize = 0;
    while i < cut
        invariant
            i <= cut <= chars@.len(),
            base@ == chars@.take(i as int),
        decreases cut - i,
    {
        base.push(chars[i]);
        i += 1;
        assert(chars@.take(i as int) == chars@.take(i - 1).push(chars@[i - 1]));
    }
    let k: usize = match find_endpoint(endpoints, base.as_slice()) {
        Some(k) => k,
        None => {
            return None;
        },
    };
    if endpoints[k].lat.is_none() || endpoints[k].lon.is_none() || k >= dist_m.len() {
        return None;
    }
    let rtt: u64 = match reference_rtt_ns(&entry.stats) {
        Some(v) => v,
        None => {
            return None;
        },
    };
    let bias_ns: i64 = match round_trip_ns(dist_m[k], speed_m_s) {
        None => 0,
        Some(e) => if rtt <= e {
            0
        } else if rtt - e > i64::MAX as u64 {
            i64::MAX
        } else {
            (rtt - e) as i64
        },
    };
    Some(EndpointCalibration { bias_ns, scale_ppm: 1_000_000 })
}

/// The calibration gathered at `(lat, lon)` at the time `generated_ms`.
///
/// `endpoint_dist_m[k]` is the great-circle distance from `(lat, lon)` to
/// endpoint `k` of the configuration. Each target's bias is what its
/// reference round-trip time exceeds the time that the signal needs for that
/// distance and back at the effective speed; its scale is 1.
pub fn build_calibration_at(
    cfg: &Config,
    stats: &[StatsEntry],
    lat: i64,
    lon: i64,
    speed_m_s: u64,
    path_stretch_ppm: u64,
    endpoint_dist_m: &[u32],
    generated_ms: i64,
) -> (cal: Calibration)
    ensures
        cal.generated_at@ == signed_decimal(generated_ms as int),
        cal.calibration_lat == lat,
        cal.calibration_lon == lon,
        cal.speed_m_s == speed_m_s,
        cal.path_stretch_ppm == path_stretch_ppm,
        entry_pairs(cal.endpoints@) == corrections(
            cfg.endpoints@,
            endpoint_dist_m@,
            effective_speed(speed_m_s, path_stretch_ppm),
            stats@,
        ),
        distinct(stat_ids(stats@)) ==> distinct(entry_ids(cal.endpoints@)),
{
    let speed: u64 = effective_speed_m_s(speed_m_s, path_stretch_ppm);
    let mut entries: Vec<CalibrationEntry> = Vec::new();
    let mut i: usize = 0;
    assert(entry_pairs(entries@) =~= Seq::<(Seq<char>, EndpointCalibration)>::empty());
    while i < stats.len()
        invariant
            i <= stats@.len(),
            speed == effective_speed(speed_m_s, path_stretch_ppm),
            entry_pairs(entries@) == corrections(
                cfg.endpoints@,
                endpoint_dist_m@,
                speed,
                stats@.take(i as int),
            ),
        decreases stats@.len() - i,
    {
        proof {
            assert(stats@.take(i + 1).drop_last() =~= stats@.take(i as int));
            assert(stats@.take(i + 1).last() == stats@[i as int]);
        }
        let ghost before = entries@;
        match correct(cfg.endpoints.as_slice(), endpoint_dist_m, speed, &stats[i]) {
            Some(c) => {
                entries.push(CalibrationEntry { id: stats[i].id.clone(), cal: c });
                assert(entry_pairs(entries@) =~= entry_pairs(before).push((stats@[i as int].id@, c)));
            },
            None => {},
        }
        i += 1;
    }
    assert(stats@.take(stats@.len() as int) =~= stats@);
    proof {
        lemma_corrections_ids(cfg.endpoints@, endpoint_dist_m@, speed, stats@);
        assert(entry_ids(entries@) =~= pair_ids(entry_pairs(entries@)));
    }
    Calibration {
        generated_at: decimal_string(generated_ms),
        calibration_lat: lat,
        calibration_lon: lon,
        speed_m_s,
        path_stretch_ppm,
        endpoints: entries,
    }
}

/// The calibration gathered at `(lat, lon)` now: that of
/// [`build_calibration_at`] for the present time.
pub fn build_calibration(
    cfg: &Config,
    stats: &[StatsEntry],
    lat: i64,
    lon: i64,
    speed_m_s: u64,
    path_stretch_ppm: u64,
    endpoint_dist_m: &[u32],
) -> (cal: Calibration)
    ensures
        exists|ms: i64| ms >= 0 && cal.generated_at@ == #[trigger] signed_decimal(ms as int),
        distinct(stat_ids(stats@)) ==> distinct(entry_ids(cal.endpoints@)),
        cal.calibration_lat == lat,
        cal.calibration_lon == lon,
        cal.speed_m_s == speed_m_s,
        cal.path_stretch_ppm == path_stretch_ppm,
        entry_pairs(cal.endpoints@) == corrections(
            cfg.endpoints@,
            endpoint_dist_m@,
            effective_speed(speed_m_s, path_stretch_ppm),
            stats@,
        ),
{
    let now: i64 = now_unix_ms();
    build_calibration_at(cfg, stats, lat, lon, speed_m_s, path_stretch_ppm, endpoint_dist_m, now)
}

} // verus!
