//! The weighted least-squares objective of the geolocation solver.
//!
//! An observation is an endpoint of known place with its corrected
//! round-trip time. For a candidate place the great-circle distances to the
//! endpoints are given by the caller, observation by observation. The time
//! that the physics predicts for a distance is the round trip at the signal
//! speed plus a bias that all observations share; the objective is the sum of
//! the squared differences to the measured times, each weighted by the
//! inverse of the observation's jitter.
//!
//! Times are in nanoseconds and an observation at the jitter floor weighs
//! `WEIGHT_ONE`, so the objective counts in units of which 10^18 make one
//! square millisecond.

use vstd::prelude::*;
use crate::calibration::{
    adjust_rtt_ns, adjusted, correction, reference_rtt, reference_rtt_ns, Calibration,
};
use crate::config::{endpoint_ids, resolve_endpoint, Endpoint};
use crate::ids::resolve_last;
use crate::stats::StatsEntry;

verus! {

/// The least jitter that an observation is weighted with.
pub const MIN_JITTER_NS: u64 = 1_000_000;

/// The weight of an observation whose jitter is the least.
pub const WEIGHT_ONE: u64 = 1_000_000;

/// The observations below which no place is estimated.
pub const MIN_OBSERVATIONS: usize = 3;

/// The most observations that one estimate takes: with no more, the
/// weighted sums stay within 128 bits.
pub const MAX_OBSERVATIONS: usize = 0xFFFF_FFFF;

/// An endpoint as the solver sees it: its place in micro-degrees, its
/// corrected round-trip time and its jitter in nanoseconds.
#[derive(Clone, Copy, Debug, PartialEq, Eq)]
pub struct EndpointObs {
    pub lat: i64,
    pub lon: i64,
    pub rtt_ns: u64,
    pub jitter_ns: u64,
}

/// A jitter, no less than the floor; the floor where there is none.
pub open spec fn floored_jitter(jitter_ns: Option<u64>) -> u64 {
    match jitter_ns {
        Some(j) => if j < MIN_JITTER_NS {
            MIN_JITTER_NS
        } else {
            j
        },
        None => MIN_JITTER_NS,
    }
}

/// The observation that a target's statistics give: the place of the
/// endpoint that the target's id resolves to, the reference round-trip time
/// after correction, and the jitter. There is none where the id resolves to
/// no endpoint, the endpoint has no coordinates, there is no reference time,
/// or the corrected time is 0.
pub open spec fn observation_of(
    endpoints: Seq<Endpoint>,
    calibration: Option<&Calibration>,
    entry: StatsEntry,
) -> Option<EndpointObs> {
    match resolve_last(endpoint_ids(endpoints), entry.id@) {
        None => None,
        Some(k) => if endpoints[k].lat is None || endpoints[k].lon is None {
            None
        } else {
            match reference_rtt(entry.stats) {
                None => None,
                Some(rtt) => {
                    let adj = adjusted(rtt, correction(calibration, entry.id@));
                    if adj == 0 {
                        None
                    } else {
                        Some(
                            EndpointObs {
                                lat: endpoints[k].lat->0,
                                lon: endpoints[k].lon->0,
                                rtt_ns: adj,
                                jitter_ns: floored_jitter(entry.stats.jitter_ns),
                            },
                        )
                    }
                },
            }
        },
    }
}

/// The observations that statistics give, in the order of the statistics.
pub open spec fn observed(
    endpoints: Seq<Endpoint>,
    calibration: Option<&Calibration>,
    stats: Seq<StatsEntry>,
) -> Seq<EndpointObs>
    decreases stats.len(),
{
    if stats.len() == 0 {
        Seq::empty()
    } else {
        let prev = observed(endpoints, calibration, stats.drop_last());
        match observation_of(endpoints, calibration, stats.last()) {
            Some(o) => prev.push(o),
            None => prev,
        }
    }
}

fn observe(endpoints: &[Endpoint], calibration: Option<&Calibration>, entry: &StatsEntry) -> (r:
    Option<EndpointObs>)
    ensures
        r == observation_of(endpoints@, calibration, *entry),
{
    let k: usize = match resolve_endpoint(endpoints, entry.id.as_str()) {
        Some(k) => k,
        None => {
            return None;
        },
    };
    let (lat, lon) = match (endpoints[k].lat, endpoints[k].lon) {
        (Some(lat), Some(lon)) => (lat, lon),
        _ => {
            return None;
        },
    };
    let rtt: u64 = match reference_rtt_ns(&entry.stats) {
        Some(v) => v,
        None => {
            return None;
        },
    };
    let adj: u64 = adjust_rtt_ns(rtt, entry.id.as_str(), calibration);
    if adj == 0 {
        return None;
    }
    let jitter_ns: u64 = match entry.stats.jitter_ns {
        Some(j) => if j < MIN_JITTER_NS {
            MIN_JITTER_NS
        } else {
            j
        },
        None => MIN_JITTER_NS,
    };
    Some(EndpointObs { lat, lon, rtt_ns: adj, jitter_ns })
}

/// Gathers the observations that a session's statistics give.
pub fn observations(
    stats: &[StatsEntry],
    endpoints: &[Endpoint],
    calibration: Option<&Calibration>,
) -> (obs: Vec<EndpointObs>)
    ensures
        obs@ == observed(endpoints@, calibration, stats@),
        obs@.len() <= stats@.len(),
{
    let mut obs: Vec<EndpointObs> = Vec::new();
    let mut i: usize = 0;
    while i < stats.len()
        invariant
            i <= stats@.len(),
            obs@ == observed(endpoints@, calibration, stats@.take(i as int)),
            obs@.len() <= i,
        decreases stats@.len() - i,
    {
        proof {
            assert(stats@.take(i + 1).drop_last() =~= stats@.take(i as int));
            assert(stats@.take(i + 1).last() == stats@[i as int]);
        }
        match observe(endpoints, calibration, &stats[i]) {
            Some(o) => {
                obs.push(o);
            },
            None => {},
        }
        i += 1;
    }
    assert(stats@.take(stats@.len() as int) =~= stats@);
    obs
}

/// The weight of an observation: the inverse of its jitter, which counts as
/// the floor where it is less. An observation at the floor weighs
/// `WEIGHT_ONE`.
pub open spec fn weight(jitter_ns: u64) -> nat {
    (WEIGHT_ONE * MIN_JITTER_NS / (if jitter_ns < MIN_JITTER_NS {
        MIN_JITTER_NS
    } else {
        jitter_ns
    }) as int) as nat
}

/// The time that the physics predicts for a round trip over `dist_m` before
/// any bias.
pub open spec fn predicted(dist_m: u32, speed_m_s: u64) -> nat {
    (2 * dist_m * 1_000_000_000 / speed_m_s as int) as nat
}

/// What the measured time of observation `i` exceeds the predicted time by.
pub open spec fn residual(obs: Seq<EndpointObs>, dist_m: Seq<u32>, speed_m_s: u64, i: int) -> int {
    obs[i].rtt_ns - predicted(dist_m[i], speed_m_s)
}

/// The sum of the weights of the first `n` observations.
pub open spec fn sum_w(obs: Seq<EndpointObs>, n: nat) -> nat
    decreases n,
{
    if n == 0 {
        0
    } else {
        sum_w(obs, (n - 1) as nat) + weight(obs[n - 1].jitter_ns)
    }
}

/// The weighted sum of the residuals of the first `n` observations.
pub open spec fn sum_wx(obs: Seq<EndpointObs>, dist_m: Seq<u32>, speed_m_s: u64, n: nat) -> int
    decreases n,
{
    if n == 0 {
        0
    } else {
        sum_wx(obs, dist_m, speed_m_s, (n - 1) as nat) + weight(obs[n - 1].jitter_ns) * residual(
            obs,
            dist_m,
            speed_m_s,
            n - 1,
        )
    }
}

/// The weighted sum of the squared errors of the first `n` observations
/// under the bias `bias`.
pub open spec fn sse_under(
    obs: Seq<EndpointObs>,
    dist_m: Seq<u32>,
    speed_m_s: u64,
    bias: int,
    n: nat,
) -> nat
    decreases n,
{
    if n == 0 {
        0
    } else {
        let e = residual(obs, dist_m, speed_m_s, n - 1) - bias;
        (sse_under(obs, dist_m, speed_m_s, bias, (n - 1) as nat) + weight(obs[n - 1].jitter_ns) * (e
            * e)) as nat
    }
}

/// The bias that fits a candidate best: the weighted mean of the residuals,
/// rounded to the nearest nanosecond, and 0 where that mean is not positive
/// or nothing has weight.
pub open spec fn best_bias(obs: Seq<EndpointObs>, dist_m: Seq<u32>, speed_m_s: u64) -> nat {
    let n = sum_w(obs, obs.len());
    let s = sum_wx(obs, dist_m, speed_m_s, obs.len());
    if n > 0 && s > 0 {
        ((2 * s + n) / (2 * n) as int) as nat
    } else {
        0
    }
}

/// The objective at a candidate: the weighted sum of squared errors under
/// the best bias.
pub open spec fn candidate_sse(obs: Seq<EndpointObs>, dist_m: Seq<u32>, speed_m_s: u64) -> nat {
    sse_under(obs, dist_m, speed_m_s, best_bias(obs, dist_m, speed_m_s) as int, obs.len())
}

/// A sum of squares as it is stored: itself, or the largest number that can
/// be written where it is larger.
pub open spec fn stored(sse: nat) -> u128 {
    if sse > u128::MAX {
        u128::MAX
    } else {
        sse as u128
    }
}

fn weight_of(jitter_ns: u64) -> (w: u64)
    ensures
        w == weight(jitter_ns),
        w <= WEIGHT_ONE,
{
    let j: u64 = if jitter_ns < MIN_JITTER_NS {
        MIN_JITTER_NS
    } else {
        jitter_ns
    };
    let w: u64 = 1_000_000_000_000 / j;
    assert(w <= 1_000_000) by (nonlinear_arith)
        requires
            w == 1_000_000_000_000int / j as int,
            j >= 1_000_000,
    ;
    w
}

fn residual_of(rtt_ns: u64, dist_m: u32, speed_m_s: u64) -> (x: i128)
    requires
        speed_m_s > 0,
    ensures
        x == rtt_ns - predicted(dist_m, speed_m_s),
        -0x8000_0000_0000_0000 < x <= rtt_ns,
{
    let num: u64 = 2 * (dist_m as u64) * 1_000_000_000;
    let pred: u64 = num / speed_m_s;
    assert(pred <= num) by (nonlinear_arith)
        requires
            pred == num / speed_m_s,
            speed_m_s >= 1,
    ;
    (rtt_ns as i128) - (pred as i128)
}

proof fn lemma_sums_bounded(obs: Seq<EndpointObs>, dist_m: Seq<u32>, speed_m_s: u64, n: nat)
    requires
        n <= obs.len() == dist_m.len(),
        speed_m_s > 0,
    ensures
        sum_w(obs, n) <= n * WEIGHT_ONE,
        sum_wx(obs, dist_m, speed_m_s, n) <= sum_w(obs, n) * 0xFFFF_FFFF_FFFF_FFFF,
        sum_wx(obs, dist_m, speed_m_s, n) >= -(sum_w(obs, n) * 0x8000_0000_0000_0000),
    decreases n,
{
    if n > 0 {
        lemma_sums_bounded(obs, dist_m, speed_m_s, (n - 1) as nat);
        let w = weight(obs[n - 1].jitter_ns);
        let x = residual(obs, dist_m, speed_m_s, n - 1);
        let j: int = if obs[n - 1].jitter_ns < MIN_JITTER_NS {
            MIN_JITTER_NS as int
        } else {
            obs[n - 1].jitter_ns as int
        };
        assert(w <= 1_000_000) by (nonlinear_arith)
            requires
                w == 1_000_000_000_000int / j,
                j >= 1_000_000,
        ;
        let num = 2 * dist_m[n - 1] * 1_000_000_000;
        assert(0 <= num / speed_m_s as int <= num) by (nonlinear_arith)
            requires
                num >= 0,
                speed_m_s >= 1,
        ;
        assert(-0x8000_0000_0000_0000 < x <= 0xFFFF_FFFF_FFFF_FFFF);
        assert(w * x <= w * 0xFFFF_FFFF_FFFF_FFFF && w * x >= -(w * 0x8000_0000_0000_0000))
            by (nonlinear_arith)
            requires
                w >= 0,
                -0x8000_0000_0000_0000 < x <= 0xFFFF_FFFF_FFFF_FFFF,
        ;
        let pw = sum_w(obs, (n - 1) as nat);
        assert((pw + w) * 0xFFFF_FFFF_FFFF_FFFF == pw * 0xFFFF_FFFF_FFFF_FFFF + w
            * 0xFFFF_FFFF_FFFF_FFFF) by (nonlinear_arith);
        assert((pw + w) * 0x8000_0000_0000_0000 == pw * 0x8000_0000_0000_0000 + w
            * 0x8000_0000_0000_0000) by (nonlinear_arith);
        assert(n * WEIGHT_ONE == (n - 1) * WEIGHT_ONE + WEIGHT_ONE) by (nonlinear_arith);
    }
}

/// The objective grows with the observations that are counted.
proof fn lemma_sse_grows(
    obs: Seq<EndpointObs>,
    dist_m: Seq<u32>,
    speed_m_s: u64,
    bias: int,
    m: nat,
    n: nat,
)
    requires
        m <= n,
    ensures
        sse_under(obs, dist_m, speed_m_s, bias, m) <= sse_under(obs, dist_m, speed_m_s, bias, n),
    decreases n,
{
    if m < n {
        lemma_sse_grows(obs, dist_m, speed_m_s, bias, m, (n - 1) as nat);
        let e = residual(obs, dist_m, speed_m_s, n - 1) - bias;
        let w = weight(obs[n - 1].jitter_ns);
        assert(w * (e * e) >= 0) by (nonlinear_arith)
            requires
                w >= 0,
        ;
    }
}

/// Whether the objective can be evaluated: the speed is positive, the
/// observations are not too many, and there is one distance for each.
pub open spec fn measurable(obs: Seq<EndpointObs>, dist_m: Seq<u32>, speed_m_s: u64) -> bool {
    speed_m_s > 0 && obs.len() <= MAX_OBSERVATIONS && dist_m.len() == obs.len()
}

/// Evaluates the objective at one candidate. `dist_m[i]` is the great-circle
/// distance from the candidate to the endpoint of observation `i`. Returns
/// the sum of squared errors under the best bias, and that bias; nothing
/// where the objective cannot be evaluated.
pub fn sse_for_candidate(obs: &[EndpointObs], dist_m: &[u32], speed_m_s: u64) -> (r: Option<
    (u128, u64),
>)
    ensures
        match r {
            Some(v) => {
                &&& measurable(obs@, dist_m@, speed_m_s)
                &&& v.1 == best_bias(obs@, dist_m@, speed_m_s)
                &&& v.0 == stored(candidate_sse(obs@, dist_m@, speed_m_s))
            },
            None => !measurable(obs@, dist_m@, speed_m_s),
        },
{
    if speed_m_s == 0 || obs.len() > MAX_OBSERVATIONS || dist_m.len() != obs.len() {
        None
    } else {
        Some(objective(obs, dist_m, speed_m_s))
    }
}

/// The sum of squared errors under the best bias, and that bias.
pub(crate) fn objective(obs: &[EndpointObs], dist_m: &[u32], speed_m_s: u64) -> (r: (u128, u64))
    requires
        measurable(obs@, dist_m@, speed_m_s),
    ensures
        r.1 == best_bias(obs@, dist_m@, speed_m_s),
        r.0 == stored(candidate_sse(obs@, dist_m@, speed_m_s)),
{
    let n: usize = obs.len();
    let mut total_w: u128 = 0;
    let mut total_wx: i128 = 0;
    let mut i: usize = 0;
    while i < n
        invariant
            i <= n == obs@.len() == dist_m@.len(),
            n <= MAX_OBSERVATIONS,
            speed_m_s > 0,
            total_w == sum_w(obs@, i as nat),
            total_wx == sum_wx(obs@, dist_m@, speed_m_s, i as nat),
        decreases n - i,
    {
        let w: u64 = weight_of(obs[i].jitter_ns);
        let x: i128 = residual_of(obs[i].rtt_ns, dist_m[i], speed_m_s);
        proof {
            lemma_sums_bounded(obs@, dist_m@, speed_m_s, i as nat);
            lemma_sums_bounded(obs@, dist_m@, speed_m_s, (i + 1) as nat);
            assert(i * WEIGHT_ONE <= 0xFFFF_FFFF * 1_000_000) by (nonlinear_arith)
                requires
                    i <= 0xFFFF_FFFF,
                    WEIGHT_ONE == 1_000_000,
            ;
            assert((i + 1) * WEIGHT_ONE <= 0x1_0000_0000 * 1_000_000) by (nonlinear_arith)
                requires
                    i < 0xFFFF_FFFF,
                    WEIGHT_ONE == 1_000_000,
            ;
            let nw = sum_w(obs@, (i + 1) as nat);
            assert(nw * 0xFFFF_FFFF_FFFF_FFFF <= 0x1_0000_0000 * 1_000_000 * 0xFFFF_FFFF_FFFF_FFFF
                && nw * 0x8000_0000_0000_0000 <= 0x1_0000_0000 * 1_000_000
                * 0x8000_0000_0000_0000) by (nonlinear_arith)
                requires
                    0 <= nw <= 0x1_0000_0000 * 1_000_000,
            ;
            assert((w as int) * (x as int) <= 1_000_000 * 0xFFFF_FFFF_FFFF_FFFF && (w as int) * (
            x as int) >= -(1_000_000 * 0x8000_0000_0000_0000)) by (nonlinear_arith)
                requires
                    0 <= w <= 1_000_000,
                    -0x8000_0000_0000_0000 < x <= 0xFFFF_FFFF_FFFF_FFFF,
            ;
        }
        total_w = total_w + w as u128;
        total_wx = total_wx + (w as i128) * x;
        i += 1;
    }
    let bias: u64 = if total_w > 0 && total_wx > 0 {
        proof {
            lemma_sums_bounded(obs@, dist_m@, speed_m_s, n as nat);
            assert(n * WEIGHT_ONE <= 0xFFFF_FFFF * 1_000_000) by (nonlinear_arith)
                requires
                    n <= 0xFFFF_FFFF,
                    WEIGHT_ONE == 1_000_000,
            ;
            assert(total_w * 0xFFFF_FFFF_FFFF_FFFF <= 0xFFFF_FFFF * 1_000_000
                * 0xFFFF_FFFF_FFFF_FFFF) by (nonlinear_arith)
                requires
                    0 <= total_w <= 0xFFFF_FFFF * 1_000_000,
            ;
            assert((2 * total_wx + total_w) / (2 * total_w as int) <= 0xFFFF_FFFF_FFFF_FFFF)
                by (nonlinear_arith)
                requires
                    total_w > 0,
                    total_wx <= total_w * 0xFFFF_FFFF_FFFF_FFFF,
            ;
        }
        ((2 * (total_wx as u128) + total_w) / (2 * total_w)) as u64
    } else {
        0
    };
    let mut sse: u128 = 0;
    let mut over: bool = false;
    let mut k: usize = 0;
    while k < n
        invariant
            k <= n == obs@.len() == dist_m@.len(),
            speed_m_s > 0,
            !over ==> sse == sse_under(obs@, dist_m@, speed_m_s, bias as int, k as nat),
            over ==> sse_under(obs@, dist_m@, speed_m_s, bias as int, k as nat) > u128::MAX,
        decreases n - k,
    {
        let w: u64 = weight_of(obs[k].jitter_ns);
        let x: i128 = residual_of(obs[k].rtt_ns, dist_m[k], speed_m_s);
        let e: i128 = x - bias as i128;
        let mag: u128 = if e < 0 {
            (-e) as u128
        } else {
            e as u128
        };
        proof {
            lemma_sse_grows(obs@, dist_m@, speed_m_s, bias as int, k as nat, (k + 1) as nat);
            assert((mag as int) * (mag as int) == (e as int) * (e as int)) by (nonlinear_arith)
                requires
                    mag == e || mag == -e,
            ;
        }
        if !over && w > 0 {
            let term: Option<u128> = match mag.checked_mul(mag) {
                Some(sq) => (w as u128).checked_mul(sq),
                None => None,
            };
            proof {
                let sq = (mag as int) * (mag as int);
                assert(w * sq >= sq) by (nonlinear_arith)
                    requires
                        w >= 1,
                        sq >= 0,
                ;
            }
            let next: Option<u128> = match term {
                Some(t) => sse.checked_add(t),
                None => None,
            };
            match next {
                Some(v) => {
                    sse = v;
                },
                None => {
                    over = true;
                },
            }
        } else if !over {
            assert((w as int) * ((e as int) * (e as int)) == 0) by (nonlinear_arith)
                requires
                    w == 0,
            ;
        }
        k += 1;
    }
    if over {
        (u128::MAX, bias)
    } else {
        (sse, bias)
    }
}

} // verus!
