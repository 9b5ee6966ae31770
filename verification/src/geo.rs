//! Signal speed, the time that a distance takes, and the distance that a
//! time allows.
//!
//! Speeds are in metres per second, distances in metres, times in
//! nanoseconds, ratios in parts per million.

use vstd::prelude::*;

verus! {

/// The parts per million that make 1.
pub const PPM: u64 = 1_000_000;

/// Nanoseconds in a second.
pub const NS_PER_SEC: u64 = 1_000_000_000;

/// A path stretch, which is never taken below 1.
pub open spec fn clamped_stretch(stretch_ppm: u64) -> u64 {
    if stretch_ppm < PPM {
        PPM
    } else {
        stretch_ppm
    }
}

/// Clamps a path stretch to 1 from below. Returns the stretch to use, and
/// whether it differs from the one given.
pub fn clamp_path_stretch(stretch_ppm: u64) -> (r: (u64, bool))
    ensures
        r.0 == clamped_stretch(stretch_ppm),
        r.0 >= PPM,
        r.1 == (stretch_ppm < PPM),
{
    if stretch_ppm < PPM {
        (PPM, true)
    } else {
        (stretch_ppm, false)
    }
}

/// The speed of the signal along a path that is `stretch_ppm` times as long
/// as the great circle: the speed divided by the stretch, which counts as 1
/// where it is less.
pub open spec fn effective_speed(speed_m_s: u64, stretch_ppm: u64) -> u64 {
    (speed_m_s * PPM / clamped_stretch(stretch_ppm) as int) as u64
}

/// The effective speed of the signal.
pub fn effective_speed_m_s(speed_m_s: u64, stretch_ppm: u64) -> (v: u64)
    ensures
        v == effective_speed(speed_m_s, stretch_ppm),
        v <= speed_m_s,
        stretch_ppm <= PPM ==> v == speed_m_s,
{
    let (stretch, _) = clamp_path_stretch(stretch_ppm);
    let num: u128 = (speed_m_s as u128) * 1_000_000;
    let v: u128 = num / (stretch as u128);
    assert(v <= speed_m_s && (stretch == 1_000_000 ==> v == speed_m_s)) by (nonlinear_arith)
        requires
            v == (speed_m_s * 1_000_000) / stretch as int,
            stretch >= 1_000_000,
    ;
    v as u64
}

/// The time that a signal takes to a point `dist_m` away and back; nothing
/// at speed 0.
pub open spec fn round_trip(dist_m: u32, speed_m_s: u64) -> Option<u64> {
    if speed_m_s == 0 {
        None
    } else {
        Some((2 * dist_m * NS_PER_SEC / speed_m_s as int) as u64)
    }
}

/// The round-trip time over a distance.
pub fn round_trip_ns(dist_m: u32, speed_m_s: u64) -> (r: Option<u64>)
    ensures
        r == round_trip(dist_m, speed_m_s),
        r is Some ==> r->0 <= 2 * dist_m * NS_PER_SEC,
{
    if speed_m_s == 0 {
        return None;
    }
    let num: u64 = 2 * (dist_m as u64) * 1_000_000_000;
    let t: u64 = num / speed_m_s;
    assert(t <= num) by (nonlinear_arith)
        requires
            t == num / speed_m_s,
            speed_m_s >= 1,
    ;
    Some(t)
}

/// How far away the other end can be at most when the round trip takes
/// `rtt_ns`: half the way that the signal covers in that time, no more than
/// the largest distance that can be written. A round trip of no time bounds
/// nothing.
pub open spec fn distance_bound(rtt_ns: u64, speed_m_s: u64) -> Option<u64> {
    if rtt_ns == 0 {
        None
    } else if speed_m_s * rtt_ns / (2 * NS_PER_SEC) as int > u64::MAX {
        Some(u64::MAX)
    } else {
        Some((speed_m_s * rtt_ns / (2 * NS_PER_SEC) as int) as u64)
    }
}

/// The largest distance that a round-trip time allows.
pub fn max_distance_m(rtt_ns: u64, speed_m_s: u64) -> (r: Option<u64>)
    ensures
        r == distance_bound(rtt_ns, speed_m_s),
        rtt_ns == 0 <==> r is None,
{
    if rtt_ns == 0 {
        return None;
    }
    assert((speed_m_s as u128) * (rtt_ns as u128) <= 0xFFFF_FFFF_FFFF_FFFF
        * 0xFFFF_FFFF_FFFF_FFFF) by (nonlinear_arith)
        requires
            speed_m_s <= 0xFFFF_FFFF_FFFF_FFFF,
            rtt_ns <= 0xFFFF_FFFF_FFFF_FFFF,
    ;
    let way: u128 = (speed_m_s as u128) * (rtt_ns as u128);
    let half: u128 = way / 2_000_000_000;
    if half > u64::MAX as u128 {
        Some(u64::MAX)
    } else {
        Some(half as u64)
    }
}

/// The bound is half the round trip times the speed: for a round trip of
/// `rtt_ms` milliseconds at `speed_km_s` kilometres per second it is
/// `(speed_km_s / 1000) * (rtt_ms / 2)` kilometres, which are
/// `speed_km_s * rtt_ms / 2` metres.
pub proof fn lemma_distance_bound_formula(rtt_ms: u64, speed_km_s: u64)
    requires
        rtt_ms > 0,
        rtt_ms * 1_000_000 <= u64::MAX,
        speed_km_s * 1000 <= u64::MAX,
        speed_km_s * rtt_ms <= u64::MAX,
    ensures
        distance_bound((rtt_ms * 1_000_000) as u64, (speed_km_s * 1000) as u64) == Some(
            (speed_km_s * rtt_ms / 2) as u64,
        ),
{
    let rtt_ns = (rtt_ms * 1_000_000) as u64;
    let speed = (speed_km_s * 1000) as u64;
    let km_ms = speed_km_s * rtt_ms;
    assert(speed * rtt_ns == km_ms * 1_000_000_000) by (nonlinear_arith)
        requires
            rtt_ns == rtt_ms * 1_000_000,
            speed == speed_km_s * 1000,
            km_ms == speed_km_s * rtt_ms,
    ;
    assert((km_ms * 1_000_000_000) / 2_000_000_000 == km_ms / 2) by (nonlinear_arith)
        requires
            km_ms >= 0,
    ;
}

/// A longer round trip allows no shorter distance.
pub proof fn lemma_distance_bound_monotone(a_ns: u64, b_ns: u64, speed_m_s: u64)
    requires
        0 < a_ns <= b_ns,
    ensures
        distance_bound(a_ns, speed_m_s)->0 <= distance_bound(b_ns, speed_m_s)->0,
{
    assert(speed_m_s * a_ns / 2_000_000_000 <= speed_m_s * b_ns / 2_000_000_000)
        by (nonlinear_arith)
        requires
            0 < a_ns <= b_ns,
            speed_m_s >= 0,
    ;
}

} // verus!
