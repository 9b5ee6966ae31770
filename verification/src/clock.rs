//! Clock readings, and the round-trip time that a reply's timestamps give.
//!
//! A reading is a number of nanoseconds; 0 stands for a clock that could not
//! be read.

use std::time::{SystemTime, UNIX_EPOCH};
use vstd::prelude::*;

verus! {

/// Nanoseconds in a second.
pub const NS_PER_SEC: u64 = 1_000_000_000;

/// How far a kernel timestamp may lie from a clock's reading and still be
/// taken as a reading of that clock.
pub const CLOCK_MATCH_NS: u64 = 5_000_000_000;

/// The longest round-trip time that is taken from kernel timestamps.
pub const MAX_KERNEL_RTT_NS: u64 = 60_000_000_000;

/// Absolute difference of two clock readings.
pub open spec fn gap(a: u64, b: u64) -> u64 {
    if a >= b {
        (a - b) as u64
    } else {
        (b - a) as u64
    }
}

/// Absolute difference of two clock readings.
pub fn abs_diff(a: u64, b: u64) -> (d: u64)
    ensures
        d == gap(a, b),
{
    if a >= b {
        a - b
    } else {
        b - a
    }
}

/// The reading that a seconds-and-nanoseconds pair stands for; 0 where a
/// part is negative or the reading does not fit.
pub open spec fn timespec_value(sec: i64, nsec: i64) -> u64 {
    if sec >= 0 && nsec >= 0 && sec * NS_PER_SEC + nsec <= u64::MAX {
        (sec * NS_PER_SEC + nsec) as u64
    } else {
        0
    }
}

/// Turns a seconds-and-nanoseconds pair into a reading.
pub fn timespec_ns(sec: i64, nsec: i64) -> (ns: u64)
    ensures
        ns == timespec_value(sec, nsec),
{
    if sec < 0 || nsec < 0 {
        return 0;
    }
    assert((sec as u128) * (NS_PER_SEC as u128) <= 0x7FFF_FFFF_FFFF_FFFF * 1_000_000_000)
        by (nonlinear_arith)
        requires
            0 <= sec <= 0x7FFF_FFFF_FFFF_FFFF,
            NS_PER_SEC == 1_000_000_000,
    ;
    let total: u128 = (sec as u128) * (NS_PER_SEC as u128) + (nsec as u128);
    if total > u64::MAX as u128 {
        0
    } else {
        total as u64
    }
}

/// Milliseconds since the epoch for whole seconds and the milliseconds
/// within the second; the largest value where that does not fit.
pub open spec fn unix_ms_of(secs: u64, millis: u32) -> i64 {
    if secs * 1000 + millis <= i64::MAX {
        (secs * 1000 + millis) as i64
    } else {
        i64::MAX
    }
}

/// Milliseconds since the epoch.
pub fn unix_ms(secs: u64, millis: u32) -> (ms: i64)
    ensures
        ms == unix_ms_of(secs, millis),
        ms >= 0,
{
    let total: u128 = (secs as u128) * 1000 + (millis as u128);
    if total > i64::MAX as u128 {
        i64::MAX
    } else {
        total as i64
    }
}

/// `SystemTime::now`, as the time since the epoch: whole seconds, and the
/// milliseconds within the second, which are fewer than 1000. A clock set
/// before the epoch reads as the epoch.
#[verifier::external_body]
fn unix_time() -> (r: (u64, u32))
    ensures
        r.1 < 1000,
{
    let dur = SystemTime::now().duration_since(UNIX_EPOCH).unwrap_or_default();
    (dur.as_secs(), dur.subsec_millis())
}

/// The wall clock, in milliseconds since the epoch.
pub fn now_unix_ms() -> (ms: i64)
    ensures
        ms >= 0,
{
    let (secs, millis) = unix_time();
    unix_ms(secs, millis)
}

/// Whether a kernel timestamp is a reading of the clock that now reads
/// `now_ns`.
pub open spec fn on_clock(recv_ns: u64, now_ns: u64) -> bool {
    now_ns > 0 && gap(recv_ns, now_ns) <= CLOCK_MATCH_NS
}

/// Time from `send_ns` to `recv_ns`; 0 where the reply is stamped earlier.
pub open spec fn elapsed(recv_ns: u64, send_ns: u64) -> u64 {
    if recv_ns >= send_ns {
        (recv_ns - send_ns) as u64
    } else {
        0
    }
}

/// The round-trip time that the kernel timestamp of a reply gives: the time
/// since the send stamp of the clock that the timestamp is a reading of, the
/// realtime clock first; nothing where it is a reading of neither, or where
/// that time exceeds a minute.
pub open spec fn kernel_rtt(
    recv_ns: u64,
    send_realtime_ns: u64,
    send_mono_ns: u64,
    now_realtime_ns: u64,
    now_mono_ns: u64,
) -> Option<u64> {
    if on_clock(recv_ns, now_realtime_ns) {
        if elapsed(recv_ns, send_realtime_ns) <= MAX_KERNEL_RTT_NS {
            Some(elapsed(recv_ns, send_realtime_ns))
        } else {
            None
        }
    } else if on_clock(recv_ns, now_mono_ns) {
        if elapsed(recv_ns, send_mono_ns) <= MAX_KERNEL_RTT_NS {
            Some(elapsed(recv_ns, send_mono_ns))
        } else {
            None
        }
    } else {
        None
    }
}

/// Picks the round-trip time that a kernel timestamp gives, if any.
pub fn choose_rtt_ns(
    recv_ns: u64,
    send_realtime_ns: u64,
    send_mono_ns: u64,
    now_realtime_ns: u64,
    now_mono_ns: u64,
) -> (rtt: Option<u64>)
    ensures
        rtt == kernel_rtt(recv_ns, send_realtime_ns, send_mono_ns, now_realtime_ns, now_mono_ns),
{
    let send_ns: u64 = if now_realtime_ns > 0 && abs_diff(recv_ns, now_realtime_ns)
        <= CLOCK_MATCH_NS {
        send_realtime_ns
    } else if now_mono_ns > 0 && abs_diff(recv_ns, now_mono_ns) <= CLOCK_MATCH_NS {
        send_mono_ns
    } else {
        return None;
    };
    let rtt: u64 = recv_ns.saturating_sub(send_ns);
    if rtt <= MAX_KERNEL_RTT_NS {
        Some(rtt)
    } else {
        None
    }
}

/// The round-trip time of a reply: what its kernel timestamp gives, else the
/// time measured in user space.
pub open spec fn reply_rtt(
    recv_ns: Option<u64>,
    send_realtime_ns: u64,
    send_mono_ns: u64,
    now_realtime_ns: u64,
    now_mono_ns: u64,
    fallback_ns: u64,
) -> u64 {
    match recv_ns {
        Some(r) => match kernel_rtt(
            r,
            send_realtime_ns,
            send_mono_ns,
            now_realtime_ns,
            now_mono_ns,
        ) {
            Some(rtt) => rtt,
            None => fallback_ns,
        },
        None => fallback_ns,
    }
}

/// The round-trip time of a reply. `recv_ns` is its kernel timestamp, where
/// it came with one; `fallback_ns` the time that passed in user space.
pub fn reply_rtt_ns(
    recv_ns: Option<u64>,
    send_realtime_ns: u64,
    send_mono_ns: u64,
    now_realtime_ns: u64,
    now_mono_ns: u64,
    fallback_ns: u64,
) -> (rtt: u64)
    ensures
        rtt == reply_rtt(
            recv_ns,
            send_realtime_ns,
            send_mono_ns,
            now_realtime_ns,
            now_mono_ns,
            fallback_ns,
        ),
{
    match recv_ns {
        Some(r) => match choose_rtt_ns(
            r,
            send_realtime_ns,
            send_mono_ns,
            now_realtime_ns,
            now_mono_ns,
        ) {
            Some(rtt) => rtt,
            None => fallback_ns,
        },
        None => fallback_ns,
    }
}

} // verus!
