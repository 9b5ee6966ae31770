//! The probe worker of one target, as a state machine.
//!
//! The caller owns the socket, the clocks and the sleeping. It reports what
//! happened, and the worker says what to do next: when to give up the
//! socket, which frame to send, when the next burst is due.

use rand::Rng;
use vstd::prelude::*;
use crate::packet::{build_packet, packet_bytes};

verus! {

/// Empty bursts in a row after which the socket is given up.
pub const RECONNECT_EMPTY_BURSTS: usize = 2;

/// Bursts after which the socket is given up in any case.
pub const RECONNECT_INTERVAL_BURSTS: usize = 6;

/// Nanoseconds in a microsecond.
pub const NS_PER_US: u64 = 1_000;

/// `rand::thread_rng` and `Rng::gen`: a number from the thread's random
/// generator. Nothing is known of it.
#[verifier::external_body]
fn random_nonce() -> (nonce: u64) {
    rand::thread_rng().gen()
}

/// What a worker remembers from one burst to the next.
#[derive(Clone, Copy, Debug)]
pub struct WorkerState {
    /// Whether the worker holds a socket.
    pub connected: bool,
    /// Whether a tunnel was active when last looked at; `None` before the
    /// first look.
    pub last_tunnel_active: Option<bool>,
    /// Bursts sent since the socket was last given up.
    pub bursts_since_refresh: usize,
    /// Bursts in a row that brought no sample.
    pub empty_burst_streak: usize,
    /// The sequence number of the next frame.
    pub seq: u32,
}

/// `n + 1`, or `n` where that does not fit.
pub open spec fn bumped(n: usize) -> usize {
    if n < usize::MAX {
        (n + 1) as usize
    } else {
        n
    }
}

impl WorkerState {
    /// Whether the tunnel state differs from the one last seen.
    pub open spec fn flipped(self, tunnel_active: bool) -> bool {
        self.last_tunnel_active matches Some(prev) && prev != tunnel_active
    }

    /// Whether a new connection period starts: the tunnel state flipped, or
    /// the socket has served its bursts.
    pub open spec fn period_over(self, tunnel_active: bool) -> bool {
        self.flipped(tunnel_active) || self.bursts_since_refresh >= RECONNECT_INTERVAL_BURSTS
    }

    /// Whether the socket is to be given up before the next burst.
    pub open spec fn must_refresh(self, tunnel_active: bool) -> bool {
        self.period_over(tunnel_active) || self.empty_burst_streak >= RECONNECT_EMPTY_BURSTS
    }

    /// The state after the look at the tunnels that opens an iteration.
    pub open spec fn begun(self, tunnel_active: bool) -> WorkerState {
        WorkerState {
            connected: self.connected && !self.must_refresh(tunnel_active),
            bursts_since_refresh: if self.period_over(tunnel_active) {
                0
            } else {
                self.bursts_since_refresh
            },
            empty_burst_streak: if self.period_over(tunnel_active) {
                0
            } else {
                self.empty_burst_streak
            },
            ..self
        }
    }

    /// The streak of empty bursts after a burst of `samples` samples.
    pub open spec fn streak_after(self, samples: usize) -> usize {
        if samples == 0 {
            bumped(self.empty_burst_streak)
        } else {
            0
        }
    }

    /// The state after a burst that brought `samples` samples.
    pub open spec fn ended(self, samples: usize, tunnel_active: bool) -> WorkerState {
        let streak = self.streak_after(samples);
        if streak >= RECONNECT_EMPTY_BURSTS {
            WorkerState {
                connected: false,
                last_tunnel_active: Some(tunnel_active),
                bursts_since_refresh: 0,
                empty_burst_streak: streak,
                ..self
            }
        } else {
            WorkerState {
                last_tunnel_active: Some(tunnel_active),
                bursts_since_refresh: bumped(self.bursts_since_refresh),
                empty_burst_streak: streak,
                ..self
            }
        }
    }

    /// A worker that has not probed yet.
    pub fn new() -> (s: WorkerState)
        ensures
            s == (WorkerState {
                connected: false,
                last_tunnel_active: None,
                bursts_since_refresh: 0,
                empty_burst_streak: 0,
                seq: 0,
            }),
    {
        WorkerState {
            connected: false,
            last_tunnel_active: None,
            bursts_since_refresh: 0,
            empty_burst_streak: 0,
            seq: 0,
        }
    }

    /// Opens an iteration with a fresh look at the tunnels. Returns whether
    /// the socket is to be closed: the tunnel state flipped, the socket has
    /// served its bursts, or bursts stayed empty. In the first two cases the
    /// counters start anew.
    pub fn begin_iteration(&mut self, tunnel_active: bool) -> (refresh: bool)
        ensures
            refresh == old(self).must_refresh(tunnel_active),
            *final(self) == old(self).begun(tunnel_active),
            final(self).bursts_since_refresh < RECONNECT_INTERVAL_BURSTS,
    {
        let flipped: bool = match self.last_tunnel_active {
            Some(prev) => prev != tunnel_active,
            None => false,
        };
        let period_over: bool = flipped || self.bursts_since_refresh >= RECONNECT_INTERVAL_BURSTS;
        let refresh: bool = period_over || self.empty_burst_streak >= RECONNECT_EMPTY_BURSTS;
        if period_over {
            self.bursts_since_refresh = 0;
            self.empty_burst_streak = 0;
        }
        if refresh {
            self.connected = false;
        }
        refresh
    }

    /// Whether a socket has to be opened before the next burst.
    pub fn needs_socket(&self) -> (b: bool)
        ensures
            b == !self.connected,
    {
        !self.connected
    }

    /// The socket was opened.
    pub fn socket_opened(&mut self)
        ensures
            *final(self) == (WorkerState { connected: true, ..*old(self) }),
    {
        self.connected = true;
    }

    /// The socket could not be opened: the burst is skipped, and the tunnel
    /// state seen is kept.
    pub fn socket_failed(&mut self, tunnel_active: bool)
        ensures
            *final(self) == (WorkerState {
                connected: false,
                last_tunnel_active: Some(tunnel_active),
                ..*old(self)
            }),
    {
        self.connected = false;
        self.last_tunnel_active = Some(tunnel_active);
    }

    /// Hands out the sequence number of the next frame. Numbers follow one
    /// another and wrap at 2^32.
    pub fn next_seq(&mut self) -> (seq: u32)
        ensures
            seq == old(self).seq,
            final(self).seq as int == (old(self).seq + 1) % 0x1_0000_0000,
            *final(self) == (WorkerState { seq: final(self).seq, ..*old(self) }),
    {
        let seq: u32 = self.seq;
        self.seq = if seq == u32::MAX {
            0
        } else {
            seq + 1
        };
        seq
    }

    /// Builds the next frame: the next sequence number, the send time, a
    /// fresh nonce, sealed under `secret`.
    pub fn next_probe(&mut self, send_realtime_ns: u64, secret: &[u8]) -> (packet: [u8; 32])
        ensures
            exists|nonce: u64|
                packet@ == #[trigger] packet_bytes(
                    old(self).seq,
                    send_realtime_ns,
                    nonce,
                    secret@,
                ),
            final(self).seq as int == (old(self).seq + 1) % 0x1_0000_0000,
            *final(self) == (WorkerState { seq: final(self).seq, ..*old(self) }),
    {
        let nonce: u64 = random_nonce();
        let seq: u32 = self.next_seq();
        build_packet(seq, send_realtime_ns, nonce, secret)
    }

    /// Closes a burst that brought `samples` samples. Returns whether the
    /// socket is to be closed at once: the second empty burst in a row, and
    /// each one after it, gives the socket up.
    pub fn end_burst(&mut self, samples: usize, tunnel_active: bool) -> (close: bool)
        ensures
            close == (old(self).streak_after(samples) >= RECONNECT_EMPTY_BURSTS),
            *final(self) == old(self).ended(samples, tunnel_active),
    {
        if samples == 0 {
            if self.empty_burst_streak < usize::MAX {
                self.empty_burst_streak = self.empty_burst_streak + 1;
            }
        } else {
            self.empty_burst_streak = 0;
        }
        let close: bool = self.empty_burst_streak >= RECONNECT_EMPTY_BURSTS;
        if close {
            self.connected = false;
            self.bursts_since_refresh = 0;
        } else if self.bursts_since_refresh < usize::MAX {
            self.bursts_since_refresh = self.bursts_since_refresh + 1;
        }
        self.last_tunnel_active = Some(tunnel_active);
        close
    }
}

/// A socket never serves more than six bursts: an iteration that follows a
/// burst opens with fewer than six bursts on the socket, whatever the tunnel
/// does.
pub proof fn lemma_refresh_in_time(s: WorkerState, samples: usize, before: bool, after: bool)
    requires
        s.bursts_since_refresh < RECONNECT_INTERVAL_BURSTS,
    ensures
        s.ended(samples, before).bursts_since_refresh <= RECONNECT_INTERVAL_BURSTS,
        s.ended(samples, before).begun(after).bursts_since_refresh < RECONNECT_INTERVAL_BURSTS,
        s.ended(samples, before).bursts_since_refresh == RECONNECT_INTERVAL_BURSTS ==> !s.ended(
            samples,
            before,
        ).begun(after).connected,
{
}

/// After two empty bursts in a row the worker holds no socket.
pub proof fn lemma_empty_bursts_disconnect(s: WorkerState, first: bool, second: bool)
    requires
        s.empty_burst_streak < usize::MAX - 1,
    ensures
        !s.ended(0, first).ended(0, second).connected,
{
}

/// A flip of the tunnel state gives the socket up and starts the counters
/// anew.
pub proof fn lemma_flip_refreshes(s: WorkerState, tunnel_active: bool)
    requires
        s.last_tunnel_active == Some(!tunnel_active),
    ensures
        s.must_refresh(tunnel_active),
        !s.begun(tunnel_active).connected,
        s.begun(tunnel_active).bursts_since_refresh == 0,
        s.begun(tunnel_active).empty_burst_streak == 0,
{
}

/// One step of a sleep to a deadline.
#[derive(Clone, Copy, Debug, PartialEq, Eq, Structural)]
pub enum SleepStep {
    /// The deadline is reached.
    Done,
    /// Sleep for so many nanoseconds, then look at the clock again.
    Sleep(u64),
    /// Spin until the deadline.
    Spin,
}

/// The step of a sleep to `target_ns` when the clock reads `now_ns`: sleep
/// for what is left but the spin budget; spin once no more than the budget is
/// left. Without a budget there is no spinning.
pub open spec fn sleep_plan(now_ns: u64, target_ns: u64, spin_us: u64) -> SleepStep {
    if now_ns >= target_ns {
        SleepStep::Done
    } else if spin_us == 0 || target_ns - now_ns > spin_us * NS_PER_US {
        SleepStep::Sleep((target_ns - now_ns - spin_us * NS_PER_US) as u64)
    } else {
        SleepStep::Spin
    }
}

/// Decides the next step of a sleep to a deadline.
pub fn sleep_until(now_ns: u64, target_ns: u64, spin_us: u64) -> (step: SleepStep)
    ensures
        step == sleep_plan(now_ns, target_ns, spin_us),
{
    if now_ns >= target_ns {
        return SleepStep::Done;
    }
    let remaining: u64 = target_ns - now_ns;
    let spin: u128 = (spin_us as u128) * 1_000;
    if spin_us == 0 || (remaining as u128) > spin {
        SleepStep::Sleep((remaining as u128 - spin) as u64)
    } else {
        SleepStep::Spin
    }
}

/// `a + b`, or the largest reading where that does not fit.
pub open spec fn later(a: u64, b: u64) -> u64 {
    if a + b <= u64::MAX {
        (a + b) as u64
    } else {
        u64::MAX
    }
}

/// When to send the next probe of a burst: `spacing_ms` after the previous
/// one was due.
pub fn next_send(prev_ns: u64, spacing_ms: u64) -> (at: u64)
    ensures
        spacing_ms * 1_000_000 <= u64::MAX ==> at == later(
            prev_ns,
            (spacing_ms * 1_000_000) as u64,
        ),
        spacing_ms * 1_000_000 > u64::MAX ==> at == u64::MAX,
{
    let spacing: u128 = (spacing_ms as u128) * 1_000_000;
    let at: u128 = prev_ns as u128 + spacing;
    if at > u64::MAX as u128 {
        u64::MAX
    } else {
        at as u64
    }
}

/// The tick after a burst that ended when the clock read `now_ns`: where the
/// tick is still ahead, wait for it, and the next one is one interval after
/// it; where it has passed, the next one is one interval from now.
pub open spec fn tick_after(now_ns: u64, next_tick_ns: u64, interval_ns: u64) -> (
    Option<u64>,
    u64,
) {
    if now_ns < next_tick_ns {
        (Some(next_tick_ns), later(next_tick_ns, interval_ns))
    } else {
        (None, later(now_ns, interval_ns))
    }
}

/// Schedules the next burst. Returns the deadline to sleep to, if any, and
/// the tick that follows it.
pub fn advance_tick(now_ns: u64, next_tick_ns: u64, interval_ns: u64) -> (r: (Option<u64>, u64))
    ensures
        r == tick_after(now_ns, next_tick_ns, interval_ns),
{
    if now_ns < next_tick_ns {
        (Some(next_tick_ns), next_tick_ns.saturating_add(interval_ns))
    } else {
        (None, now_ns.saturating_add(interval_ns))
    }
}

} // verus!
