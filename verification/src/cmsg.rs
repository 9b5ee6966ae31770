//! The receive timestamp in the control messages of a datagram.
//!
//! The buffer is read as 64-bit Linux lays it out, in little-endian byte
//! order: each message opens with a 16-byte header (its length in 8 bytes,
//! its level and its type in 4 bytes each), its payload follows, and the next
//! header starts at the next multiple of 8 bytes.

use vstd::prelude::*;
use crate::clock::{timespec_ns, timespec_value};

verus! {

/// The size of a machine word, to which control messages are aligned.
pub const WORD: usize = 8;

/// The size of the header of a control message.
pub const HEADER_LEN: usize = 16;

/// The size of a timestamp: seconds and nanoseconds, 8 bytes each.
pub const TIMESPEC_LEN: usize = 16;

/// The level of the control messages of the socket layer.
pub const SOL_SOCKET: u32 = 1;

/// The type of the control message that holds the receive timestamp.
pub const SCM_TIMESTAMPNS: u32 = 35;

/// `len` rounded up to a multiple of the word size.
pub open spec fn aligned(len: nat) -> nat {
    (((len + 7) / 8) * 8) as nat
}

/// Rounds a length up to a multiple of the word size.
pub fn cmsg_align(len: usize) -> (r: usize)
    requires
        len + WORD - 1 <= usize::MAX,
    ensures
        r == aligned(len as nat),
        len <= r < len + WORD,
        r % WORD == 0,
{
    let r: usize = (len + (WORD - 1)) / WORD * WORD;
    assert(r % WORD == 0 && len <= r < len + WORD) by (nonlinear_arith)
        requires
            r == ((len + 7) / 8) * 8,
            WORD == 8,
    ;
    r
}

/// The number that `width` bytes from `at` spell, least significant first.
pub open spec fn le_value(bytes: Seq<u8>, at: int, width: nat) -> nat
    decreases width,
{
    if width == 0 {
        0
    } else {
        bytes[at] as nat + 256 * le_value(bytes, at + 1, (width - 1) as nat)
    }
}

proof fn lemma_le_bound(bytes: Seq<u8>, at: int, width: nat)
    ensures
        le_value(bytes, at, width) < vstd::arithmetic::power::pow(256, width),
    decreases width,
{
    vstd::arithmetic::power::lemma_pow0(256);
    if width > 0 {
        lemma_le_bound(bytes, at + 1, (width - 1) as nat);
        vstd::arithmetic::power::lemma_pow_adds(256, 1, (width - 1) as nat);
        vstd::arithmetic::power::lemma_pow1(256);
    }
}

/// Reads 8 bytes as a little-endian number.
fn read_u64(bytes: &[u8], at: usize) -> (v: u64)
    requires
        at + 8 <= bytes@.len(),
    ensures
        v == le_value(bytes@, at as int, 8),
{
    let total: usize = bytes.len();
    let mut v: u64 = 0;
    let mut k: usize = 8;
    proof {
        vstd::arithmetic::power::lemma_pow0(256);
    }
    while k > 0
        invariant
            k <= 8,
            at + 8 <= bytes@.len() == total,
            v == le_value(bytes@, at + k, (8 - k) as nat),
            v < vstd::arithmetic::power::pow(256, (8 - k) as nat),
        decreases k,
    {
        k -= 1;
        proof {
            lemma_le_bound(bytes@, at + k, (8 - k) as nat);
            lemma_le_bound(bytes@, at + k + 1, (7 - k) as nat);
            vstd::arithmetic::power::lemma_pow_adds(256, 1, (7 - k) as nat);
            vstd::arithmetic::power::lemma_pow1(256);
            lemma_pow_256_8();
            vstd::arithmetic::power::lemma_pow_increases(256, (8 - k) as nat, 8);
        }
        v = v * 256 + bytes[at + k] as u64;
    }
    v
}

proof fn lemma_pow_256_8()
    ensures
        vstd::arithmetic::power::pow(256, 8) == 0x1_0000_0000_0000_0000int,
{
    reveal_with_fuel(vstd::arithmetic::power::pow, 9);
}

/// Reads 4 bytes as a little-endian number.
fn read_u32(bytes: &[u8], at: usize) -> (v: u32)
    requires
        at + 4 <= bytes@.len(),
    ensures
        v == le_value(bytes@, at as int, 4),
{
    let b0: u32 = bytes[at] as u32;
    let b1: u32 = bytes[at + 1] as u32;
    let b2: u32 = bytes[at + 2] as u32;
    let b3: u32 = bytes[at + 3] as u32;
    proof {
        reveal_with_fuel(le_value, 5);
    }
    b0 + 256 * (b1 + 256 * (b2 + 256 * b3))
}

/// The signed number that an unsigned 64-bit number stands for in two's
/// complement.
pub open spec fn signed(v: nat) -> int {
    if v >= 0x8000_0000_0000_0000 {
        v - 0x1_0000_0000_0000_0000
    } else {
        v as int
    }
}

fn to_signed(v: u64) -> (r: i64)
    ensures
        r == signed(v as nat),
{
    if v >= 0x8000_0000_0000_0000 {
        let low: u64 = v - 0x8000_0000_0000_0000;
        (low as i64) + i64::MIN
    } else {
        v as i64
    }
}

/// The receive timestamp found by reading the control buffer from offset
/// `at`: the payload of the first message of level `SOL_SOCKET` and type
/// `SCM_TIMESTAMPNS`. The scan ends without one where no header fits any
/// more, where a header states a length shorter than itself, or where the
/// payload of the timestamp does not fit.
pub open spec fn timestamp_from(control: Seq<u8>, at: int) -> Option<u64>
    decreases control.len() - at,
{
    if at + HEADER_LEN > control.len() {
        None
    } else {
        let len = le_value(control, at, 8);
        let level = le_value(control, at + 8, 4);
        let kind = le_value(control, at + 12, 4);
        if level == SOL_SOCKET && kind == SCM_TIMESTAMPNS {
            if at + HEADER_LEN + TIMESPEC_LEN > control.len() {
                None
            } else {
                Some(
                    timespec_value(
                        signed(le_value(control, at + HEADER_LEN, 8)) as i64,
                        signed(le_value(control, at + HEADER_LEN + 8, 8)) as i64,
                    ),
                )
            }
        } else if len < HEADER_LEN || at + aligned(len) > control.len() {
            None
        } else {
            timestamp_from(control, at + aligned(len))
        }
    }
}

/// The kernel's receive timestamp among the control messages of a datagram,
/// in nanoseconds.
pub fn recv_timestamp_ns(control: &[u8]) -> (ts: Option<u64>)
    ensures
        ts == timestamp_from(control@, 0),
{
    let n: usize = control.len();
    let mut at: usize = 0;
    loop
        invariant
            at <= n == control@.len(),
            timestamp_from(control@, 0) == timestamp_from(control@, at as int),
        decreases n - at,
    {
        if n - at < HEADER_LEN {
            return None;
        }
        let len: u64 = read_u64(control, at);
        let level: u32 = read_u32(control, at + 8);
        let kind: u32 = read_u32(control, at + 12);
        if level == SOL_SOCKET && kind == SCM_TIMESTAMPNS {
            if n - at < HEADER_LEN + TIMESPEC_LEN {
                return None;
            }
            let sec: i64 = to_signed(read_u64(control, at + HEADER_LEN));
            let nsec: i64 = to_signed(read_u64(control, at + HEADER_LEN + 8));
            return Some(timespec_ns(sec, nsec));
        }
        if len < HEADER_LEN as u64 {
            return None;
        }
        let step: u128 = (len as u128 + 7) / 8 * 8;
        if step > (n - at) as u128 {
            return None;
        }
        at = at + step as usize;
    }
}

} // verus!
