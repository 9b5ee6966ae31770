//! Measured numbers as whole multiples of a unit.
//!
//! Logs and configurations hold double-precision numbers: milliseconds,
//! degrees, ratios. This module reads such a number from its 64 bits (one
//! sign bit, eleven exponent bits, 52 fraction bits) and gives it in the
//! units that the rest of the library counts in, rounded to the nearest
//! whole unit, halves to the even one.

use vstd::arithmetic::power2::{
    lemma2_to64, lemma_pow2_adds, lemma_pow2_pos, lemma_pow2_strictly_increases, lemma_pow2_unfold,
    pow2,
};
use vstd::prelude::*;

verus! {

/// The sign bit of a double.
pub const SIGN_BIT: u64 = 0x8000_0000_0000_0000;

/// 2 to the power 52: one more than the largest fraction field.
pub const FRACTION: u64 = 0x10_0000_0000_0000;

/// The number of values of the exponent field.
pub const EXPONENTS: u64 = 2048;

/// The exponent field of a double.
pub open spec fn exponent_field(bits: u64) -> nat {
    ((bits / FRACTION) % EXPONENTS) as nat
}

/// The fraction field of a double.
pub open spec fn fraction_field(bits: u64) -> nat {
    (bits % FRACTION) as nat
}

/// Whether a double is a number: neither an infinity nor a NaN.
pub open spec fn finite(bits: u64) -> bool {
    exponent_field(bits) != 2047
}

/// Whether a double has its sign bit set.
pub open spec fn sign_set(bits: u64) -> bool {
    bits >= SIGN_BIT
}

/// The whole number that a double's magnitude is a power of two times.
pub open spec fn mantissa(bits: u64) -> nat {
    if exponent_field(bits) == 0 {
        fraction_field(bits)
    } else {
        FRACTION as nat + fraction_field(bits)
    }
}

/// The power of two that a double's mantissa is to be multiplied by.
pub open spec fn exponent(bits: u64) -> int {
    if exponent_field(bits) == 0 {
        -1074
    } else {
        exponent_field(bits) - 1075
    }
}

/// `num / den` rounded to the nearest whole number, halves to the even one.
pub open spec fn nearest(num: nat, den: nat) -> nat {
    let q = num / den;
    let r = num % den;
    if 2 * r > den || (2 * r == den && q % 2 == 1) {
        q + 1
    } else {
        q
    }
}

/// The magnitude of a finite double in units of which `per_one` make 1,
/// rounded to the nearest whole unit.
pub open spec fn magnitude_in(bits: u64, per_one: u32) -> nat {
    let m = (mantissa(bits) * per_one) as nat;
    if exponent(bits) >= 0 {
        (m * pow2(exponent(bits) as nat)) as nat
    } else {
        nearest(m, pow2((-exponent(bits)) as nat))
    }
}

/// A magnitude as it is handed on: itself, or the largest 64-bit number
/// where it is larger.
pub open spec fn capped(magnitude: nat) -> u64 {
    if magnitude > u64::MAX {
        u64::MAX
    } else {
        magnitude as u64
    }
}

/// Powers of two grow with the exponent.
proof fn lemma_pow2_grows(a: nat, b: nat)
    requires
        a <= b,
    ensures
        pow2(a) <= pow2(b),
        pow2(a) >= 1,
{
    lemma_pow2_pos(a);
    if a < b {
        lemma_pow2_strictly_increases(a, b);
    }
}

proof fn lemma_pow2_87()
    ensures
        pow2(64) == 0x1_0000_0000_0000_0000,
        pow2(86) == 0x40_0000_0000_0000_0000_0000,
        pow2(87) == 0x80_0000_0000_0000_0000_0000,
{
    lemma2_to64();
    lemma_pow2_adds(64, 22);
    lemma_pow2_adds(64, 23);
    assert(0x1_0000_0000_0000_0000 * 0x40_0000 == 0x40_0000_0000_0000_0000_0000int);
    assert(0x1_0000_0000_0000_0000 * 0x80_0000 == 0x80_0000_0000_0000_0000_0000int);
}

/// 2 to the power `n`, for `n` up to 86.
fn power_of_two(n: u32) -> (p: u128)
    requires
        n <= 86,
    ensures
        p == pow2(n as nat),
        p >= 1,
{
    let mut p: u128 = 1;
    let mut i: u32 = 0;
    proof {
        lemma2_to64();
        lemma_pow2_87();
    }
    while i < n
        invariant
            i <= n <= 86,
            p == pow2(i as nat),
            1 <= p <= 0x40_0000_0000_0000_0000_0000,
        decreases n - i,
    {
        proof {
            lemma_pow2_grows((i + 1) as nat, 86);
            lemma_pow2_87();
            lemma_pow2_unfold((i + 1) as nat);
        }
        p = p * 2;
        i += 1;
    }
    p
}

/// The magnitude of a double in units of which `per_one` make 1: `None` for
/// an infinity or a NaN; else whether the sign is set, and the magnitude
/// rounded to the nearest whole unit, or the largest 64-bit number where it
/// is larger.
pub fn scale_double(bits: u64, per_one: u32) -> (r: Option<(bool, u64)>)
    ensures
        !finite(bits) ==> r is None,
        finite(bits) ==> r == Some((sign_set(bits), capped(magnitude_in(bits, per_one)))),
{
    let field: u64 = (bits / FRACTION) % EXPONENTS;
    let fraction: u64 = bits % FRACTION;
    if field == 2047 {
        return None;
    }
    let negative: bool = bits >= SIGN_BIT;
    let m: u64 = if field == 0 {
        fraction
    } else {
        FRACTION + fraction
    };
    assert((m as u128) * (per_one as u128) <= 0x20_0000_0000_0000 * 0xFFFF_FFFF)
        by (nonlinear_arith)
        requires
            m < 0x20_0000_0000_0000,
            per_one <= 0xFFFF_FFFF,
    ;
    let num: u128 = (m as u128) * (per_one as u128);
    let magnitude: u64 = if field >= 1075 {
        let up: u64 = field - 1075;
        if num == 0 {
            proof {
                assert(0 * pow2(up as nat) == 0) by (nonlinear_arith);
            }
            0
        } else if up >= 64 {
            proof {
                lemma_pow2_grows(64, up as nat);
                lemma_pow2_87();
                assert(num * pow2(up as nat) >= 0x1_0000_0000_0000_0000) by (nonlinear_arith)
                    requires
                        num >= 1,
                        pow2(up as nat) >= 0x1_0000_0000_0000_0000,
                ;
            }
            u64::MAX
        } else {
            let p: u128 = power_of_two(up as u32);
            match num.checked_mul(p) {
                Some(v) => if v > u64::MAX as u128 {
                    u64::MAX
                } else {
                    v as u64
                },
                None => u64::MAX,
            }
        }
    } else {
        let down: u64 = if field == 0 {
            1074
        } else {
            1075 - field
        };
        if down > 86 {
            proof {
                lemma_pow2_grows(87, down as nat);
                lemma_pow2_87();
                let den = pow2(down as nat);
                let n = num as int;
                let d = den as int;
                assert(n / d == 0 && n % d == n) by (nonlinear_arith)
                    requires
                        0 <= n < d,
                ;
            }
            0
        } else {
            let den: u128 = power_of_two(down as u32);
            proof {
                lemma_pow2_grows(down as nat, 86);
                lemma_pow2_87();
            }
            let q: u128 = num / den;
            let r: u128 = num % den;
            let rounded: u128 = if 2 * r > den || (2 * r == den && q % 2 == 1) {
                q + 1
            } else {
                q
            };
            if rounded > u64::MAX as u128 {
                u64::MAX
            } else {
                rounded as u64
            }
        }
    };
    Some((negative, magnitude))
}

/// The round-trip time that a logged sample stands for, in nanoseconds:
/// none for a sample that is negative, an infinity or a NaN.
pub open spec fn sample_of(ms_bits: u64) -> Option<u64> {
    if !finite(ms_bits) || (sign_set(ms_bits) && mantissa(ms_bits) != 0) {
        None
    } else {
        Some(capped(magnitude_in(ms_bits, 1_000_000)))
    }
}

/// Reads a logged sample, a double in milliseconds, as nanoseconds. Samples
/// that are negative or not finite are dropped.
pub fn sample_ns(ms_bits: u64) -> (r: Option<u64>)
    ensures
        r == sample_of(ms_bits),
{
    match scale_double(ms_bits, 1_000_000) {
        Some((negative, magnitude)) => {
            let zero: bool = (ms_bits / FRACTION) % EXPONENTS == 0 && ms_bits % FRACTION == 0;
            if negative && !zero {
                None
            } else {
                Some(magnitude)
            }
        },
        None => None,
    }
}

/// The samples that a logged burst stands for, in nanoseconds, without
/// those that are dropped.
pub open spec fn samples_of_log(ms_bits: Seq<u64>) -> Seq<u64>
    decreases ms_bits.len(),
{
    if ms_bits.len() == 0 {
        Seq::empty()
    } else {
        let prev = samples_of_log(ms_bits.drop_last());
        match sample_of(ms_bits.last()) {
            Some(ns) => prev.push(ns),
            None => prev,
        }
    }
}

/// Reads the samples of a logged burst.
pub fn ingest_samples(ms_bits: &[u64]) -> (out: Vec<u64>)
    ensures
        out@ == samples_of_log(ms_bits@),
{
    let mut out: Vec<u64> = Vec::new();
    let mut i: usize = 0;
    while i < ms_bits.len()
        invariant
            i <= ms_bits@.len(),
            out@ == samples_of_log(ms_bits@.take(i as int)),
        decreases ms_bits@.len() - i,
    {
        proof {
            assert(ms_bits@.take(i + 1).drop_last() =~= ms_bits@.take(i as int));
            assert(ms_bits@.take(i + 1).last() == ms_bits@[i as int]);
        }
        match sample_ns(ms_bits[i]) {
            Some(ns) => {
                out.push(ns);
            },
            None => {},
        }
        i += 1;
    }
    assert(ms_bits@.take(ms_bits@.len() as int) =~= ms_bits@);
    out
}

/// A signed quantity that a double stands for, in units of which `per_one`
/// make 1: none for an infinity, a NaN, or a number beyond the 64-bit range.
pub open spec fn signed_of(bits: u64, per_one: u32) -> Option<i64> {
    if !finite(bits) {
        None
    } else if sign_set(bits) {
        if magnitude_in(bits, per_one) > 0x8000_0000_0000_0000 {
            None
        } else {
            Some((-magnitude_in(bits, per_one)) as i64)
        }
    } else if magnitude_in(bits, per_one) > i64::MAX {
        None
    } else {
        Some(magnitude_in(bits, per_one) as i64)
    }
}

/// Reads a double as a signed quantity in units of which `per_one` make 1.
pub fn signed_units(bits: u64, per_one: u32) -> (r: Option<i64>)
    ensures
        r == signed_of(bits, per_one),
{
    match scale_double(bits, per_one) {
        Some((negative, magnitude)) => {
            if negative {
                if magnitude > 0x8000_0000_0000_0000 {
                    None
                } else if magnitude == 0x8000_0000_0000_0000 {
                    Some(i64::MIN)
                } else {
                    Some(-(magnitude as i64))
                }
            } else if magnitude > i64::MAX as u64 {
                None
            } else {
                Some(magnitude as i64)
            }
        },
        None => None,
    }
}

/// An unsigned quantity that a double stands for, in units of which
/// `per_one` make 1: none for an infinity or a NaN; 0 for a negative number;
/// the largest 64-bit number where the quantity is larger.
pub open spec fn unsigned_of(bits: u64, per_one: u32) -> Option<u64> {
    if !finite(bits) {
        None
    } else if sign_set(bits) {
        Some(0)
    } else {
        Some(capped(magnitude_in(bits, per_one)))
    }
}

/// Reads a double as an unsigned quantity in units of which `per_one` make
/// 1.
pub fn unsigned_units(bits: u64, per_one: u32) -> (r: Option<u64>)
    ensures
        r == unsigned_of(bits, per_one),
{
    match scale_double(bits, per_one) {
        Some((negative, magnitude)) => if negative {
            Some(0)
        } else {
            Some(magnitude)
        },
        None => None,
    }
}

} // verus!
