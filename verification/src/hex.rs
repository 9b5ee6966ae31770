//! Decoding of the shared secret from its hexadecimal spelling.

use vstd::prelude::*;
use crate::text::{chars_of, trim_bounds, trimmed};

verus! {

/// Number of bytes that `c` takes in UTF-8.
pub open spec fn utf8_width(c: char) -> nat {
    let n = c as u32;
    if n < 0x80 {
        1
    } else if n < 0x800 {
        2
    } else if n < 0x10000 {
        3
    } else {
        4
    }
}

/// Number of bytes that `s` takes in UTF-8.
pub open spec fn utf8_len(s: Seq<char>) -> nat
    decreases s.len(),
{
    if s.len() == 0 {
        0
    } else {
        utf8_len(s.drop_last()) + utf8_width(s.last())
    }
}

/// The value of a hexadecimal digit, in either case.
pub open spec fn hex_digit(c: char) -> Option<nat> {
    if '0' <= c <= '9' {
        Some((c as u32 - '0' as u32) as nat)
    } else if 'a' <= c <= 'f' {
        Some((c as u32 - 'a' as u32 + 10) as nat)
    } else if 'A' <= c <= 'F' {
        Some((c as u32 - 'A' as u32 + 10) as nat)
    } else {
        None
    }
}

/// The byte that two hexadecimal digits spell; none where either character
/// is no digit.
pub open spec fn hex_pair(hi: char, lo: char) -> Option<u8> {
    match (hex_digit(hi), hex_digit(lo)) {
        (Some(h), Some(l)) => Some((16 * h + l) as u8),
        _ => None,
    }
}

/// Whether every aligned pair of `t` spells a byte.
pub open spec fn all_pairs_valid(t: Seq<char>) -> bool {
    forall|k: int| 0 <= k < t.len() / 2 ==> (#[trigger] hex_pair(t[2 * k], t[2 * k + 1])) is Some
}

/// The bytes that an even-length run of valid pairs spells.
pub open spec fn decoded(t: Seq<char>) -> Seq<u8> {
    Seq::new(t.len() / 2, |k: int| hex_pair(t[2 * k], t[2 * k + 1]).unwrap())
}

/// Whether `c` is an ASCII character.
pub open spec fn is_ascii_char(c: char) -> bool {
    (c as u32) < 0x80
}

/// Whether `t` holds ASCII characters only.
pub open spec fn is_ascii_text(t: Seq<char>) -> bool {
    forall|i: int| 0 <= i < t.len() ==> is_ascii_char(#[trigger] t[i])
}

/// What decoding the text `s` yields: its whitespace is trimmed; a trimmed
/// text of odd byte length is refused; so is one with a character outside
/// ASCII or a pair that spells no byte.
pub open spec fn hex_decoding(s: Seq<char>) -> Result<Seq<u8>, Seq<char>> {
    let t = trimmed(s);
    if utf8_len(t) % 2 != 0 {
        Err("secretHex must be even-length hex"@)
    } else if !is_ascii_text(t) || !all_pairs_valid(t) {
        Err("secretHex contains invalid hex"@)
    } else {
        Ok(decoded(t))
    }
}

fn digit_value(c: char) -> (r: Option<u8>)
    ensures
        match r {
            Some(v) => hex_digit(c) == Some(v as nat) && v < 16,
            None => hex_digit(c) is None,
        },
{
    let n: u32 = c as u32;
    if '0' <= c && c <= '9' {
        Some((n - '0' as u32) as u8)
    } else if 'a' <= c && c <= 'f' {
        Some((n - 'a' as u32 + 10) as u8)
    } else if 'A' <= c && c <= 'F' {
        Some((n - 'A' as u32 + 10) as u8)
    } else {
        None
    }
}

fn pair_value(hi: char, lo: char) -> (r: Option<u8>)
    ensures
        r == hex_pair(hi, lo),
{
    match digit_value(lo) {
        None => None,
        Some(l) => match digit_value(hi) {
            Some(h) => Some(16 * h + l),
            None => None,
        },
    }
}

/// Whether every character of `t` is a hexadecimal digit.
pub open spec fn all_hex_digits(t: Seq<char>) -> bool {
    forall|i: int| 0 <= i < t.len() ==> hex_digit(#[trigger] t[i]) is Some
}

/// A text decodes exactly where, once trimmed, it has an even number of
/// characters that are all hexadecimal digits. It then gives one byte for
/// each two characters: sixteen times the value of the first and the value of
/// the second.
pub proof fn lemma_decodes_hex_only(s: Seq<char>)
    ensures
        hex_decoding(s) is Ok <==> trimmed(s).len() % 2 == 0 && all_hex_digits(trimmed(s)),
        hex_decoding(s) matches Ok(bytes) ==> bytes.len() == trimmed(s).len() / 2 && forall|
            k: int,
        |
            0 <= k < bytes.len() ==> #[trigger] bytes[k] == 16 * hex_digit(
                trimmed(s)[2 * k],
            )->0 + hex_digit(trimmed(s)[2 * k + 1])->0,
{
    let t = trimmed(s);
    if t.len() % 2 == 0 && all_hex_digits(t) {
        assert forall|i: int| 0 <= i < t.len() implies is_ascii_char(#[trigger] t[i]) by {
            assert(hex_digit(t[i]) is Some);
        }
        lemma_ascii_len(t);
        assert forall|k: int| 0 <= k < t.len() / 2 implies (#[trigger] hex_pair(
            t[2 * k],
            t[2 * k + 1],
        )) is Some by {
            assert(hex_digit(t[2 * k]) is Some);
            assert(hex_digit(t[2 * k + 1]) is Some);
        }
    }
    if hex_decoding(s) is Ok {
        lemma_ascii_len(t);
        assert forall|i: int| 0 <= i < t.len() implies hex_digit(#[trigger] t[i]) is Some by {
            let k = i / 2;
            assert(hex_pair(t[2 * k], t[2 * k + 1]) is Some);
        }
        let bytes = hex_decoding(s)->Ok_0;
        assert forall|k: int| 0 <= k < bytes.len() implies #[trigger] bytes[k] == 16 * hex_digit(
            t[2 * k],
        )->0 + hex_digit(t[2 * k + 1])->0 by {
            assert(hex_pair(t[2 * k], t[2 * k + 1]) is Some);
        }
    }
}

proof fn lemma_ascii_len(t: Seq<char>)
    requires
        is_ascii_text(t),
    ensures
        utf8_len(t) == t.len(),
    decreases t.len(),
{
    if t.len() > 0 {
        let r = t.drop_last();
        assert forall|i: int| 0 <= i < r.len() implies is_ascii_char(#[trigger] r[i]) by {
            assert(r[i] == t[i]);
        }
        lemma_ascii_len(r);
        assert(t.last() == t[t.len() - 1]);
    }
}

/// Decodes a hexadecimal secret.
pub fn hex_to_bytes(s: &str) -> (r: Result<Vec<u8>, String>)
    ensures
        match r {
            Ok(bytes) => hex_decoding(s@) == Ok::<Seq<u8>, Seq<char>>(bytes@),
            Err(msg) => hex_decoding(s@) == Err::<Seq<u8>, Seq<char>>(msg@),
        },
{
    let chars = chars_of(s);
    let (start, end) = trim_bounds(chars.as_slice());
    let ghost t = trimmed(s@);
    // Parity of the byte length of the trimmed text, and whether it is ASCII.
    let mut odd: bool = false;
    let mut ascii: bool = true;
    let mut i: usize = start;
    while i < end
        invariant
            start <= i <= end <= chars@.len(),
            t == chars@.subrange(start as int, end as int),
            odd == (utf8_len(t.take(i - start)) % 2 != 0),
            ascii == is_ascii_text(t.take(i - start)),
        decreases end - i,
    {
        let n: u32 = chars[i] as u32;
        proof {
            let before = t.take(i - start);
            let after = t.take(i - start + 1);
            assert(after.drop_last() == before);
            assert(after.last() == chars@[i as int]);
            if is_ascii_text(before) && n < 0x80 {
                assert forall|j: int| 0 <= j < after.len() implies is_ascii_char(
                    #[trigger] after[j],
                ) by {
                    if j < before.len() {
                        assert(after[j] == before[j]);
                    }
                }
            }
            if !is_ascii_text(before) {
                let j = choose|j: int| 0 <= j < before.len() && !is_ascii_char(
                    #[trigger] before[j],
                );
                assert(after[j] == before[j]);
            }
        }
        if n >= 0x80 {
            ascii = false;
        }
        if n < 0x80 || (0x800 <= n && n < 0x10000) {
            odd = !odd;
        }
        i += 1;
    }
    assert(t.take(end - start) == t);
    if odd {
        return Err("secretHex must be even-length hex".to_owned());
    }
    if !ascii {
        return Err("secretHex contains invalid hex".to_owned());
    }
    proof {
        lemma_ascii_len(t);
    }
    let mut out: Vec<u8> = Vec::new();
    let mut k: usize = start;
    while k < end
        invariant
            start <= k <= end <= chars@.len(),
            t == chars@.subrange(start as int, end as int),
            t == trimmed(s@),
            utf8_len(t) % 2 == 0,
            is_ascii_text(t),
            (end - start) % 2 == 0,
            (k - start) % 2 == 0,
            out@.len() == (k - start) / 2,
            forall|j: int|
                0 <= j < out@.len() ==> hex_pair(t[2 * j], t[2 * j + 1]) == Some(#[trigger] out@[j]),
        decreases end - k,
    {
        match pair_value(chars[k], chars[k + 1]) {
            Some(b) => {
                out.push(b);
            },
            None => {
                proof {
                    let j = (k - start) / 2;
                    assert(hex_pair(t[2 * j], t[2 * j + 1]) is None);
                }
                return Err("secretHex contains invalid hex".to_owned());
            },
        }
        k += 2;
    }
    proof {
        assert forall|j: int| 0 <= j < t.len() / 2 implies (#[trigger] hex_pair(
            t[2 * j],
            t[2 * j + 1],
        )) is Some by {
            assert(hex_pair(t[2 * j], t[2 * j + 1]) == Some(out@[j]));
        }
        assert(out@ =~= decoded(t));
    }
    Ok(out)
}

} // verus!
