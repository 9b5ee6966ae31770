//! Physics notes: a claimed egress region that the measured round-trip time
//! contradicts.

use vstd::prelude::*;
use crate::text::{chars_of, decimal, digit_char, opt_text, push_chars, push_decimal, texts};

verus! {

/// Nanoseconds in a millisecond.
pub const NS_PER_MS: u64 = 1_000_000;

/// The lower-case form of a text, as Unicode defines it.
pub uninterp spec fn lowercase(s: Seq<char>) -> Seq<char>;

/// `str::to_lowercase`: the lower-case form of `s`.
#[verifier::external_body]
fn to_lowercase(s: &str) -> (r: String)
    ensures
        r@ == lowercase(s@),
{
    s.to_lowercase()
}

/// Whether `needle` occurs in `hay` as a run of consecutive characters.
pub open spec fn occurs_in(needle: Seq<char>, hay: Seq<char>) -> bool {
    exists|i: int|
        0 <= i <= hay.len() - needle.len() && #[trigger] hay.subrange(i, i + needle.len())
            == needle
}

/// Tests whether `needle` occurs in `hay`.
pub fn contains(hay: &[char], needle: &[char]) -> (b: bool)
    ensures
        b == occurs_in(needle@, hay@),
{
    if needle.len() > hay.len() {
        return false;
    }
    let last: usize = hay.len() - needle.len();
    let mut i: usize = 0;
    while i <= last
        invariant
            i <= last + 1,
            last == hay@.len() - needle@.len(),
            hay@.len() <= usize::MAX,
            forall|j: int| 0 <= j < i ==> #[trigger] hay@.subrange(j, j + needle@.len()) != needle@,
        decreases last + 1 - i,
    {
        let mut k: usize = 0;
        while k < needle.len() && hay[i + k] == needle[k]
            invariant
                i <= last,
                last == hay@.len() - needle@.len(),
                hay@.len() <= usize::MAX,
                k <= needle@.len(),
                forall|j: int| 0 <= j < k ==> hay@[i + j] == needle@[j],
            decreases needle@.len() - k,
        {
            k += 1;
        }
        if k == needle.len() {
            assert(hay@.subrange(i as int, i + needle@.len()) =~= needle@);
            return true;
        }
        proof {
            let cut = hay@.subrange(i as int, i + needle@.len());
            assert(cut[k as int] != needle@[k as int]);
        }
        i += 1;
    }
    false
}

/// A number of nanoseconds in tenths of a millisecond, rounded to the
/// nearest, halves to the even tenth.
pub open spec fn tenths_of_ms(ns: nat) -> nat {
    let q = ns / 100_000;
    let r = ns % 100_000;
    if r > 50_000 || (r == 50_000 && q % 2 == 1) {
        q + 1
    } else {
        q
    }
}

/// A duration in milliseconds with one decimal: a minus sign where it is
/// negative, the whole milliseconds, a point, the tenth.
pub open spec fn ms_one_decimal(ns: int) -> Seq<char> {
    let t = tenths_of_ms((if ns < 0 {
        -ns
    } else {
        ns
    }) as nat);
    (if ns < 0 {
        seq!['-']
    } else {
        Seq::empty()
    }) + decimal(t / 10) + seq!['.', digit_char(t % 10)]
}

/// Appends `ns` in milliseconds with one decimal.
pub fn push_ms(out: &mut String, ns: i128)
    ensures
        final(out)@ == old(out)@ + ms_one_decimal(ns as int),
{
    let mag: u128 = if ns < 0 {
        ((-(ns + 1)) as u128) + 1
    } else {
        ns as u128
    };
    let q: u128 = mag / 100_000;
    let r: u128 = mag % 100_000;
    let t: u128 = if r > 50_000 || (r == 50_000 && q % 2 == 1) {
        q + 1
    } else {
        q
    };
    if ns < 0 {
        out.push('-');
    }
    push_decimal(out, t / 10);
    out.push('.');
    out.push(((48 + t % 10) as u8) as char);
    assert(out@ =~= old(out)@ + ms_one_decimal(ns as int));
}

/// Whether a claimed region and a region hint name the same place: one of
/// their lower-case forms occurs in the other.
pub open spec fn regions_agree(claimed_lower: Seq<char>, hint_lower: Seq<char>) -> bool {
    occurs_in(hint_lower, claimed_lower) || occurs_in(claimed_lower, hint_lower)
}

/// The text of a note.
pub open spec fn mismatch_note(
    claimed: Seq<char>,
    region_hint: Seq<char>,
    min_rtt_ns: u64,
    threshold_ns: i64,
) -> Seq<char> {
    "physics_mismatch: claimed="@ + claimed + " endpoint="@ + region_hint + " min_rtt_ms="@
        + ms_one_decimal(min_rtt_ns as int) + " threshold_ms="@ + ms_one_decimal(
        threshold_ns as int,
    )
}

/// The notes for an endpoint whose region hint and the claimed region have
/// the given lower-case forms: one note where both are set, they agree, and
/// the minimum round-trip time exceeds the threshold; none otherwise.
pub open spec fn notes_given(
    region_hint: Option<Seq<char>>,
    claimed: Option<Seq<char>>,
    hint_lower: Seq<char>,
    claimed_lower: Seq<char>,
    min_rtt_ns: Option<u64>,
    threshold_ns: i64,
) -> Seq<Seq<char>> {
    if region_hint is Some && claimed is Some && regions_agree(claimed_lower, hint_lower)
        && min_rtt_ns is Some && min_rtt_ns->0 > threshold_ns {
        seq![mismatch_note(claimed->0, region_hint->0, min_rtt_ns->0, threshold_ns)]
    } else {
        Seq::empty()
    }
}

/// The notes for an endpoint.
pub open spec fn notes_for(
    region_hint: Option<Seq<char>>,
    claimed: Option<Seq<char>>,
    min_rtt_ns: Option<u64>,
    threshold_ns: i64,
) -> Seq<Seq<char>> {
    if region_hint is Some && claimed is Some {
        notes_given(
            region_hint,
            claimed,
            lowercase(region_hint->0),
            lowercase(claimed->0),
            min_rtt_ns,
            threshold_ns,
        )
    } else {
        Seq::empty()
    }
}

/// The notes for an endpoint, given the lower-case forms of its region hint
/// and of the claimed region.
pub fn physics_notes_given(
    region_hint: &Option<String>,
    claimed: &Option<String>,
    hint_lower: &str,
    claimed_lower: &str,
    min_rtt_ns: Option<u64>,
    threshold_ns: i64,
) -> (notes: Vec<String>)
    ensures
        texts(notes@) == notes_given(
            opt_text(*region_hint),
            opt_text(*claimed),
            hint_lower@,
            claimed_lower@,
            min_rtt_ns,
            threshold_ns,
        ),
{
    let mut notes: Vec<String> = Vec::new();
    assert(texts(notes@) =~= Seq::<Seq<char>>::empty());
    let (hint, claim) = match (region_hint, claimed) {
        (Some(h), Some(c)) => (h, c),
        _ => {
            return notes;
        },
    };
    let a = chars_of(claimed_lower);
    let b = chars_of(hint_lower);
    if !(contains(a.as_slice(), b.as_slice()) || contains(b.as_slice(), a.as_slice())) {
        return notes;
    }
    let min: u64 = match min_rtt_ns {
        Some(m) => m,
        None => {
            return notes;
        },
    };
    if (min as i128) > (threshold_ns as i128) {
        let claim_chars = chars_of(claim.as_str());
        let hint_chars = chars_of(hint.as_str());
        let mut note: String = "physics_mismatch: claimed=".to_owned();
        push_chars(&mut note, claim_chars.as_slice(), 0, claim_chars.len());
        let endpoint = chars_of(" endpoint=");
        push_chars(&mut note, endpoint.as_slice(), 0, endpoint.len());
        push_chars(&mut note, hint_chars.as_slice(), 0, hint_chars.len());
        let min_label = chars_of(" min_rtt_ms=");
        push_chars(&mut note, min_label.as_slice(), 0, min_label.len());
        push_ms(&mut note, min as i128);
        let threshold_label = chars_of(" threshold_ms=");
        push_chars(&mut note, threshold_label.as_slice(), 0, threshold_label.len());
        push_ms(&mut note, threshold_ns as i128);
        proof {
            assert(claim_chars@.subrange(0, claim_chars@.len() as int) =~= claim@);
            assert(hint_chars@.subrange(0, hint_chars@.len() as int) =~= hint@);
            assert(endpoint@.subrange(0, endpoint@.len() as int) =~= " endpoint="@);
            assert(min_label@.subrange(0, min_label@.len() as int) =~= " min_rtt_ms="@);
            assert(threshold_label@.subrange(0, threshold_label@.len() as int)
                =~= " threshold_ms="@);
            assert(note@ =~= mismatch_note(claim@, hint@, min, threshold_ns));
        }
        notes.push(note);
        assert(texts(notes@) =~= seq![mismatch_note(claim@, hint@, min, threshold_ns)]);
    }
    notes
}

/// The notes for an endpoint: one `physics_mismatch` note where the claimed
/// egress region and the endpoint's region hint are both set, one contains
/// the other whatever the case, and the minimum round-trip time exceeds the
/// threshold.
pub fn physics_notes(
    region_hint: &Option<String>,
    claimed: &Option<String>,
    min_rtt_ns: Option<u64>,
    threshold_ns: i64,
) -> (notes: Vec<String>)
    ensures
        texts(notes@) == notes_for(
            opt_text(*region_hint),
            opt_text(*claimed),
            min_rtt_ns,
            threshold_ns,
        ),
        notes@.len() <= 1,
{
    match (region_hint, claimed) {
        (Some(h), Some(c)) => {
            let hint_lower = to_lowercase(h.as_str());
            let claimed_lower = to_lowercase(c.as_str());
            let notes = physics_notes_given(
                region_hint,
                claimed,
                hint_lower.as_str(),
                claimed_lower.as_str(),
                min_rtt_ns,
                threshold_ns,
            );
            assert(texts(notes@).len() == notes@.len());
            notes
        },
        _ => {
            let notes: Vec<String> = Vec::new();
            assert(texts(notes@) =~= Seq::<Seq<char>>::empty());
            notes
        },
    }
}

} // verus!
