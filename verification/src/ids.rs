//! Target ids: `endpoint` on the default path, `endpoint@path` on any other.

use vstd::prelude::*;
use crate::text::{chars_of, find_char, first_index_of, push_chars, same_chars};

verus! {

/// The endpoint's part of a target id: what stands before the first `@`, or
/// the whole id where there is none.
pub open spec fn base_id(id: Seq<char>) -> Seq<char> {
    id.take(first_index_of(id, '@') as int)
}

/// The endpoint's part of a target id.
pub fn base_id_of(id: &str) -> (base: String)
    ensures
        base@ == base_id(id@),
{
    let chars = chars_of(id);
    let cut: usize = find_char(chars.as_slice(), '@');
    let mut base = String::new();
    push_chars(&mut base, chars.as_slice(), 0, cut);
    assert(chars@.subrange(0, cut as int) =~= chars@.take(cut as int));
    base
}

/// An id without `@` is its own base, and is the base of every id made of
/// it, `@`, and a path.
pub proof fn lemma_base_of_composite(endpoint: Seq<char>, path: Seq<char>)
    requires
        !endpoint.contains('@'),
    ensures
        base_id(endpoint) == endpoint,
        base_id(endpoint + seq!['@'] + path) == endpoint,
{
    let id = endpoint + seq!['@'] + path;
    assert forall|i: int| 0 <= i < endpoint.len() implies #[trigger] id[i] != '@' by {
        assert(id[i] == endpoint[i]);
        assert(endpoint.contains(endpoint[i]));
    }
    assert(id[endpoint.len() as int] == '@');
    crate::text::lemma_first_index_of(id, '@', endpoint.len() as int);
    assert(id.take(endpoint.len() as int) =~= endpoint);
    assert forall|i: int| 0 <= i < endpoint.len() implies #[trigger] endpoint[i] != '@' by {
        assert(endpoint.contains(endpoint[i]));
    }
    crate::text::lemma_first_index_of(endpoint, '@', endpoint.len() as int);
    assert(endpoint.take(endpoint.len() as int) =~= endpoint);
}

/// Whether no text occurs twice.
pub open spec fn distinct(keys: Seq<Seq<char>>) -> bool {
    forall|a: int, b: int| 0 <= a < b < keys.len() ==> keys[a] != keys[b]
}

/// The distinct texts of `keys`, in the order in which they first appear.
pub open spec fn first_seen(keys: Seq<Seq<char>>) -> Seq<Seq<char>>
    decreases keys.len(),
{
    if keys.len() == 0 {
        Seq::empty()
    } else {
        let prev = first_seen(keys.drop_last());
        if prev.contains(keys.last()) {
            prev
        } else {
            prev.push(keys.last())
        }
    }
}

/// `first_seen(keys)` holds every key, each once, and nothing else.
pub proof fn lemma_first_seen(keys: Seq<Seq<char>>)
    ensures
        forall|i: int| 0 <= i < keys.len() ==> first_seen(keys).contains(#[trigger] keys[i]),
        forall|k: int|
            0 <= k < first_seen(keys).len() ==> keys.contains(#[trigger] first_seen(keys)[k]),
        distinct(first_seen(keys)),
        first_seen(keys).len() <= keys.len(),
    decreases keys.len(),
{
    if keys.len() > 0 {
        let front = keys.drop_last();
        lemma_first_seen(front);
        let prev = first_seen(front);
        let all = first_seen(keys);
        assert forall|i: int| 0 <= i < keys.len() implies all.contains(#[trigger] keys[i]) by {
            if i < front.len() {
                assert(front[i] == keys[i]);
                let k = choose|k: int| 0 <= k < prev.len() && prev[k] == keys[i];
                assert(all[k] == keys[i]);
            } else if prev.contains(keys.last()) {
            } else {
                assert(all[prev.len() as int] == keys[i]);
            }
        }
        assert forall|k: int| 0 <= k < all.len() implies keys.contains(#[trigger] all[k]) by {
            if k < prev.len() {
                assert(all[k] == prev[k]);
                let i = choose|i: int| 0 <= i < front.len() && front[i] == prev[k];
                assert(keys[i] == all[k]);
            } else {
                assert(keys[keys.len() - 1] == all[k]);
            }
        }
    }
}

/// Index of the text `key` among `ids`, if it is there.
pub fn position(ids: &Vec<String>, key: &[char]) -> (r: Option<usize>)
    ensures
        match r {
            Some(k) => k < ids@.len() && ids@[k as int]@ == key@,
            None => forall|k: int| 0 <= k < ids@.len() ==> (#[trigger] ids@[k])@ != key@,
        },
{
    let mut k: usize = 0;
    while k < ids.len()
        invariant
            k <= ids@.len(),
            forall|j: int| 0 <= j < k ==> (#[trigger] ids@[j])@ != key@,
        decreases ids@.len() - k,
    {
        let chars = chars_of(ids[k].as_str());
        if same_chars(chars.as_slice(), key) {
            return Some(k);
        }
        k += 1;
    }
    None
}

/// Index of the first text equal to `key`.
pub open spec fn first_index(keys: Seq<Seq<char>>, key: Seq<char>) -> Option<int>
    decreases keys.len(),
{
    if keys.len() == 0 {
        None
    } else {
        match first_index(keys.drop_last(), key) {
            Some(i) => Some(i),
            None => if keys.last() == key {
                Some(keys.len() - 1)
            } else {
                None
            },
        }
    }
}

/// Index of the last text equal to `key`.
pub open spec fn last_index(keys: Seq<Seq<char>>, key: Seq<char>) -> Option<int>
    decreases keys.len(),
{
    if keys.len() == 0 {
        None
    } else if keys.last() == key {
        Some(keys.len() - 1)
    } else {
        last_index(keys.drop_last(), key)
    }
}

/// `first_index` finds the least index that holds the key, and nothing
/// where no index holds it.
pub proof fn lemma_first_index(keys: Seq<Seq<char>>, key: Seq<char>)
    ensures
        match first_index(keys, key) {
            Some(i) => 0 <= i < keys.len() && keys[i] == key && forall|j: int|
                0 <= j < i ==> keys[j] != key,
            None => forall|j: int| 0 <= j < keys.len() ==> keys[j] != key,
        },
    decreases keys.len(),
{
    if keys.len() > 0 {
        lemma_first_index(keys.drop_last(), key);
        let front = keys.drop_last();
        assert forall|j: int| 0 <= j < front.len() implies front[j] == keys[j] by {}
    }
}

/// `last_index` finds the greatest index that holds the key, and nothing
/// where no index holds it.
pub proof fn lemma_last_index(keys: Seq<Seq<char>>, key: Seq<char>)
    ensures
        match last_index(keys, key) {
            Some(i) => 0 <= i < keys.len() && keys[i] == key && forall|j: int|
                i < j < keys.len() ==> keys[j] != key,
            None => forall|j: int| 0 <= j < keys.len() ==> keys[j] != key,
        },
    decreases keys.len(),
{
    if keys.len() > 0 {
        lemma_last_index(keys.drop_last(), key);
        let front = keys.drop_last();
        assert forall|j: int| 0 <= j < front.len() implies front[j] == keys[j] by {}
    }
}

/// The index that an id resolves to by the last entry of that name.
pub open spec fn resolve_last(keys: Seq<Seq<char>>, id: Seq<char>) -> Option<int> {
    match last_index(keys, id) {
        Some(i) => Some(i),
        None => last_index(keys, base_id(id)),
    }
}

/// The index that an id resolves to by the first entry of that name.
pub open spec fn resolve_first(keys: Seq<Seq<char>>, id: Seq<char>) -> Option<int> {
    match first_index(keys, id) {
        Some(i) => Some(i),
        None => first_index(keys, base_id(id)),
    }
}

/// A composite id `X@Y` that is not listed resolves to the entry of `X`.
pub proof fn lemma_composite_resolves_to_base(
    keys: Seq<Seq<char>>,
    endpoint: Seq<char>,
    path: Seq<char>,
)
    requires
        !endpoint.contains('@'),
        !keys.contains(endpoint + seq!['@'] + path),
    ensures
        resolve_first(keys, endpoint + seq!['@'] + path) == first_index(keys, endpoint),
        resolve_last(keys, endpoint + seq!['@'] + path) == last_index(keys, endpoint),
{
    let id = endpoint + seq!['@'] + path;
    lemma_base_of_composite(endpoint, path);
    lemma_first_index(keys, id);
    lemma_last_index(keys, id);
    if first_index(keys, id) is Some {
        assert(keys.contains(keys[first_index(keys, id)->0]));
    }
    if last_index(keys, id) is Some {
        assert(keys.contains(keys[last_index(keys, id)->0]));
    }
}

} // verus!
