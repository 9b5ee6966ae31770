//! The order of target ids in reports: by their characters, first to last.

use vstd::prelude::*;

verus! {

/// Whether `a` comes before `b`: at the first place where they differ `a`
/// has the lesser character, or `a` ends there and `b` goes on.
pub open spec fn comes_before(a: Seq<char>, b: Seq<char>) -> bool
    decreases a.len(),
{
    if b.len() == 0 {
        false
    } else if a.len() == 0 {
        true
    } else if a[0] != b[0] {
        a[0] < b[0]
    } else {
        comes_before(a.drop_first(), b.drop_first())
    }
}

/// No text comes before itself.
pub proof fn lemma_not_before_itself(a: Seq<char>)
    ensures
        !comes_before(a, a),
    decreases a.len(),
{
    if a.len() > 0 {
        lemma_not_before_itself(a.drop_first());
    }
}

/// Of two texts at most one comes before the other.
pub proof fn lemma_before_one_way(a: Seq<char>, b: Seq<char>)
    requires
        comes_before(a, b),
    ensures
        !comes_before(b, a),
    decreases a.len(),
{
    if a.len() > 0 && b.len() > 0 && a[0] == b[0] {
        lemma_before_one_way(a.drop_first(), b.drop_first());
    }
}

/// Where `b` does not come before `a`, nor `c` before `b`, `c` does not
/// come before `a`.
pub proof fn lemma_not_before_chain(a: Seq<char>, b: Seq<char>, c: Seq<char>)
    requires
        !comes_before(b, a),
        !comes_before(c, b),
    ensures
        !comes_before(c, a),
    decreases a.len(),
{
    if a.len() == 0 {
    } else if b.len() == 0 {
        assert(comes_before(b, a));
    } else if c.len() == 0 {
        assert(comes_before(c, b));
    } else if a[0] == b[0] && b[0] == c[0] {
        lemma_not_before_chain(a.drop_first(), b.drop_first(), c.drop_first());
    } else {
        assert(a[0] <= b[0]);
        assert(b[0] <= c[0]);
    }
}

/// Tests whether `a` comes before `b`.
pub fn is_before(a: &[char], b: &[char]) -> (r: bool)
    ensures
        r == comes_before(a@, b@),
{
    let mut i: usize = 0;
    assert(a@.skip(0) =~= a@ && b@.skip(0) =~= b@);
    while i < a.len() && i < b.len() && a[i] == b[i]
        invariant
            i <= a@.len(),
            i <= b@.len(),
            comes_before(a@, b@) == comes_before(a@.skip(i as int), b@.skip(i as int)),
        decreases a@.len() - i,
    {
        proof {
            assert(a@.skip(i as int)[0] == a@[i as int]);
            assert(b@.skip(i as int)[0] == b@[i as int]);
            assert(a@.skip(i as int).drop_first() =~= a@.skip(i + 1));
            assert(b@.skip(i as int).drop_first() =~= b@.skip(i + 1));
        }
        i += 1;
    }
    if i >= b.len() {
        false
    } else if i >= a.len() {
        true
    } else {
        proof {
            assert(a@.skip(i as int)[0] == a@[i as int]);
            assert(b@.skip(i as int)[0] == b@[i as int]);
        }
        a[i] < b[i]
    }
}

/// Whether `order` lists the numbers below `keys.len()`, each once, so that
/// the keys they stand for ascend, and equal keys keep their order.
pub open spec fn sorts(keys: Seq<Seq<char>>, order: Seq<usize>) -> bool {
    &&& order.len() == keys.len()
    &&& forall|a: int| 0 <= a < order.len() ==> (#[trigger] order[a]) < keys.len()
    &&& forall|a: int, b: int| 0 <= a < b < order.len() ==> order[a] != order[b]
    &&& forall|a: int, b: int|
        #![trigger order[a], order[b]]
        0 <= a < b < order.len() ==> !comes_before(keys[order[b] as int], keys[order[a] as int])
    &&& forall|a: int, b: int|
        0 <= a < b < order.len() && keys[order[a] as int] == keys[order[b] as int] ==> order[a]
            < order[b]
}

/// The characters of texts.
pub open spec fn char_rows(rows: Seq<Vec<char>>) -> Seq<Seq<char>> {
    Seq::new(rows.len(), |i: int| rows[i]@)
}

/// The order in which reports list ids: ascending, equal ids in the order
/// given.
pub fn sorted_order(keys: &Vec<Vec<char>>) -> (order: Vec<usize>)
    ensures
        sorts(char_rows(keys@), order@),
{
    let ghost ks = char_rows(keys@);
    let mut order: Vec<usize> = Vec::new();
    let mut i: usize = 0;
    while i < keys.len()
        invariant
            i <= keys@.len(),
            ks == char_rows(keys@),
            order@.len() == i,
            forall|a: int| 0 <= a < order@.len() ==> (#[trigger] order@[a]) < i,
            forall|a: int, b: int| 0 <= a < b < order@.len() ==> order@[a] != order@[b],
            forall|a: int, b: int|
                #![trigger order@[a], order@[b]]
                0 <= a < b < order@.len() ==> !comes_before(
                    ks[order@[b] as int],
                    ks[order@[a] as int],
                ),
            forall|a: int, b: int|
                0 <= a < b < order@.len() && ks[order@[a] as int] == ks[order@[b] as int]
                    ==> order@[a] < order@[b],
        decreases keys@.len() - i,
    {
        let mut p: usize = order.len();
        while p > 0 && is_before(keys[i].as_slice(), keys[order[p - 1]].as_slice())
            invariant
                p <= order@.len() == i < keys@.len(),
                ks == char_rows(keys@),
                forall|a: int| 0 <= a < order@.len() ==> (#[trigger] order@[a]) < i,
                forall|b: int|
                    p <= b < order@.len() ==> comes_before(
                        ks[i as int],
                        #[trigger] ks[order@[b] as int],
                    ),
            decreases p,
        {
            p -= 1;
        }
        let ghost before = order@;
        order.insert(p, i);
        proof {
            let x = ks[i as int];
            assert forall|a: int| 0 <= a < p implies !comes_before(
                x,
                #[trigger] ks[before[a] as int],
            ) by {
                if a < p - 1 {
                    lemma_not_before_chain(
                        ks[before[a] as int],
                        ks[before[p - 1] as int],
                        x,
                    );
                }
            }
            assert forall|a: int, b: int| 0 <= a < b < order@.len() implies order@[a]
                != order@[b] by {
                if a != p && b != p {
                    let a0 = if a < p {
                        a
                    } else {
                        a - 1
                    };
                    let b0 = if b < p {
                        b
                    } else {
                        b - 1
                    };
                    assert(order@[a] == before[a0] && order@[b] == before[b0]);
                } else if a == p {
                    assert(order@[b] == before[b - 1]);
                } else {
                    assert(order@[a] == before[a]);
                }
            }
            assert forall|a: int, b: int|
                #![trigger order@[a], order@[b]]
                0 <= a < b < order@.len() implies !comes_before(
                ks[order@[b] as int],
                ks[order@[a] as int],
            ) by {
                if a != p && b != p {
                    let a0 = if a < p {
                        a
                    } else {
                        a - 1
                    };
                    let b0 = if b < p {
                        b
                    } else {
                        b - 1
                    };
                    assert(order@[a] == before[a0] && order@[b] == before[b0]);
                } else if a == p {
                    assert(order@[b] == before[b - 1]);
                    lemma_before_one_way(x, ks[before[b - 1] as int]);
                } else {
                    assert(order@[a] == before[a]);
                }
            }
            assert forall|a: int, b: int|
                0 <= a < b < order@.len() && ks[order@[a] as int] == ks[order@[b] as int]
                implies order@[a] < order@[b] by {
                if a != p && b != p {
                    let a0 = if a < p {
                        a
                    } else {
                        a - 1
                    };
                    let b0 = if b < p {
                        b
                    } else {
                        b - 1
                    };
                    assert(order@[a] == before[a0] && order@[b] == before[b0]);
                } else if a == p {
                    assert(order@[b] == before[b - 1]);
                    lemma_not_before_itself(x);
                } else {
                    assert(order@[a] == before[a]);
                }
            }
            assert forall|a: int| 0 <= a < order@.len() implies (#[trigger] order@[a]) < i
                + 1 by {
                if a < p {
                    assert(order@[a] == before[a]);
                } else if a > p {
                    assert(order@[a] == before[a - 1]);
                }
            }
        }
        i += 1;
    }
    order
}

} // verus!
