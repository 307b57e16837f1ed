//! Canonical map-key ordering.
//!
//! The protocol's canonical encoding orders a container's entries by their
//! encoded keys: shortest first, then lexicographic byte order, equal keys
//! keeping their declaration order. `canonical_key_order` produces that
//! order for a list of encoded keys; the byte-level encoding of the values
//! themselves is outside this crate.

use vstd::prelude::*;

use crate::fork::lemma_lex_asym;
use crate::fork::lemma_lex_total;
use crate::fork::lex_lt;

verus! {

/// The canonical order on encoded keys: shorter first, then lexicographic
/// byte order.
pub open spec fn canon_before(a: Seq<u8>, b: Seq<u8>) -> bool {
    a.len() < b.len() || (a.len() == b.len() && lex_lt(a, b))
}

/// What it means for `order` to be the canonical order of `keys`: every
/// index appears, and consecutive entries are ordered by (length,
/// lexicographic bytes), equal keys keeping declaration order.
pub open spec fn is_canonical_order(keys: Seq<Seq<u8>>, order: Seq<usize>) -> bool {
    &&& order.len() == keys.len()
    &&& forall|i: int| 0 <= i < order.len() ==> (#[trigger] order[i]) < keys.len()
    &&& forall|i: int, j: int|
        0 <= i < j < order.len() ==> canon_before(
            keys[#[trigger] order[i] as int],
            keys[#[trigger] order[j] as int],
        ) || (keys[order[i] as int] == keys[order[j] as int] && order[i] < order[j])
    &&& forall|d: int| 0 <= d < keys.len() ==> #[trigger] order.contains(d as usize)
}

/// Compare two encoded keys in the canonical order.
pub fn canon_before_exec(a: &Vec<u8>, b: &Vec<u8>) -> (r: bool)
    ensures
        r == canon_before(a@, b@),
{
    let na = a.len();
    let nb = b.len();
    if na < nb {
        return true;
    }
    if na > nb {
        return false;
    }
    proof {
        assert(a@.skip(0) =~= a@);
        assert(b@.skip(0) =~= b@);
    }
    let mut i: usize = 0;
    loop
        invariant
            na == a@.len(),
            nb == b@.len(),
            na == nb,
            i <= na,
            forall|j: int| 0 <= j < i ==> a@[j] == b@[j],
            lex_lt(a@, b@) == lex_lt(a@.skip(i as int), b@.skip(i as int)),
        decreases na - i,
    {
        if i == na {
            proof {
                assert(b@.skip(i as int).len() == 0);
            }
            return false;
        }
        proof {
            assert(a@.skip(i as int)[0] == a@[i as int]);
            assert(b@.skip(i as int)[0] == b@[i as int]);
            assert(a@.skip(i as int).drop_first() =~= a@.skip(i as int + 1));
            assert(b@.skip(i as int).drop_first() =~= b@.skip(i as int + 1));
        }
        if a[i] < b[i] {
            return true;
        }
        if a[i] > b[i] {
            return false;
        }
        i = i + 1;
    }
}

/// The canonical order of a list of encoded keys: entries sorted by
/// (encoded-key length ascending, then lexicographic byte order), equal
/// keys keeping their declaration order.
pub fn canonical_key_order(keys: &Vec<Vec<u8>>) -> (order: Vec<usize>)
    ensures
        is_canonical_order(keys@.map_values(|k: Vec<u8>| k@), order@),
{
    let ghost kv = keys@.map_values(|k: Vec<u8>| k@);
    let n = keys.len();
    let mut order: Vec<usize> = Vec::new();
    for k in 0..n
        invariant
            n == kv.len() == keys@.len(),
            forall|j: int| 0 <= j < n ==> kv[j] == keys@[j]@,
            kv == keys@.map_values(|kk: Vec<u8>| kk@),
            order@.len() == k,
            forall|i: int| 0 <= i < order@.len() ==> (#[trigger] order@[i]) < k,
            forall|i: int, j: int|
                0 <= i < j < order@.len() ==> canon_before(
                    kv[#[trigger] order@[i] as int],
                    kv[#[trigger] order@[j] as int],
                ) || (kv[order@[i] as int] == kv[order@[j] as int] && order@[i] < order@[j]),
            forall|d: int| 0 <= d < k ==> #[trigger] order@.contains(d as usize),
    {
        let mut pos = order.len();
        while pos > 0 && canon_before_exec(&keys[k], &keys[order[pos - 1]])
            invariant
                n == kv.len() == keys@.len(),
                forall|j: int| 0 <= j < n ==> kv[j] == keys@[j]@,
                k < n,
                pos <= order@.len(),
                order@.len() == k,
                forall|i: int| 0 <= i < order@.len() ==> (#[trigger] order@[i]) < k,
                forall|i: int, j: int|
                    0 <= i < j < order@.len() ==> canon_before(
                        kv[#[trigger] order@[i] as int],
                        kv[#[trigger] order@[j] as int],
                    ) || (kv[order@[i] as int] == kv[order@[j] as int] && order@[i] < order@[j]),
                forall|i: int|
                    pos <= i < order@.len() ==> canon_before(
                        kv[k as int],
                        kv[#[trigger] order@[i] as int],
                    ),
            decreases pos,
        {
            pos = pos - 1;
        }
        let ghost prev = order@;
        order.insert(pos, k);
        proof {
            prev.insert_ensures(pos as int, k);
            assert forall|i: int, j: int| 0 <= i < j < order@.len() implies canon_before(
                kv[#[trigger] order@[i] as int],
                kv[#[trigger] order@[j] as int],
            ) || (kv[order@[i] as int] == kv[order@[j] as int] && order@[i] < order@[j]) by {
                let p = pos as int;
                if i < p && j == p {
                    assert(order@[i] == prev[i]);
                    // The scan stopped above position pos, so the key there
                    // does not sort after the inserted one.
                    let a = kv[order@[i] as int];
                    let b = kv[k as int];
                    if p >= 1 && i == p - 1 {
                        lemma_lex_total(a, b);
                        lemma_lex_asym(a, b);
                        if !canon_before(a, b) && a != b {
                            assert(canon_before(b, a));
                        }
                    } else if p >= 1 {
                        let c = kv[prev[p - 1] as int];
                        lemma_lex_total(a, b);
                        lemma_lex_asym(a, b);
                        if !canon_before(a, b) && a != b {
                            assert(canon_before(b, a));
                            // then b sorts before a, but a sorts no later
                            // than the key at pos - 1, which does not sort
                            // after b: contradiction via transitivity.
                            assert(canon_before(a, c) || (a == c && prev[i] < prev[p - 1]));
                            lemma_lex_total(c, b);
                            lemma_lex_asym(c, b);
                            assert(!canon_before(b, c));
                            if canon_before(a, c) {
                                lemma_canon_trans(b, a, c);
                            } else {
                                assert(a == c);
                            }
                        }
                    }
                } else if i == p && j > p {
                    assert(order@[j] == prev[j - 1]);
                } else if i < p && j > p {
                    assert(order@[i] == prev[i] && order@[j] == prev[j - 1]);
                } else if i < p && j < p {
                    assert(order@[i] == prev[i] && order@[j] == prev[j]);
                } else if i > p && j > p {
                    assert(order@[i] == prev[i - 1] && order@[j] == prev[j - 1]);
                }
            }
            assert forall|d: int| 0 <= d < k + 1 implies #[trigger] order@.contains(d as usize) by {
                if d == k {
                    assert(order@[pos as int] == k as usize);
                } else {
                    assert(prev.contains(d as usize));
                    let p = choose|p: int| 0 <= p < prev.len() && prev[p] == d as usize;
                    if p < pos as int {
                        assert(order@[p] == d as usize);
                    } else {
                        assert(order@[p + 1] == d as usize);
                    }
                }
            }
        }
    }
    order
}

/// The canonical order is transitive.
pub proof fn lemma_canon_trans(a: Seq<u8>, b: Seq<u8>, c: Seq<u8>)
    requires
        canon_before(a, b),
        canon_before(b, c),
    ensures
        canon_before(a, c),
{
    if a.len() == b.len() && b.len() == c.len() {
        crate::fork::lemma_lex_trans(a, b, c);
    }
}

} // verus!
