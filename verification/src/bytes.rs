//! Thirty-two byte roots: equality and order.

use vstd::prelude::*;
use vstd::relations::*;

verus! {

/// A thirty-two byte hash.
pub type B256 = [u8; 32];

/// The hash that stands for "no block".
pub const ZERO_HASH: B256 = [
    0, 0, 0, 0, 0, 0, 0, 0, 0, 0, 0, 0, 0, 0, 0, 0, 0, 0, 0, 0, 0, 0, 0, 0, 0, 0, 0, 0, 0, 0, 0, 0,
];

/// Whether the two hashes hold the same bytes.
pub fn same_hash(left: &B256, right: &B256) -> (same: bool)
    ensures
        same == (*left == *right),
{
    let mut i: usize = 0;
    while i < 32
        invariant
            i <= 32,
            forall|j: int| 0 <= j < i ==> left[j] == right[j],
        decreases 32 - i,
    {
        if left[i] != right[i] {
            return false;
        }
        i += 1;
    }
    assert(*left =~= *right);
    true
}

/// Whether the hash is the zero hash.
pub fn is_zero_hash(hash: &B256) -> (zero: bool)
    ensures
        zero == (*hash == ZERO_HASH),
{
    same_hash(hash, &ZERO_HASH)
}

/// Whether `hash` occurs in `hashes`.
pub fn contains_hash(hashes: &[B256], hash: &B256) -> (found: bool)
    ensures
        found == hashes@.contains(*hash),
{
    let mut i: usize = 0;
    while i < hashes.len()
        invariant
            i <= hashes@.len(),
            forall|j: int| 0 <= j < i ==> hashes@[j] != *hash,
        decreases hashes@.len() - i,
    {
        if same_hash(&hashes[i], hash) {
            assert(hashes@[i as int] == *hash);
            return true;
        }
        i += 1;
    }
    false
}

/// `left` comes before `right` in the order that compares byte by byte from
/// the front, first difference at `at`.
pub open spec fn differs_below(left: B256, right: B256, at: int) -> bool {
    &&& 0 <= at < 32
    &&& left[at] < right[at]
    &&& forall|j: int| 0 <= j < at ==> left[j] == right[j]
}

/// The order that compares two hashes byte by byte from the front.
pub open spec fn hash_le(left: B256, right: B256) -> bool {
    left == right || exists|at: int| differs_below(left, right, at)
}

/// Whether `left` comes before `right` in the byte order.
pub fn is_before(left: &B256, right: &B256) -> (before: bool)
    ensures
        before == (hash_le(*left, *right) && *left != *right),
{
    let mut i: usize = 0;
    while i < 32
        invariant
            i <= 32,
            forall|j: int| 0 <= j < i ==> left[j] == right[j],
        decreases 32 - i,
    {
        if left[i] < right[i] {
            assert(differs_below(*left, *right, i as int));
            return true;
        }
        if left[i] > right[i] {
            assert(differs_below(*right, *left, i as int));
            proof {
                let leq = hash_order();
                hash_order_is_total();
                assert(leq(*right, *left));
                if hash_le(*left, *right) {
                    assert(leq(*left, *right));
                }
            }
            return false;
        }
        i += 1;
    }
    assert(*left =~= *right);
    false
}

/// `hash_le` as a function value.
pub open spec fn hash_order() -> spec_fn(B256, B256) -> bool {
    |left: B256, right: B256| hash_le(left, right)
}

/// Two hashes differ at a first byte, or not at all.
proof fn lemma_first_difference(left: B256, right: B256, upto: int) -> (at: int)
    requires
        0 <= upto <= 32,
    ensures
        0 <= at <= upto,
        forall|j: int| 0 <= j < at ==> left[j] == right[j],
        at < upto ==> left[at] != right[at],
    decreases upto,
{
    if upto == 0 {
        0
    } else {
        let before = lemma_first_difference(left, right, upto - 1);
        if before < upto - 1 || left[upto - 1] != right[upto - 1] {
            before
        } else {
            upto
        }
    }
}

/// The byte order on hashes is a total order.
pub proof fn hash_order_is_total()
    ensures
        total_ordering(hash_order()),
{
    let leq = hash_order();
    assert forall|x: B256, y: B256| #[trigger] leq(x, y) && #[trigger] leq(y, x) implies x == y by {
        if x != y {
            let a = choose|at: int| differs_below(x, y, at);
            let b = choose|at: int| differs_below(y, x, at);
            assert(differs_below(x, y, a) && differs_below(y, x, b));
            assert(a < b || b < a || a == b);
            if a < b {
                assert(y[a] == x[a]);
            } else if b < a {
                assert(x[b] == y[b]);
            }
        }
    }
    assert forall|x: B256, y: B256, z: B256| #[trigger]
        leq(x, y) && #[trigger] leq(y, z) implies leq(x, z) by {
        if x != y && y != z {
            let a = choose|at: int| differs_below(x, y, at);
            let b = choose|at: int| differs_below(y, z, at);
            assert(differs_below(x, y, a) && differs_below(y, z, b));
            if a <= b {
                assert(differs_below(x, z, a));
            } else {
                assert(differs_below(x, z, b));
            }
        }
    }
    assert forall|x: B256, y: B256| #[trigger] leq(x, y) || #[trigger] leq(y, x) by {
        let at = lemma_first_difference(x, y, 32);
        if at == 32 {
            assert(x =~= y);
        } else if x[at] < y[at] {
            assert(differs_below(x, y, at));
        } else {
            assert(differs_below(y, x, at));
        }
    }
}

} // verus!
