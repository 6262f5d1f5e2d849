//! Slot arithmetic: which slots may be justified, and where a slot stands in
//! the list of justified slots.

use vstd::prelude::*;

verus! {

/// `k * k`.
pub open spec fn square(k: nat) -> nat {
    k * k
}

/// `k * (k + 1)`.
pub open spec fn pronic(k: nat) -> nat {
    k * (k + 1)
}

/// Whether `delta` is the square of a natural number.
pub open spec fn is_square(delta: nat) -> bool {
    exists|k: nat| square(k) == delta
}

/// Whether `delta` is the product of two consecutive natural numbers.
pub open spec fn is_pronic(delta: nat) -> bool {
    exists|k: nat| pronic(k) == delta
}

/// Whether a slot may be justified while `finalized_slot` is the last
/// finalized one: it lies at most five slots ahead, or a square number of
/// slots ahead, or a product of two consecutive numbers of slots ahead.
pub open spec fn justifiable(candidate_slot: u64, finalized_slot: u64) -> bool {
    candidate_slot >= finalized_slot && {
        let delta = (candidate_slot - finalized_slot) as nat;
        delta <= 5 || is_square(delta) || is_pronic(delta)
    }
}

/// The square root, rounded down: [`u64::isqrt`] returns the largest number
/// whose square does not exceed its argument.
pub assume_specification[ u64::isqrt ](value: u64) -> (root: u64)
    ensures
        root * root <= value < (root + 1) * (root + 1),
;

/// The square root, rounded down: [`u128::isqrt`] returns the largest number
/// whose square does not exceed its argument.
pub assume_specification[ u128::isqrt ](value: u128) -> (root: u128)
    ensures
        root * root <= value < (root + 1) * (root + 1),
;

/// At most one number has `value` between its square and the next square.
proof fn lemma_root_unique(root: int, other: int, value: int)
    by (nonlinear_arith)
    requires
        root >= 0,
        other >= 0,
        root * root <= value < (root + 1) * (root + 1),
        other * other == value,
    ensures
        root == other,
{
}

/// `4 * delta + 1` is the square of `2 * k + 1` exactly when `delta` is the
/// product of `k` and `k + 1`.
proof fn lemma_odd_square(k: int, delta: int)
    by (nonlinear_arith)
    ensures
        (2 * k + 1) * (2 * k + 1) == 4 * delta + 1 <==> k * (k + 1) == delta,
{
}

/// Whether `candidate_slot` may be justified while `finalized_slot` is the last
/// finalized slot.
pub fn is_justifiable_after(candidate_slot: u64, finalized_slot: u64) -> (justifiable_slot: bool)
    ensures
        justifiable_slot == justifiable(candidate_slot, finalized_slot),
{
    if candidate_slot < finalized_slot {
        return false;
    }
    let delta: u64 = candidate_slot - finalized_slot;
    let pentagonal_test: u128 = 4u128 * (delta as u128) + 1;
    let delta_root: u64 = delta.isqrt();
    let pentagonal_root: u128 = pentagonal_test.isqrt();
    assert(delta_root * delta_root >= 0) by (nonlinear_arith);
    assert(pentagonal_root * pentagonal_root >= 0) by (nonlinear_arith);
    proof {
        if delta_root * delta_root == delta {
            assert(square(delta_root as nat) == delta);
        }
        if is_square(delta as nat) {
            let k = choose|k: nat| square(k) == delta;
            lemma_root_unique(delta_root as int, k as int, delta as int);
            assert(delta_root * delta_root == delta);
        }
        if pentagonal_root * pentagonal_root == pentagonal_test && pentagonal_root % 2 == 1 {
            let k = (pentagonal_root / 2) as nat;
            lemma_odd_square(k as int, delta as int);
            assert(pronic(k) == delta);
        }
        if is_pronic(delta as nat) {
            let k = choose|k: nat| pronic(k) == delta;
            let odd = (2 * k + 1) as int;
            lemma_odd_square(k as int, delta as int);
            lemma_root_unique(pentagonal_root as int, odd, pentagonal_test as int);
            assert(pentagonal_root * pentagonal_root == pentagonal_test);
        }
    }
    delta <= 5 || delta_root * delta_root == delta || pentagonal_root * pentagonal_root
        == pentagonal_test && pentagonal_root % 2 == 1
}

/// The position of `candidate_slot` in the list of justified slots, whose
/// first entry stands for the slot right after `finalized_slot`.
pub fn justified_index_after(candidate_slot: u64, finalized_slot: u64) -> (index: Option<u64>)
    ensures
        index is None <==> candidate_slot <= finalized_slot,
        index matches Some(position) ==> finalized_slot + 1 + position == candidate_slot,
{
    if candidate_slot <= finalized_slot {
        return None;
    }
    Some(candidate_slot - finalized_slot - 1)
}

} // verus!
