//! Laws of whole calls: what a list of attestations does, and what two lists do one
//! after the other. They hold of every state.

use crate::attestation::AttestationView;
use crate::bytes::B256;
use crate::checkpoint::Checkpoint;
use crate::collections::HISTORICAL_ROOTS_LIMIT;
use crate::consistency::{lemma_root_slot, lemma_tally_valid, stored_votes_are_read_back};
use crate::error::StateError;
use crate::laws::lemma_count_effect;
use crate::model::{StateView, Tally, MAX_ATTESTATIONS_DATA};
use vstd::prelude::*;

verus! {

// Where checkpoints come from.
/// Whether a checkpoint is the target of one of the first `count` attestations.
pub open spec fn is_target(
    attestations: Seq<AttestationView>,
    count: nat,
    checkpoint: Checkpoint,
) -> bool {
    exists|i: int| 0 <= i < count && (#[trigger] attestations[i]).message.target == checkpoint
}

/// Whether a checkpoint is the source of one of the first `count` attestations.
pub open spec fn is_source(
    attestations: Seq<AttestationView>,
    count: nat,
    checkpoint: Checkpoint,
) -> bool {
    exists|i: int| 0 <= i < count && (#[trigger] attestations[i]).message.source == checkpoint
}

/// Whether a slot is that of the target of one of the first `count` attestations.
pub open spec fn is_target_slot(
    attestations: Seq<AttestationView>,
    count: nat,
    slot: int,
) -> bool {
    exists|i: int|
        0 <= i < count && (#[trigger] attestations[i]).message.target.slot == slot
}

/// Whether the second state can come from the first by attestations with the given
/// sources and targets. The checkpoints are the old ones, or a target and a source.
/// The list of justified slots has lost its front up to the finalized slot; of the
/// rest, what was set still is, and what has been set is at the slot of a target.
pub open spec fn comes_from(
    before: StateView,
    after: StateView,
    attestations: Seq<AttestationView>,
    count: nat,
) -> bool {
    let moved = after.latest_finalized.slot - before.latest_finalized.slot;
    &&& after.latest_justified == before.latest_justified || is_target(
        attestations,
        count,
        after.latest_justified,
    )
    &&& after.latest_finalized == before.latest_finalized || is_source(
        attestations,
        count,
        after.latest_finalized,
    )
    &&& 0 <= moved <= before.justified_slots.len()
    &&& after.justified_slots.len() == before.justified_slots.len() - moved
    &&& forall|i: int|
        0 <= i < after.justified_slots.len() && before.justified_slots[i + moved]
            ==> #[trigger] after.justified_slots[i]
    &&& forall|i: int|
        0 <= i < after.justified_slots.len() && #[trigger] after.justified_slots[i]
            && !before.justified_slots[i + moved] ==> is_target_slot(
            attestations,
            count,
            after.latest_finalized.slot + 1 + i,
        )
}

/// One more attestation.
proof fn lemma_comes_from_step(
    before: StateView,
    tally: Tally,
    base: u64,
    attestations: Seq<AttestationView>,
    count: nat,
)
    requires
        count < attestations.len(),
        comes_from(before, tally.state, attestations, count),
    ensures
        ({
            let after = match tally.count(base, attestations[count as int]) {
                Ok(counted) => counted.state,
                Err((state, _)) => state,
            };
            comes_from(before, after, attestations, count + 1)
        }),
{
    let attestation = attestations[count as int];
    let source = attestation.message.source;
    let target = attestation.message.target;
    let middle = tally.state;
    let after = match tally.count(base, attestation) {
        Ok(counted) => counted.state,
        Err((state, _)) => state,
    };
    lemma_count_effect(tally, base, attestation);
    assert(is_target(attestations, count + 1, target)) by {
        assert(attestations[count as int].message.target == target);
    }
    assert(is_source(attestations, count + 1, source)) by {
        assert(attestations[count as int].message.source == source);
    }
    assert(is_target_slot(attestations, count + 1, target.slot as int)) by {
        assert(attestations[count as int].message.target.slot == target.slot);
    }
    assert forall|checkpoint: Checkpoint| #[trigger]
        is_target(attestations, count, checkpoint) implies is_target(
        attestations,
        count + 1,
        checkpoint,
    ) by {
        let i = choose|i: int|
            0 <= i < count && (#[trigger] attestations[i]).message.target == checkpoint;
        assert(attestations[i].message.target == checkpoint);
    }
    assert forall|checkpoint: Checkpoint| #[trigger]
        is_source(attestations, count, checkpoint) implies is_source(
        attestations,
        count + 1,
        checkpoint,
    ) by {
        let i = choose|i: int|
            0 <= i < count && (#[trigger] attestations[i]).message.source == checkpoint;
        assert(attestations[i].message.source == checkpoint);
    }
    assert forall|slot: int| #[trigger] is_target_slot(attestations, count, slot) implies
        is_target_slot(attestations, count + 1, slot) by {
        let i = choose|i: int|
            0 <= i < count && (#[trigger] attestations[i]).message.target.slot == slot;
        assert(attestations[i].message.target.slot == slot);
    }
    let shift = after.latest_finalized.slot - middle.latest_finalized.slot;
    let moved = middle.latest_finalized.slot - before.latest_finalized.slot;
    let all = after.latest_finalized.slot - before.latest_finalized.slot;
    assert(0 <= shift <= middle.justified_slots.len());
    assert(after.justified_slots.len() == middle.justified_slots.len() - shift);
    assert forall|i: int| 0 <= i < after.justified_slots.len() implies (
    #[trigger] after.justified_slots[i] == middle.justified_slots[i + shift] || (
    after.justified_slots[i] && after.latest_finalized.slot + 1 + i == target.slot)) by {}
    assert forall|i: int|
        0 <= i < after.justified_slots.len() && before.justified_slots[i + all]
            implies #[trigger] after.justified_slots[i] by {
        assert(before.justified_slots[i + shift + moved]);
        assert(middle.justified_slots[i + shift]);
    }
    assert forall|i: int|
        0 <= i < after.justified_slots.len() && #[trigger] after.justified_slots[i]
            && !before.justified_slots[i + all] implies is_target_slot(
        attestations,
        count + 1,
        after.latest_finalized.slot + 1 + i,
    ) by {
        if after.latest_finalized.slot + 1 + i != target.slot {
            assert(middle.justified_slots[i + shift]);
            assert(!before.justified_slots[i + shift + moved]);
            assert(is_target_slot(
                attestations,
                count,
                middle.latest_finalized.slot + 1 + (i + shift),
            ));
        }
    }
}

/// The first `count` attestations.
proof fn lemma_counting_comes_from(
    tally: Tally,
    base: u64,
    attestations: Seq<AttestationView>,
    count: nat,
)
    requires
        count <= attestations.len(),
    ensures
        match tally.count_all(base, attestations, count) {
            Ok(after) => comes_from(tally.state, after.state, attestations, count),
            Err((state, _)) => comes_from(tally.state, state, attestations, count),
        },
    decreases count,
{
    if count > 0 {
        let fewer: nat = (count - 1) as nat;
        lemma_counting_comes_from(tally, base, attestations, fewer);
        match tally.count_all(base, attestations, fewer) {
            Ok(before) => {
                lemma_comes_from_step(tally.state, before, base, attestations, fewer);
            },
            Err((state, _)) => {
                lemma_more_attestations(tally.state, state, attestations, fewer);
            },
        }
    }
}

/// What comes from some attestations comes from one more.
proof fn lemma_more_attestations(
    before: StateView,
    after: StateView,
    attestations: Seq<AttestationView>,
    count: nat,
)
    requires
        comes_from(before, after, attestations, count),
    ensures
        comes_from(before, after, attestations, count + 1),
{
    let moved = after.latest_finalized.slot - before.latest_finalized.slot;
    if is_target(attestations, count, after.latest_justified) {
        let i = choose|i: int|
            0 <= i < count && (#[trigger] attestations[i]).message.target
                == after.latest_justified;
        assert(attestations[i].message.target == after.latest_justified);
    }
    if is_source(attestations, count, after.latest_finalized) {
        let i = choose|i: int|
            0 <= i < count && (#[trigger] attestations[i]).message.source
                == after.latest_finalized;
        assert(attestations[i].message.source == after.latest_finalized);
    }
    assert forall|i: int|
        0 <= i < after.justified_slots.len() && #[trigger] after.justified_slots[i]
            && !before.justified_slots[i + moved] implies is_target_slot(
        attestations,
        count + 1,
        after.latest_finalized.slot + 1 + i,
    ) by {
        let slot = after.latest_finalized.slot + 1 + i;
        assert(is_target_slot(attestations, count, slot));
        let k = choose|k: int|
            0 <= k < count && (#[trigger] attestations[k]).message.target.slot == slot;
        assert(attestations[k].message.target.slot == slot);
    }
}

/// Over a whole list of attestations, the latest justified checkpoint is the old one or
/// a target, and the finalized one is the old one or a source. The list of justified
/// slots loses its front up to the finalized slot; of the rest, what was set still
/// is, and what has been set is at the slot of a target. This holds even where the
/// attestations fail.
pub proof fn attestations_move_checkpoints_to_sources_and_targets(
    state: StateView,
    attestations: Seq<AttestationView>,
    data_roots: Seq<B256>,
)
    ensures
        comes_from(
            state,
            state.process_attestations(attestations, data_roots).0,
            attestations,
            attestations.len(),
        ),
{
    let base: u64 = state.latest_finalized.slot;
    lemma_counting_comes_from(state.tally(), base, attestations, attestations.len());
}

// Pending votes.
/// Counting an attestation keeps the votes valid.
proof fn lemma_count_valid(tally: Tally, base: u64, attestation: AttestationView)
    requires
        tally.votes_valid(),
    ensures
        tally.count(base, attestation) matches Ok(after) ==> after.votes_valid(),
{
    if let Ok(after) = tally.count(base, attestation) {
        let source = attestation.message.source;
        let target = attestation.message.target;
        let justified = Tally {
            state: tally.state.with_justified(target),
            votes: tally.votes.remove(target.root),
        };
        let pruned = justified.pruned_votes(base, source.slot);
        assert(pruned.dom().subset_of(tally.votes.dom()));
        vstd::set_lib::lemma_set_subset_finite(tally.votes.dom(), pruned.dom());
    }
}

/// Counting attestations keeps the votes valid.
pub proof fn lemma_counting_valid(
    tally: Tally,
    base: u64,
    attestations: Seq<AttestationView>,
    count: nat,
)
    requires
        tally.votes_valid(),
    ensures
        tally.count_all(base, attestations, count) matches Ok(after) ==> after.votes_valid(),
    decreases count,
{
    if count > 0 {
        lemma_counting_valid(tally, base, attestations, (count - 1) as nat);
        if let Ok(before) = tally.count_all(base, attestations, (count - 1) as nat) {
            lemma_count_valid(before, base, attestations[count - 1]);
        }
    }
}

/// After attestations have been counted, the pending roots are in the order of their
/// bytes and within the limit, none of them occurs twice or is the zero hash, and each
/// has one vote for each validator.
pub proof fn attestations_leave_pending_votes_in_order(
    state: StateView,
    attestations: Seq<AttestationView>,
    data_roots: Seq<B256>,
)
    requires
        state.process_attestations(attestations, data_roots).1 is Ok,
    ensures
        ({
            let after = state.process_attestations(attestations, data_roots).0;
            &&& after.pending_in_order()
            &&& after.justifications_roots.len() <= HISTORICAL_ROOTS_LIMIT
        }),
{
    let base: u64 = state.latest_finalized.slot;
    lemma_tally_valid(state);
    lemma_counting_valid(state.tally(), base, attestations, attestations.len());
    let counted = state.tally().count_all(base, attestations, attestations.len())->Ok_0;
    stored_votes_are_read_back(counted);
    crate::votes::lemma_sorted_set_items(counted.votes.dom());
}

// Two lists.
/// Whether two states differ at most in the pending votes that they hold.
pub open spec fn same_but_pending(left: StateView, right: StateView) -> bool {
    right == (StateView {
        justifications_roots: right.justifications_roots,
        justifications_validators: right.justifications_validators,
        ..left
    })
}

/// Whether each root with votes is found after slot `later` as well as after slot
/// `base`.
spec fn agrees(tally: Tally, base: u64, later: u64) -> bool {
    &&& base <= later
    &&& base == later || forall|root: B256| #[trigger]
        tally.votes.contains_key(root) ==> tally.is_after(base, root, later)
}

/// A root that is found after a later slot is found at the same place from there.
proof fn lemma_same_place(tally: Tally, base: u64, later: u64, root: B256)
    requires
        base <= later,
        tally.is_after(base, root, later),
    ensures
        tally.slot_of(later, root) == tally.slot_of(base, root),
{
    let history = tally.state.historical_block_hashes;
    lemma_root_slot(history, base + 1, history.len() as int, root);
    lemma_root_slot(history, later + 1, history.len() as int, root);
    let position = tally.slot_of(base, root)->Some_0;
    assert(history[position] == root);
    if let Some(other) = tally.slot_of(later, root) {
        assert(history[other] == root);
    }
}

/// A root that the history holds after a slot is found there.
proof fn lemma_found_after(tally: Tally, base: u64, later: u64, root: B256, slot: int)
    requires
        base <= later < slot < tally.state.historical_block_hashes.len(),
        tally.state.historical_block_hashes[slot] == root,
    ensures
        tally.is_after(base, root, later),
{
    let history = tally.state.historical_block_hashes;
    lemma_root_slot(history, base + 1, history.len() as int, root);
}

/// Counting an attestation keeps each root with votes after the finalized slot, if
/// finality has moved at all.
proof fn lemma_count_agrees(tally: Tally, base: u64, attestation: AttestationView)
    requires
        agrees(tally, base, tally.state.latest_finalized.slot),
    ensures
        tally.count(base, attestation) matches Ok(after) ==> agrees(
            after,
            base,
            after.state.latest_finalized.slot,
        ),
{
    if let Ok(after) = tally.count(base, attestation) {
        let source = attestation.message.source;
        let target = attestation.message.target;
        let finalized = tally.state.latest_finalized.slot;
        lemma_count_effect(tally, base, attestation);
        assert(after.state.historical_block_hashes == tally.state.historical_block_hashes);
        if tally.is_candidate(attestation.message) && tally.state.slot_justified(target.slot)
            == Some(false) {
            lemma_found_after(tally, base, finalized, target.root, target.slot as int);
        }
        assert forall|root: B256, slot: u64| after.is_after(base, root, slot) == tally.is_after(
            base,
            root,
            slot,
        ) by {}
        if after.state.latest_finalized.slot != finalized {
            let justified = Tally {
                state: tally.state.with_justified(target),
                votes: tally.votes.remove(target.root),
            };
            assert(after.votes == justified.pruned_votes(base, source.slot));
            assert forall|root: B256| #[trigger]
                after.votes.contains_key(root) implies after.is_after(base, root, source.slot) by {
                assert(justified.is_after(base, root, source.slot));
            }
        } else if base != finalized {
            assert forall|root: B256| #[trigger]
                after.votes.contains_key(root) implies after.is_after(base, root, finalized) by {
                if root != target.root || !tally.is_candidate(attestation.message) {
                    assert(tally.votes.contains_key(root));
                }
            }
        }
    }
}

/// The same for the first `count` attestations of a list.
proof fn lemma_counting_agrees(
    tally: Tally,
    base: u64,
    attestations: Seq<AttestationView>,
    count: nat,
)
    requires
        agrees(tally, base, tally.state.latest_finalized.slot),
    ensures
        tally.count_all(base, attestations, count) matches Ok(after) ==> agrees(
            after,
            base,
            after.state.latest_finalized.slot,
        ),
    decreases count,
{
    if count > 0 {
        lemma_counting_agrees(tally, base, attestations, (count - 1) as nat);
        if let Ok(before) = tally.count_all(base, attestations, (count - 1) as nat) {
            lemma_count_agrees(before, base, attestations[count - 1]);
        }
    }
}

/// Whether two counts have come to the same, where one looks roots up from slot
/// `base` and the other from slot `later`.
spec fn same_count(
    left: Result<Tally, (StateView, StateError)>,
    right: Result<Tally, (StateView, StateError)>,
    base: u64,
    later: u64,
) -> bool {
    match (left, right) {
        (Ok(left), Ok(right)) => {
            &&& same_but_pending(left.state, right.state)
            &&& left.votes == right.votes
            &&& agrees(left, base, later)
            &&& later <= left.state.latest_finalized.slot
        },
        (Err((left, error)), Err((right, other))) => {
            &&& same_but_pending(left, right)
            &&& error == other
        },
        _ => false,
    }
}

/// One more attestation for both counts.
proof fn lemma_same_count_step(
    left: Tally,
    right: Tally,
    base: u64,
    later: u64,
    attestation: AttestationView,
)
    requires
        same_count(
            Ok::<Tally, (StateView, StateError)>(left),
            Ok::<Tally, (StateView, StateError)>(right),
            base,
            later,
        ),
    ensures
        same_count(left.count(base, attestation), right.count(later, attestation), base, later),
{
    let source = attestation.message.source;
    let target = attestation.message.target;
    assert(left.state.slot_justified(source.slot) == right.state.slot_justified(source.slot));
    assert(left.state.slot_justified(target.slot) == right.state.slot_justified(target.slot));
    if left.is_candidate(attestation.message) && left.state.slot_justified(target.slot) == Some(
        false,
    ) {
        lemma_found_after(left, base, later, target.root, target.slot as int);
        let one = Tally {
            state: left.state.with_justified(target),
            votes: left.votes.remove(target.root),
        };
        let other = Tally {
            state: right.state.with_justified(target),
            votes: right.votes.remove(target.root),
        };
        assert forall|root: B256| one.votes.contains_key(root) implies #[trigger] one.slot_of(
            base,
            root,
        ) == other.slot_of(later, root) by {
            assert(left.votes.contains_key(root));
            if base != later {
                lemma_same_place(left, base, later, root);
            }
        }
        assert(one.all_known(base) == other.all_known(later)) by {
            assert forall|root: B256| one.votes.contains_key(root) implies (one.slot_of(
                base,
                root,
            ) is Some) == (other.slot_of(later, root) is Some) by {}
            if one.all_known(base) {
                assert forall|root: B256| #[trigger]
                    other.votes.contains_key(root) implies other.slot_of(later, root) is Some by {
                    assert(one.votes.contains_key(root));
                    assert(one.slot_of(base, root) is Some);
                }
            }
            if other.all_known(later) {
                assert forall|root: B256| #[trigger]
                    one.votes.contains_key(root) implies one.slot_of(base, root) is Some by {
                    assert(other.votes.contains_key(root));
                    assert(one.slot_of(base, root) == other.slot_of(later, root));
                }
            }
        }
        assert forall|root: B256| one.votes.contains_key(root) implies #[trigger] one.is_after(
            base,
            root,
            source.slot,
        ) == other.is_after(later, root, source.slot) by {
            assert(one.slot_of(base, root) == other.slot_of(later, root));
        }
        assert(one.pruned_votes(base, source.slot) =~= other.pruned_votes(later, source.slot));
        assert(one.state.link_finalizes(source, target) == other.state.link_finalizes(
            source,
            target,
        ));
    }
    if let Ok(after) = left.count(base, attestation) {
        assert(after.state.historical_block_hashes == left.state.historical_block_hashes);
        if base != later {
            assert forall|root: B256| #[trigger]
                after.votes.contains_key(root) implies after.is_after(base, root, later) by {
                assert(after.slot_of(base, root) == left.slot_of(base, root));
                if left.votes.contains_key(root) {
                    assert(left.is_after(base, root, later));
                }
            }
        }
    }
}

/// Counting the front of a list is counting the list up to there.
proof fn lemma_front(
    tally: Tally,
    base: u64,
    first: Seq<AttestationView>,
    second: Seq<AttestationView>,
    count: nat,
)
    requires
        count <= first.len(),
    ensures
        tally.count_all(base, first + second, count) == tally.count_all(base, first, count),
    decreases count,
{
    if count > 0 {
        lemma_front(tally, base, first, second, (count - 1) as nat);
        assert((first + second)[count - 1] == first[count - 1]);
    }
}

/// Counting two lists in one count, or the second in a count of its own.
proof fn lemma_same_counts(
    tally: Tally,
    resumed: Tally,
    base: u64,
    later: u64,
    first: Seq<AttestationView>,
    second: Seq<AttestationView>,
    count: nat,
)
    requires
        count <= second.len(),
        same_count(
            tally.count_all(base, first, first.len()),
            Ok::<Tally, (StateView, StateError)>(resumed),
            base,
            later,
        ),
    ensures
        same_count(
            tally.count_all(base, first + second, first.len() + count),
            resumed.count_all(later, second, count),
            base,
            later,
        ),
    decreases count,
{
    if count == 0 {
        lemma_front(tally, base, first, second, first.len());
    } else {
        let fewer: nat = (count - 1) as nat;
        lemma_same_counts(tally, resumed, base, later, first, second, fewer);
        let left = tally.count_all(base, first + second, first.len() + fewer);
        let right = resumed.count_all(later, second, fewer);
        assert((first + second)[(first.len() + fewer) as int] == second[fewer as int]);
        if left is Ok {
            lemma_same_count_step(left->Ok_0, right->Ok_0, base, later, second[fewer as int]);
        }
    }
}

/// Counting one list of attestations and, if that succeeds, another one comes to the
/// same as counting both in one call: the outcome is the same, and so is the state.
/// Where the second list brings an error, the states differ at most in the pending
/// votes, which the first call has written back. The two lists together must not hold
/// too many different data, and the votes that the first one leaves must fit.
pub proof fn two_calls_are_one_call(
    state: StateView,
    first: Seq<AttestationView>,
    second: Seq<AttestationView>,
    first_roots: Seq<B256>,
    second_roots: Seq<B256>,
)
    requires
        (first_roots + second_roots).to_set().len() <= MAX_ATTESTATIONS_DATA,
        state.process_attestations(first, first_roots).1 != Err::<(), StateError>(
            StateError::JustificationRootsFull,
        ),
    ensures
        ({
            let (between, first_outcome) = state.process_attestations(first, first_roots);
            let (after, outcome) = between.process_attestations(second, second_roots);
            let (joined, joined_outcome) = state.process_attestations(
                first + second,
                first_roots + second_roots,
            );
            if first_outcome is Err {
                &&& joined_outcome == first_outcome
                &&& joined == between
            } else {
                &&& joined_outcome == outcome
                &&& outcome is Ok ==> joined == after
                &&& same_but_pending(joined, after)
            }
        }),
{
    let base: u64 = state.latest_finalized.slot;
    let (between, first_outcome) = state.process_attestations(first, first_roots);
    let together = (first_roots + second_roots).to_set();
    assert forall|root: B256| first_roots.contains(root) || second_roots.contains(
        root,
    ) implies #[trigger] together.contains(root) by {
        if first_roots.contains(root) {
            let i: int = choose|i: int| 0 <= i < first_roots.len() && first_roots[i] == root;
            assert((first_roots + second_roots)[i] == root);
        } else {
            let i: int = choose|i: int| 0 <= i < second_roots.len() && second_roots[i] == root;
            assert((first_roots + second_roots)[first_roots.len() + i] == root);
        }
    }
    vstd::set_lib::lemma_len_subset(first_roots.to_set(), together);
    vstd::set_lib::lemma_len_subset(second_roots.to_set(), together);
    assert((first + second).len() == first.len() + second.len());
    lemma_front(state.tally(), base, first, second, first.len());
    if first_outcome is Ok {
        let counted = state.tally().count_all(base, first, first.len())->Ok_0;
        let later: u64 = between.latest_finalized.slot;
        attestations_leave_pending_votes_in_order(state, first, first_roots);
        lemma_tally_valid(state);
        lemma_counting_valid(state.tally(), base, first, first.len());
        stored_votes_are_read_back(counted);
        lemma_counting_agrees(state.tally(), base, first, first.len());
        lemma_same_counts(
            state.tally(),
            between.tally(),
            base,
            later,
            first,
            second,
            second.len(),
        );
    } else if state.pending_refusal() is None {
        state.tally().lemma_failure_stays(base, first + second, first.len(), (first + second).len());
    }
}

} // verus!
