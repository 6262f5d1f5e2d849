//! Laws of the transitions.

use crate::attestation::{AttestationView, ProofView};
use crate::block::{Block, BlockHeader};
use crate::bytes::{B256, ZERO_HASH};
use crate::checkpoint::Checkpoint;
use crate::collections::{count_set, HISTORICAL_ROOTS_LIMIT, VALIDATOR_REGISTRY_LIMIT};
use crate::consistency::{
    attestations_keep_the_chain, lemma_root_slot, lemma_tally_in_order, lemma_tally_valid,
    occurs_after,
};
use crate::error::StateError;
use crate::model::{
    first_set_from, is_supermajority, matches_chain, open_header, votes_joined, StateView, Tally,
    MAX_ATTESTATIONS_DATA,
};
use crate::selection::{fresh_count, greedy_selection, signers};
use crate::slot::justifiable;
use vstd::prelude::*;

verus! {

// Slots.
/// Whether a slot may be justified depends on its distance to the finalized slot
/// alone.
pub proof fn justifiability_depends_on_distance(
    slot: u64,
    finalized: u64,
    other_slot: u64,
    other_finalized: u64,
)
    requires
        slot - finalized == other_slot - other_finalized,
    ensures
        justifiable(slot, finalized) == justifiable(other_slot, other_finalized),
{
}

/// No slot before the finalized one may be justified, and each of the five slots
/// after it may be.
pub proof fn justifiable_slots_start_at_the_finalized_one(slot: u64, finalized: u64)
    ensures
        slot < finalized ==> !justifiable(slot, finalized),
        finalized <= slot <= finalized + 5 ==> justifiable(slot, finalized),
{
}

/// Advancing in two steps is the same as advancing in one.
pub proof fn slots_compose(state: StateView, between: u64, target: u64)
    requires
        between <= target,
    ensures
        state.at_slot(between).at_slot(target) == state.at_slot(target),
    decreases between - state.slot,
{
    if state.slot < between {
        slots_compose(state.next_slot(state.root()), between, target);
    }
}

/// Advancing leads to the target slot. It fills in the state root of the latest
/// header if that is still open: with the root of the state before it, or, should
/// that be the zero hash, with the root of a state on the way. A state root that is
/// there stays.
pub proof fn advancing_fixes_the_state_root(state: StateView, target: u64)
    requires
        state.slot < target,
    ensures
        ({
            let (after, outcome) = state.process_slots(target);
            let unfilled = state.latest_block_header.state_root == ZERO_HASH;
            let state_root = after.latest_block_header.state_root;
            &&& outcome is Ok
            &&& after.slot == target
            &&& unfilled && (state.root() != ZERO_HASH || target == state.slot + 1) ==> state_root
                == state.root()
            &&& unfilled ==> exists|slot: u64|
                state.slot <= slot < target && state_root == #[trigger] state.at_slot(slot).root()
            &&& !unfilled ==> state_root == state.latest_block_header.state_root
        }),
    decreases target - state.slot,
{
    let next = state.next_slot(state.root());
    state.lemma_at_slot(target);
    lemma_state_root_stays(state, target);
    lemma_state_root_stays(next, target);
    assert(state.at_slot(state.slot) == state);
    if state.latest_block_header.state_root == ZERO_HASH && state.root() == ZERO_HASH && next.slot
        < target {
        advancing_fixes_the_state_root(next, target);
        let state_root = next.at_slot(target).latest_block_header.state_root;
        let slot = choose|slot: u64|
            next.slot <= slot < target && state_root == #[trigger] next.at_slot(slot).root();
        assert(state.at_slot(slot) == next.at_slot(slot));
    } else if state.latest_block_header.state_root == ZERO_HASH {
        assert(state.at_slot(target).latest_block_header.state_root == state.at_slot(
            state.slot,
        ).root());
    }
}

/// A state root that is there stays.
proof fn lemma_state_root_stays(state: StateView, target: u64)
    ensures
        state.latest_block_header.state_root != ZERO_HASH ==> state.at_slot(
            target,
        ).latest_block_header.state_root == state.latest_block_header.state_root,
    decreases target - state.slot,
{
    if state.slot < target {
        lemma_state_root_stays(state.next_slot(state.root()), target);
    }
}

// Headers.
/// A header that does not fit leaves the state as it is.
pub proof fn refused_header_changes_nothing(
    state: StateView,
    header: BlockHeader,
    latest_root: B256,
)
    requires
        header.slot != state.slot || header.slot <= state.latest_block_header.slot
            || !crate::validator::proposes_at(
            header.proposer_index,
            state.slot,
            state.validators.len(),
        ) || header.parent_root != latest_root,
    ensures
        state.process_header(header, latest_root).0 == state,
        state.process_header(header, latest_root).1 is Err,
{
}

/// A header that is taken over becomes the latest one. The history gets the parent's
/// root and one zero hash for each empty slot after it, and the places before stay.
/// Where there was one place for each slot before the parent's, the parent's root is
/// thus at the parent's slot, and there is one place for each slot before the
/// header's.
pub proof fn history_is_kept_by_slot(state: StateView, header: BlockHeader, latest_root: B256)
    requires
        state.process_header(header, latest_root).1 is Ok,
    ensures
        ({
            let after = state.process_header(header, latest_root).0;
            let before_history = state.historical_block_hashes;
            let history = after.historical_block_hashes;
            let length = before_history.len() as int;
            let parent_slot = state.latest_block_header.slot;
            &&& after.latest_block_header == header
            &&& header.parent_root == latest_root
            &&& history.len() == length + (header.slot - parent_slot)
            &&& history[length] == header.parent_root
            &&& forall|i: int| length < i < history.len() ==> history[i] == ZERO_HASH
            &&& forall|i: int| 0 <= i < length ==> history[i] == before_history[i]
            &&& length == parent_slot ==> history.len() == header.slot
                && history[parent_slot as int] == header.parent_root
        }),
{
}

/// The parent of the first block counts as justified and finalized; a later header
/// leaves the checkpoints as they are.
pub proof fn first_parent_is_the_anchor(state: StateView, header: BlockHeader, latest_root: B256)
    requires
        state.process_header(header, latest_root).1 is Ok,
    ensures
        ({
            let after = state.process_header(header, latest_root).0;
            &&& after.latest_justified.slot == state.latest_justified.slot
            &&& after.latest_finalized.slot == state.latest_finalized.slot
            &&& state.latest_block_header.slot == 0 ==> after.latest_justified.root
                == header.parent_root && after.latest_finalized.root == header.parent_root
            &&& state.latest_block_header.slot > 0 ==> after.latest_justified
                == state.latest_justified && after.latest_finalized == state.latest_finalized
        }),
{
}

/// A header does not change whether a slot is justified. After it, this is known
/// of each slot before the header's own.
pub proof fn header_keeps_justified_slots(
    state: StateView,
    header: BlockHeader,
    latest_root: B256,
    slot: u64,
)
    ensures
        ({
            let (after, outcome) = state.process_header(header, latest_root);
            &&& state.slot_justified(slot) is Some ==> after.slot_justified(slot)
                == state.slot_justified(slot)
            &&& outcome is Ok && slot < header.slot ==> after.slot_justified(slot) is Some
            &&& state.slot_justified(slot) is None ==> after.slot_justified(slot) != Some(true)
        }),
{
}

// Attestations.
/// Whether the second state is no further back than the first: its checkpoints are
/// not older, and what was justified still is.
pub open spec fn no_regress(before: StateView, after: StateView) -> bool {
    &&& before.latest_justified.slot <= after.latest_justified.slot
    &&& before.latest_finalized.slot <= after.latest_finalized.slot
    &&& forall|slot: u64| #[trigger]
        before.slot_justified(slot) == Some(true) ==> after.slot_justified(slot) == Some(true)
}

/// Finalizing a slot moves the start of the list of justified slots: each later
/// slot is as justified as it was, and each earlier one counts as justified.
pub proof fn finalizing_rebases_justified_slots(state: StateView, source: Checkpoint, slot: u64)
    requires
        source.slot > state.latest_finalized.slot,
        state.slot_justified(source.slot) is Some,
    ensures
        slot > source.slot ==> state.with_finalized(source).slot_justified(slot)
            == state.slot_justified(slot),
        slot <= source.slot ==> state.with_finalized(source).slot_justified(slot) == Some(true),
{
}

/// What one attestation can do to a state: at most mark its target as justified,
/// and then mark its source as finalized.
pub proof fn lemma_count_effect(tally: Tally, base: u64, attestation: AttestationView)
    ensures
        ({
            let source = attestation.message.source;
            let target = attestation.message.target;
            let after = match tally.count(base, attestation) {
                Ok(counted) => counted.state,
                Err((state, _)) => state,
            };
            let justified = tally.state.with_justified(target);
            &&& after == tally.state || {
                &&& tally.state.slot_justified(source.slot) == Some(true)
                &&& tally.state.slot_justified(target.slot) == Some(false)
                &&& tally.is_candidate(attestation.message)
                &&& is_supermajority(
                    count_set(
                        votes_joined(tally.votes_for(target.root), attestation.participants),
                    ),
                    tally.state.validators.len(),
                )
                &&& after == justified || {
                    &&& justified.link_finalizes(source, target)
                    &&& after == justified.with_finalized(source)
                }
            }
        }),
{
}

/// Counting an attestation never moves a checkpoint backwards, and a slot that is
/// justified stays justified.
pub proof fn attestation_never_regresses(tally: Tally, base: u64, attestation: AttestationView)
    ensures
        match tally.count(base, attestation) {
            Ok(after) => no_regress(tally.state, after.state),
            Err((state, _)) => no_regress(tally.state, state),
        },
{
    lemma_count_effect(tally, base, attestation);
    let before = tally.state;
    let source = attestation.message.source;
    let target = attestation.message.target;
    let justified = before.with_justified(target);
    if before.slot_justified(target.slot) == Some(false) {
        assert forall|slot: u64| #[trigger] before.slot_justified(slot) == Some(true) implies
            justified.slot_justified(slot) == Some(true) by {}
        if justified.link_finalizes(source, target) && before.slot_justified(source.slot) == Some(
            true,
        ) {
            assert(justified.slot_justified(source.slot) == Some(true));
            let finalized = justified.with_finalized(source);
            assert forall|slot: u64| #[trigger] before.slot_justified(slot) == Some(true) implies
                finalized.slot_justified(slot) == Some(true) by {
                assert(justified.slot_justified(slot) == Some(true));
                finalizing_rebases_justified_slots(justified, source, slot);
            }
        }
    }
}

/// The same for the first `count` attestations of a list.
proof fn lemma_counting_never_regresses(
    tally: Tally,
    base: u64,
    attestations: Seq<AttestationView>,
    count: nat,
)
    ensures
        match tally.count_all(base, attestations, count) {
            Ok(after) => no_regress(tally.state, after.state),
            Err((state, _)) => no_regress(tally.state, state),
        },
    decreases count,
{
    if count > 0 {
        lemma_counting_never_regresses(tally, base, attestations, (count - 1) as nat);
        if let Ok(before) = tally.count_all(base, attestations, (count - 1) as nat) {
            attestation_never_regresses(before, base, attestations[count - 1]);
        }
    }
}

/// Attestations never move a checkpoint backwards, in whatever order they come,
/// and a slot that is justified stays justified, even where they fail.
pub proof fn attestations_never_regress(
    state: StateView,
    attestations: Seq<AttestationView>,
    data_roots: Seq<B256>,
)
    ensures
        no_regress(state, state.process_attestations(attestations, data_roots).0),
{
    let base = state.latest_finalized.slot;
    lemma_counting_never_regresses(state.tally(), base, attestations, attestations.len());
    let after = state.process_attestations(attestations, data_roots).0;
    if let Ok(counted) = state.tally().count_all(base, attestations, attestations.len()) {
        assert forall|slot: u64| counted.settled().0.slot_justified(slot)
            == counted.state.slot_justified(slot) by {}
    }
}

/// A slot after the finalized one becomes justified only as the target of an
/// attestation from a justified source, on the chain, at a slot that may be
/// justified, once two thirds of the validators have voted for it.
pub proof fn only_supermajorities_justify(
    tally: Tally,
    base: u64,
    attestation: AttestationView,
    after: Tally,
    slot: u64,
)
    requires
        tally.count(base, attestation) == Ok::<Tally, (StateView, StateError)>(after),
        slot > after.state.latest_finalized.slot,
        tally.state.slot_justified(slot) != Some(true),
        after.state.slot_justified(slot) == Some(true),
    ensures
        slot == attestation.message.target.slot,
        tally.state.slot_justified(attestation.message.source.slot) == Some(true),
        matches_chain(tally.state.historical_block_hashes, attestation.message),
        attestation.message.source.slot < slot,
        justifiable(slot, tally.state.latest_finalized.slot),
        is_supermajority(
            count_set(
                votes_joined(
                    tally.votes_for(attestation.message.target.root),
                    attestation.participants,
                ),
            ),
            tally.state.validators.len(),
        ),
{
    lemma_count_effect(tally, base, attestation);
    let source = attestation.message.source;
    let justified = tally.state.with_justified(attestation.message.target);
    if after.state != tally.state && after.state != justified {
        assert(justified.slot_justified(source.slot) is Some);
        finalizing_rebases_justified_slots(justified, source, slot);
    }
}

/// An attestation from a justified source for a later block of the chain, at a slot
/// that may be justified, justifies that block once two thirds of the validators
/// have voted for it. It finalizes the source exactly when the source lies after
/// the finalized slot and no slot between the two may be justified; every other root
/// with votes must then be in the history.
pub proof fn supermajorities_justify(tally: Tally, base: u64, attestation: AttestationView)
    requires
        tally.state.link_finalizes(attestation.message.source, attestation.message.target)
            ==> forall|root: B256| #[trigger]
            tally.votes.contains_key(root) && root != attestation.message.target.root
                ==> tally.slot_of(base, root) is Some,
        tally.state.slot_justified(attestation.message.source.slot) == Some(true),
        tally.state.slot_justified(attestation.message.target.slot) == Some(false),
        tally.is_candidate(attestation.message),
        first_set_from(attestation.participants, tally.state.validators.len()) is None,
        is_supermajority(
            count_set(
                votes_joined(
                    tally.votes_for(attestation.message.target.root),
                    attestation.participants,
                ),
            ),
            tally.state.validators.len(),
        ),
    ensures
        tally.count(base, attestation) is Ok,
        ({
            let source = attestation.message.source;
            let target = attestation.message.target;
            let after = tally.count(base, attestation)->Ok_0;
            &&& after.state.slot_justified(target.slot) == Some(true)
            &&& after.state.latest_justified.slot >= target.slot
            &&& !after.votes.contains_key(target.root)
            &&& after.state.latest_finalized == if tally.state.link_finalizes(source, target) {
                source
            } else {
                tally.state.latest_finalized
            }
        }),
{
    let source = attestation.message.source;
    let target = attestation.message.target;
    let justified = tally.state.with_justified(target);
    assert(justified.slot_justified(source.slot) == Some(true));
    assert(justified.slot_justified(target.slot) == Some(true));
    assert(justified.link_finalizes(source, target) == tally.state.link_finalizes(source, target));
    if justified.link_finalizes(source, target) {
        finalizing_rebases_justified_slots(justified, source, target.slot);
    }
}

/// Finality moves only to the justified source of an attestation whose target has
/// just been justified, and only if no slot between the two may be justified.
pub proof fn only_closed_links_finalize(
    tally: Tally,
    base: u64,
    attestation: AttestationView,
    after: Tally,
)
    requires
        tally.count(base, attestation) == Ok::<Tally, (StateView, StateError)>(after),
        after.state.latest_finalized != tally.state.latest_finalized,
    ensures
        after.state.latest_finalized == attestation.message.source,
        tally.state.slot_justified(attestation.message.source.slot) == Some(true),
        after.state.slot_justified(attestation.message.target.slot) == Some(true),
        forall|slot: u64|
            attestation.message.source.slot < slot < attestation.message.target.slot
                ==> !#[trigger] justifiable(slot, tally.state.latest_finalized.slot),
{
    lemma_count_effect(tally, base, attestation);
    let source = attestation.message.source;
    let target = attestation.message.target;
    let justified = tally.state.with_justified(target);
    assert(justified.slot_justified(source.slot) is Some);
    assert(justified.slot_justified(target.slot) == Some(true));
    finalizing_rebases_justified_slots(justified, source, target.slot);
}

/// Votes that are recorded stay recorded: counting an attestation keeps each vote
/// for a block that is neither justified by it nor dropped as no later than the
/// block that it finalizes.
pub proof fn recorded_votes_stay(
    tally: Tally,
    base: u64,
    attestation: AttestationView,
    after: Tally,
    root: B256,
    validator: int,
)
    requires
        tally.count(base, attestation) == Ok::<Tally, (StateView, StateError)>(after),
        tally.votes.contains_key(root),
        0 <= validator < tally.votes[root].len(),
        tally.votes[root][validator],
    ensures
        ({
            let target = attestation.message.target;
            ||| after.votes.contains_key(root) && after.votes[root].len()
                == tally.votes[root].len() && after.votes[root][validator]
            ||| root == target.root && after.state.slot_justified(target.slot) == Some(true)
            ||| after.state.latest_finalized == attestation.message.source && !tally.is_after(
                base,
                root,
                attestation.message.source.slot,
            )
        }),
{
    lemma_count_effect(tally, base, attestation);
    let source = attestation.message.source;
    let target = attestation.message.target;
    let justified = tally.state.with_justified(target);
    if after.state != tally.state {
        assert(justified.slot_justified(target.slot) == Some(true));
        if after.state != justified {
            assert(justified.slot_justified(source.slot) is Some);
            finalizing_rebases_justified_slots(justified, source, target.slot);
        }
    } else {
        assert(after.votes == tally.votes || after.votes == tally.votes.insert(
            target.root,
            votes_joined(tally.votes_for(target.root), attestation.participants),
        ) || after.state.slot_justified(target.slot) == Some(true));
    }
}

/// Finalizing keeps the pending votes for each later block, and no others.
pub proof fn pruning_keeps_later_votes(
    tally: Tally,
    base: u64,
    source: Checkpoint,
    target: Checkpoint,
    root: B256,
)
    requires
        tally.state.link_finalizes(source, target),
        tally.all_known(base),
    ensures
        ({
            let after = tally.finalize_by(base, source, target);
            &&& after is Ok
            &&& after->Ok_0.state.latest_finalized == source
            &&& after->Ok_0.votes.contains_key(root) <==> tally.votes.contains_key(root)
                && tally.is_after(base, root, source.slot)
            &&& after->Ok_0.votes.contains_key(root) ==> after->Ok_0.votes[root]
                == tally.votes[root]
        }),
{
}

/// An attestation with a zero source or target root changes nothing.
pub proof fn zero_roots_do_not_count(tally: Tally, base: u64, attestation: AttestationView)
    requires
        attestation.message.source.root == ZERO_HASH || attestation.message.target.root
            == ZERO_HASH,
        tally.state.slot_justified(attestation.message.source.slot) is Some,
    ensures
        tally.count(base, attestation) == Ok::<Tally, (StateView, StateError)>(tally),
{
}

/// An attestation that comes a second time changes nothing: no vote counts twice.
pub proof fn repeated_attestation_changes_nothing(
    tally: Tally,
    base: u64,
    attestation: AttestationView,
    after: Tally,
)
    requires
        tally.count(base, attestation) == Ok::<Tally, (StateView, StateError)>(after),
    ensures
        after.count(base, attestation) == Ok::<Tally, (StateView, StateError)>(after),
{
    lemma_count_effect(tally, base, attestation);
    let source = attestation.message.source;
    let target = attestation.message.target;
    let justified = tally.state.with_justified(target);
    if after.state == tally.state {
        if after != tally {
            let votes = votes_joined(tally.votes_for(target.root), attestation.participants);
            assert(votes_joined(votes, attestation.participants) =~= votes);
            if after.votes == tally.votes.insert(target.root, votes) {
                assert(after.votes.insert(target.root, votes) =~= after.votes);
            }
        }
    } else {
        assert(justified.slot_justified(source.slot) == Some(true));
        assert(justified.slot_justified(target.slot) == Some(true));
        if after.state != justified {
            finalizing_rebases_justified_slots(justified, source, target.slot);
            finalizing_rebases_justified_slots(justified, source, source.slot);
        }
    }
}

/// Whether an attestation is passed over: a root of it is zero, its source is not
/// justified, or its target is already, is not on the chain, does not lie ahead of the
/// source or may not be justified.
pub open spec fn is_passed_over(state: StateView, attestation: AttestationView) -> bool {
    let source = attestation.message.source;
    let target = attestation.message.target;
    &&& state.slot_justified(source.slot) is Some
    &&& {
        ||| source.root == ZERO_HASH
        ||| target.root == ZERO_HASH
        ||| state.slot_justified(source.slot) == Some(false)
        ||| state.slot_justified(target.slot) == Some(true)
        ||| state.slot_justified(target.slot) is Some && {
            ||| !matches_chain(state.historical_block_hashes, attestation.message)
            ||| target.slot <= source.slot
            ||| !justifiable(target.slot, state.latest_finalized.slot)
        }
    }
}

/// Counting attestations that are passed over changes nothing.
proof fn lemma_passed_over(
    tally: Tally,
    base: u64,
    attestations: Seq<AttestationView>,
    count: nat,
)
    requires
        count <= attestations.len(),
        forall|i: int| 0 <= i < count ==> is_passed_over(tally.state, #[trigger] attestations[i]),
    ensures
        tally.count_all(base, attestations, count) == Ok::<Tally, (StateView, StateError)>(tally),
    decreases count,
{
    if count > 0 {
        lemma_passed_over(tally, base, attestations, (count - 1) as nat);
        assert(is_passed_over(tally.state, attestations[count - 1]));
    }
}

/// Attestations that are all passed over change nothing, not even how the pending
/// votes are held, if those are in order and within the limit. In particular, this
/// holds where there is no attestation.
pub proof fn attestations_passed_over_change_nothing(
    state: StateView,
    attestations: Seq<AttestationView>,
    data_roots: Seq<B256>,
)
    requires
        state.pending_in_order(),
        state.justifications_roots.len() <= HISTORICAL_ROOTS_LIMIT,
        data_roots.to_set().len() <= MAX_ATTESTATIONS_DATA,
        forall|i: int|
            0 <= i < attestations.len() ==> is_passed_over(state, #[trigger] attestations[i]),
    ensures
        state.process_attestations(attestations, data_roots) == (state, Ok::<(), StateError>(())),
{
    let base = state.latest_finalized.slot;
    lemma_tally_in_order(state);
    lemma_passed_over(state.tally(), base, attestations, attestations.len());
    assert(state.tally().settled().0 =~= state);
}

/// Where there is nothing to count, a state stays as it is, if its pending votes are
/// in order and within the limit.
pub proof fn no_attestations_change_nothing(state: StateView)
    requires
        state.pending_in_order(),
        state.justifications_roots.len() <= HISTORICAL_ROOTS_LIMIT,
    ensures
        state.process_attestations(Seq::empty(), Seq::empty()) == (
            state,
            Ok::<(), StateError>(()),
        ),
{
    assert(Seq::<B256>::empty().to_set() =~= Set::empty());
    attestations_passed_over_change_nothing(state, Seq::empty(), Seq::empty());
}

/// Whether it is known of the slots of an attestation whether they are justified, and
/// each of its participants is a validator.
pub open spec fn speaks_of_known(state: StateView, attestation: AttestationView) -> bool {
    &&& state.slot_justified(attestation.message.source.slot) is Some
    &&& state.slot_justified(attestation.message.target.slot) is Some
    &&& forall|i: int|
        state.validators.len() <= i < attestation.participants.len()
            ==> !attestation.participants[i]
}

/// No bit is found where none is set.
pub proof fn lemma_no_set_bit(bits: Seq<bool>, from: nat)
    requires
        forall|i: int| from <= i < bits.len() ==> !bits[i],
    ensures
        first_set_from(bits, from) is None,
    decreases bits.len() - from,
{
    if from < bits.len() {
        lemma_no_set_bit(bits, from + 1);
    }
}

/// Counting an attestation that speaks of what is known does not fail. What was known
/// stays known, and the votes stay for blocks after the finalized one.
proof fn lemma_known_is_counted(tally: Tally, base: u64, attestation: AttestationView)
    requires
        tally.votes_fit(),
        base <= tally.state.latest_finalized.slot,
        speaks_of_known(tally.state, attestation),
    ensures
        tally.count(base, attestation) matches Ok(after) && {
            &&& after.votes_fit()
            &&& base <= after.state.latest_finalized.slot
            &&& after.state.validators == tally.state.validators
            &&& after.state.historical_block_hashes == tally.state.historical_block_hashes
            &&& forall|slot: u64| #[trigger]
                tally.state.slot_justified(slot) is Some ==> after.state.slot_justified(
                    slot,
                ) is Some
        },
{
    let source = attestation.message.source;
    let target = attestation.message.target;
    let history = tally.state.historical_block_hashes;
    lemma_no_set_bit(attestation.participants, tally.state.validators.len());
    lemma_count_effect(tally, base, attestation);
    if tally.state.slot_justified(target.slot) == Some(false) && tally.is_candidate(
        attestation.message,
    ) {
        let justified = Tally {
            state: tally.state.with_justified(target),
            votes: tally.votes.remove(target.root),
        };
        assert(occurs_after(history, tally.state.latest_finalized.slot, target.root)) by {
            assert(history[target.slot as int] == target.root);
        }
        assert forall|root: B256| #[trigger] justified.votes.contains_key(root) implies ({
            &&& justified.slot_of(base, root) is Some
            &&& justified.is_after(base, root, source.slot) ==> occurs_after(
                history,
                source.slot,
                root,
            )
        }) by {
            assert(tally.votes.contains_key(root));
            lemma_root_slot(history, base + 1, history.len() as int, root);
        }
        let pruned = justified.pruned_votes(base, source.slot);
        assert(pruned.dom().subset_of(tally.votes.dom()));
        vstd::set_lib::lemma_set_subset_finite(tally.votes.dom(), pruned.dom());
        assert forall|slot: u64| #[trigger] tally.state.slot_justified(slot) is Some implies
            justified.state.slot_justified(slot) is Some by {}
        if tally.state.slot_justified(source.slot) == Some(true)
            && justified.state.link_finalizes(source, target) {
            assert(justified.state.slot_justified(source.slot) is Some);
            assert forall|slot: u64| #[trigger] tally.state.slot_justified(slot) is Some implies
                justified.state.with_finalized(source).slot_justified(slot) is Some by {
                assert(justified.state.slot_justified(slot) is Some);
                finalizing_rebases_justified_slots(justified.state, source, slot);
            }
        }
    }
}

/// The same for the first `count` attestations of a list.
proof fn lemma_known_are_counted(
    tally: Tally,
    base: u64,
    attestations: Seq<AttestationView>,
    count: nat,
)
    requires
        tally.votes_fit(),
        base <= tally.state.latest_finalized.slot,
        count <= attestations.len(),
        forall|i: int|
            0 <= i < attestations.len() ==> speaks_of_known(
                tally.state,
                #[trigger] attestations[i],
            ),
    ensures
        tally.count_all(base, attestations, count) matches Ok(after) && {
            &&& after.votes_fit()
            &&& base <= after.state.latest_finalized.slot
            &&& after.state.validators == tally.state.validators
            &&& after.state.historical_block_hashes == tally.state.historical_block_hashes
            &&& forall|slot: u64| #[trigger]
                tally.state.slot_justified(slot) is Some ==> after.state.slot_justified(
                    slot,
                ) is Some
        },
    decreases count,
{
    if count > 0 {
        lemma_known_are_counted(tally, base, attestations, (count - 1) as nat);
        let before = tally.count_all(base, attestations, (count - 1) as nat)->Ok_0;
        assert(speaks_of_known(tally.state, attestations[count - 1]));
        lemma_known_is_counted(before, base, attestations[count - 1]);
        let after = before.count(base, attestations[count - 1])->Ok_0;
        assert forall|slot: u64| #[trigger] tally.state.slot_justified(slot) is Some implies
            after.state.slot_justified(slot) is Some by {
            assert(before.state.slot_justified(slot) is Some);
        }
    }
}

/// Where the pending votes can be read and are for blocks after the finalized one,
/// attestations that speak of what is known are counted, unless they hold too many
/// different data. On a consistent state, each slot before the latest block is known.
pub proof fn known_attestations_are_counted(
    state: StateView,
    attestations: Seq<AttestationView>,
    data_roots: Seq<B256>,
)
    requires
        state.pending_refusal() is None,
        state.pending_occurs(),
        state.historical_block_hashes.len() <= HISTORICAL_ROOTS_LIMIT,
        data_roots.to_set().len() <= MAX_ATTESTATIONS_DATA,
        forall|i: int|
            0 <= i < attestations.len() ==> speaks_of_known(state, #[trigger] attestations[i]),
    ensures
        state.process_attestations(attestations, data_roots).1 is Ok,
{
    let base = state.latest_finalized.slot;
    let history = state.historical_block_hashes;
    lemma_tally_valid(state);
    lemma_known_are_counted(state.tally(), base, attestations, attestations.len());
    let counted = state.tally().count_all(base, attestations, attestations.len())->Ok_0;
    let roots = counted.votes.dom();
    assert forall|root: B256| #[trigger] roots.contains(root) implies history.to_set().contains(
        root,
    ) by {
        assert(counted.votes.contains_key(root));
        assert(occurs_after(history, counted.state.latest_finalized.slot, root));
    }
    history.lemma_cardinality_of_set();
    vstd::set_lib::lemma_len_subset(roots, history.to_set());
    crate::votes::lemma_sorted_set_items(roots);
}

// Blocks.
/// A block whose signatures do not check changes nothing.
pub proof fn unsigned_block_changes_nothing(state: StateView, block: Block)
    ensures
        state.state_transition(block, false) == (
            state,
            Err::<(), StateError>(StateError::InvalidSignatures),
        ),
{
}

/// A block for a slot that is not ahead changes nothing.
pub proof fn stale_block_changes_nothing(state: StateView, block: Block, valid_signatures: bool)
    requires
        block.slot <= state.slot,
    ensures
        state.state_transition(block, valid_signatures).0 == state,
        state.state_transition(block, valid_signatures).1 is Err,
{
}

/// After a block that was accepted the state is at the block's slot, its latest
/// header is the block's, the block's state root is the root of the state, and
/// the registry and the configuration are what they were. No checkpoint has moved
/// backwards, and no slot that was justified is not.
pub proof fn accepted_block_leads_to_its_state(
    state: StateView,
    block: Block,
    valid_signatures: bool,
)
    requires
        state.state_transition(block, valid_signatures).1 is Ok,
    ensures
        ({
            let after = state.state_transition(block, valid_signatures).0;
            &&& valid_signatures
            &&& after.slot == block.slot
            &&& after.latest_block_header == open_header(
                block,
                crate::block::body_root(block.body@),
            )
            &&& block.state_root == after.root()
            &&& after.validators == state.validators
            &&& after.config == state.config
            &&& no_regress(state, after)
        }),
{
    let header = open_header(block, crate::block::body_root(block.body@));
    let data_roots = crate::model::data_roots(block.body@);
    let at_slot = state.at_slot(block.slot);
    let latest_root = at_slot.latest_block_header.root();
    let accepted = at_slot.process_header(header, latest_root).0;
    state.lemma_at_slot(block.slot);
    attestations_keep_the_chain(accepted, block.body@, data_roots);
    attestations_never_regress(accepted, block.body@, data_roots);
    let after = accepted.process_attestations(block.body@, data_roots).0;
    assert forall|slot: u64| #[trigger] state.slot_justified(slot) == Some(
        true,
    ) implies after.slot_justified(slot) == Some(true) by {
        header_keeps_justified_slots(at_slot, header, latest_root, slot);
        assert(accepted.slot_justified(slot) == Some(true));
    }
}

// Signature proofs.
/// No participant is left to cover exactly when all of them are covered.
pub proof fn lemma_fresh_count_zero(participants: Seq<bool>, covered: Set<u64>)
    requires
        participants.len() <= VALIDATOR_REGISTRY_LIMIT,
    ensures
        fresh_count(participants, covered) == 0 <==> signers(participants).subset_of(covered),
    decreases participants.len(),
{
    if participants.len() > 0 {
        let shorter = participants.drop_last();
        let id = (participants.len() - 1) as u64;
        lemma_fresh_count_zero(shorter, covered);
        assert forall|other: u64| signers(participants).contains(other) <==> signers(
            shorter,
        ).contains(other) || (other == id && participants.last()) by {}
        if signers(participants).subset_of(covered) {
            assert(signers(shorter).subset_of(covered));
            if participants.last() {
                assert(signers(participants).contains(id));
            }
        }
        if fresh_count(participants, covered) == 0 {
            assert(signers(shorter).subset_of(covered));
        }
    }
}

/// The greedy choice appends to the proofs that were chosen before; the validators
/// that it covers are those that were covered before and the signers of the proofs
/// that it appends, each of which is one of those offered. In the end the signers
/// of every proof offered are covered.
pub proof fn greedy_selection_covers_all(
    remaining: Seq<ProofView>,
    selected: Seq<ProofView>,
    covered: Set<u64>,
)
    requires
        forall|i: int|
            0 <= i < remaining.len() ==> (#[trigger] remaining[i]).participants.len()
                <= VALIDATOR_REGISTRY_LIMIT,
    ensures
        ({
            let (chosen, reached) = greedy_selection(remaining, selected, covered);
            &&& selected.len() <= chosen.len() <= selected.len() + remaining.len()
            &&& chosen.take(selected.len() as int) == selected
            &&& forall|i: int|
                selected.len() <= i < chosen.len() ==> remaining.contains(#[trigger] chosen[i])
            &&& forall|id: u64| #[trigger]
                reached.contains(id) <==> covered.contains(id) || exists|i: int|
                    selected.len() <= i < chosen.len() && signers(
                        (#[trigger] chosen[i]).participants,
                    ).contains(id)
            &&& forall|i: int|
                0 <= i < remaining.len() ==> signers(
                    (#[trigger] remaining[i]).participants,
                ).subset_of(reached)
        }),
    decreases remaining.len(),
{
    let (chosen, reached) = greedy_selection(remaining, selected, covered);
    if remaining.len() == 0 {
        assert(chosen.take(selected.len() as int) =~= selected);
    } else {
        let best = crate::selection::best_place(remaining, covered, remaining.len());
        crate::selection::lemma_best_place(remaining, covered, remaining.len());
        if fresh_count(remaining[best].participants, covered) == 0 {
            assert(chosen.take(selected.len() as int) =~= selected);
            assert forall|i: int| 0 <= i < remaining.len() implies signers(
                (#[trigger] remaining[i]).participants,
            ).subset_of(reached) by {
                lemma_fresh_count_zero(remaining[i].participants, covered);
            }
        } else {
            let rest = remaining.update(best, remaining.last()).drop_last();
            let taken = selected.push(remaining[best]);
            let wider = covered.union(signers(remaining[best].participants));
            assert forall|i: int| 0 <= i < rest.len() implies (#[trigger] rest[i]).participants.len()
                <= VALIDATOR_REGISTRY_LIMIT && remaining.contains(rest[i]) by {
                let place = if i == best {
                    remaining.len() - 1
                } else {
                    i
                };
                assert(rest[i] == remaining[place]);
            }
            greedy_selection_covers_all(rest, taken, wider);
            assert(chosen.take(taken.len() as int) == taken);
            assert(chosen[selected.len() as int] == taken[selected.len() as int]);
            assert(chosen.take(selected.len() as int) =~= selected) by {
                assert forall|i: int| 0 <= i < selected.len() implies chosen[i] == selected[i] by {
                    assert(chosen.take(taken.len() as int)[i] == taken[i]);
                }
            }
            assert forall|i: int| selected.len() <= i < chosen.len() implies remaining.contains(
                #[trigger] chosen[i],
            ) by {
                if i == selected.len() {
                    assert(chosen[i] == remaining[best]);
                } else {
                    assert(rest.contains(chosen[i]));
                    let j = choose|j: int| 0 <= j < rest.len() && rest[j] == chosen[i];
                    assert(remaining.contains(rest[j]));
                }
            }
            assert forall|id: u64| #[trigger] reached.contains(id) <==> covered.contains(id)
                || exists|i: int|
                selected.len() <= i < chosen.len() && signers(
                    (#[trigger] chosen[i]).participants,
                ).contains(id) by {
                if signers(remaining[best].participants).contains(id) {
                    assert(signers(chosen[selected.len() as int].participants).contains(id));
                }
                if reached.contains(id) && !wider.contains(id) {
                    let i = choose|i: int|
                        taken.len() <= i < chosen.len() && signers(
                            (#[trigger] chosen[i]).participants,
                        ).contains(id);
                    assert(selected.len() <= i < chosen.len() && signers(
                        chosen[i].participants,
                    ).contains(id));
                }
            }
            assert forall|i: int| 0 <= i < remaining.len() implies signers(
                (#[trigger] remaining[i]).participants,
            ).subset_of(reached) by {
                if i == best {
                    assert forall|id: u64| signers(remaining[best].participants).contains(
                        id,
                    ) implies reached.contains(id) by {
                        assert(wider.contains(id));
                    }
                } else {
                    let place = if i == remaining.len() - 1 {
                        best
                    } else {
                        i
                    };
                    assert(rest[place] == remaining[i]);
                }
            }
        }
    }
}

/// Each proof that the greedy choice appends covers a validator that was covered
/// neither before nor by the proofs appended before it.
pub proof fn every_chosen_proof_covers_someone_new(
    remaining: Seq<ProofView>,
    selected: Seq<ProofView>,
    covered: Set<u64>,
    place: int,
)
    requires
        forall|i: int|
            0 <= i < remaining.len() ==> (#[trigger] remaining[i]).participants.len()
                <= VALIDATOR_REGISTRY_LIMIT,
        selected.len() <= place < greedy_selection(remaining, selected, covered).0.len(),
    ensures
        ({
            let chosen = greedy_selection(remaining, selected, covered).0;
            exists|id: u64| #[trigger]
                signers(chosen[place].participants).contains(id) && !covered.contains(id)
                    && forall|i: int|
                    selected.len() <= i < place ==> !signers(
                        (#[trigger] chosen[i]).participants,
                    ).contains(id)
        }),
    decreases remaining.len(),
{
    let chosen = greedy_selection(remaining, selected, covered).0;
    greedy_selection_covers_all(remaining, selected, covered);
    if remaining.len() > 0 {
        let best = crate::selection::best_place(remaining, covered, remaining.len());
        crate::selection::lemma_best_place(remaining, covered, remaining.len());
        let rest = remaining.update(best, remaining.last()).drop_last();
        let taken = selected.push(remaining[best]);
        let wider = covered.union(signers(remaining[best].participants));
        assert forall|i: int| 0 <= i < rest.len() implies (#[trigger] rest[i]).participants.len()
            <= VALIDATOR_REGISTRY_LIMIT by {
            assert(rest[i] == remaining[if i == best {
                remaining.len() - 1
            } else {
                i
            }]);
        }
        greedy_selection_covers_all(rest, taken, wider);
        assert(chosen.take(taken.len() as int)[selected.len() as int] == remaining[best]);
        if place == selected.len() {
            lemma_fresh_count_zero(remaining[best].participants, covered);
            let id = choose|id: u64|
                signers(remaining[best].participants).contains(id) && !covered.contains(id);
            assert(signers(chosen[place].participants).contains(id));
        } else {
            every_chosen_proof_covers_someone_new(rest, taken, wider, place);
            let id = choose|id: u64| #[trigger]
                signers(chosen[place].participants).contains(id) && !wider.contains(id)
                    && forall|i: int|
                    taken.len() <= i < place ==> !signers(
                        (#[trigger] chosen[i]).participants,
                    ).contains(id);
            assert(!signers(chosen[selected.len() as int].participants).contains(id));
        }
    }
}

/// Choosing again from some of the proofs that were offered changes nothing: their
/// signers are covered.
pub proof fn selecting_again_changes_nothing(
    remaining: Seq<ProofView>,
    selected: Seq<ProofView>,
    covered: Set<u64>,
    again: Seq<ProofView>,
)
    requires
        forall|i: int|
            0 <= i < remaining.len() ==> (#[trigger] remaining[i]).participants.len()
                <= VALIDATOR_REGISTRY_LIMIT,
        forall|i: int| 0 <= i < again.len() ==> remaining.contains(#[trigger] again[i]),
    ensures
        ({
            let (chosen, reached) = greedy_selection(remaining, selected, covered);
            greedy_selection(again, chosen, reached) == (chosen, reached)
        }),
{
    let (chosen, reached) = greedy_selection(remaining, selected, covered);
    greedy_selection_covers_all(remaining, selected, covered);
    if again.len() > 0 {
        let best = crate::selection::best_place(again, reached, again.len());
        crate::selection::lemma_best_place(again, reached, again.len());
        assert(remaining.contains(again[best]));
        let i = choose|i: int| 0 <= i < remaining.len() && remaining[i] == again[best];
        assert(signers(remaining[i].participants).subset_of(reached));
        lemma_fresh_count_zero(remaining[i].participants, reached);
    }
}

} // verus!
