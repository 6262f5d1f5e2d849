//! What each step of a chain is for, stated over the fields of states: slots, headers,
//! the first state and blocks.

use crate::attestation::{
    attestation_views, AggregatedAttestation, AttestationData, AttestationView,
};
use crate::block::{body_root, Block, BlockBody, BlockHeader};
use crate::bytes::{B256, ZERO_HASH};
use crate::checkpoint::Checkpoint;
use crate::collections::{
    attestation_list, justified_bits, participant_bits, root_list, validator_list, vote_bits,
};
use crate::error::StateError;
use crate::justifiability::{case_outcome, JustifiabilityError, JustifiabilityTest};
use crate::model::{data_roots, genesis, matches_chain, open_header, StateView};
use crate::slot::justifiable;
use crate::state::LeanState;
use crate::validator::{proposes_at, Validator};
use vstd::prelude::*;

verus! {

// Slots.
/// A slot up to five slots, a square number of slots, or the product of two consecutive
/// numbers of slots after the finalized one may be justified.
pub proof fn near_square_and_pronic_distances_are_justifiable(slot: u64, finalized: u64, k: nat)
    requires
        finalized <= slot,
        slot - finalized <= 5 || slot - finalized == k * k || slot - finalized == k * (k + 1),
    ensures
        justifiable(slot, finalized),
{
    let delta = (slot - finalized) as nat;
    if delta == k * k {
        assert(crate::slot::square(k) == delta);
    }
    if delta == k * (k + 1) {
        assert(crate::slot::pronic(k) == delta);
    }
}

/// No other slot may be justified: one that may is not before the finalized one, and
/// its distance is at most five, or the square of `k`, or the product of `k` and
/// `k + 1`.
pub proof fn only_such_distances_are_justifiable(slot: u64, finalized: u64) -> (k: nat)
    requires
        justifiable(slot, finalized),
    ensures
        finalized <= slot,
        slot - finalized <= 5 || slot - finalized == k * k || slot - finalized == k * (k + 1),
{
    let delta = (slot - finalized) as nat;
    if crate::slot::is_square(delta) {
        choose|k: nat| crate::slot::square(k) == delta
    } else {
        choose|k: nat| crate::slot::pronic(k) == delta
    }
}

/// A recorded case agrees exactly when the distance that it expects is that of its
/// slots and it expects the slot to be justifiable where it is. Otherwise the error
/// tells what was found, the distance first.
pub proof fn cases_agree_with_distance_and_rule(test: JustifiabilityTest)
    ensures
        ({
            let distance = test.slot as int - test.finalized_slot as int;
            let actual = justifiable(test.slot, test.finalized_slot);
            match case_outcome(test) {
                Ok(_) => distance == test.output.delta && actual == test.output.is_justifiable,
                Err(JustifiabilityError::DeltaMismatch { expected_delta, actual_delta }) => {
                    &&& distance != test.output.delta
                    &&& expected_delta == test.output.delta
                    &&& actual_delta == distance
                },
                Err(JustifiabilityError::JustifiableMismatch { expected, actual: found }) => {
                    &&& distance == test.output.delta
                    &&& expected == test.output.is_justifiable
                    &&& found == actual
                    &&& found != expected
                },
            }
        }),
{
}

/// Proposers take turns: of `count` validators, each slot has the one that is left when
/// full rounds are taken off, and no other.
pub proof fn proposers_take_turns(rounds: nat, turn: u64, slot: u64, other: u64, count: nat)
    requires
        turn < count,
        slot == rounds * count + turn,
    ensures
        proposes_at(turn, slot, count),
        proposes_at(other, slot, count) ==> other == turn,
{
    vstd::arithmetic::div_mod::lemma_fundamental_div_mod_converse(
        slot as int,
        count as int,
        rounds as int,
        turn as int,
    );
}

/// Advancing by one slot fills in the state root of the latest header, with the root of
/// the state, if it is the zero hash, and counts the slot. Nothing else changes.
pub proof fn one_slot_on(state: StateView)
    requires
        state.slot < u64::MAX,
    ensures
        ({
            let (after, outcome) = state.process_slots((state.slot + 1) as u64);
            let header = state.latest_block_header;
            &&& outcome == Ok::<(), StateError>(())
            &&& after.config == state.config
            &&& after.slot == state.slot + 1
            &&& after.latest_block_header.slot == header.slot
            &&& after.latest_block_header.proposer_index == header.proposer_index
            &&& after.latest_block_header.parent_root == header.parent_root
            &&& after.latest_block_header.body_root == header.body_root
            &&& header.state_root == ZERO_HASH ==> after.latest_block_header.state_root
                == state.root()
            &&& header.state_root != ZERO_HASH ==> after.latest_block_header.state_root
                == header.state_root
            &&& after.latest_justified == state.latest_justified
            &&& after.latest_finalized == state.latest_finalized
            &&& after.historical_block_hashes == state.historical_block_hashes
            &&& after.justified_slots == state.justified_slots
            &&& after.validators == state.validators
            &&& after.justifications_roots == state.justifications_roots
            &&& after.justifications_validators == state.justifications_validators
        }),
{
    let next = state.next_slot(state.root());
    assert(state.at_slot(next.slot) == next.at_slot(next.slot));
}

/// Beginning a slot with the root of the state is advancing by one slot.
pub proof fn beginning_a_slot_is_advancing(state: StateView)
    requires
        state.slot < u64::MAX,
    ensures
        state.next_slot(state.root()) == state.process_slots((state.slot + 1) as u64).0,
{
    let next = state.next_slot(state.root());
    assert(state.at_slot(next.slot) == next.at_slot(next.slot));
}

/// Beginning a slot uses the root that it is given exactly where the latest header has
/// none yet.
pub proof fn beginning_a_slot_uses_the_given_root(state: StateView, state_root: B256)
    requires
        state.slot < u64::MAX,
    ensures
        ({
            let after = state.next_slot(state_root);
            let filled = if state.latest_block_header.state_root == ZERO_HASH {
                state_root
            } else {
                state.latest_block_header.state_root
            };
            after == (StateView {
                slot: after.slot,
                latest_block_header: BlockHeader { state_root: filled, ..state.latest_block_header },
                ..state
            }) && after.slot == state.slot + 1
        }),
{
}

/// Advancing to one slot and on to a later one is advancing to the later one.
pub proof fn slots_are_passed_one_after_the_other(state: StateView, between: u64, target: u64)
    requires
        state.slot < between < target,
    ensures
        state.process_slots(between).0.process_slots(target) == state.process_slots(target),
{
    state.lemma_at_slot(between);
    crate::laws::slots_compose(state, between, target);
}

/// Only a later slot can be advanced to.
pub proof fn slots_do_not_go_back(state: StateView, target: u64)
    ensures
        state.process_slots(target).1 is Ok <==> state.slot < target,
        target <= state.slot ==> state.process_slots(target) == (
            state,
            Err::<(), StateError>(
                StateError::TargetSlotNotInFuture { current: state.slot, target },
            ),
        ),
{
}

// The first state.
/// A chain starts at slot zero with the given registry, without history, justified slots
/// or votes, and with a header that names no other block and has an empty body.
pub proof fn a_chain_starts_empty(genesis_time: u64, validators: Seq<Validator>)
    ensures
        ({
            let state = genesis(genesis_time, validators);
            &&& state.config.genesis_time == genesis_time
            &&& state.slot == 0
            &&& state.latest_block_header.slot == 0
            &&& state.latest_block_header.proposer_index == 0
            &&& state.latest_block_header.parent_root == ZERO_HASH
            &&& state.latest_block_header.state_root == ZERO_HASH
            &&& state.latest_block_header.body_root == body_root(Seq::empty())
            &&& state.latest_justified.root == ZERO_HASH
            &&& state.latest_justified.slot == 0
            &&& state.latest_finalized.root == ZERO_HASH
            &&& state.latest_finalized.slot == 0
            &&& state.historical_block_hashes.len() == 0
            &&& state.justified_slots.len() == 0
            &&& state.validators == validators
            &&& state.justifications_roots.len() == 0
            &&& state.justifications_validators.len() == 0
        }),
{
}

/// The zero hash is thirty-two zero bytes.
pub proof fn the_zero_hash_is_zero()
    ensures
        forall|i: int| 0 <= i < 32 ==> ZERO_HASH[i] == 0,
{
}

// Headers.
/// The number of slots after the finalized one and before the header's.
pub open spec fn open_slots(state: StateView, header: BlockHeader) -> int {
    if header.slot > state.latest_finalized.slot + 1 {
        header.slot - state.latest_finalized.slot - 1
    } else {
        0
    }
}

/// A header for the current slot that is newer than the latest one, by the proposer of
/// the slot, with the latest header's root as its parent, is taken over exactly when
/// the history with one entry more for each slot since the latest header, and the list
/// of slots since the finalized one, stay within 262144 entries; a list that is long
/// enough already need not grow. For any other header there is an error, which tells
/// the first thing that is wrong.
pub proof fn fitting_headers_are_taken_over(
    state: StateView,
    header: BlockHeader,
    latest_root: B256,
)
    requires
        state.validators.len() > 0,
    ensures
        ({
            let outcome = state.process_header(header, latest_root).1;
            let latest = state.latest_block_header.slot;
            let turn = state.slot as int % state.validators.len() as int;
            let length = state.historical_block_hashes.len();
            if header.slot != state.slot {
                outcome == Err::<(), StateError>(StateError::BlockSlotMismatch)
            } else if header.slot <= latest {
                outcome == Err::<(), StateError>(StateError::BlockSlotNotNewer)
            } else if header.proposer_index != turn {
                outcome == Err::<(), StateError>(StateError::WrongProposer)
            } else if header.parent_root != latest_root {
                outcome == Err::<(), StateError>(StateError::ParentRootMismatch)
            } else if length >= 262144 {
                outcome == Err::<(), StateError>(StateError::HistoryFull)
            } else if length + (header.slot - latest) > 262144 {
                outcome == Err::<(), StateError>(StateError::HistoryPrefillFull)
            } else if open_slots(state, header) > 262144 && open_slots(state, header)
                > state.justified_slots.len() {
                outcome == Err::<(), StateError>(StateError::JustifiedSlotsFull)
            } else {
                outcome == Ok::<(), StateError>(())
            }
        }),
{
}

/// What taking over a header does. It becomes the latest one. The parent's root goes to
/// the end of the history, and one zero hash for each slot in between. The list of
/// justified slots reaches up to the header's slot at least, with what was set and
/// nothing more. The parent of the first block is the root of both checkpoints. Nothing
/// else changes.
pub proof fn taking_over_a_header(state: StateView, header: BlockHeader, latest_root: B256)
    requires
        state.process_header(header, latest_root).1 is Ok,
    ensures
        ({
            let after = state.process_header(header, latest_root).0;
            let before = state.historical_block_hashes;
            let history = after.historical_block_hashes;
            let bits = state.justified_slots;
            let first = state.latest_block_header.slot == 0;
            &&& after.latest_block_header == header
            &&& history.len() == before.len() + (header.slot - state.latest_block_header.slot)
            &&& forall|i: int| 0 <= i < before.len() ==> history[i] == before[i]
            &&& history[before.len() as int] == header.parent_root
            &&& forall|i: int| before.len() < i < history.len() ==> history[i] == ZERO_HASH
            &&& after.justified_slots.len() == if bits.len() < open_slots(state, header) {
                open_slots(state, header)
            } else {
                bits.len() as int
            }
            &&& forall|i: int|
                0 <= i < after.justified_slots.len() ==> #[trigger] after.justified_slots[i] == (i
                    < bits.len() && bits[i])
            &&& after.latest_justified.slot == state.latest_justified.slot
            &&& after.latest_finalized.slot == state.latest_finalized.slot
            &&& after.latest_justified.root == if first {
                header.parent_root
            } else {
                state.latest_justified.root
            }
            &&& after.latest_finalized.root == if first {
                header.parent_root
            } else {
                state.latest_finalized.root
            }
            &&& after.config == state.config
            &&& after.slot == state.slot
            &&& after.validators == state.validators
            &&& after.justifications_roots == state.justifications_roots
            &&& after.justifications_validators == state.justifications_validators
        }),
{
}

/// What is left of a header that is not taken over. One that does not fit changes
/// nothing. Where there is no room, the parent of the first block is the root of both
/// checkpoints already, and the history holds what it has room for.
pub proof fn headers_without_room(state: StateView, header: BlockHeader, latest_root: B256)
    requires
        state.process_header(header, latest_root).1 is Err,
        state.historical_block_hashes.len() <= 262144,
    ensures
        ({
            let (after, outcome) = state.process_header(header, latest_root);
            let error = outcome->Err_0;
            let before = state.historical_block_hashes;
            let history = after.historical_block_hashes;
            let full = before.len() + (header.slot - state.latest_block_header.slot);
            let first = state.latest_block_header.slot == 0;
            let room = error is HistoryFull || error is HistoryPrefillFull
                || error is JustifiedSlotsFull;
            &&& !room ==> after == state
            &&& room ==> {
                &&& after.latest_block_header == state.latest_block_header
                &&& after.latest_justified.slot == state.latest_justified.slot
                &&& after.latest_finalized.slot == state.latest_finalized.slot
                &&& after.latest_justified.root == if first {
                    header.parent_root
                } else {
                    state.latest_justified.root
                }
                &&& after.latest_finalized.root == if first {
                    header.parent_root
                } else {
                    state.latest_finalized.root
                }
                &&& after.config == state.config
                &&& after.slot == state.slot
                &&& after.justified_slots == state.justified_slots
                &&& after.validators == state.validators
                &&& after.justifications_roots == state.justifications_roots
                &&& after.justifications_validators == state.justifications_validators
                &&& history.len() == if full <= 262144 {
                    full
                } else {
                    262144
                }
                &&& forall|i: int| 0 <= i < before.len() ==> history[i] == before[i]
                &&& before.len() < history.len() ==> history[before.len() as int]
                    == header.parent_root
                &&& forall|i: int| before.len() < i < history.len() ==> history[i] == ZERO_HASH
            }
        }),
{
    let after = state.process_header(header, latest_root).0;
    if state.historical_block_hashes.len() >= 262144 {
        assert(after.historical_block_hashes == state.historical_block_hashes);
    }
}

/// Whether the history holds a checkpoint's block at the checkpoint's slot, and it is
/// a block.
pub open spec fn holds(history: Seq<B256>, checkpoint: Checkpoint) -> bool {
    &&& checkpoint.slot < history.len()
    &&& history[checkpoint.slot as int] == checkpoint.root
    &&& exists|i: int| 0 <= i < 32 && #[trigger] checkpoint.root[i] != 0
}

/// Data match a chain exactly when it holds the source, the target and the head, each at
/// its slot, and none of them is the zero hash.
pub proof fn data_match_where_all_three_are_held(history: Seq<B256>, data: AttestationData)
    ensures
        matches_chain(history, data) <==> {
            &&& holds(history, data.source)
            &&& holds(history, data.target)
            &&& holds(history, data.head)
        },
{
    lemma_nonzero(data.source.root);
    lemma_nonzero(data.target.root);
    lemma_nonzero(data.head.root);
}

/// A hash is not the zero hash exactly when one of its bytes is not zero.
proof fn lemma_nonzero(hash: B256)
    ensures
        hash != ZERO_HASH <==> exists|i: int| 0 <= i < 32 && #[trigger] hash[i] != 0,
{
    if forall|i: int| 0 <= i < 32 ==> #[trigger] hash[i] == 0 {
        assert(hash =~= ZERO_HASH);
    }
}

// Blocks.
/// The header of a block says what the block says, with the root of its body in place of
/// the body and no state root yet.
pub proof fn headers_say_what_blocks_say(block: Block, root: B256)
    ensures
        ({
            let header = open_header(block, root);
            &&& header.slot == block.slot
            &&& header.proposer_index == block.proposer_index
            &&& header.parent_root == block.parent_root
            &&& header.state_root == ZERO_HASH
            &&& header.body_root == root
        }),
{
}

/// There is one data root for each attestation, that of its own data.
pub proof fn data_roots_are_one_for_one(attestations: Seq<AttestationView>)
    ensures
        data_roots(attestations).len() == attestations.len(),
        forall|i: int|
            0 <= i < attestations.len() ==> #[trigger] data_roots(attestations)[i]
                == attestations[i].message.root(),
{
}

/// A block is its header, and then its attestations: an error of the header ends it,
/// and the outcome of the attestations is the block's.
pub proof fn a_block_is_its_header_and_its_attestations(
    state: StateView,
    block: Block,
    roots: Seq<B256>,
)
    requires
        roots.len() == block.body@.len(),
        forall|i: int| 0 <= i < roots.len() ==> #[trigger] roots[i] == block.body@[i].message.root(),
    ensures
        ({
            let header = BlockHeader {
                slot: block.slot,
                proposer_index: block.proposer_index,
                parent_root: block.parent_root,
                state_root: ZERO_HASH,
                body_root: body_root(block.body@),
            };
            let (accepted, outcome) = state.process_header(
                header,
                state.latest_block_header.root(),
            );
            &&& outcome is Err ==> state.process_block(block) == (accepted, outcome)
            &&& outcome is Ok ==> state.process_block(block) == accepted.process_attestations(
                block.body@,
                roots,
            )
        }),
{
    assert(data_roots(block.body@) =~= roots);
}

/// A transition advances to the block's slot, takes the block over, and then holds the
/// block's state root against the root of the state. It needs valid signatures and a
/// later slot, and ends at the first error.
pub proof fn a_transition_is_its_slots_and_its_block(
    state: StateView,
    block: Block,
    valid_signatures: bool,
)
    ensures
        ({
            let all = state.state_transition(block, valid_signatures);
            let (ahead, slots) = state.process_slots(block.slot);
            let (after, outcome) = ahead.process_block(block);
            &&& !valid_signatures ==> all == (
                state,
                Err::<(), StateError>(StateError::InvalidSignatures),
            )
            &&& valid_signatures && slots is Err ==> all == (state, slots)
            &&& valid_signatures && slots is Ok ==> {
                &&& all.0 == after
                &&& outcome is Err ==> all.1 == outcome
                &&& outcome is Ok && block.state_root == after.root() ==> all.1 == Ok::<
                    (),
                    StateError,
                >(())
                &&& outcome is Ok && block.state_root != after.root() ==> all.1 == Err::<
                    (),
                    StateError,
                >(StateError::InvalidStateRoot)
            }
        }),
{
}

// What machine numbers allow.
/// Attestations can be counted unless they are not refused and the finalized slot is the
/// last one that there is.
pub proof fn counting_needs_a_later_slot(state: StateView, roots: Seq<B256>)
    ensures
        state.can_count(roots) <==> {
            ||| roots.to_set().len() > 16
            ||| state.justifications_roots.contains(ZERO_HASH)
            ||| state.justifications_validators.len() != state.justifications_roots.len()
                * state.validators.len()
            ||| state.latest_finalized.slot != 0xffff_ffff_ffff_ffff
        },
{
}

/// A block can be taken unless its slot fits and there is no validator, or its header is
/// taken over and its attestations cannot be counted then.
pub proof fn taking_a_block_needs_a_validator(state: StateView, block: Block)
    ensures
        ({
            let (accepted, outcome) = state.process_header(
                open_header(block, body_root(block.body@)),
                state.latest_block_header.root(),
            );
            let fits = block.slot == state.slot && block.slot > state.latest_block_header.slot;
            state.can_take_block(block) <==> {
                ||| !fits
                ||| state.validators.len() > 0 && (outcome is Err || accepted.can_count(
                    data_roots(block.body@),
                ))
            }
        }),
{
}

/// A transition is possible unless the block is signed and ahead and cannot be taken at
/// its slot.
pub proof fn a_transition_needs_a_block_that_can_be_taken(
    state: StateView,
    block: Block,
    valid_signatures: bool,
)
    ensures
        state.can_transition(block, valid_signatures) <==> {
            ||| !valid_signatures
            ||| block.slot <= state.slot
            ||| state.process_slots(block.slot).0.can_take_block(block)
        },
{
}

// Views.
/// What is known of a state is what its fields hold.
pub proof fn views_show_every_field(state: LeanState)
    ensures
        state@.config == state.config,
        state@.slot == state.slot,
        state@.latest_block_header == state.latest_block_header,
        state@.latest_justified == state.latest_justified,
        state@.latest_finalized == state.latest_finalized,
        state@.historical_block_hashes == root_list(state.historical_block_hashes),
        state@.justified_slots == justified_bits(state.justified_slots),
        state@.validators == validator_list(state.validators),
        state@.justifications_roots == root_list(state.justifications_roots),
        state@.justifications_validators == vote_bits(state.justifications_validators),
{
}

/// What is known of attestations is their bits and their data, in order.
pub proof fn views_show_every_attestation(
    attestations: Seq<AggregatedAttestation>,
    body: BlockBody,
)
    ensures
        attestation_views(attestations).len() == attestations.len(),
        forall|i: int|
            0 <= i < attestations.len() ==> {
                &&& (#[trigger] attestation_views(attestations)[i]).message
                    == attestations[i].message
                &&& attestation_views(attestations)[i].participants == participant_bits(
                    attestations[i].aggregation_bits,
                )
            },
        body@ == attestation_views(attestation_list(body.attestations)),
{
}

} // verus!
