use lean_state::attestation::{AggregatedAttestation, AttestationData};
use lean_state::block::{Block, BlockBody};
use lean_state::bytes::ZERO_HASH;
use lean_state::checkpoint::Checkpoint;
use lean_state::error::StateError;
use lean_state::state::LeanState;
use lean_state::validator::Validator;
use ssz_types::typenum::{U1073741824, U4096};
use ssz_types::{BitList, VariableList};

fn validators(count: u64) -> Vec<Validator> {
    (0..count)
        .map(|index| Validator {
            attestation_public_key: [1; 52],
            proposal_public_key: [2; 52],
            index,
        })
        .collect()
}

fn bits(length: usize, set: &[usize]) -> BitList<U4096> {
    let mut bits = BitList::with_capacity(length).unwrap();
    for index in set {
        bits.set(*index, true).unwrap();
    }
    bits
}

fn next_block(state: &LeanState, attestations: Vec<AggregatedAttestation>) -> Block {
    Block {
        slot: state.slot,
        proposer_index: state.slot % state.validators.len() as u64,
        parent_root: state.latest_block_header.tree_hash_root(),
        state_root: ZERO_HASH,
        body: BlockBody {
            attestations: VariableList::new(attestations).unwrap(),
        },
    }
}

/// A chain with one empty block in each slot up to `last`, at the slot after it.
fn chain(count: u64, last: u64) -> LeanState {
    let mut state = LeanState::generate_genesis(0, Some(validators(count)));
    for slot in 1..=last {
        state.process_slots(slot).unwrap();
        let block = next_block(&state, vec![]);
        state.process_block(&block).unwrap();
    }
    state.process_slots(last + 1).unwrap();
    state
}

fn at(state: &LeanState, slot: u64) -> Checkpoint {
    Checkpoint {
        root: state.historical_block_hashes[slot as usize],
        slot,
    }
}

fn vote(
    source: Checkpoint,
    target: Checkpoint,
    length: usize,
    signers: &[usize],
) -> AggregatedAttestation {
    AggregatedAttestation {
        aggregation_bits: bits(length, signers),
        message: AttestationData {
            slot: target.slot + 1,
            head: target,
            target,
            source,
        },
    }
}

#[test]
fn unsigned_and_stale_blocks_change_nothing() {
    let mut state = chain(4, 2);
    let before = state.clone();
    let block = next_block(&state, vec![]);
    assert_eq!(
        state.state_transition(&block, false),
        Err(StateError::InvalidSignatures)
    );
    assert_eq!(
        state.state_transition(&block, true),
        Err(StateError::TargetSlotNotInFuture {
            current: 3,
            target: 3
        })
    );
    assert_eq!(state, before);
}

#[test]
fn state_transition_checks_the_state_root() {
    let state = chain(4, 2);
    let mut ahead = state.clone();
    ahead.process_slots(5).unwrap();
    let mut block = next_block(&ahead, vec![]);
    ahead.process_block(&block).unwrap();

    let mut wrong = state.clone();
    assert_eq!(
        wrong.state_transition(&block, true),
        Err(StateError::InvalidStateRoot)
    );

    block.state_root = ahead.tree_hash_root();
    let mut right = state.clone();
    assert_eq!(right.state_transition(&block, true), Ok(()));
    assert_eq!(right, ahead);
    assert_eq!(right.slot, 5);
    // Slots 3 and 4 have no block.
    assert_eq!(right.historical_block_hashes.len(), 5);
    assert_eq!(right.historical_block_hashes[2], block.parent_root);
    assert_eq!(right.historical_block_hashes[3], ZERO_HASH);
    assert_eq!(right.historical_block_hashes[4], ZERO_HASH);
}

#[test]
fn headers_that_do_not_fit_are_refused() {
    let mut state = chain(4, 2);
    let before = state.clone();
    let good = next_block(&state, vec![]);

    let mut block = good.clone();
    block.slot = 4;
    assert_eq!(
        state.process_block_header(&block),
        Err(StateError::BlockSlotMismatch)
    );
    let mut block = good.clone();
    block.proposer_index = 2;
    assert_eq!(
        state.process_block_header(&block),
        Err(StateError::WrongProposer)
    );
    let mut block = good.clone();
    block.parent_root = [9; 32];
    assert_eq!(
        state.process_block_header(&block),
        Err(StateError::ParentRootMismatch)
    );
    assert_eq!(state, before);

    assert_eq!(state.process_block_header(&good), Ok(()));
    assert_eq!(
        state.process_block_header(&good),
        Err(StateError::BlockSlotNotNewer)
    );
}

#[test]
fn a_refused_header_refuses_the_block() {
    let mut state = chain(4, 2);
    let before = state.clone();
    let mut block = next_block(&state, vec![]);
    block.proposer_index += 1;
    assert_eq!(state.process_block(&block), Err(StateError::WrongProposer));
    assert_eq!(state, before);
}

#[test]
fn history_has_room_for_a_limited_number_of_slots() {
    let mut state = chain(4, 2);
    while state.historical_block_hashes.push([1; 32]).is_ok() {}
    let block = next_block(&state, vec![]);
    assert_eq!(
        state.process_block_header(&block),
        Err(StateError::HistoryFull)
    );

    let mut state = chain(4, 2);
    state.process_slots(262200).unwrap();
    let block = next_block(&state, vec![]);
    assert_eq!(
        state.process_block_header(&block),
        Err(StateError::HistoryPrefillFull)
    );
    assert_eq!(state.historical_block_hashes.len(), 262144);
    assert_eq!(state.historical_block_hashes[262143], ZERO_HASH);
}

#[test]
fn justified_slots_have_a_limit() {
    let mut state = chain(4, 2);
    state.latest_block_header.slot = 300000;
    state.slot = 300001;
    let block = next_block(&state, vec![]);
    assert_eq!(
        state.process_block_header(&block),
        Err(StateError::JustifiedSlotsFull)
    );
}

#[test]
fn sixteen_different_data_are_the_most() {
    let mut state = chain(4, 2);
    let zero = Checkpoint::default();
    let make = |slot: u64| {
        let mut attestation = vote(zero, zero, 4, &[]);
        attestation.message.slot = slot;
        attestation
    };
    let sixteen: Vec<AggregatedAttestation> = (0..32).map(|i| make(i % 16)).collect();
    assert_eq!(state.process_attestations(&sixteen), Ok(()));
    let seventeen: Vec<AggregatedAttestation> = (0..34).map(|i| make(i % 17)).collect();
    assert_eq!(
        state.process_attestations(&seventeen),
        Err(StateError::TooManyAttestationData { distinct: 17 })
    );
}

#[test]
fn pending_votes_have_to_fit() {
    let mut state = chain(3, 2);
    state.justifications_roots.push([7; 32]).unwrap();
    assert_eq!(
        state.process_attestations(&[]),
        Err(StateError::JustificationVotesMismatch {
            expected: 3,
            actual: 0
        })
    );
    state.justifications_roots.push(ZERO_HASH).unwrap();
    assert_eq!(
        state.process_attestations(&[]),
        Err(StateError::ZeroHashJustification)
    );
}

#[test]
fn slots_beyond_the_list_of_justified_slots_are_refused() {
    let mut state = chain(3, 4);
    let (source, target) = (at(&state, 0), at(&state, 1));
    let beyond = Checkpoint {
        root: [5; 32],
        slot: 4,
    };
    assert_eq!(
        state.process_attestations(&[vote(beyond, target, 3, &[0])]),
        Err(StateError::JustifiedSlotOutOfRange { slot: 4 })
    );
    assert_eq!(
        state.process_attestations(&[vote(source, beyond, 3, &[0])]),
        Err(StateError::JustifiedSlotOutOfRange { slot: 4 })
    );
    // A zero root is passed over before the target's slot is looked up.
    let zero = Checkpoint {
        root: ZERO_HASH,
        slot: 4,
    };
    assert_eq!(
        state.process_attestations(&[vote(source, zero, 3, &[0])]),
        Ok(())
    );
}

#[test]
fn participants_have_to_be_validators() {
    let mut state = chain(3, 3);
    let (source, target) = (at(&state, 0), at(&state, 1));
    assert_eq!(
        state.process_attestations(&[vote(source, target, 6, &[0, 4, 5])]),
        Err(StateError::ValidatorOutOfRange { validator_id: 4 })
    );
    // Bits that are not set may reach further.
    assert_eq!(
        state.process_attestations(&[vote(source, target, 6, &[0])]),
        Ok(())
    );
}

#[test]
fn finality_needs_every_pending_root_in_the_history() {
    let mut state = chain(3, 4);
    let votes = [
        vote(at(&state, 0), at(&state, 1), 3, &[0, 1]),
        vote(at(&state, 1), at(&state, 2), 3, &[0, 1]),
    ];
    state.justifications_roots.push([7; 32]).unwrap();
    state.justifications_validators = BitList::<U1073741824>::with_capacity(3).unwrap();
    assert_eq!(
        state.process_attestations(&votes),
        Err(StateError::JustificationRootMissing)
    );
    // What was justified before the error stays.
    assert_eq!(state.latest_justified.slot, 2);
    assert_eq!(state.latest_finalized.slot, 0);
}

#[test]
fn pending_roots_have_a_limit() {
    let mut state = chain(4, 2);
    let attestation = vote(at(&state, 0), at(&state, 1), 4, &[0]);
    for i in 0u32..262144 {
        let mut root = [0u8; 32];
        root[0] = 1;
        root[1..5].copy_from_slice(&i.to_be_bytes());
        state.justifications_roots.push(root).unwrap();
    }
    state.justifications_validators = BitList::with_capacity(262144 * 4).unwrap();
    let before = state.clone();
    assert_eq!(
        state.process_attestations(&[attestation]),
        Err(StateError::JustificationRootsFull)
    );
    assert_eq!(state, before);
    assert_eq!(state.process_attestations(&[]), Ok(()));
    assert_eq!(state, before);
}

/// Seventeen attestations to different data.
fn seventeen() -> Vec<AggregatedAttestation> {
    let zero = Checkpoint::default();
    (0..17)
        .map(|slot| {
            let mut attestation = vote(zero, zero, 4, &[]);
            attestation.message.slot = slot;
            attestation
        })
        .collect()
}

#[test]
fn what_is_refused_is_refused_at_the_last_slot_too() {
    let mut state = chain(4, 2);
    state.latest_finalized.slot = u64::MAX;
    let before = state.clone();
    let too_many = Err(StateError::TooManyAttestationData { distinct: 17 });
    assert_eq!(state.process_attestations(&seventeen()), too_many);
    assert_eq!(
        state.checked_process_attestations(&seventeen()),
        Some(too_many)
    );
    assert!(state.can_count_attestations(&seventeen()));

    let mut wrong = next_block(&state, vec![]);
    wrong.proposer_index += 1;
    assert_eq!(
        state.checked_process_block(&wrong),
        Some(Err(StateError::WrongProposer))
    );
    assert_eq!(state.process_block(&wrong), Err(StateError::WrongProposer));
    wrong.slot += 1;
    assert_eq!(
        state.checked_process_block(&wrong),
        Some(Err(StateError::BlockSlotMismatch))
    );
    assert_eq!(state, before);

    let good = next_block(&state, seventeen());
    assert!(state.can_take_block(&good));
    assert_eq!(state.process_block(&good), too_many);

    let mut unreadable = before.clone();
    unreadable.justifications_roots.push(ZERO_HASH).unwrap();
    assert_eq!(
        unreadable.checked_process_attestations(&[]),
        Some(Err(StateError::ZeroHashJustification))
    );
}

#[test]
fn without_a_slot_after_the_finalized_one_nothing_is_counted() {
    let mut state = chain(4, 2);
    state.latest_finalized.slot = u64::MAX;
    let before = state.clone();
    assert!(!state.can_count_attestations(&[]));
    assert_eq!(state.checked_process_attestations(&[]), None);
    let mut block = next_block(&state, vec![]);
    assert!(!state.can_take_block(&block));
    assert_eq!(state.checked_process_block(&block), None);

    let mut ahead = state.clone();
    ahead.process_slots(5).unwrap();
    block = next_block(&ahead, vec![]);
    assert!(!state.can_transition(&block, true));
    assert_eq!(state.checked_state_transition(&block, true), None);
    assert_eq!(
        state.checked_state_transition(&block, false),
        Some(Err(StateError::InvalidSignatures))
    );
    assert_eq!(state, before);
    block.proposer_index += 1;
    assert_eq!(
        state.checked_state_transition(&block, true),
        Some(Err(StateError::WrongProposer))
    );
    assert_eq!(state.slot, 5);
}

#[test]
fn without_validators_no_block_is_taken() {
    let mut state = LeanState::generate_genesis(0, None);
    let mut block = next_block(&chain(4, 2), vec![]);
    block.slot = 1;
    assert_eq!(state.checked_state_transition(&block, true), None);
    assert_eq!(
        state.checked_process_block(&block),
        Some(Err(StateError::BlockSlotMismatch))
    );
    state.process_slots(1).unwrap();
    let before = state.clone();
    assert_eq!(state.checked_process_block(&block), None);
    assert_eq!(state, before);
    assert_eq!(state.checked_process_attestations(&[]), Some(Ok(())));
}

#[test]
fn checked_calls_do_what_the_others_do() {
    let state = chain(3, 4);
    let votes = vec![
        vote(at(&state, 0), at(&state, 1), 3, &[0, 1]),
        vote(at(&state, 1), at(&state, 2), 3, &[0, 1]),
    ];
    let (mut plain, mut checked) = (state.clone(), state.clone());
    assert_eq!(plain.process_attestations(&votes), Ok(()));
    assert_eq!(checked.checked_process_attestations(&votes), Some(Ok(())));
    assert_eq!(checked, plain);
    assert_ne!(checked, state);

    let mut ahead = state.clone();
    ahead.process_slots(6).unwrap();
    let mut block = next_block(&ahead, votes);
    let mut checked = ahead.clone();
    assert_eq!(checked.checked_process_block(&block), Some(Ok(())));
    ahead.process_block(&block).unwrap();
    assert_eq!(checked, ahead);

    block.state_root = ahead.tree_hash_root();
    let mut checked = state.clone();
    assert_eq!(
        checked.checked_state_transition(&block, true),
        Some(Ok(()))
    );
    assert_eq!(checked, ahead);
    assert_eq!(checked.latest_finalized.slot, 1);
}
