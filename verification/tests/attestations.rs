use lean_state::attestation::{AggregatedAttestation, AttestationData};
use lean_state::block::{Block, BlockBody};
use lean_state::bytes::{B256, ZERO_HASH};
use lean_state::chain::attestation_data_matches_chain;
use lean_state::checkpoint::Checkpoint;
use lean_state::state::LeanState;
use lean_state::validator::Validator;
use ssz_types::typenum::U4096;
use ssz_types::{BitList, VariableList};

fn validators(count: u64) -> Vec<Validator> {
    (0..count)
        .map(|index| Validator {
            attestation_public_key: [1; 52],
            proposal_public_key: [2; 52],
            index,
        })
        .collect()
}

fn bits(length: usize, set: &[usize]) -> BitList<U4096> {
    let mut bits = BitList::with_capacity(length).unwrap();
    for index in set {
        bits.set(*index, true).unwrap();
    }
    bits
}

fn next_block(state: &LeanState, attestations: Vec<AggregatedAttestation>) -> Block {
    Block {
        slot: state.slot,
        proposer_index: state.slot % state.validators.len() as u64,
        parent_root: state.latest_block_header.tree_hash_root(),
        state_root: ZERO_HASH,
        body: BlockBody {
            attestations: VariableList::new(attestations).unwrap(),
        },
    }
}

/// A chain with one empty block in each slot up to `last`, at the slot after it.
fn chain(count: u64, last: u64) -> LeanState {
    let mut state = LeanState::generate_genesis(0, Some(validators(count)));
    for slot in 1..=last {
        state.process_slots(slot).unwrap();
        let block = next_block(&state, vec![]);
        state.process_block(&block).unwrap();
    }
    state.process_slots(last + 1).unwrap();
    state
}

fn at(state: &LeanState, slot: u64) -> Checkpoint {
    Checkpoint {
        root: state.historical_block_hashes[slot as usize],
        slot,
    }
}

fn vote(
    source: Checkpoint,
    target: Checkpoint,
    length: usize,
    signers: &[usize],
) -> AggregatedAttestation {
    AggregatedAttestation {
        aggregation_bits: bits(length, signers),
        message: AttestationData {
            slot: target.slot + 1,
            head: target,
            target,
            source,
        },
    }
}

fn pending(state: &LeanState) -> Vec<(B256, Vec<bool>)> {
    let count = state.validators.len();
    let flat: Vec<bool> = state.justifications_validators.iter().collect();
    state
        .justifications_roots
        .iter()
        .enumerate()
        .map(|(i, root)| (*root, flat[i * count..(i + 1) * count].to_vec()))
        .collect()
}

#[test]
fn two_thirds_of_the_votes_justify() {
    let mut state = chain(6, 3);
    let (source, target) = (at(&state, 0), at(&state, 1));
    state
        .process_attestations(&[vote(source, target, 6, &[0, 1, 2])])
        .unwrap();
    assert_eq!(state.latest_justified.slot, 0);
    assert_eq!(
        pending(&state),
        vec![(target.root, vec![true, true, true, false, false, false])]
    );
    // The same voters again change nothing.
    let before = state.clone();
    state
        .process_attestations(&[vote(source, target, 6, &[1, 2])])
        .unwrap();
    assert_eq!(state, before);
    // The fourth of six votes is enough.
    state
        .process_attestations(&[vote(source, target, 6, &[2, 5])])
        .unwrap();
    assert_eq!(state.latest_justified, target);
    assert!(state.justified_slots.get(0).unwrap());
    assert_eq!(pending(&state), vec![]);
    assert_eq!(state.latest_finalized.slot, 0);
}

#[test]
fn pending_votes_are_kept_in_the_order_of_the_roots() {
    let mut state = chain(6, 6);
    let source = at(&state, 0);
    let votes: Vec<AggregatedAttestation> = (1..=5)
        .map(|slot| vote(source, at(&state, slot), 6, &[slot as usize]))
        .collect();
    state.process_attestations(&votes).unwrap();
    let mut expected: Vec<(B256, Vec<bool>)> = (1..=5usize)
        .map(|slot| {
            (
                state.historical_block_hashes[slot],
                (0..6).map(|i| i == slot).collect(),
            )
        })
        .collect();
    expected.sort();
    assert_eq!(pending(&state), expected);
    // Reading the votes back and writing them again changes nothing.
    let before = state.clone();
    state.process_attestations(&[]).unwrap();
    assert_eq!(state, before);
}

#[test]
fn finality_drops_older_votes_and_rebases_justified_slots() {
    let mut state = chain(3, 7);
    let c: Vec<Checkpoint> = (0..7).map(|slot| at(&state, slot)).collect();
    state
        .process_attestations(&[
            vote(c[0], c[1], 3, &[0]),
            vote(c[0], c[5], 3, &[1]),
            vote(c[0], c[2], 3, &[0, 1]),
            vote(c[2], c[3], 3, &[1, 2]),
        ])
        .unwrap();
    assert_eq!(state.latest_finalized, c[2]);
    assert_eq!(state.latest_justified, c[3]);
    assert_eq!(pending(&state), vec![(c[5].root, vec![false, true, false])]);
    let justified: Vec<bool> = state.justified_slots.iter().collect();
    // Slots 3 to 6.
    assert_eq!(justified, vec![true, false, false, false]);
}

#[test]
fn a_link_over_a_justifiable_slot_does_not_finalize() {
    let mut state = chain(3, 7);
    let c: Vec<Checkpoint> = (0..7).map(|slot| at(&state, slot)).collect();
    state
        .process_attestations(&[vote(c[0], c[1], 3, &[0, 1]), vote(c[1], c[3], 3, &[0, 1])])
        .unwrap();
    assert_eq!(state.latest_justified, c[3]);
    assert_eq!(state.latest_finalized.slot, 0);
}

#[test]
fn a_link_over_slots_that_cannot_be_justified_finalizes() {
    let mut state = chain(3, 12);
    let c: Vec<Checkpoint> = (0..12).map(|slot| at(&state, slot)).collect();
    // Neither 7 nor 8 may be justified after 0.
    state
        .process_attestations(&[vote(c[0], c[6], 3, &[0, 1]), vote(c[6], c[9], 3, &[0, 1])])
        .unwrap();
    assert_eq!(state.latest_finalized, c[6]);
    assert_eq!(state.latest_justified, c[9]);
    let justified: Vec<bool> = state.justified_slots.iter().collect();
    assert_eq!(justified, vec![false, false, true, false, false]);
}

#[test]
fn attestations_that_do_not_count_change_nothing() {
    let mut state = chain(3, 9);
    let c: Vec<Checkpoint> = (0..9).map(|slot| at(&state, slot)).collect();
    let before = state.clone();
    let zero = Checkpoint::default();
    let wrong = Checkpoint {
        root: [3; 32],
        slot: 4,
    };
    let mut wrong_head = vote(c[0], c[4], 3, &[0, 1, 2]);
    wrong_head.message.head = wrong;
    let mut head_beyond = vote(c[0], c[4], 3, &[0, 1, 2]);
    head_beyond.message.head.slot = 100;
    let votes = [
        vote(zero, c[4], 3, &[0, 1, 2]),
        vote(c[0], zero, 3, &[0, 1, 2]),
        // The source is not justified.
        vote(c[3], c[4], 3, &[0, 1, 2]),
        // The target is justified.
        vote(c[0], c[0], 3, &[0, 1, 2]),
        // Another block than that of the chain.
        vote(c[0], wrong, 3, &[0, 1, 2]),
        vote(wrong, c[5], 3, &[0, 1, 2]),
        wrong_head,
        head_beyond,
        // Slots 7 and 8 may not be justified after slot 0.
        vote(c[0], c[7], 3, &[0, 1, 2]),
        vote(c[0], c[8], 3, &[0, 1, 2]),
    ];
    state.process_attestations(&votes).unwrap();
    assert_eq!(state, before);
}

#[test]
fn checkpoints_are_looked_up_by_slot() {
    let history = [[1u8; 32], ZERO_HASH, [2u8; 32]];
    let data = |source: (u8, u64), target: (u8, u64), head: (u8, u64)| AttestationData {
        slot: 0,
        source: Checkpoint {
            root: [source.0; 32],
            slot: source.1,
        },
        target: Checkpoint {
            root: [target.0; 32],
            slot: target.1,
        },
        head: Checkpoint {
            root: [head.0; 32],
            slot: head.1,
        },
    };
    let found = |data| attestation_data_matches_chain(&history, data).unwrap();
    assert!(found(data((1, 0), (2, 2), (2, 2))));
    assert!(!found(data((1, 2), (2, 2), (2, 2))));
    assert!(!found(data((1, 0), (2, 0), (2, 2))));
    assert!(!found(data((1, 0), (2, 2), (2, 3))));
    assert!(!found(data((0, 1), (2, 2), (2, 2))));
    assert!(!found(data((1, 0), (0, 1), (2, 2))));
    assert!(!found(data((1, 0), (2, 2), (0, 1))));
    assert!(!found(data((1, u64::MAX), (2, 2), (2, 2))));
}

#[test]
fn blocks_carry_attestations() {
    let mut state = chain(3, 2);
    let block = next_block(&state, vec![vote(at(&state, 0), at(&state, 1), 3, &[1, 2])]);
    let parent_root = block.parent_root;
    state.process_block(&block).unwrap();
    assert_eq!(state.latest_justified, at(&state, 1));
    assert_eq!(state.historical_block_hashes[2], parent_root);
    assert_eq!(state.latest_block_header.body_root, block.body.tree_hash_root());
}

#[test]
fn advancing_in_two_steps_is_advancing_in_one() {
    let mut stepwise = chain(3, 2);
    let mut direct = stepwise.clone();
    stepwise.process_slots(5).unwrap();
    stepwise.process_slots(9).unwrap();
    direct.process_slots(9).unwrap();
    assert_eq!(stepwise, direct);
}

#[test]
fn beginning_a_slot_fills_in_an_open_state_root_only() {
    let mut state = LeanState::generate_genesis(0, None);
    state.begin_next_slot([4; 32]);
    assert_eq!(state.slot, 1);
    assert_eq!(state.latest_block_header.state_root, [4; 32]);
    state.begin_next_slot([5; 32]);
    assert_eq!(state.slot, 2);
    assert_eq!(state.latest_block_header.state_root, [4; 32]);
}

#[test]
fn two_lists_count_like_one() {
    let state = chain(3, 8);
    let c: Vec<Checkpoint> = (0..8).map(|slot| at(&state, slot)).collect();
    let votes = [
        vote(c[0], c[1], 3, &[0]),
        vote(c[0], c[5], 3, &[1]),
        vote(c[0], c[2], 3, &[0, 1]),
        vote(c[2], c[3], 3, &[1, 2]),
        vote(c[2], c[6], 3, &[2]),
        vote(c[3], c[4], 3, &[0, 2]),
        vote(c[2], c[5], 3, &[2]),
    ];
    let mut joined = state.clone();
    joined.process_attestations(&votes).unwrap();
    assert_eq!(joined.latest_finalized, c[3]);
    assert_eq!(joined.latest_justified, c[5]);
    for cut in 0..=votes.len() {
        let mut split = state.clone();
        split.process_attestations(&votes[..cut]).unwrap();
        split.process_attestations(&votes[cut..]).unwrap();
        assert_eq!(split, joined);
    }
}

#[test]
fn two_lists_fail_like_one() {
    let state = chain(3, 6);
    let c: Vec<Checkpoint> = (0..6).map(|slot| at(&state, slot)).collect();
    let votes = [
        vote(c[0], c[1], 3, &[0, 1]),
        vote(c[0], c[3], 3, &[1]),
        vote(c[0], c[4], 6, &[5]),
        vote(c[0], c[2], 3, &[0, 1]),
    ];
    let mut joined = state.clone();
    let error = joined.process_attestations(&votes).unwrap_err();
    // The error is in the second list: the votes of the first are written back.
    let mut split = state.clone();
    split.process_attestations(&votes[..2]).unwrap();
    assert_eq!(split.process_attestations(&votes[2..]), Err(error));
    assert_eq!(pending(&joined), vec![]);
    assert_eq!(pending(&split), vec![(c[3].root, vec![false, true, false])]);
    split.justifications_roots = joined.justifications_roots.clone();
    split.justifications_validators = joined.justifications_validators.clone();
    assert_eq!(split, joined);
    // The error is in the first list.
    let mut split = state.clone();
    assert_eq!(split.process_attestations(&votes[..3]), Err(error));
    assert_eq!(split, joined);
}

#[test]
fn checkpoints_move_to_sources_and_targets_only() {
    let mut state = chain(3, 12);
    let c: Vec<Checkpoint> = (0..12).map(|slot| at(&state, slot)).collect();
    let votes = [
        vote(c[0], c[2], 3, &[0, 1]),
        vote(c[0], c[1], 3, &[0]),
        vote(c[2], c[4], 3, &[1, 2]),
        vote(c[4], c[5], 3, &[0, 1]),
    ];
    state.process_attestations(&votes).unwrap();
    assert_eq!(state.latest_justified, votes[3].message.target);
    assert_eq!(state.latest_finalized, votes[3].message.source);
    let justified: Vec<bool> = state.justified_slots.iter().collect();
    // Slots 5 to 11: the only target among them is slot 5.
    assert_eq!(
        justified,
        vec![true, false, false, false, false, false, false]
    );
}

#[test]
fn unordered_pending_votes_are_put_in_order() {
    let mut state = chain(3, 2);
    for tag in [9u8, 4, 9, 6] {
        state.justifications_roots.push([tag; 32]).unwrap();
    }
    state.justifications_validators = BitList::with_capacity(12).unwrap();
    // The later votes for the root that occurs twice, and one vote for the last root.
    state.justifications_validators.set(7, true).unwrap();
    state.justifications_validators.set(11, true).unwrap();
    state.process_attestations(&[]).unwrap();
    assert_eq!(
        pending(&state),
        vec![
            ([4; 32], vec![false, false, false]),
            ([6; 32], vec![false, false, true]),
            ([9; 32], vec![false, true, false]),
        ]
    );
}

#[test]
fn passed_over_attestations_leave_ordered_votes_alone() {
    let mut state = chain(3, 9);
    let c: Vec<Checkpoint> = (0..9).map(|slot| at(&state, slot)).collect();
    // Votes for blocks that are not on the chain, in the order of their roots.
    for tag in [4u8, 6, 9] {
        state.justifications_roots.push([tag; 32]).unwrap();
    }
    state.justifications_validators = BitList::with_capacity(9).unwrap();
    state.justifications_validators.set(4, true).unwrap();
    let before = state.clone();
    state.process_attestations(&[]).unwrap();
    assert_eq!(state, before);
    state
        .process_attestations(&[
            vote(Checkpoint::default(), c[4], 3, &[0, 1, 2]),
            vote(c[3], c[4], 3, &[0, 1, 2]),
            vote(c[0], c[7], 3, &[0, 1, 2]),
        ])
        .unwrap();
    assert_eq!(state, before);
}

#[test]
fn accepted_blocks_keep_registry_and_configuration_of_any_state() {
    // A state that no chain reaches: votes for unknown blocks, out of order.
    let mut state = chain(3, 4);
    for tag in [9u8, 4] {
        state.justifications_roots.push([tag; 32]).unwrap();
    }
    state.justifications_validators = BitList::with_capacity(6).unwrap();
    let before = state.clone();
    let mut ahead = state.clone();
    ahead.process_slots(7).unwrap();
    let votes = vec![vote(at(&state, 0), at(&state, 2), 3, &[0, 1])];
    let mut block = next_block(&ahead, votes);
    ahead.process_block(&block).unwrap();
    block.state_root = ahead.tree_hash_root();
    state.state_transition(&block, true).unwrap();
    assert_eq!(state.slot, 7);
    assert_eq!(state.config, before.config);
    assert_eq!(state.validators, before.validators);
    assert_eq!(state.latest_block_header.parent_root, block.parent_root);
    assert_eq!(state.latest_justified, at(&before, 2));
    assert_eq!(state.tree_hash_root(), block.state_root);
}
