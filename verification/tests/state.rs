use lean_state::attestation::{AggregatedAttestation, AttestationData};
use lean_state::block::{Block, BlockBody};
use lean_state::bytes::{B256, ZERO_HASH};
use lean_state::checkpoint::Checkpoint;
use lean_state::config::Config;
use lean_state::error::StateError;
use lean_state::slot::justified_index_after;
use lean_state::state::LeanState;
use lean_state::validator::Validator;
use ssz_types::typenum::{U1073741824, U4096};
use ssz_types::{BitList, VariableList};

fn generate_default_validators(count: u64) -> Vec<Validator> {
    (0..count)
        .map(|index| Validator {
            attestation_public_key: [0; 52],
            proposal_public_key: [0; 52],
            index,
        })
        .collect()
}

fn bits(length: usize, set: &[usize]) -> BitList<U4096> {
    let mut bits = BitList::with_capacity(length).unwrap();
    for index in set {
        bits.set(*index, true).unwrap();
    }
    bits
}

fn body(attestations: Vec<AggregatedAttestation>) -> BlockBody {
    BlockBody {
        attestations: VariableList::new(attestations).unwrap(),
    }
}

fn block(slot: u64, proposer_index: u64, parent_root: B256, body: BlockBody) -> Block {
    Block {
        slot,
        proposer_index,
        parent_root,
        state_root: ZERO_HASH,
        body,
    }
}

#[test]
fn test_justified_slots_rebases_when_finalization_advances() {
    let mut state = LeanState::generate_genesis(0, Some(generate_default_validators(3)));

    state.process_slots(1).unwrap();
    let block_1_parent_root = state.latest_block_header.tree_hash_root();
    state
        .process_block(&block(1, 1, block_1_parent_root, body(vec![])))
        .unwrap();

    state.process_slots(2).unwrap();
    let block_2_parent_root = state.latest_block_header.tree_hash_root();
    state
        .process_block(&block(
            2,
            2,
            block_2_parent_root,
            body(vec![AggregatedAttestation {
                aggregation_bits: bits(3, &[0, 1]),
                message: AttestationData {
                    slot: 2,
                    head: Checkpoint {
                        slot: 1,
                        root: block_2_parent_root,
                    },
                    source: Checkpoint {
                        slot: 0,
                        root: block_1_parent_root,
                    },
                    target: Checkpoint {
                        slot: 1,
                        root: block_2_parent_root,
                    },
                },
            }]),
        ))
        .unwrap();

    state.process_slots(3).unwrap();
    let block_3_parent_root = state.latest_block_header.tree_hash_root();
    state
        .process_block(&block(
            3,
            0,
            block_3_parent_root,
            body(vec![AggregatedAttestation {
                aggregation_bits: bits(3, &[0, 1]),
                message: AttestationData {
                    slot: 3,
                    head: Checkpoint {
                        slot: 2,
                        root: block_3_parent_root,
                    },
                    source: Checkpoint {
                        slot: 1,
                        root: block_2_parent_root,
                    },
                    target: Checkpoint {
                        slot: 2,
                        root: block_3_parent_root,
                    },
                },
            }]),
        ))
        .unwrap();

    assert_eq!(state.latest_finalized.slot, 1);
    assert_eq!(state.justified_slots.len(), 1);
    assert!(state.justified_slots.get(0).unwrap());
    assert_eq!(
        justified_index_after(2, state.latest_finalized.slot),
        Some(0)
    );
}

#[test]
fn test_justified_slots_do_not_include_finalized_boundary() {
    let mut state = LeanState::generate_genesis(0, Some(generate_default_validators(4)));

    state.process_slots(1).unwrap();
    let parent_root = state.latest_block_header.tree_hash_root();
    state
        .process_block_header(&block(1, 1, parent_root, body(vec![])))
        .unwrap();
    assert_eq!(state.justified_slots.len(), 0);

    state.process_slots(2).unwrap();
    let parent_root = state.latest_block_header.tree_hash_root();
    state
        .process_block_header(&block(2, 2, parent_root, body(vec![])))
        .unwrap();
    assert_eq!(state.justified_slots.len(), 1);
    assert!(!state.justified_slots.get(0).unwrap());
}

#[test]
fn test_pruning_keeps_pending_justifications() {
    let mut state = LeanState::generate_genesis(0, Some(generate_default_validators(3)));

    state.process_slots(1).unwrap();
    let root_0 = state.latest_block_header.tree_hash_root();
    state
        .process_block(&block(1, 1, root_0, body(vec![])))
        .unwrap();

    state.process_slots(2).unwrap();
    let root_1 = state.latest_block_header.tree_hash_root();
    let attestation_0_to_1 = AggregatedAttestation {
        aggregation_bits: bits(3, &[0, 1]),
        message: AttestationData {
            slot: 2,
            head: Checkpoint {
                slot: 1,
                root: root_1,
            },
            source: Checkpoint {
                slot: 0,
                root: root_0,
            },
            target: Checkpoint {
                slot: 1,
                root: root_1,
            },
        },
    };

    state
        .process_block(&block(2, 2, root_1, body(vec![attestation_0_to_1])))
        .unwrap();

    assert_eq!(state.latest_finalized.slot, 0);
    assert_eq!(state.latest_justified.slot, 1);

    for slot in 3..=4 {
        state.process_slots(slot).unwrap();
        let parent = state.latest_block_header.tree_hash_root();
        state
            .process_block(&block(slot, slot % 3, parent, body(vec![])))
            .unwrap();
    }

    state.process_slots(5).unwrap();
    state.latest_block_header.parent_root = state.latest_block_header.tree_hash_root();
    state.latest_block_header.slot = 5;

    let slot_3_root = *state.historical_block_hashes.get(3).unwrap();
    state.justifications_roots.push(slot_3_root).unwrap();
    state.justifications_validators = {
        let mut bits = BitList::<U1073741824>::with_capacity(3).unwrap();
        bits.set(0, true).unwrap();
        bits
    };

    let attestation = AggregatedAttestation {
        aggregation_bits: bits(3, &[0, 1]),
        message: AttestationData {
            slot: 5,
            head: Checkpoint {
                slot: 2,
                root: *state.historical_block_hashes.get(2).unwrap(),
            },
            source: Checkpoint {
                slot: 1,
                root: *state.historical_block_hashes.get(1).unwrap(),
            },
            target: Checkpoint {
                slot: 2,
                root: *state.historical_block_hashes.get(2).unwrap(),
            },
        },
    };
    state.process_attestations(&[attestation]).unwrap();

    assert_eq!(state.latest_finalized.slot, 1);
    assert_eq!(state.latest_justified.slot, 2);
    assert!(state.justifications_roots.contains(&slot_3_root));
}

#[test]
fn test_same_block_multi_target_attestations_advance_to_highest_slot() {
    let mut state = LeanState::generate_genesis(0, Some(generate_default_validators(4)));

    let mut source_root = ZERO_HASH;
    let mut block_4_root = ZERO_HASH;
    let mut block_6_root = ZERO_HASH;

    for slot in 1u64..=9 {
        state.process_slots(slot).unwrap();
        let parent_root = state.latest_block_header.tree_hash_root();

        match slot {
            1 => source_root = parent_root,
            5 => block_4_root = parent_root,
            7 => block_6_root = parent_root,
            _ => {}
        }

        state
            .process_block(&block(slot, slot % 4, parent_root, body(vec![])))
            .unwrap();
    }

    state.process_slots(10).unwrap();
    let block_9_root = state.latest_block_header.tree_hash_root();

    let make_attestation = |target_slot: u64, target_root: B256| AggregatedAttestation {
        aggregation_bits: bits(4, &[0, 1, 2]),
        message: AttestationData {
            slot: 10,
            head: Checkpoint {
                slot: 9,
                root: block_9_root,
            },
            source: Checkpoint {
                slot: 0,
                root: source_root,
            },
            target: Checkpoint {
                slot: target_slot,
                root: target_root,
            },
        },
    };

    // The attestation for slot 6 comes last; it must not set the latest
    // justified checkpoint back to slot 6.
    let attestations = vec![
        make_attestation(4, block_4_root),
        make_attestation(9, block_9_root),
        make_attestation(6, block_6_root),
    ];

    state
        .process_block(&block(10, 10 % 4, block_9_root, body(attestations)))
        .unwrap();

    assert_eq!(state.latest_justified.slot, 9);

    assert!(
        state.justified_slots.get(3).unwrap(),
        "slot 4 (index 3) should be justified"
    );
    assert!(
        state.justified_slots.get(5).unwrap(),
        "slot 6 (index 5) should be justified"
    );
    assert!(
        state.justified_slots.get(8).unwrap(),
        "slot 9 (index 8) should be justified"
    );
}

#[test]
fn generate_genesis() {
    let config = Config { genesis_time: 0 };

    let state =
        LeanState::generate_genesis(config.genesis_time, Some(generate_default_validators(10)));

    // Config in state should match the input.
    assert_eq!(state.config, config);

    // Slot should start at 0.
    assert_eq!(state.slot, 0);

    // Body root must commit to an empty body at genesis.
    assert_eq!(
        state.latest_block_header.body_root,
        BlockBody {
            attestations: Default::default()
        }
        .tree_hash_root()
    );

    // History and justifications must be empty initially.
    assert_eq!(state.historical_block_hashes.len(), 0);
    assert_eq!(state.justified_slots.len(), 0);
    assert_eq!(state.justifications_roots.len(), 0);
    assert_eq!(state.justifications_validators.num_set_bits(), 0);
}

#[test]
fn process_slots() {
    let mut genesis_state = LeanState::generate_genesis(0, Some(generate_default_validators(10)));

    // Choose a future slot target
    let target_slot = 5;

    // Capture the genesis state root before processing
    let expected_root = genesis_state.tree_hash_root();

    // Advance across empty slots to the target
    genesis_state.process_slots(target_slot).unwrap();

    // The state's slot should equal the target
    assert_eq!(genesis_state.slot, target_slot);

    // The header state_root should reflect the genesis state's root
    assert_eq!(genesis_state.latest_block_header.state_root, expected_root);

    // Rewinding is invalid; expect an error
    let result = genesis_state.process_slots(4);
    assert!(result.is_err());
}

#[test]
fn process_block_header_valid() {
    let mut genesis_state = LeanState::generate_genesis(0, Some(generate_default_validators(10)));

    genesis_state.process_slots(1).unwrap();

    let genesis_header_root = genesis_state.latest_block_header.tree_hash_root();

    let block = block(
        genesis_state.slot,
        genesis_state.slot % (genesis_state.validators.len() as u64),
        genesis_header_root,
        body(vec![]),
    );

    genesis_state.process_block_header(&block).unwrap();

    // The parent (genesis) becomes both finalized and justified
    assert_eq!(genesis_state.latest_finalized.root, genesis_header_root);
    assert_eq!(genesis_state.latest_justified.root, genesis_header_root);

    // History should include the parent's root at index 0
    assert_eq!(genesis_state.historical_block_hashes.len(), 1);
    assert_eq!(
        genesis_state.historical_block_hashes[0],
        genesis_header_root
    );

    assert_eq!(genesis_state.justified_slots.len(), 0);

    // Latest header now reflects the processed block's header content
    assert_eq!(genesis_state.latest_block_header.slot, block.slot);
    assert_eq!(
        genesis_state.latest_block_header.parent_root,
        block.parent_root
    );

    // state_root remains zero until the next process_slot call
    assert_eq!(genesis_state.latest_block_header.state_root, ZERO_HASH);
}

#[test]
fn rewinding_names_both_slots() {
    let mut state = LeanState::generate_genesis(0, None);
    assert_eq!(
        state.process_slots(0),
        Err(StateError::TargetSlotNotInFuture {
            current: 0,
            target: 0
        })
    );
}
