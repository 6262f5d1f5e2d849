use lean_state::attestation::{AggregatedAttestation, AttestationData};
use lean_state::block::{BlockBody, BlockHeader};
use lean_state::bytes::{contains_hash, is_before, is_zero_hash, same_hash, B256, ZERO_HASH};
use lean_state::checkpoint::Checkpoint;
use lean_state::config::Config;
use lean_state::state::LeanState;
use lean_state::validator::{is_proposer, Validator};
use ssz_types::typenum::U4096;
use ssz_types::{BitList, VariableList};
use tree_hash::{MerkleHasher, TreeHash};

fn container(leaves: &[B256]) -> B256 {
    let mut hasher = MerkleHasher::with_leaves(leaves.len());
    for leaf in leaves {
        hasher.write(leaf).unwrap();
    }
    hasher.finish().unwrap().0
}

fn number(value: u64) -> B256 {
    let mut leaf = [0; 32];
    leaf[..8].copy_from_slice(&value.to_le_bytes());
    leaf
}

fn list(roots: Vec<B256>) -> B256 {
    VariableList::<B256, U4096>::new(roots)
        .unwrap()
        .tree_hash_root()
        .0
}

#[test]
fn containers_hash_their_fields() {
    assert_eq!(
        Config { genesis_time: 77 }.tree_hash_root(),
        number(77)
    );
    let checkpoint = Checkpoint {
        root: [3; 32],
        slot: 258,
    };
    assert_eq!(
        checkpoint.tree_hash_root(),
        container(&[[3; 32], number(258)])
    );
    let header = BlockHeader {
        slot: 1,
        proposer_index: 2,
        parent_root: [3; 32],
        state_root: [4; 32],
        body_root: [5; 32],
    };
    assert_eq!(
        header.tree_hash_root(),
        container(&[number(1), number(2), [3; 32], [4; 32], [5; 32]])
    );
    let validator = Validator {
        attestation_public_key: [6; 52],
        proposal_public_key: [7; 52],
        index: 8,
    };
    assert_eq!(
        validator.tree_hash_root(),
        container(&[
            [6u8; 52].tree_hash_root().0,
            [7u8; 52].tree_hash_root().0,
            number(8)
        ])
    );
}

#[test]
fn bodies_hash_their_attestations() {
    let checkpoint = |byte: u8| Checkpoint {
        root: [byte; 32],
        slot: byte as u64,
    };
    let message = AttestationData {
        slot: 9,
        head: checkpoint(1),
        target: checkpoint(2),
        source: checkpoint(3),
    };
    let message_root = container(&[
        number(9),
        checkpoint(1).tree_hash_root(),
        checkpoint(2).tree_hash_root(),
        checkpoint(3).tree_hash_root(),
    ]);
    assert_eq!(message.tree_hash_root(), message_root);

    let mut bits = BitList::<U4096>::with_capacity(5).unwrap();
    bits.set(3, true).unwrap();
    let attestation = AggregatedAttestation {
        aggregation_bits: bits.clone(),
        message,
    };
    let attestation_root = container(&[bits.tree_hash_root().0, message_root]);
    assert_eq!(attestation.tree_hash_root(), attestation_root);

    let empty = BlockBody::default();
    assert_eq!(empty.tree_hash_root(), list(vec![]));
    let body = BlockBody {
        attestations: VariableList::new(vec![attestation.clone(), attestation.clone()]).unwrap(),
    };
    assert_eq!(
        body.tree_hash_root(),
        list(vec![attestation_root, attestation_root])
    );
    assert_eq!(body.clone(), body);
}

#[test]
fn states_hash_their_fields() {
    let validators: Vec<Validator> = (0..3)
        .map(|index| Validator {
            attestation_public_key: [1; 52],
            proposal_public_key: [2; 52],
            index,
        })
        .collect();
    let roots: Vec<B256> = validators.iter().map(Validator::tree_hash_root).collect();
    let mut state = LeanState::generate_genesis(5, Some(validators));
    state.historical_block_hashes.push([8; 32]).unwrap();
    state.justified_slots = BitList::with_capacity(2).unwrap();
    state.justified_slots.set(1, true).unwrap();
    state.justifications_roots.push([9; 32]).unwrap();
    state.justifications_validators = BitList::with_capacity(3).unwrap();
    state.justifications_validators.set(0, true).unwrap();
    assert_eq!(
        state.tree_hash_root(),
        container(&[
            number(5),
            number(0),
            state.latest_block_header.tree_hash_root(),
            state.latest_justified.tree_hash_root(),
            state.latest_finalized.tree_hash_root(),
            state.historical_block_hashes.tree_hash_root().0,
            state.justified_slots.tree_hash_root().0,
            list(roots),
            state.justifications_roots.tree_hash_root().0,
            state.justifications_validators.tree_hash_root().0,
        ])
    );
    assert_eq!(state.clone(), state);
}

#[test]
fn hashes_are_compared_byte_by_byte() {
    let mut later = [1; 32];
    later[31] = 2;
    let mut earlier = [1; 32];
    earlier[0] = 0;
    earlier[1] = 255;
    assert!(is_before(&earlier, &[1; 32]));
    assert!(is_before(&[1; 32], &later));
    assert!(!is_before(&later, &[1; 32]));
    assert!(!is_before(&later, &later));
    assert!(same_hash(&later, &later));
    assert!(!same_hash(&later, &[1; 32]));
    assert!(is_zero_hash(&ZERO_HASH));
    assert!(!is_zero_hash(&earlier));
    assert!(contains_hash(&[earlier, later], &later));
    assert!(!contains_hash(&[earlier, later], &[1; 32]));
    assert!(!contains_hash(&[], &[1; 32]));
}

#[test]
fn proposers_take_turns() {
    assert!(is_proposer(0, 0, 3));
    assert!(is_proposer(1, 10, 3));
    assert!(!is_proposer(2, 10, 3));
    assert!(!is_proposer(4, 4, 3));
}
