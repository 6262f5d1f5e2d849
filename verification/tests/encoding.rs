use lean_state::block::BlockHeader;
use lean_state::bytes::ZERO_HASH;
use lean_state::checkpoint::Checkpoint;
use lean_state::config::Config;
use lean_state::error::StateError;
use lean_state::state::LeanState;
use lean_state::validator::Validator;
use ssz_types::{BitList, VariableList};

fn hex(bytes: &[u8]) -> String {
    bytes.iter().map(|byte| format!("{byte:02x}")).collect()
}

#[test]
fn test_encode_decode_signed_block_with_attestation_roundtrip() {
    let state = LeanState {
        config: Config { genesis_time: 1000 },
        slot: 0,
        latest_block_header: BlockHeader {
            slot: 0,
            proposer_index: 0,
            parent_root: ZERO_HASH,
            state_root: ZERO_HASH,
            body_root: ZERO_HASH,
        },

        latest_justified: Checkpoint::default(),
        latest_finalized: Checkpoint::default(),

        historical_block_hashes: VariableList::empty(),
        justified_slots: BitList::with_capacity(0).expect("Failed to initialize an empty BitList"),

        validators: VariableList::empty(),

        justifications_roots: VariableList::empty(),
        justifications_validators: BitList::with_capacity(0)
            .expect("Failed to initialize an empty BitList"),
    };

    let encode = state.as_ssz_bytes();
    let decoded = LeanState::from_ssz_bytes(&encode);
    assert_eq!(
        hex(&encode),
        "e8030000000000000000000000000000000000000000000000000000000000000000000000000000000000000000000000000000000000000000000000000000000000000000000000000000000000000000000000000000000000000000000000000000000000000000000000000000000000000000000000000000000000000000000000000000000000000000000000000000000000000000000000000000000000000000000000000000000000000000000000000000000000000000000000000000000000000000000000000000e4000000e4000000e5000000e5000000e50000000101"
    );
    assert_eq!(decoded, Ok(state));
}

#[test]
fn every_field_is_encoded() {
    let validators = (0..3)
        .map(|index| Validator {
            attestation_public_key: [1; 52],
            proposal_public_key: [2; 52],
            index,
        })
        .collect();
    let mut state = LeanState::generate_genesis(5, Some(validators));
    state.slot = 300;
    state.latest_block_header.parent_root = [3; 32];
    state.latest_justified = Checkpoint {
        root: [4; 32],
        slot: 2,
    };
    state.latest_finalized = Checkpoint {
        root: [5; 32],
        slot: 1,
    };
    state.historical_block_hashes.push([6; 32]).unwrap();
    state.justified_slots = BitList::with_capacity(9).unwrap();
    state.justified_slots.set(8, true).unwrap();
    state.justifications_roots.push([7; 32]).unwrap();
    state.justifications_validators = BitList::with_capacity(3).unwrap();
    state.justifications_validators.set(1, true).unwrap();
    let bytes = state.as_ssz_bytes();
    assert_eq!(bytes.len(), 228 + 32 + 2 + 3 * 112 + 32 + 1);
    assert_eq!(bytes[8..16], [44, 1, 0, 0, 0, 0, 0, 0]);
    assert_eq!(bytes[260..262], [0, 3]);
    assert_eq!(LeanState::from_ssz_bytes(&bytes), Ok(state));
}

#[test]
fn other_bytes_are_refused() {
    let bytes = LeanState::generate_genesis(5, None).as_ssz_bytes();
    assert!(LeanState::from_ssz_bytes(&bytes).is_ok());
    for length in 0..bytes.len() {
        assert_eq!(
            LeanState::from_ssz_bytes(&bytes[..length]),
            Err(StateError::MalformedEncoding)
        );
    }
    let mut longer = bytes.clone();
    longer.push(0);
    assert_eq!(
        LeanState::from_ssz_bytes(&longer),
        Err(StateError::MalformedEncoding)
    );
}
