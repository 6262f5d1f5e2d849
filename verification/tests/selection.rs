use lean_state::attestation::AggregatedSignatureProof;
use lean_state::state::LeanState;
use ssz_types::typenum::U4096;
use ssz_types::BitList;
use std::collections::HashSet;

fn signed(tag: u8, signers: &[usize]) -> AggregatedSignatureProof {
    let mut participants = BitList::<U4096>::with_capacity(8).unwrap();
    for signer in signers {
        participants.set(*signer, true).unwrap();
    }
    AggregatedSignatureProof {
        participants,
        proof_data: vec![tag],
    }
}

fn tags(proofs: &[AggregatedSignatureProof]) -> Vec<u8> {
    proofs.iter().map(|item| item.proof_data[0]).collect()
}

fn ids(covered: &HashSet<u64>) -> Vec<u64> {
    let mut ids: Vec<u64> = covered.iter().copied().collect();
    ids.sort();
    ids
}

#[test]
fn the_widest_proof_comes_first() {
    let state = LeanState::generate_genesis(0, None);
    let mut selected = vec![signed(9, &[])];
    let mut covered = HashSet::from([7u64]);
    state.extend_proofs_in_order(
        vec![
            signed(1, &[0, 1]),
            signed(2, &[0, 1, 2, 7]),
            signed(3, &[3]),
            signed(4, &[2, 7]),
        ],
        &mut selected,
        &mut covered,
    );
    assert_eq!(tags(&selected), vec![9, 2, 3]);
    assert_eq!(ids(&covered), vec![0, 1, 2, 3, 7]);
}

#[test]
fn of_two_equal_proofs_the_later_is_taken() {
    let state = LeanState::generate_genesis(0, None);
    let mut selected = vec![];
    let mut covered = HashSet::new();
    state.extend_proofs_in_order(
        vec![signed(1, &[0, 1]), signed(2, &[1, 0]), signed(3, &[4])],
        &mut selected,
        &mut covered,
    );
    assert_eq!(tags(&selected), vec![2, 3]);

    // The last proof moves to the place of the one that is taken.
    let mut selected = vec![];
    let mut covered = HashSet::new();
    state.extend_proofs_in_order(
        vec![signed(1, &[0, 1]), signed(2, &[2]), signed(3, &[3])],
        &mut selected,
        &mut covered,
    );
    assert_eq!(tags(&selected), vec![1, 2, 3]);
}

#[test]
fn sets_of_proofs_are_listed_in_full() {
    let state = LeanState::generate_genesis(0, None);
    let proofs = HashSet::from([
        signed(1, &[0, 1, 2]),
        signed(2, &[3, 4]),
        signed(3, &[5]),
        signed(4, &[0, 5]),
        signed(5, &[]),
    ]);
    let mut selected = vec![];
    let mut covered = HashSet::new();
    state.extend_proofs_greedily(Some(&proofs), &mut selected, &mut covered);
    assert_eq!(ids(&covered), vec![0, 1, 2, 3, 4, 5]);
    assert_eq!(selected.len(), 3);
    assert_eq!(tags(&selected)[..2], [1, 2]);
    for chosen in &selected {
        assert!(proofs.contains(chosen));
    }
}

#[test]
fn no_proofs_change_nothing() {
    let state = LeanState::generate_genesis(0, None);
    let mut selected = vec![signed(1, &[0])];
    let mut covered = HashSet::from([4u64]);
    state.extend_proofs_greedily(None, &mut selected, &mut covered);
    state.extend_proofs_greedily(Some(&HashSet::new()), &mut selected, &mut covered);
    assert_eq!(tags(&selected), vec![1]);
    assert_eq!(ids(&covered), vec![4]);
}

#[test]
fn selecting_again_adds_nothing() {
    let state = LeanState::generate_genesis(0, None);
    let proofs = vec![
        signed(1, &[0, 1, 2]),
        signed(2, &[2, 3]),
        signed(3, &[3, 4]),
        signed(4, &[1]),
    ];
    let mut selected = vec![];
    let mut covered = HashSet::new();
    state.extend_proofs_in_order(proofs.clone(), &mut selected, &mut covered);
    assert_eq!(tags(&selected), vec![1, 3]);
    state.extend_proofs_in_order(
        vec![proofs[3].clone(), proofs[1].clone(), proofs[3].clone()],
        &mut selected,
        &mut covered,
    );
    state.extend_proofs_greedily(
        Some(&proofs.into_iter().collect()),
        &mut selected,
        &mut covered,
    );
    assert_eq!(tags(&selected), vec![1, 3]);
    assert_eq!(ids(&covered), vec![0, 1, 2, 3, 4]);
}
