//! Validators and the rotation of proposers.

use crate::bytes::B256;
use crate::hashing::{append, merkle_root, u64_tree_hash_root};
use vstd::prelude::*;

verus! {

/// A member of the validator registry.
#[derive(Clone, Copy, Debug, PartialEq, Eq)]
pub struct Validator {
    pub attestation_public_key: [u8; 52],
    pub proposal_public_key: [u8; 52],
    pub index: u64,
}

impl Validator {
    /// The hash tree root of the registry entry.
    pub open spec fn root(self) -> B256 {
        crate::hashing::merkle_root_of(
            crate::hashing::merkle_root_of(self.attestation_public_key@, 2)@
                + crate::hashing::merkle_root_of(self.proposal_public_key@, 2)@
                + crate::hashing::u64_leaf(self.index),
            3,
        )
    }

    /// The hash tree root of the registry entry.
    pub fn tree_hash_root(&self) -> (root: B256)
        ensures
            root == self.root(),
    {
        let mut leaves: Vec<u8> = Vec::new();
        append(&mut leaves, &merkle_root(&self.attestation_public_key, 2));
        append(&mut leaves, &merkle_root(&self.proposal_public_key, 2));
        append(&mut leaves, &u64_tree_hash_root(self.index));
        assert(leaves@ =~= crate::hashing::merkle_root_of(self.attestation_public_key@, 2)@
            + crate::hashing::merkle_root_of(self.proposal_public_key@, 2)@
            + crate::hashing::u64_leaf(self.index));
        merkle_root(&leaves, 3)
    }
}

/// Whether it is the turn of `validator_index` to propose at `slot`: proposers
/// take turns in the order of the registry.
pub open spec fn proposes_at(validator_index: u64, slot: u64, validator_count: nat) -> bool {
    validator_index == slot as nat % validator_count
}

/// Whether it is the turn of `validator_index` to propose at `slot`.
pub fn is_proposer(validator_index: u64, slot: u64, validator_count: u64) -> (turn: bool)
    requires
        validator_count > 0,
    ensures
        turn == proposes_at(validator_index, slot, validator_count as nat),
{
    slot % validator_count == validator_index
}

} // verus!
