//! Blocks and block headers.

use crate::attestation::{attestation_views, AggregatedAttestation, AttestationView};
use crate::bytes::B256;
use crate::collections::{
    attestation_list, attestation_list_empty, attestation_list_new, attestation_list_slice,
};
use crate::hashing::{append, list_root, merkle_root, mix_in_length, u64_tree_hash_root};
use ssz_types::typenum::U4096;
use ssz_types::VariableList;
use vstd::prelude::*;

verus! {

/// What a block says of itself, with its body replaced by the body's root.
#[derive(Clone, Copy, Debug, PartialEq, Eq)]
pub struct BlockHeader {
    pub slot: u64,
    pub proposer_index: u64,
    pub parent_root: B256,
    pub state_root: B256,
    pub body_root: B256,
}

impl BlockHeader {
    /// The hash tree root of the header, which names the block.
    pub open spec fn root(self) -> B256 {
        crate::hashing::merkle_root_of(
            crate::hashing::u64_leaf(self.slot) + crate::hashing::u64_leaf(self.proposer_index)
                + self.parent_root@ + self.state_root@ + self.body_root@,
            5,
        )
    }

    /// The hash tree root of the header, which names the block.
    pub fn tree_hash_root(&self) -> (root: B256)
        ensures
            root == self.root(),
    {
        let mut leaves: Vec<u8> = Vec::new();
        append(&mut leaves, &u64_tree_hash_root(self.slot));
        append(&mut leaves, &u64_tree_hash_root(self.proposer_index));
        append(&mut leaves, &self.parent_root);
        append(&mut leaves, &self.state_root);
        append(&mut leaves, &self.body_root);
        assert(leaves@ =~= crate::hashing::u64_leaf(self.slot)
            + crate::hashing::u64_leaf(self.proposer_index) + self.parent_root@ + self.state_root@
            + self.body_root@);
        merkle_root(&leaves, 5)
    }
}

/// The operations that a block carries.
#[derive(Debug, PartialEq, Eq)]
pub struct BlockBody {
    pub attestations: VariableList<AggregatedAttestation, U4096>,
}

/// The largest number of attestations that a body can hold.
pub const ATTESTATIONS_LIMIT: usize = 4096;

/// The hash tree roots of a list of attestations, one by one.
pub open spec fn attestation_roots(attestations: Seq<AttestationView>) -> Seq<B256> {
    attestations.map_values(|attestation: AttestationView| attestation.root())
}

/// The hash tree root of a body that carries the given attestations.
pub open spec fn body_root(attestations: Seq<AttestationView>) -> B256 {
    crate::hashing::merkle_root_of(
        list_root(attestation_roots(attestations), ATTESTATIONS_LIMIT)@,
        1,
    )
}

impl View for BlockBody {
    type V = Seq<AttestationView>;

    open spec fn view(&self) -> Seq<AttestationView> {
        attestation_views(attestation_list(self.attestations))
    }
}

impl Default for BlockBody {
    /// A body without attestations.
    fn default() -> (body: Self)
        ensures
            body@ == Seq::<AttestationView>::empty(),
    {
        BlockBody { attestations: attestation_list_empty() }
    }
}

impl BlockBody {
    /// The hash tree root of the body.
    pub fn tree_hash_root(&self) -> (root: B256)
        ensures
            root == body_root(self@),
    {
        let attestations = attestation_list_slice(&self.attestations);
        let ghost roots = attestation_roots(self@);
        let mut leaves: Vec<u8> = Vec::new();
        let mut i: usize = 0;
        assert(roots.take(0) =~= Seq::empty());
        while i < attestations.len()
            invariant
                i <= attestations@.len() <= ATTESTATIONS_LIMIT,
                attestations@ == attestation_list(self.attestations),
                roots == attestation_roots(self@),
                leaves@ == crate::hashing::joined(roots.take(i as int)),
                leaves@.len() == 32 * i,
            decreases attestations@.len() - i,
        {
            let root = attestations[i].tree_hash_root();
            append(&mut leaves, &root);
            proof {
                assert(roots.take(i + 1).drop_last() =~= roots.take(i as int));
                assert(roots.take(i + 1).last() == root);
            }
            i += 1;
        }
        assert(roots.take(i as int) =~= roots);
        let list = mix_in_length(&merkle_root(&leaves, ATTESTATIONS_LIMIT), attestations.len());
        merkle_root(&list, 1)
    }
}

impl Clone for BlockBody {
    fn clone(&self) -> (copy: Self)
        ensures
            copy@ == self@,
    {
        let attestations = attestation_list_slice(&self.attestations);
        let mut copies: Vec<AggregatedAttestation> = Vec::new();
        let mut i: usize = 0;
        assert(attestation_views(copies@) =~= self@.take(0));
        while i < attestations.len()
            invariant
                i <= attestations@.len() <= ATTESTATIONS_LIMIT,
                attestations@ == attestation_list(self.attestations),
                copies@.len() == i,
                attestation_views(copies@) == self@.take(i as int),
            decreases attestations@.len() - i,
        {
            let ghost before = copies@;
            let copy = attestations[i].clone();
            copies.push(copy);
            assert(attestation_views(copies@) =~= attestation_views(before).push(copy@));
            assert(self@.take(i + 1) =~= self@.take(i as int).push(attestations@[i as int]@));
            i += 1;
        }
        assert(self@.take(i as int) =~= self@);
        match attestation_list_new(copies) {
            Ok(attestations) => BlockBody { attestations },
            Err(_) => vstd::pervasive::unreached(),
        }
    }
}

/// A block.
#[derive(Debug, PartialEq, Eq)]
pub struct Block {
    pub slot: u64,
    pub proposer_index: u64,
    pub parent_root: B256,
    pub state_root: B256,
    pub body: BlockBody,
}

impl Clone for Block {
    fn clone(&self) -> (copy: Self)
        ensures
            copy.slot == self.slot,
            copy.proposer_index == self.proposer_index,
            copy.parent_root == self.parent_root,
            copy.state_root == self.state_root,
            copy.body@ == self.body@,
    {
        Block {
            slot: self.slot,
            proposer_index: self.proposer_index,
            parent_root: self.parent_root,
            state_root: self.state_root,
            body: self.body.clone(),
        }
    }
}

} // verus!
