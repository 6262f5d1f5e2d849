//! Attestations: votes of validators for a link between two checkpoints.

use crate::bytes::B256;
use crate::checkpoint::Checkpoint;
use crate::collections::{participant_bits, participants_clone, VALIDATOR_REGISTRY_LIMIT};
use crate::hashing::{append, merkle_root, participants_tree_hash_root, u64_tree_hash_root};
use ssz_types::typenum::U4096;
use ssz_types::BitList;
use vstd::prelude::*;

verus! {

/// What a validator attests to.
#[derive(Clone, Copy, Debug, PartialEq, Eq)]
pub struct AttestationData {
    pub slot: u64,
    pub head: Checkpoint,
    pub target: Checkpoint,
    pub source: Checkpoint,
}

impl AttestationData {
    /// The hash tree root of the data.
    pub open spec fn root(self) -> B256 {
        crate::hashing::merkle_root_of(
            crate::hashing::u64_leaf(self.slot) + self.head.tree_root()@ + self.target.tree_root()@
                + self.source.tree_root()@,
            4,
        )
    }

    /// The hash tree root of the data.
    pub fn tree_hash_root(&self) -> (root: B256)
        ensures
            root == self.root(),
    {
        let mut leaves: Vec<u8> = Vec::new();
        append(&mut leaves, &u64_tree_hash_root(self.slot));
        append(&mut leaves, &self.head.tree_hash_root());
        append(&mut leaves, &self.target.tree_hash_root());
        append(&mut leaves, &self.source.tree_hash_root());
        assert(leaves@ =~= crate::hashing::u64_leaf(self.slot) + self.head.tree_root()@
            + self.target.tree_root()@ + self.source.tree_root()@);
        merkle_root(&leaves, 4)
    }
}

/// One vote of several validators: bit `i` is set when validator `i` signed.
#[derive(Debug, PartialEq, Eq)]
pub struct AggregatedAttestation {
    pub aggregation_bits: BitList<U4096>,
    pub message: AttestationData,
}

/// The contents of an aggregated attestation.
#[verifier::ext_equal]
pub struct AttestationView {
    pub participants: Seq<bool>,
    pub message: AttestationData,
}

impl AttestationView {
    /// The hash tree root of the attestation.
    pub open spec fn root(self) -> B256 {
        crate::hashing::merkle_root_of(
            crate::hashing::participants_root(self.participants)@ + self.message.root()@,
            2,
        )
    }
}

impl View for AggregatedAttestation {
    type V = AttestationView;

    open spec fn view(&self) -> AttestationView {
        AttestationView {
            participants: participant_bits(self.aggregation_bits),
            message: self.message,
        }
    }
}

/// The contents of each attestation of a list.
pub open spec fn attestation_views(attestations: Seq<AggregatedAttestation>) -> Seq<
    AttestationView,
> {
    attestations.map_values(|attestation: AggregatedAttestation| attestation@)
}

impl Clone for AggregatedAttestation {
    fn clone(&self) -> (copy: Self)
        ensures
            copy@ == self@,
    {
        AggregatedAttestation {
            aggregation_bits: participants_clone(&self.aggregation_bits),
            message: self.message,
        }
    }
}

impl AggregatedAttestation {
    /// The checkpoint that the vote starts from.
    pub fn source(&self) -> (source: Checkpoint)
        ensures
            source == self.message.source,
    {
        self.message.source
    }

    /// The checkpoint that the vote is for.
    pub fn target(&self) -> (target: Checkpoint)
        ensures
            target == self.message.target,
    {
        self.message.target
    }

    /// The hash tree root of the attestation.
    pub fn tree_hash_root(&self) -> (root: B256)
        ensures
            root == self@.root(),
    {
        let mut leaves: Vec<u8> = Vec::new();
        append(&mut leaves, &participants_tree_hash_root(&self.aggregation_bits));
        append(&mut leaves, &self.message.tree_hash_root());
        assert(leaves@ =~= crate::hashing::participants_root(self@.participants)@
            + self.message.root()@);
        merkle_root(&leaves, 2)
    }
}

/// A proof that the participants signed one message.
#[derive(Debug, PartialEq, Eq, Hash)]
pub struct AggregatedSignatureProof {
    pub participants: BitList<U4096>,
    pub proof_data: Vec<u8>,
}

/// The contents of a signature proof.
#[verifier::ext_equal]
pub struct ProofView {
    pub participants: Seq<bool>,
    pub proof_data: Seq<u8>,
}

impl View for AggregatedSignatureProof {
    type V = ProofView;

    open spec fn view(&self) -> ProofView {
        ProofView {
            participants: participant_bits(self.participants),
            proof_data: self.proof_data@,
        }
    }
}

/// The contents of each proof of a list.
pub open spec fn proof_views(proofs: Seq<AggregatedSignatureProof>) -> Seq<ProofView> {
    proofs.map_values(|proof: AggregatedSignatureProof| proof@)
}

impl Clone for AggregatedSignatureProof {
    fn clone(&self) -> (copy: Self)
        ensures
            copy@ == self@,
            copy@.participants.len() <= VALIDATOR_REGISTRY_LIMIT,
    {
        let proof_data: Vec<u8> = self.proof_data.clone();
        assert(proof_data@ =~= self.proof_data@);
        AggregatedSignatureProof { participants: participants_clone(&self.participants), proof_data }
    }
}

} // verus!
