//! Checkpoints: a block root together with its slot.

use crate::bytes::B256;
use crate::hashing::{append, merkle_root, u64_tree_hash_root};
use vstd::prelude::*;

verus! {

/// A block, named by its root, and the slot that it stands in.
#[derive(Clone, Copy, Debug, PartialEq, Eq)]
pub struct Checkpoint {
    pub root: B256,
    pub slot: u64,
}

impl Checkpoint {
    /// The hash tree root of the checkpoint.
    pub open spec fn tree_root(self) -> B256 {
        crate::hashing::merkle_root_of(self.root@ + crate::hashing::u64_leaf(self.slot), 2)
    }

    /// The hash tree root of the checkpoint.
    pub fn tree_hash_root(&self) -> (root: B256)
        ensures
            root == self.tree_root(),
    {
        let mut leaves: Vec<u8> = Vec::new();
        append(&mut leaves, &self.root);
        append(&mut leaves, &u64_tree_hash_root(self.slot));
        assert(leaves@ =~= self.root@ + crate::hashing::u64_leaf(self.slot));
        merkle_root(&leaves, 2)
    }
}

impl Default for Checkpoint {
    /// The zero hash at slot zero.
    fn default() -> (checkpoint: Self)
        ensures
            checkpoint == (Checkpoint { root: crate::bytes::ZERO_HASH, slot: 0 }),
    {
        Checkpoint { root: crate::bytes::ZERO_HASH, slot: 0 }
    }
}

} // verus!
