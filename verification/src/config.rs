//! Chain configuration.

use crate::bytes::B256;
use crate::hashing::{merkle_root, u64_tree_hash_root};
use vstd::prelude::*;

verus! {

/// The parameters that a chain is started with.
#[derive(Clone, Copy, Debug, PartialEq, Eq)]
pub struct Config {
    pub genesis_time: u64,
}

impl Config {
    /// The hash tree root of the configuration.
    pub open spec fn root(self) -> B256 {
        crate::hashing::merkle_root_of(crate::hashing::u64_leaf(self.genesis_time), 1)
    }

    /// The hash tree root of the configuration.
    pub fn tree_hash_root(&self) -> (root: B256)
        ensures
            root == self.root(),
    {
        merkle_root(&u64_tree_hash_root(self.genesis_time), 1)
    }
}

} // verus!
