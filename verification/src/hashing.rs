//! Hash tree roots: what is trusted of the tree hash crate, and lists.

use crate::bytes::B256;
use crate::collections::{justified_bits, participant_bits, root_list, vote_bits};
use ssz_types::typenum::{U1073741824, U262144, U4096};
use ssz_types::{BitList, VariableList};
use tree_hash::TreeHash;
use vstd::prelude::*;

verus! {

/// The thirty-two bytes that stand for a number: its eight bytes, lowest
/// first, and then zeros.
pub open spec fn u64_leaf(value: u64) -> Seq<u8> {
    vstd::bytes::spec_u64_to_le_bytes(value) + Seq::new(24, |i: int| 0u8)
}

/// `<u64 as TreeHash>::tree_hash_root` returns the number's eight bytes, lowest
/// first, padded with zeros.
#[verifier::external_body]
pub(crate) fn u64_tree_hash_root(value: u64) -> (root: B256)
    ensures
        root@ == u64_leaf(value),
{
    value.tree_hash_root().0
}

/// The root of the Merkle tree over `bytes`, cut into leaves of thirty-two
/// bytes, with zero leaves added up to `minimum_leaf_count` and then up to a
/// power of two.
pub uninterp spec fn merkle_root_of(bytes: Seq<u8>, minimum_leaf_count: usize) -> B256;

/// `tree_hash::merkle_root` returns the root of the Merkle tree over its bytes.
/// Nothing is said of the hash function.
#[verifier::external_body]
pub(crate) fn merkle_root(bytes: &[u8], minimum_leaf_count: usize) -> (root: B256)
    requires
        bytes@.len() <= 32 * minimum_leaf_count,
        minimum_leaf_count <= 4096,
    ensures
        root == merkle_root_of(bytes@, minimum_leaf_count),
{
    tree_hash::merkle_root(bytes, minimum_leaf_count).0
}

/// The hash of a list's Merkle root together with the list's length.
pub uninterp spec fn length_mixed_root(root: B256, length: usize) -> B256;

/// `tree_hash::mix_in_length` hashes a Merkle root together with a length.
/// Nothing is said of the hash function.
#[verifier::external_body]
pub(crate) fn mix_in_length(root: &B256, length: usize) -> (mixed: B256)
    ensures
        mixed == length_mixed_root(*root, length),
{
    tree_hash::mix_in_length(&tree_hash::Hash256::new(*root), length).0
}

/// The hash tree root of a list of participants.
pub uninterp spec fn participants_root(bits: Seq<bool>) -> B256;

/// `<Bitfield as TreeHash>::tree_hash_root` depends on the bits alone.
#[verifier::external_body]
pub(crate) fn participants_tree_hash_root(bits: &BitList<U4096>) -> (root: B256)
    ensures
        root == participants_root(participant_bits(*bits)),
{
    bits.tree_hash_root().0
}

/// The hash tree root of a list of justified slots.
pub uninterp spec fn justified_slots_root(bits: Seq<bool>) -> B256;

/// `<Bitfield as TreeHash>::tree_hash_root` depends on the bits alone.
#[verifier::external_body]
pub(crate) fn justified_tree_hash_root(bits: &BitList<U262144>) -> (root: B256)
    ensures
        root == justified_slots_root(justified_bits(*bits)),
{
    bits.tree_hash_root().0
}

/// The hash tree root of a list of votes.
pub uninterp spec fn votes_root(bits: Seq<bool>) -> B256;

/// `<Bitfield as TreeHash>::tree_hash_root` depends on the bits alone.
#[verifier::external_body]
pub(crate) fn votes_tree_hash_root(bits: &BitList<U1073741824>) -> (root: B256)
    ensures
        root == votes_root(vote_bits(*bits)),
{
    bits.tree_hash_root().0
}

/// The hash tree root of a list of block roots.
pub uninterp spec fn root_list_root(roots: Seq<B256>) -> B256;

/// `<VariableList as TreeHash>::tree_hash_root` depends on the items alone.
#[verifier::external_body]
pub(crate) fn root_list_tree_hash_root(list: &VariableList<B256, U262144>) -> (root: B256)
    ensures
        root == root_list_root(root_list(*list)),
{
    list.tree_hash_root().0
}

/// The bytes of the roots, one after the other.
pub open spec fn joined(roots: Seq<B256>) -> Seq<u8>
    decreases roots.len(),
{
    if roots.len() == 0 {
        Seq::empty()
    } else {
        joined(roots.drop_last()) + roots.last()@
    }
}

/// The hash tree root of a list of at most `limit` items with the given roots.
pub open spec fn list_root(roots: Seq<B256>, limit: usize) -> B256 {
    length_mixed_root(merkle_root_of(joined(roots), limit), roots.len() as usize)
}

/// Appends `bytes` to `buffer`.
pub(crate) fn append(buffer: &mut Vec<u8>, bytes: &[u8])
    ensures
        final(buffer)@ == old(buffer)@ + bytes@,
{
    buffer.extend_from_slice(bytes);
    assert(buffer@ =~= old(buffer)@ + bytes@);
}

} // verus!
