//! What hash tree roots and encodings are for: they commit to every field, each at its
//! own place.

use crate::attestation::{AttestationData, AttestationView};
use crate::block::{body_root, BlockHeader};
use crate::bytes::B256;
use crate::checkpoint::Checkpoint;
use crate::collections::{justified_bits, root_list, vote_bits};
use crate::config::Config;
use crate::encoding::{record_fields, state_fields, validator_fields_list, StateRecord};
use crate::hashing::{
    justified_slots_root, length_mixed_root, list_root, merkle_root_of, participants_root,
    root_list_root, u64_leaf, votes_root,
};
use crate::model::StateView;
use crate::validator::Validator;
use vstd::prelude::*;

verus! {

/// Whether bytes are the given leaves of thirty-two bytes, one after the other.
pub open spec fn are_leaves(bytes: Seq<u8>, leaves: Seq<Seq<u8>>) -> bool {
    &&& bytes.len() == 32 * leaves.len()
    &&& forall|k: int| 0 <= k < leaves.len() ==> #[trigger] leaves[k] == bytes.subrange(
        32 * k,
        32 * k + 32,
    )
}

/// Leaves determine their bytes.
proof fn lemma_leaves_bytes(bytes: Seq<u8>, other: Seq<u8>, leaves: Seq<Seq<u8>>)
    requires
        are_leaves(bytes, leaves),
        are_leaves(other, leaves),
    ensures
        bytes == other,
{
    assert forall|i: int| 0 <= i < bytes.len() implies bytes[i] == other[i] by {
        let k = i / 32;
        assert(0 <= k < leaves.len());
        assert(leaves[k][i - 32 * k] == bytes[i]);
        assert(leaves[k][i - 32 * k] == other[i]);
    }
    assert(bytes =~= other);
}

/// Bytes determine their leaves: different leaves do not have the same bytes.
pub proof fn bytes_determine_leaves(
    bytes: Seq<u8>,
    leaves: Seq<Seq<u8>>,
    other_leaves: Seq<Seq<u8>>,
)
    requires
        are_leaves(bytes, leaves),
        are_leaves(bytes, other_leaves),
    ensures
        leaves == other_leaves,
{
    assert(leaves.len() == other_leaves.len());
    assert forall|k: int| 0 <= k < leaves.len() implies leaves[k] == other_leaves[k] by {}
    assert(leaves =~= other_leaves);
}

/// A number's leaf is its eight bytes, lowest first, and then zeros; different numbers
/// have different leaves.
pub proof fn numbers_fill_a_leaf(value: u64, other: u64)
    ensures
        u64_leaf(value).len() == 32,
        u64_leaf(value).subrange(0, 8) == vstd::bytes::spec_u64_to_le_bytes(value),
        forall|i: int| 8 <= i < 32 ==> u64_leaf(value)[i] == 0,
        u64_leaf(value) == u64_leaf(other) ==> value == other,
{
    vstd::bytes::lemma_auto_spec_u64_to_from_le_bytes();
    assert(u64_leaf(value).subrange(0, 8) =~= vstd::bytes::spec_u64_to_le_bytes(value));
    assert(u64_leaf(other).subrange(0, 8) =~= vstd::bytes::spec_u64_to_le_bytes(other));
}

/// The root of a configuration is over one leaf.
pub proof fn config_root_commits_to_its_field(config: Config, bytes: Seq<u8>)
    requires
        are_leaves(bytes, seq![u64_leaf(config.genesis_time)]),
    ensures
        config.root() == merkle_root_of(bytes, 1),
{
    let leaves = seq![u64_leaf(config.genesis_time)];
    numbers_fill_a_leaf(config.genesis_time, 0);
    assert(u64_leaf(config.genesis_time) =~= bytes) by {
        assert(leaves[0] == bytes.subrange(0, 32));
    }
}

/// The root of a checkpoint is over two leaves: the block's root and the slot.
pub proof fn checkpoint_root_commits_to_its_fields(checkpoint: Checkpoint, bytes: Seq<u8>)
    requires
        are_leaves(bytes, seq![checkpoint.root@, u64_leaf(checkpoint.slot)]),
    ensures
        checkpoint.tree_root() == merkle_root_of(bytes, 2),
{
    let leaves = seq![checkpoint.root@, u64_leaf(checkpoint.slot)];
    let own = checkpoint.root@ + u64_leaf(checkpoint.slot);
    numbers_fill_a_leaf(checkpoint.slot, 0);
    assert(leaves[0] =~= own.subrange(0, 32));
    assert(leaves[1] =~= own.subrange(32, 64));
    lemma_leaves_bytes(bytes, own, leaves);
}

/// The root of a header is over five leaves: the slot, the proposer, the parent, the
/// state and the body.
pub proof fn header_root_commits_to_its_fields(header: BlockHeader, bytes: Seq<u8>)
    requires
        are_leaves(
            bytes,
            seq![
                u64_leaf(header.slot),
                u64_leaf(header.proposer_index),
                header.parent_root@,
                header.state_root@,
                header.body_root@,
            ],
        ),
    ensures
        header.root() == merkle_root_of(bytes, 5),
{
    let leaves = seq![
        u64_leaf(header.slot),
        u64_leaf(header.proposer_index),
        header.parent_root@,
        header.state_root@,
        header.body_root@,
    ];
    let own = u64_leaf(header.slot) + u64_leaf(header.proposer_index) + header.parent_root@
        + header.state_root@ + header.body_root@;
    numbers_fill_a_leaf(header.slot, 0);
    numbers_fill_a_leaf(header.proposer_index, 0);
    assert(leaves[0] =~= own.subrange(0, 32));
    assert(leaves[1] =~= own.subrange(32, 64));
    assert(leaves[2] =~= own.subrange(64, 96));
    assert(leaves[3] =~= own.subrange(96, 128));
    assert(leaves[4] =~= own.subrange(128, 160));
    lemma_leaves_bytes(bytes, own, leaves);
}

/// The root of a validator is over three leaves: the roots of its two keys, each over
/// the fifty-two bytes of the key, and its index.
pub proof fn validator_root_commits_to_its_fields(validator: Validator, bytes: Seq<u8>)
    requires
        are_leaves(
            bytes,
            seq![
                merkle_root_of(validator.attestation_public_key@, 2)@,
                merkle_root_of(validator.proposal_public_key@, 2)@,
                u64_leaf(validator.index),
            ],
        ),
    ensures
        validator.root() == merkle_root_of(bytes, 3),
{
    let first = merkle_root_of(validator.attestation_public_key@, 2)@;
    let second = merkle_root_of(validator.proposal_public_key@, 2)@;
    let leaves = seq![first, second, u64_leaf(validator.index)];
    let own = first + second + u64_leaf(validator.index);
    numbers_fill_a_leaf(validator.index, 0);
    assert(leaves[0] =~= own.subrange(0, 32));
    assert(leaves[1] =~= own.subrange(32, 64));
    assert(leaves[2] =~= own.subrange(64, 96));
    lemma_leaves_bytes(bytes, own, leaves);
}

/// The root of what is attested to is over four leaves: the slot, the head, the target
/// and the source.
pub proof fn data_root_commits_to_its_fields(data: AttestationData, bytes: Seq<u8>)
    requires
        are_leaves(
            bytes,
            seq![
                u64_leaf(data.slot),
                data.head.tree_root()@,
                data.target.tree_root()@,
                data.source.tree_root()@,
            ],
        ),
    ensures
        data.root() == merkle_root_of(bytes, 4),
{
    let leaves = seq![
        u64_leaf(data.slot),
        data.head.tree_root()@,
        data.target.tree_root()@,
        data.source.tree_root()@,
    ];
    let own = u64_leaf(data.slot) + data.head.tree_root()@ + data.target.tree_root()@
        + data.source.tree_root()@;
    numbers_fill_a_leaf(data.slot, 0);
    assert(leaves[0] =~= own.subrange(0, 32));
    assert(leaves[1] =~= own.subrange(32, 64));
    assert(leaves[2] =~= own.subrange(64, 96));
    assert(leaves[3] =~= own.subrange(96, 128));
    lemma_leaves_bytes(bytes, own, leaves);
}

/// The root of an attestation is over two leaves: the root of its participants and
/// that of its data.
pub proof fn attestation_root_commits_to_its_fields(attestation: AttestationView, bytes: Seq<u8>)
    requires
        are_leaves(
            bytes,
            seq![participants_root(attestation.participants)@, attestation.message.root()@],
        ),
    ensures
        attestation.root() == merkle_root_of(bytes, 2),
{
    let first = participants_root(attestation.participants)@;
    let second = attestation.message.root()@;
    let leaves = seq![first, second];
    assert(leaves[0] =~= (first + second).subrange(0, 32));
    assert(leaves[1] =~= (first + second).subrange(32, 64));
    lemma_leaves_bytes(bytes, first + second, leaves);
}

/// The bytes of a list of roots are its leaves.
proof fn lemma_joined(roots: Seq<B256>)
    ensures
        are_leaves(
            crate::hashing::joined(roots),
            roots.map_values(|root: B256| root@),
        ),
    decreases roots.len(),
{
    let leaves = roots.map_values(|root: B256| root@);
    let bytes = crate::hashing::joined(roots);
    if roots.len() > 0 {
        let shorter = roots.drop_last();
        let before = crate::hashing::joined(shorter);
        let before_leaves = shorter.map_values(|root: B256| root@);
        lemma_joined(shorter);
        assert forall|k: int| 0 <= k < leaves.len() implies #[trigger] leaves[k] == bytes.subrange(
            32 * k,
            32 * k + 32,
        ) by {
            if k < shorter.len() {
                assert(leaves[k] == before_leaves[k]);
                assert(bytes.subrange(32 * k, 32 * k + 32) =~= before.subrange(
                    32 * k,
                    32 * k + 32,
                ));
            } else {
                assert(bytes.subrange(32 * k, 32 * k + 32) =~= roots.last()@);
            }
        }
    }
}

/// The root of a list is over one leaf for each item, in order, with its length.
pub proof fn list_root_commits_to_every_item(
    roots: Seq<B256>,
    limit: usize,
    bytes: Seq<u8>,
    length: usize,
)
    requires
        are_leaves(bytes, roots.map_values(|root: B256| root@)),
        roots.len() == length,
    ensures
        list_root(roots, limit) == length_mixed_root(merkle_root_of(bytes, limit), length),
{
    lemma_joined(roots);
    lemma_leaves_bytes(
        bytes,
        crate::hashing::joined(roots),
        roots.map_values(|root: B256| root@),
    );
}

/// The root of a body is over one leaf: that of the list of its attestations, which can
/// hold 4096 of them.
pub proof fn body_root_commits_to_every_attestation(
    attestations: Seq<AttestationView>,
    roots: Seq<B256>,
)
    requires
        roots.len() == attestations.len(),
        forall|i: int| 0 <= i < roots.len() ==> #[trigger] roots[i] == attestations[i].root(),
    ensures
        body_root(attestations) == merkle_root_of(list_root(roots, 4096)@, 1),
{
    assert(crate::block::attestation_roots(attestations) =~= roots);
}

/// The leaves of a state: the roots of its ten fields, in the order in which they are
/// declared. `registry` is the root of the registry.
pub open spec fn field_roots(state: StateView, registry: B256) -> Seq<Seq<u8>> {
    seq![
        state.config.root()@,
        u64_leaf(state.slot),
        state.latest_block_header.root()@,
        state.latest_justified.tree_root()@,
        state.latest_finalized.tree_root()@,
        root_list_root(state.historical_block_hashes)@,
        justified_slots_root(state.justified_slots)@,
        registry@,
        root_list_root(state.justifications_roots)@,
        votes_root(state.justifications_validators)@,
    ]
}

/// The root of a state is over ten leaves: the roots of its fields, in the order in
/// which they are declared. The registry's is that of a list that can hold 4096
/// validators.
pub proof fn state_root_commits_to_every_field(
    state: StateView,
    validator_roots: Seq<B256>,
    bytes: Seq<u8>,
)
    requires
        validator_roots.len() == state.validators.len(),
        forall|i: int|
            0 <= i < validator_roots.len() ==> #[trigger] validator_roots[i]
                == state.validators[i].root(),
        are_leaves(bytes, field_roots(state, list_root(validator_roots, 4096))),
    ensures
        state.root() == merkle_root_of(bytes, 10),
{
    let registry = list_root(validator_roots, 4096);
    let leaves = field_roots(state, registry);
    let own = state.config.root()@ + u64_leaf(state.slot) + state.latest_block_header.root()@
        + state.latest_justified.tree_root()@ + state.latest_finalized.tree_root()@
        + root_list_root(state.historical_block_hashes)@ + justified_slots_root(
        state.justified_slots,
    )@ + registry@ + root_list_root(state.justifications_roots)@ + votes_root(
        state.justifications_validators,
    )@;
    numbers_fill_a_leaf(state.slot, 0);
    assert(crate::model::validator_roots(state.validators) =~= validator_roots);
    assert(leaves[0] =~= own.subrange(0, 32));
    assert(leaves[1] =~= own.subrange(32, 64));
    assert(leaves[2] =~= own.subrange(64, 96));
    assert(leaves[3] =~= own.subrange(96, 128));
    assert(leaves[4] =~= own.subrange(128, 160));
    assert(leaves[5] =~= own.subrange(160, 192));
    assert(leaves[6] =~= own.subrange(192, 224));
    assert(leaves[7] =~= own.subrange(224, 256));
    assert(leaves[8] =~= own.subrange(256, 288));
    assert(leaves[9] =~= own.subrange(288, 320));
    assert(are_leaves(own, leaves));
    lemma_leaves_bytes(bytes, own, leaves);
}

/// The root of a state is over bytes that differ for two states as soon as the roots of
/// one of their fields differ, or the slots do.
pub proof fn states_with_other_fields_have_other_leaves(state: StateView, other: StateView) -> (
    bytes: (Seq<u8>, Seq<u8>))
    ensures
        state.root() == merkle_root_of(bytes.0, 10),
        other.root() == merkle_root_of(bytes.1, 10),
        bytes.0 == bytes.1 <==> {
            &&& state.config.root() == other.config.root()
            &&& state.slot == other.slot
            &&& state.latest_block_header.root() == other.latest_block_header.root()
            &&& state.latest_justified.tree_root() == other.latest_justified.tree_root()
            &&& state.latest_finalized.tree_root() == other.latest_finalized.tree_root()
            &&& root_list_root(state.historical_block_hashes) == root_list_root(
                other.historical_block_hashes,
            )
            &&& justified_slots_root(state.justified_slots) == justified_slots_root(
                other.justified_slots,
            )
            &&& list_root(state.validators.map_values(|item: Validator| item.root()), 4096)
                == list_root(other.validators.map_values(|item: Validator| item.root()), 4096)
            &&& root_list_root(state.justifications_roots) == root_list_root(
                other.justifications_roots,
            )
            &&& votes_root(state.justifications_validators) == votes_root(
                other.justifications_validators,
            )
        },
{
    let roots = state.validators.map_values(|item: Validator| item.root());
    let other_roots = other.validators.map_values(|item: Validator| item.root());
    let leaves = field_roots(state, list_root(roots, 4096));
    let other_leaves = field_roots(other, list_root(other_roots, 4096));
    numbers_fill_a_leaf(state.slot, other.slot);
    numbers_fill_a_leaf(other.slot, state.slot);
    let bytes = lemma_bytes_of(leaves);
    let other_bytes = lemma_bytes_of(other_leaves);
    state_root_commits_to_every_field(state, roots, bytes);
    state_root_commits_to_every_field(other, other_roots, other_bytes);
    if bytes == other_bytes {
        bytes_determine_leaves(bytes, leaves, other_leaves);
        lemma_same_array(state.config.root(), other.config.root(), leaves[0], other_leaves[0]);
        assert(leaves[1] == other_leaves[1]);
        lemma_same_array(
            state.latest_block_header.root(),
            other.latest_block_header.root(),
            leaves[2],
            other_leaves[2],
        );
        lemma_same_array(
            state.latest_justified.tree_root(),
            other.latest_justified.tree_root(),
            leaves[3],
            other_leaves[3],
        );
        lemma_same_array(
            state.latest_finalized.tree_root(),
            other.latest_finalized.tree_root(),
            leaves[4],
            other_leaves[4],
        );
        lemma_same_array(
            root_list_root(state.historical_block_hashes),
            root_list_root(other.historical_block_hashes),
            leaves[5],
            other_leaves[5],
        );
        lemma_same_array(
            justified_slots_root(state.justified_slots),
            justified_slots_root(other.justified_slots),
            leaves[6],
            other_leaves[6],
        );
        lemma_same_array(
            list_root(roots, 4096),
            list_root(other_roots, 4096),
            leaves[7],
            other_leaves[7],
        );
        lemma_same_array(
            root_list_root(state.justifications_roots),
            root_list_root(other.justifications_roots),
            leaves[8],
            other_leaves[8],
        );
        lemma_same_array(
            votes_root(state.justifications_validators),
            votes_root(other.justifications_validators),
            leaves[9],
            other_leaves[9],
        );
    } else if leaves =~= other_leaves {
        lemma_leaves_bytes(bytes, other_bytes, leaves);
    }
    (bytes, other_bytes)
}

/// Arrays with the same bytes are the same.
proof fn lemma_same_array(left: B256, right: B256, left_bytes: Seq<u8>, right_bytes: Seq<u8>)
    requires
        left@ == left_bytes,
        right@ == right_bytes,
        left_bytes == right_bytes,
    ensures
        left == right,
{
    assert(left =~= right);
}

/// There are bytes with the given leaves.
proof fn lemma_bytes_of(leaves: Seq<Seq<u8>>) -> (bytes: Seq<u8>)
    requires
        forall|k: int| 0 <= k < leaves.len() ==> (#[trigger] leaves[k]).len() == 32,
    ensures
        are_leaves(bytes, leaves),
{
    let bytes = Seq::new(32 * leaves.len(), |i: int| leaves[i / 32][i % 32]);
    assert forall|k: int| 0 <= k < leaves.len() implies #[trigger] leaves[k] == bytes.subrange(
        32 * k,
        32 * k + 32,
    ) by {
        assert(leaves[k] =~= bytes.subrange(32 * k, 32 * k + 32));
    }
    bytes
}

/// What a state is encoded as: its fields in the order in which they are declared, and
/// theirs in turn.
pub proof fn encodings_hold_every_field(state: StateView)
    ensures
        ({
            let fields = state_fields(state);
            let header = state.latest_block_header;
            &&& fields.0 == state.config.genesis_time
            &&& fields.1 == state.slot
            &&& fields.2.0 == header.slot
            &&& fields.2.1 == header.proposer_index
            &&& fields.2.2 == header.parent_root
            &&& fields.2.3 == header.state_root
            &&& fields.2.4 == header.body_root
            &&& fields.3.0 == state.latest_justified.root
            &&& fields.3.1 == state.latest_justified.slot
            &&& fields.4.0 == state.latest_finalized.root
            &&& fields.4.1 == state.latest_finalized.slot
            &&& fields.5 == state.historical_block_hashes
            &&& fields.6 == state.justified_slots
            &&& fields.7.len() == state.validators.len()
            &&& forall|i: int|
                0 <= i < fields.7.len() ==> {
                    &&& (#[trigger] fields.7[i]).0 == state.validators[i].attestation_public_key
                    &&& fields.7[i].1 == state.validators[i].proposal_public_key
                    &&& fields.7[i].2 == state.validators[i].index
                }
            &&& fields.8 == state.justifications_roots
            &&& fields.9 == state.justifications_validators
        }),
{
}

/// What is encoded of a record is each of its fields, at its own place.
pub proof fn records_are_encoded_field_by_field(record: StateRecord)
    ensures
        ({
            let fields = record_fields(record);
            &&& fields.0 == record.0
            &&& fields.1 == record.1
            &&& fields.2 == record.2
            &&& fields.3 == record.3
            &&& fields.4 == record.4
            &&& fields.5 == root_list(record.5)
            &&& fields.6 == justified_bits(record.6)
            &&& fields.7 == validator_fields_list(record.7)
            &&& fields.8 == root_list(record.8)
            &&& fields.9 == vote_bits(record.9)
        }),
{
}

} // verus!
