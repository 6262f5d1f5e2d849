//! The SSZ encoding of a state.

use crate::block::BlockHeader;
use crate::bytes::B256;
use crate::checkpoint::Checkpoint;
use crate::collections::{
    justified_bits, justified_clone, root_list, root_list_clone, validator_list_new,
    validator_list_slice, vote_bits, votes_clone, VALIDATOR_REGISTRY_LIMIT,
};
use crate::config::Config;
use crate::error::StateError;
use crate::model::StateView;
use crate::state::LeanState;
use crate::validator::Validator;
use ssz::{Decode, Encode};
use ssz_types::typenum::{U1073741824, U262144, U4096};
use ssz_types::{BitList, VariableList};
use vstd::prelude::*;

verus! {

/// The fields of a header, in order.
pub type HeaderFields = (u64, u64, B256, B256, B256);

/// The fields of a checkpoint, in order.
pub type CheckpointFields = (B256, u64);

/// The fields of a validator, in order.
pub type ValidatorFields = ([u8; 52], [u8; 52], u64);

/// The fields of a state, in order.
pub type StateRecord = (
    u64,
    u64,
    HeaderFields,
    CheckpointFields,
    CheckpointFields,
    VariableList<B256, U262144>,
    BitList<U262144>,
    VariableList<ValidatorFields, U4096>,
    VariableList<B256, U262144>,
    BitList<U1073741824>,
);

/// The contents of the fields of a state, in order.
pub type StateFields = (
    u64,
    u64,
    HeaderFields,
    CheckpointFields,
    CheckpointFields,
    Seq<B256>,
    Seq<bool>,
    Seq<ValidatorFields>,
    Seq<B256>,
    Seq<bool>,
);

/// The entries that a list of validator fields holds, in order.
pub uninterp spec fn validator_fields_list(list: VariableList<ValidatorFields, U4096>) -> Seq<
    ValidatorFields,
>;

/// `VariableList::new` takes over the items of a vector, unless there are more
/// of them than the maximum.
#[verifier::external_body]
fn validator_fields_list_new(entries: Vec<ValidatorFields>) -> (list: Result<
    VariableList<ValidatorFields, U4096>,
    ssz_types::Error,
>)
    ensures
        list is Ok <==> entries@.len() <= VALIDATOR_REGISTRY_LIMIT,
        list matches Ok(list) ==> validator_fields_list(list) == entries@,
{
    VariableList::new(entries)
}

/// `VariableList` dereferences to the slice of its items, never more of them
/// than the maximum.
#[verifier::external_body]
fn validator_fields_list_slice(list: &VariableList<ValidatorFields, U4096>) -> (entries:
    &[ValidatorFields])
    ensures
        entries@ == validator_fields_list(*list),
        entries@.len() <= VALIDATOR_REGISTRY_LIMIT,
{
    list
}

/// The contents of the fields of a record.
pub open spec fn record_fields(record: StateRecord) -> StateFields {
    (
        record.0,
        record.1,
        record.2,
        record.3,
        record.4,
        root_list(record.5),
        justified_bits(record.6),
        validator_fields_list(record.7),
        root_list(record.8),
        vote_bits(record.9),
    )
}

/// The SSZ encoding of a container with the given fields.
pub uninterp spec fn ssz_encoding(fields: StateFields) -> Seq<u8>;

/// The fields that some bytes are the SSZ encoding of, if there are any.
pub uninterp spec fn ssz_decoding(bytes: Seq<u8>) -> Option<StateFields>;

/// `ssz::Encode::as_ssz_bytes` on a tuple returns the encoding of the container of
/// its fields, and decoding gives these fields back. Nothing is said of the bytes
/// themselves.
#[verifier::external_body]
fn encode_record(record: &StateRecord) -> (bytes: Vec<u8>)
    ensures
        bytes@ == ssz_encoding(record_fields(*record)),
        ssz_decoding(bytes@) == Some(record_fields(*record)),
{
    record.as_ssz_bytes()
}

/// `ssz::DecodeError`: why bytes are no encoding.
#[verifier::external_type_specification]
#[verifier::external_body]
pub struct ExDecodeError(ssz::DecodeError);

/// `ssz::Decode::from_ssz_bytes` on a tuple returns the fields that the bytes are
/// the encoding of, and an error if there are none. It counts the bits of the
/// bytes, whose number has to fit.
#[verifier::external_body]
fn decode_record(bytes: &[u8]) -> (record: Result<StateRecord, ssz::DecodeError>)
    requires
        bytes@.len() * 8 <= usize::MAX,
    ensures
        record is Ok <==> ssz_decoding(bytes@) is Some,
        record matches Ok(record) ==> {
            &&& ssz_decoding(bytes@) == Some(record_fields(record))
            &&& ssz_encoding(record_fields(record)) == bytes@
        },
{
    StateRecord::from_ssz_bytes(bytes)
}

/// The fields of a header.
pub open spec fn header_fields(header: BlockHeader) -> HeaderFields {
    (
        header.slot,
        header.proposer_index,
        header.parent_root,
        header.state_root,
        header.body_root,
    )
}

/// The fields of a checkpoint.
pub open spec fn checkpoint_fields(checkpoint: Checkpoint) -> CheckpointFields {
    (checkpoint.root, checkpoint.slot)
}

/// The fields of a validator.
pub open spec fn validator_fields(validator: Validator) -> ValidatorFields {
    (validator.attestation_public_key, validator.proposal_public_key, validator.index)
}

/// The fields of a state.
pub open spec fn state_fields(state: StateView) -> StateFields {
    (
        state.config.genesis_time,
        state.slot,
        header_fields(state.latest_block_header),
        checkpoint_fields(state.latest_justified),
        checkpoint_fields(state.latest_finalized),
        state.historical_block_hashes,
        state.justified_slots,
        state.validators.map_values(|validator: Validator| validator_fields(validator)),
        state.justifications_roots,
        state.justifications_validators,
    )
}

/// The fields of a state determine it: two states that some bytes decode to are
/// the same, so decoding what was encoded gives the encoded state back.
pub proof fn decoding_determines_the_state(bytes: Seq<u8>, state: StateView, other: StateView)
    requires
        ssz_decoding(bytes) == Some(state_fields(state)),
        ssz_decoding(bytes) == Some(state_fields(other)),
    ensures
        state == other,
{
    let entries = state_fields(state).7;
    assert(entries.len() == state.validators.len());
    assert forall|i: int| 0 <= i < state.validators.len() implies state.validators[i]
        == other.validators[i] by {
        assert(entries[i] == validator_fields(state.validators[i]));
        assert(entries[i] == validator_fields(other.validators[i]));
    }
    assert(state.validators =~= other.validators);
    assert(state.config == other.config);
    assert(state =~= other);
}

impl LeanState {
    /// The SSZ encoding of the state. Decoding it gives the state back.
    pub fn as_ssz_bytes(&self) -> (bytes: Vec<u8>)
        ensures
            bytes@ == ssz_encoding(state_fields(self@)),
            ssz_decoding(bytes@) == Some(state_fields(self@)),
    {
        let validators = validator_list_slice(&self.validators);
        let ghost all = state_fields(self@).7;
        let mut entries: Vec<ValidatorFields> = Vec::new();
        let mut i: usize = 0;
        while i < validators.len()
            invariant
                i <= validators@.len() <= VALIDATOR_REGISTRY_LIMIT,
                validators@ == self@.validators,
                all == state_fields(self@).7,
                entries@ == all.take(i as int),
            decreases validators@.len() - i,
        {
            let validator = validators[i];
            entries.push(
                (
                    validator.attestation_public_key,
                    validator.proposal_public_key,
                    validator.index,
                ),
            );
            assert(all.take(i + 1) =~= all.take(i as int).push(all[i as int]));
            i += 1;
        }
        assert(all.take(i as int) =~= all);
        let entry_list = match validator_fields_list_new(entries) {
            Ok(list) => list,
            Err(_) => vstd::pervasive::unreached(),
        };
        let header = self.latest_block_header;
        let record: StateRecord = (
            self.config.genesis_time,
            self.slot,
            (
                header.slot,
                header.proposer_index,
                header.parent_root,
                header.state_root,
                header.body_root,
            ),
            (self.latest_justified.root, self.latest_justified.slot),
            (self.latest_finalized.root, self.latest_finalized.slot),
            root_list_clone(&self.historical_block_hashes),
            justified_clone(&self.justified_slots),
            entry_list,
            root_list_clone(&self.justifications_roots),
            votes_clone(&self.justifications_validators),
        );
        encode_record(&record)
    }

    /// The state that some bytes are the SSZ encoding of.
    pub fn from_ssz_bytes(bytes: &[u8]) -> (decoded: Result<LeanState, StateError>)
        requires
            bytes@.len() * 8 <= usize::MAX,
        ensures
            match decoded {
                Ok(state) => {
                    &&& ssz_decoding(bytes@) == Some(state_fields(state@))
                    &&& ssz_encoding(state_fields(state@)) == bytes@
                },
                Err(error) => {
                    &&& ssz_decoding(bytes@) is None
                    &&& error == StateError::MalformedEncoding
                },
            },
    {
        match decode_record(bytes) {
            Ok(record) => Ok(LeanState::from_record(record)),
            Err(_) => Err(StateError::MalformedEncoding),
        }
    }

    /// The state with the fields of a record.
    pub fn from_record(record: StateRecord) -> (state: LeanState)
        ensures
            state_fields(state@) == record_fields(record),
    {
        let entries = validator_fields_list_slice(&record.7);
        let ghost all = entries@;
        let mut validators: Vec<Validator> = Vec::new();
        let mut i: usize = 0;
        while i < entries.len()
            invariant
                i <= entries@.len() <= VALIDATOR_REGISTRY_LIMIT,
                validators@.len() == i,
                forall|j: int|
                    0 <= j < i ==> validator_fields(#[trigger] validators@[j]) == entries@[j],
            decreases entries@.len() - i,
        {
            let entry = entries[i];
            validators.push(
                Validator {
                    attestation_public_key: entry.0,
                    proposal_public_key: entry.1,
                    index: entry.2,
                },
            );
            i += 1;
        }
        let registry = match validator_list_new(validators) {
            Ok(list) => list,
            Err(_) => vstd::pervasive::unreached(),
        };
        let state = LeanState {
            config: Config { genesis_time: record.0 },
            slot: record.1,
            latest_block_header: BlockHeader {
                slot: record.2.0,
                proposer_index: record.2.1,
                parent_root: record.2.2,
                state_root: record.2.3,
                body_root: record.2.4,
            },
            latest_justified: Checkpoint { root: record.3.0, slot: record.3.1 },
            latest_finalized: Checkpoint { root: record.4.0, slot: record.4.1 },
            historical_block_hashes: record.5,
            justified_slots: record.6,
            validators: registry,
            justifications_roots: record.8,
            justifications_validators: record.9,
        };
        assert(state_fields(state@).7 =~= all);
        state
    }
}

} // verus!
