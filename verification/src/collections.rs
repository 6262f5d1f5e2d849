//! Bounded lists and bit lists of the SSZ crates, and what is trusted of them.

use crate::attestation::AggregatedAttestation;
use crate::bytes::B256;
use crate::validator::Validator;
use ssz_types::typenum::{B0, B1, U1073741824, U262144, U4096, UInt, UTerm};
use ssz_types::{BitList, Bitfield, VariableList};
use vstd::prelude::*;

verus! {

/// `typenum::UTerm`: the end of a type-level number.
#[verifier::external_type_specification]
#[verifier::external_body]
pub struct ExUTerm(UTerm);

/// `typenum::B0`: a type-level zero bit.
#[verifier::external_type_specification]
#[verifier::external_body]
pub struct ExB0(B0);

/// `typenum::B1`: a type-level one bit.
#[verifier::external_type_specification]
#[verifier::external_body]
pub struct ExB1(B1);

/// `typenum::UInt`: a type-level number.
#[verifier::external_type_specification]
#[verifier::external_body]
#[verifier::reject_recursive_types(U)]
#[verifier::reject_recursive_types(B)]
pub struct ExUInt<U, B>(UInt<U, B>);

/// `ssz::Variable`: marks a bit field of variable length.
#[verifier::external_type_specification]
#[verifier::external_body]
#[verifier::reject_recursive_types(N)]
pub struct ExVariable<N>(ssz_types::length::Variable<N>);

/// `ssz::Bitfield`: a packed sequence of bits.
#[verifier::external_type_specification]
#[verifier::external_body]
#[verifier::reject_recursive_types(T)]
pub struct ExBitfield<T>(Bitfield<T>);

/// `ssz_types::VariableList`: a list with a type-level maximum length.
#[verifier::external_type_specification]
#[verifier::external_body]
#[verifier::reject_recursive_types(T)]
#[verifier::reject_recursive_types(N)]
pub struct ExVariableList<T, N>(VariableList<T, N>);

/// `ssz_types::Error`: why a list refuses an operation.
#[verifier::external_type_specification]
#[verifier::external_body]
pub struct ExListError(ssz_types::Error);

/// `ssz::BitfieldError`: why a bit field refuses an operation.
#[verifier::external_type_specification]
#[verifier::external_body]
pub struct ExBitfieldError(ssz::BitfieldError);

/// The largest number of block roots, justified slots or pending
/// justifications that a state can hold.
pub const HISTORICAL_ROOTS_LIMIT: usize = 262144;

/// The largest number of validators that a state can hold.
pub const VALIDATOR_REGISTRY_LIMIT: usize = 4096;

/// The largest number of pending votes that a state can hold.
pub const JUSTIFICATION_VOTES_LIMIT: usize = 1073741824;

/// The number of bits that are set.
pub open spec fn count_set(bits: Seq<bool>) -> nat
    decreases bits.len(),
{
    if bits.len() == 0 {
        0
    } else {
        count_set(bits.drop_last()) + if bits.last() {
            1nat
        } else {
            0nat
        }
    }
}

/// `length` bits that are not set.
pub open spec fn no_bits(length: nat) -> Seq<bool> {
    Seq::new(length, |i: int| false)
}

/// Bit `i` is set when it is set in `left` or in `right`; the length is that of
/// the longer one.
pub open spec fn bits_union(left: Seq<bool>, right: Seq<bool>) -> Seq<bool> {
    Seq::new(
        if left.len() >= right.len() {
            left.len()
        } else {
            right.len()
        },
        |i: int| (i < left.len() && left[i]) || (i < right.len() && right[i]),
    )
}

// Lists of block roots.
/// The roots that a list holds, in order.
pub uninterp spec fn root_list(list: VariableList<B256, U262144>) -> Seq<B256>;

/// `VariableList::empty` returns a list without items.
#[verifier::external_body]
pub(crate) fn root_list_empty() -> (list: VariableList<B256, U262144>)
    ensures
        root_list(list) == Seq::<B256>::empty(),
{
    VariableList::empty()
}

/// `VariableList::push` appends the item, unless the list already holds the
/// maximum number of items: then it returns an error and the list stays.
#[verifier::external_body]
pub(crate) fn root_list_push(list: &mut VariableList<B256, U262144>, root: B256) -> (pushed: Result<
    (),
    ssz_types::Error,
>)
    ensures
        pushed is Ok <==> root_list(*old(list)).len() < HISTORICAL_ROOTS_LIMIT,
        pushed is Ok ==> root_list(*final(list)) == root_list(*old(list)).push(root),
        pushed is Err ==> root_list(*final(list)) == root_list(*old(list)),
{
    list.push(root)
}

/// `VariableList` dereferences to the slice of its items, never more of them
/// than the maximum.
#[verifier::external_body]
pub(crate) fn root_list_slice(list: &VariableList<B256, U262144>) -> (roots: &[B256])
    ensures
        roots@ == root_list(*list),
        roots@.len() <= HISTORICAL_ROOTS_LIMIT,
{
    list
}

/// `VariableList::clone` returns a list of the same items.
#[verifier::external_body]
pub(crate) fn root_list_clone(list: &VariableList<B256, U262144>) -> (copy: VariableList<
    B256,
    U262144,
>)
    ensures
        root_list(copy) == root_list(*list),
{
    list.clone()
}

// Lists of validators.
/// The validators that a list holds, in order.
pub uninterp spec fn validator_list(list: VariableList<Validator, U4096>) -> Seq<Validator>;

/// `VariableList::new` takes over the items of a vector, unless there are more
/// of them than the maximum.
#[verifier::external_body]
pub(crate) fn validator_list_new(validators: Vec<Validator>) -> (list: Result<
    VariableList<Validator, U4096>,
    ssz_types::Error,
>)
    ensures
        list is Ok <==> validators@.len() <= VALIDATOR_REGISTRY_LIMIT,
        list matches Ok(list) ==> validator_list(list) == validators@,
{
    VariableList::new(validators)
}

/// `VariableList` dereferences to the slice of its items, never more of them
/// than the maximum.
#[verifier::external_body]
pub(crate) fn validator_list_slice(list: &VariableList<Validator, U4096>) -> (validators:
    &[Validator])
    ensures
        validators@ == validator_list(*list),
        validators@.len() <= VALIDATOR_REGISTRY_LIMIT,
{
    list
}

// Lists of attestations.
/// The attestations that a list holds, in order.
pub uninterp spec fn attestation_list(list: VariableList<AggregatedAttestation, U4096>) -> Seq<
    AggregatedAttestation,
>;

/// `VariableList::empty` returns a list without items.
#[verifier::external_body]
pub(crate) fn attestation_list_empty() -> (list: VariableList<AggregatedAttestation, U4096>)
    ensures
        attestation_list(list) == Seq::<AggregatedAttestation>::empty(),
{
    VariableList::empty()
}

/// `VariableList::new` takes over the items of a vector, unless there are more
/// of them than the maximum.
#[verifier::external_body]
pub(crate) fn attestation_list_new(attestations: Vec<AggregatedAttestation>) -> (list: Result<
    VariableList<AggregatedAttestation, U4096>,
    ssz_types::Error,
>)
    ensures
        list is Ok <==> attestations@.len() <= crate::block::ATTESTATIONS_LIMIT,
        list matches Ok(list) ==> attestation_list(list) == attestations@,
{
    VariableList::new(attestations)
}

/// `VariableList` dereferences to the slice of its items, never more of them
/// than the maximum.
#[verifier::external_body]
pub(crate) fn attestation_list_slice(list: &VariableList<AggregatedAttestation, U4096>) -> (
attestations: &[AggregatedAttestation])
    ensures
        attestations@ == attestation_list(*list),
        attestations@.len() <= crate::block::ATTESTATIONS_LIMIT,
{
    list
}

// Participants of an attestation or of a proof.
/// The bits of a list of participants, in order.
pub uninterp spec fn participant_bits(bits: BitList<U4096>) -> Seq<bool>;

/// `Bitfield::iter` hands out the bits in order, never more of them than the
/// maximum.
#[verifier::external_body]
pub(crate) fn participants_to_vec(bits: &BitList<U4096>) -> (participants: Vec<bool>)
    ensures
        participants@ == participant_bits(*bits),
        participants@.len() <= VALIDATOR_REGISTRY_LIMIT,
{
    bits.iter().collect()
}

/// `Bitfield::clone` returns a bit field with the same bits, never more of them
/// than the maximum.
#[verifier::external_body]
pub(crate) fn participants_clone(bits: &BitList<U4096>) -> (copy: BitList<U4096>)
    ensures
        participant_bits(copy) == participant_bits(*bits),
        participant_bits(copy).len() <= VALIDATOR_REGISTRY_LIMIT,
{
    bits.clone()
}

// Justified slots.
/// The bits of a list of justified slots, in order.
pub uninterp spec fn justified_bits(bits: BitList<U262144>) -> Seq<bool>;

/// `BitList::with_capacity` returns a list of that many bits, none of them set,
/// unless that is more than the maximum.
#[verifier::external_body]
pub(crate) fn justified_with_capacity(length: usize) -> (bits: Result<
    BitList<U262144>,
    ssz::BitfieldError,
>)
    ensures
        bits is Ok <==> length <= HISTORICAL_ROOTS_LIMIT,
        bits matches Ok(bits) ==> justified_bits(bits) == no_bits(length as nat),
{
    BitList::with_capacity(length)
}

/// `BitList::union` returns the bits that are set in one of two lists, as many
/// as the longer list has.
#[verifier::external_body]
pub(crate) fn justified_union(left: &BitList<U262144>, right: &BitList<U262144>) -> (bits: BitList<
    U262144,
>)
    ensures
        justified_bits(bits) == bits_union(justified_bits(*left), justified_bits(*right)),
{
    left.union(right)
}

/// `Bitfield::set` changes one bit, unless the list does not reach it: then it
/// returns an error and the list stays.
#[verifier::external_body]
pub(crate) fn justified_set(bits: &mut BitList<U262144>, index: usize, value: bool) -> (done: Result<
    (),
    ssz::BitfieldError,
>)
    ensures
        done is Ok <==> index < justified_bits(*old(bits)).len(),
        done is Ok ==> justified_bits(*final(bits)) == justified_bits(*old(bits)).update(
            index as int,
            value,
        ),
        done is Err ==> justified_bits(*final(bits)) == justified_bits(*old(bits)),
{
    bits.set(index, value)
}

/// `Bitfield::get` returns one bit, unless the list does not reach it.
#[verifier::external_body]
pub(crate) fn justified_get(bits: &BitList<U262144>, index: usize) -> (value: Result<
    bool,
    ssz::BitfieldError,
>)
    ensures
        value is Ok <==> index < justified_bits(*bits).len(),
        value matches Ok(value) ==> value == justified_bits(*bits)[index as int],
{
    bits.get(index)
}

/// `Bitfield::len` returns the number of bits, never more than the maximum.
#[verifier::external_body]
pub(crate) fn justified_len(bits: &BitList<U262144>) -> (length: usize)
    ensures
        length == justified_bits(*bits).len(),
        length <= HISTORICAL_ROOTS_LIMIT,
{
    bits.len()
}

/// `Bitfield::clone` returns a bit field with the same bits.
#[verifier::external_body]
pub(crate) fn justified_clone(bits: &BitList<U262144>) -> (copy: BitList<U262144>)
    ensures
        justified_bits(copy) == justified_bits(*bits),
{
    bits.clone()
}

// Votes for pending justifications.
/// The bits of a list of votes, in order.
pub uninterp spec fn vote_bits(bits: BitList<U1073741824>) -> Seq<bool>;

/// `BitList::with_capacity` returns a list of that many bits, none of them set,
/// unless that is more than the maximum.
#[verifier::external_body]
pub(crate) fn votes_with_capacity(length: usize) -> (bits: Result<
    BitList<U1073741824>,
    ssz::BitfieldError,
>)
    ensures
        bits is Ok <==> length <= JUSTIFICATION_VOTES_LIMIT,
        bits matches Ok(bits) ==> vote_bits(bits) == no_bits(length as nat),
{
    BitList::with_capacity(length)
}

/// `Bitfield::set` changes one bit, unless the list does not reach it: then it
/// returns an error and the list stays.
#[verifier::external_body]
pub(crate) fn votes_set(bits: &mut BitList<U1073741824>, index: usize, value: bool) -> (done: Result<
    (),
    ssz::BitfieldError,
>)
    ensures
        done is Ok <==> index < vote_bits(*old(bits)).len(),
        done is Ok ==> vote_bits(*final(bits)) == vote_bits(*old(bits)).update(index as int, value),
        done is Err ==> vote_bits(*final(bits)) == vote_bits(*old(bits)),
{
    bits.set(index, value)
}

/// `Bitfield::get` returns one bit, unless the list does not reach it.
#[verifier::external_body]
pub(crate) fn votes_get(bits: &BitList<U1073741824>, index: usize) -> (value: Result<
    bool,
    ssz::BitfieldError,
>)
    ensures
        value is Ok <==> index < vote_bits(*bits).len(),
        value matches Ok(value) ==> value == vote_bits(*bits)[index as int],
{
    bits.get(index)
}

/// `Bitfield::num_set_bits` counts the bits that are set.
#[verifier::external_body]
pub(crate) fn votes_count(bits: &BitList<U1073741824>) -> (count: usize)
    ensures
        count == count_set(vote_bits(*bits)),
{
    bits.num_set_bits()
}

/// `Bitfield::iter` hands out the bits in order, never more of them than the
/// maximum.
#[verifier::external_body]
pub(crate) fn votes_to_vec(bits: &BitList<U1073741824>) -> (votes: Vec<bool>)
    ensures
        votes@ == vote_bits(*bits),
        votes@.len() <= JUSTIFICATION_VOTES_LIMIT,
{
    bits.iter().collect()
}

/// `Bitfield::clone` returns a bit field with the same bits.
#[verifier::external_body]
pub(crate) fn votes_clone(bits: &BitList<U1073741824>) -> (copy: BitList<U1073741824>)
    ensures
        vote_bits(copy) == vote_bits(*bits),
{
    bits.clone()
}

/// No more bits are set than there are.
pub proof fn lemma_count_set_bound(bits: Seq<bool>)
    ensures
        count_set(bits) <= bits.len(),
    decreases bits.len(),
{
    if bits.len() > 0 {
        lemma_count_set_bound(bits.drop_last());
    }
}

} // verus!
