//! Why a transition is refused.

use vstd::prelude::*;

verus! {

/// Why a transition is refused.
#[derive(Clone, Copy, Debug, PartialEq, Eq)]
pub enum StateError {
    /// The block's signatures do not check.
    InvalidSignatures,
    /// The slot to advance to is not after the current one.
    TargetSlotNotInFuture { current: u64, target: u64 },
    /// The block is not for the current slot.
    BlockSlotMismatch,
    /// The block is not newer than the latest header.
    BlockSlotNotNewer,
    /// Another validator proposes at this slot.
    WrongProposer,
    /// The block's parent is not the latest header.
    ParentRootMismatch,
    /// There is no room for the parent root in the history.
    HistoryFull,
    /// There is no room for the empty slots in the history.
    HistoryPrefillFull,
    /// The list of justified slots cannot be made long enough.
    JustifiedSlotsFull,
    /// The attestations hold too many different data.
    TooManyAttestationData { distinct: usize },
    /// A pending justification is for the zero hash.
    ZeroHashJustification,
    /// The pending votes are not one per root and validator.
    JustificationVotesMismatch { expected: usize, actual: usize },
    /// The list of justified slots does not reach a slot that was asked for.
    JustifiedSlotOutOfRange { slot: u64 },
    /// A participant is not in the registry.
    ValidatorOutOfRange { validator_id: usize },
    /// A pending justification is for a block that is not in the history.
    JustificationRootMissing,
    /// There is no room for all pending justifications.
    JustificationRootsFull,
    /// The block's state root is not that of the resulting state.
    InvalidStateRoot,
    /// The bytes are no encoding of a state.
    MalformedEncoding,
}

} // verus!
