//! The chain state as a mathematical value, and what each transition makes of
//! it.

use crate::attestation::{AttestationData, AttestationView};
use crate::block::{body_root, Block, BlockHeader};
use crate::bytes::{hash_order, B256, ZERO_HASH};
use crate::checkpoint::Checkpoint;
use crate::collections::{count_set, no_bits, HISTORICAL_ROOTS_LIMIT, VALIDATOR_REGISTRY_LIMIT};
use crate::config::Config;
use crate::error::StateError;
use crate::hashing::{
    justified_slots_root, list_root, merkle_root_of, root_list_root, u64_leaf, votes_root,
};
use crate::slot::justifiable;
use crate::validator::{proposes_at, Validator};
use vstd::prelude::*;

verus! {

/// The largest number of different attestation data in one block.
pub const MAX_ATTESTATIONS_DATA: u64 = 16;

/// The contents of a chain state.
#[verifier::ext_equal]
pub struct StateView {
    pub config: Config,
    pub slot: u64,
    pub latest_block_header: BlockHeader,
    pub latest_justified: Checkpoint,
    pub latest_finalized: Checkpoint,
    pub historical_block_hashes: Seq<B256>,
    pub justified_slots: Seq<bool>,
    pub validators: Seq<Validator>,
    pub justifications_roots: Seq<B256>,
    pub justifications_validators: Seq<bool>,
}

/// The state that a chain starts with.
pub open spec fn genesis(genesis_time: u64, validators: Seq<Validator>) -> StateView {
    StateView {
        config: Config { genesis_time },
        slot: 0,
        latest_block_header: BlockHeader {
            slot: 0,
            proposer_index: 0,
            parent_root: ZERO_HASH,
            state_root: ZERO_HASH,
            body_root: body_root(Seq::empty()),
        },
        latest_justified: Checkpoint { root: ZERO_HASH, slot: 0 },
        latest_finalized: Checkpoint { root: ZERO_HASH, slot: 0 },
        historical_block_hashes: Seq::empty(),
        justified_slots: Seq::empty(),
        validators,
        justifications_roots: Seq::empty(),
        justifications_validators: Seq::empty(),
    }
}

/// The hash tree roots of a list of validators, one by one.
pub open spec fn validator_roots(validators: Seq<Validator>) -> Seq<B256> {
    validators.map_values(|validator: Validator| validator.root())
}

/// The header of a block whose body has the given root. Its state root is left
/// open: it is filled in when the next slot begins.
pub open spec fn open_header(block: Block, body_root: B256) -> BlockHeader {
    BlockHeader {
        slot: block.slot,
        proposer_index: block.proposer_index,
        parent_root: block.parent_root,
        state_root: ZERO_HASH,
        body_root,
    }
}

/// `length` zero hashes.
pub open spec fn zero_hashes(length: nat) -> Seq<B256> {
    Seq::new(length, |i: int| ZERO_HASH)
}

/// The bits, with bits that are not set added up to the given length.
pub open spec fn padded(bits: Seq<bool>, length: nat) -> Seq<bool> {
    if bits.len() < length {
        bits + no_bits((length - bits.len()) as nat)
    } else {
        bits
    }
}

/// Whether the three checkpoints of an attestation are blocks of the chain.
pub open spec fn matches_chain(history: Seq<B256>, data: AttestationData) -> bool {
    &&& on_chain(history, data.source)
    &&& on_chain(history, data.target)
    &&& on_chain(history, data.head)
}

/// Whether the chain has the checkpoint's block at the checkpoint's slot.
pub open spec fn on_chain(history: Seq<B256>, checkpoint: Checkpoint) -> bool {
    &&& checkpoint.root != ZERO_HASH
    &&& checkpoint.slot < history.len()
    &&& history[checkpoint.slot as int] == checkpoint.root
}

/// The last slot from `start` on and before `end` at which the history holds
/// `root`.
pub open spec fn root_slot(history: Seq<B256>, start: int, end: int, root: B256) -> Option<int>
    decreases end - start,
{
    if end <= start {
        None
    } else if history[end - 1] == root {
        Some(end - 1)
    } else {
        root_slot(history, start, end - 1, root)
    }
}

/// The lowest position from `from` on at which a bit is set.
pub open spec fn first_set_from(bits: Seq<bool>, from: nat) -> Option<nat>
    decreases bits.len() - from,
{
    if from >= bits.len() {
        None
    } else if bits[from as int] {
        Some(from)
    } else {
        first_set_from(bits, from + 1)
    }
}

/// The votes so far together with those of the participants.
pub open spec fn votes_joined(votes: Seq<bool>, participants: Seq<bool>) -> Seq<bool> {
    Seq::new(votes.len(), |i: int| votes[i] || (i < participants.len() && participants[i]))
}

/// Whether `count` of `total` validators are at least two thirds.
pub open spec fn is_supermajority(count: nat, total: nat) -> bool {
    3 * count >= 2 * total
}

/// The pending votes of the first `count` roots, each with one bit for each of
/// `validators` validators. Where a root occurs twice, its last votes count.
pub open spec fn pending_votes(
    roots: Seq<B256>,
    flat: Seq<bool>,
    validators: nat,
    count: nat,
) -> Map<B256, Seq<bool>>
    decreases count,
{
    if count == 0 {
        Map::empty()
    } else {
        pending_votes(roots, flat, validators, (count - 1) as nat).insert(
            roots[count - 1],
            flat.subrange((count - 1) * validators, (count * validators) as int),
        )
    }
}

/// The votes for the given roots, one root after the other.
pub open spec fn flat_votes(roots: Seq<B256>, votes: Map<B256, Seq<bool>>) -> Seq<bool>
    decreases roots.len(),
{
    if roots.len() == 0 {
        Seq::empty()
    } else {
        flat_votes(roots.drop_last(), votes) + votes[roots.last()]
    }
}

impl StateView {
    /// The hash tree root of the state.
    pub open spec fn root(self) -> B256 {
        merkle_root_of(
            self.config.root()@ + u64_leaf(self.slot) + self.latest_block_header.root()@
                + self.latest_justified.tree_root()@ + self.latest_finalized.tree_root()@
                + root_list_root(self.historical_block_hashes)@ + justified_slots_root(
                self.justified_slots,
            )@ + list_root(validator_roots(self.validators), VALIDATOR_REGISTRY_LIMIT)@
                + root_list_root(self.justifications_roots)@ + votes_root(
                self.justifications_validators,
            )@,
            10,
        )
    }

    /// The state at the next slot, where `state_root` is the root of this state.
    /// It goes into the latest header if that has none yet.
    pub open spec fn next_slot(self, state_root: B256) -> StateView {
        StateView {
            slot: (self.slot + 1) as u64,
            latest_block_header: BlockHeader {
                state_root: if self.latest_block_header.state_root == ZERO_HASH {
                    state_root
                } else {
                    self.latest_block_header.state_root
                },
                ..self.latest_block_header
            },
            ..self
        }
    }

    /// The state at slot `target`, if that is not in the past.
    pub open spec fn at_slot(self, target: u64) -> StateView
        decreases target - self.slot,
    {
        if self.slot >= target {
            self
        } else {
            self.next_slot(self.root()).at_slot(target)
        }
    }

    /// Advancing changes the slot and the state root of the latest header.
    pub proof fn lemma_at_slot(self, target: u64)
        requires
            self.slot <= target,
        ensures
            self.at_slot(target) == (StateView {
                slot: target,
                latest_block_header: BlockHeader {
                    state_root: self.at_slot(target).latest_block_header.state_root,
                    ..self.latest_block_header
                },
                ..self
            }),
        decreases target - self.slot,
    {
        if self.slot < target {
            self.next_slot(self.root()).lemma_at_slot(target);
        }
    }

    /// The outcome of advancing to slot `target`.
    pub open spec fn process_slots(self, target: u64) -> (StateView, Result<(), StateError>) {
        if self.slot < target {
            (self.at_slot(target), Ok(()))
        } else {
            (self, Err(StateError::TargetSlotNotInFuture { current: self.slot, target }))
        }
    }

    /// Whether a header is for the current slot and newer than the latest one.
    pub open spec fn slot_fits(self, slot: u64) -> bool {
        slot == self.slot && slot > self.latest_block_header.slot
    }

    /// Why a header cannot follow the latest one, whose root is `latest_root`.
    pub open spec fn header_refusal(self, header: BlockHeader, latest_root: B256) -> Option<
        StateError,
    > {
        if header.slot != self.slot {
            Some(StateError::BlockSlotMismatch)
        } else if header.slot <= self.latest_block_header.slot {
            Some(StateError::BlockSlotNotNewer)
        } else if !proposes_at(header.proposer_index, self.slot, self.validators.len()) {
            Some(StateError::WrongProposer)
        } else if header.parent_root != latest_root {
            Some(StateError::ParentRootMismatch)
        } else {
            None
        }
    }

    /// The state in which the parent of the first block counts as justified and
    /// finalized.
    pub open spec fn with_anchor(self, parent_root: B256) -> StateView {
        if self.latest_block_header.slot == 0 {
            StateView {
                latest_justified: Checkpoint { root: parent_root, ..self.latest_justified },
                latest_finalized: Checkpoint { root: parent_root, ..self.latest_finalized },
                ..self
            }
        } else {
            self
        }
    }

    /// The number of slots without a block between the latest header and `slot`.
    pub open spec fn empty_slots(self, slot: u64) -> nat {
        (slot - self.latest_block_header.slot - 1) as nat
    }

    /// The history with the latest block's root and one zero hash for each
    /// empty slot after it, as far as there is room.
    pub open spec fn extended_history(self, header: BlockHeader) -> Seq<B256> {
        let full = self.historical_block_hashes.push(header.parent_root) + zero_hashes(
            self.empty_slots(header.slot),
        );
        if full.len() <= HISTORICAL_ROOTS_LIMIT {
            full
        } else {
            full.take(HISTORICAL_ROOTS_LIMIT as int)
        }
    }

    /// The number of slots after the finalized one and before `slot`.
    pub open spec fn slots_since_finalized(self, slot: u64) -> nat {
        if slot - 1 > self.latest_finalized.slot {
            (slot - 1 - self.latest_finalized.slot) as nat
        } else {
            0
        }
    }

    /// The outcome of a header that follows the latest one.
    pub open spec fn accept_header(self, header: BlockHeader) -> (
        StateView,
        Result<(), StateError>,
    ) {
        let anchored = self.with_anchor(header.parent_root);
        let recorded = StateView {
            historical_block_hashes: self.extended_history(header),
            ..anchored
        };
        let needed = self.slots_since_finalized(header.slot);
        if self.historical_block_hashes.len() >= HISTORICAL_ROOTS_LIMIT {
            (anchored, Err(StateError::HistoryFull))
        } else if self.historical_block_hashes.len() + 1 + self.empty_slots(header.slot)
            > HISTORICAL_ROOTS_LIMIT {
            (recorded, Err(StateError::HistoryPrefillFull))
        } else if self.justified_slots.len() < needed && needed > HISTORICAL_ROOTS_LIMIT {
            (recorded, Err(StateError::JustifiedSlotsFull))
        } else {
            (
                StateView {
                    justified_slots: padded(self.justified_slots, needed),
                    latest_block_header: header,
                    ..recorded
                },
                Ok(()),
            )
        }
    }

    /// The outcome of a header, where `latest_root` is the root of the latest
    /// header.
    pub open spec fn process_header(self, header: BlockHeader, latest_root: B256) -> (
        StateView,
        Result<(), StateError>,
    ) {
        match self.header_refusal(header, latest_root) {
            Some(error) => (self, Err(error)),
            None => self.accept_header(header),
        }
    }

    /// Whether a slot is justified. `None` when it lies beyond the list of
    /// justified slots.
    pub open spec fn slot_justified(self, slot: u64) -> Option<bool> {
        if slot <= self.latest_finalized.slot {
            Some(true)
        } else if slot - self.latest_finalized.slot - 1 < self.justified_slots.len() {
            Some(self.justified_slots[slot - self.latest_finalized.slot - 1])
        } else {
            None
        }
    }

    /// The state in which `target` is justified.
    pub open spec fn with_justified(self, target: Checkpoint) -> StateView {
        StateView {
            latest_justified: if target.slot > self.latest_justified.slot {
                target
            } else {
                self.latest_justified
            },
            justified_slots: self.justified_slots.update(
                target.slot - self.latest_finalized.slot - 1,
                true,
            ),
            ..self
        }
    }

    /// The state in which `source` is finalized. The list of justified slots
    /// then starts right after it.
    pub open spec fn with_finalized(self, source: Checkpoint) -> StateView {
        StateView {
            latest_finalized: source,
            justified_slots: self.justified_slots.skip(source.slot - self.latest_finalized.slot),
            ..self
        }
    }

    /// Whether a justified link from `source` to `target` finalizes `source`: no
    /// slot in between could have been justified.
    pub open spec fn link_finalizes(self, source: Checkpoint, target: Checkpoint) -> bool {
        &&& source.slot > self.latest_finalized.slot
        &&& forall|slot: u64|
            source.slot < slot < target.slot ==> !#[trigger] justifiable(
                slot,
                self.latest_finalized.slot,
            )
    }

    /// Why the pending votes cannot be read.
    pub open spec fn pending_refusal(self) -> Option<StateError> {
        let expected = self.justifications_roots.len() * self.validators.len();
        if self.justifications_roots.contains(ZERO_HASH) {
            Some(StateError::ZeroHashJustification)
        } else if self.justifications_validators.len() != expected {
            Some(
                StateError::JustificationVotesMismatch {
                    expected: expected as usize,
                    actual: self.justifications_validators.len() as usize,
                },
            )
        } else {
            None
        }
    }

    /// Why the attestations cannot be counted at all, where `data_roots` are the
    /// roots of what they attest to.
    pub open spec fn attestations_refusal(self, data_roots: Seq<B256>) -> Option<StateError> {
        let distinct = data_roots.to_set().len();
        if distinct > MAX_ATTESTATIONS_DATA {
            Some(StateError::TooManyAttestationData { distinct: distinct as usize })
        } else {
            self.pending_refusal()
        }
    }

    /// Whether there is a slot after the finalized one.
    pub open spec fn has_slot_after_finalized(self) -> bool {
        self.latest_finalized.slot < u64::MAX
    }

    /// Whether attestations are within what machine numbers allow, where
    /// `data_roots` are the roots of what they attest to: unless they are refused,
    /// there is a slot after the finalized one.
    pub open spec fn can_count(self, data_roots: Seq<B256>) -> bool {
        self.attestations_refusal(data_roots) is None ==> self.has_slot_after_finalized()
    }

    /// Whether a block is within what machine numbers allow: if its slot fits there
    /// is a proposer, and if its header is taken over its attestations can be
    /// counted.
    pub open spec fn can_take_block(self, block: Block) -> bool {
        let (accepted, outcome) = self.process_header(
            open_header(block, body_root(block.body@)),
            self.latest_block_header.root(),
        );
        self.slot_fits(block.slot) ==> {
            &&& self.validators.len() > 0
            &&& outcome is Ok ==> accepted.can_count(data_roots(block.body@))
        }
    }

    /// Whether a block whose slot may lie ahead is within what machine numbers
    /// allow.
    pub open spec fn can_transition(self, block: Block, valid_signatures: bool) -> bool {
        valid_signatures && self.slot < block.slot ==> self.at_slot(block.slot).can_take_block(
            block,
        )
    }

    /// The votes that were pending before the attestations.
    pub open spec fn tally(self) -> Tally {
        Tally {
            state: self,
            votes: pending_votes(
                self.justifications_roots,
                self.justifications_validators,
                self.validators.len(),
                self.justifications_roots.len(),
            ),
        }
    }

    /// The outcome of attestations, where `data_roots` are the roots of what
    /// they attest to.
    pub open spec fn process_attestations(
        self,
        attestations: Seq<AttestationView>,
        data_roots: Seq<B256>,
    ) -> (StateView, Result<(), StateError>) {
        match self.attestations_refusal(data_roots) {
            Some(error) => (self, Err(error)),
            None => match self.tally().count_all(
                self.latest_finalized.slot,
                attestations,
                attestations.len(),
            ) {
                Ok(tally) => tally.settled(),
                Err((state, error)) => (state, Err(error)),
            },
        }
    }

    /// The outcome of a block.
    pub open spec fn process_block(self, block: Block) -> (StateView, Result<(), StateError>) {
        let (accepted, outcome) = self.process_header(
            open_header(block, body_root(block.body@)),
            self.latest_block_header.root(),
        );
        match outcome {
            Err(error) => (accepted, Err(error)),
            Ok(_) => accepted.process_attestations(block.body@, data_roots(block.body@)),
        }
    }

    /// The outcome of a block whose slot may lie ahead.
    pub open spec fn state_transition(self, block: Block, valid_signatures: bool) -> (
        StateView,
        Result<(), StateError>,
    ) {
        if !valid_signatures {
            (self, Err(StateError::InvalidSignatures))
        } else if self.slot >= block.slot {
            self.process_slots(block.slot)
        } else {
            let (state, outcome) = self.at_slot(block.slot).process_block(block);
            match outcome {
                Err(error) => (state, Err(error)),
                Ok(_) => (state, state_root_check(block.state_root, state.root())),
            }
        }
    }
}

/// Whether a block commits to the state that it leads to.
pub open spec fn state_root_check(claimed: B256, actual: B256) -> Result<(), StateError> {
    if claimed == actual {
        Ok(())
    } else {
        Err(StateError::InvalidStateRoot)
    }
}

/// The roots of what the attestations attest to, one by one.
pub open spec fn data_roots(attestations: Seq<AttestationView>) -> Seq<B256> {
    attestations.map_values(|attestation: AttestationView| attestation.message.root())
}

/// A state while attestations are being counted, and the votes for each root
/// that is not justified yet.
#[verifier::ext_equal]
pub struct Tally {
    pub state: StateView,
    pub votes: Map<B256, Seq<bool>>,
}

impl Tally {
    /// The slot of a root in the part of the history after slot `base`.
    pub open spec fn slot_of(self, base: u64, root: B256) -> Option<int> {
        root_slot(
            self.state.historical_block_hashes,
            base + 1,
            self.state.historical_block_hashes.len() as int,
            root,
        )
    }

    /// The votes for a root so far.
    pub open spec fn votes_for(self, root: B256) -> Seq<bool> {
        if self.votes.contains_key(root) {
            self.votes[root]
        } else {
            no_bits(self.state.validators.len())
        }
    }

    /// Whether the attestation's target is still to be justified, may be, and
    /// lies ahead of its source on the chain.
    pub open spec fn is_candidate(self, data: AttestationData) -> bool {
        &&& matches_chain(self.state.historical_block_hashes, data)
        &&& data.target.slot > data.source.slot
        &&& justifiable(data.target.slot, self.state.latest_finalized.slot)
    }

    /// The votes of one attestation counted, where `base` is the slot that was
    /// finalized before the first attestation. An attestation that does not
    /// count leaves everything as it is.
    pub open spec fn count(self, base: u64, attestation: AttestationView) -> Result<
        Tally,
        (StateView, StateError),
    > {
        let source = attestation.message.source;
        let target = attestation.message.target;
        match self.state.slot_justified(source.slot) {
            None => Err(
                (self.state, StateError::JustifiedSlotOutOfRange { slot: source.slot }),
            ),
            Some(source_justified) => if source.root == ZERO_HASH || target.root == ZERO_HASH
                || !source_justified {
                Ok(self)
            } else {
                match self.state.slot_justified(target.slot) {
                    None => Err(
                        (self.state, StateError::JustifiedSlotOutOfRange { slot: target.slot }),
                    ),
                    Some(target_justified) => if target_justified || !self.is_candidate(
                        attestation.message,
                    ) {
                        Ok(self)
                    } else {
                        self.record(base, source, target, attestation.participants)
                    },
                }
            },
        }
    }

    /// The participants' votes for the target recorded.
    pub open spec fn record(
        self,
        base: u64,
        source: Checkpoint,
        target: Checkpoint,
        participants: Seq<bool>,
    ) -> Result<Tally, (StateView, StateError)> {
        let validators = self.state.validators.len();
        let votes = votes_joined(self.votes_for(target.root), participants);
        match first_set_from(participants, validators) {
            Some(validator_id) => Err(
                (
                    self.state,
                    StateError::ValidatorOutOfRange { validator_id: validator_id as usize },
                ),
            ),
            None => if is_supermajority(count_set(votes), validators) {
                Tally {
                    state: self.state.with_justified(target),
                    votes: self.votes.remove(target.root),
                }.finalize_by(base, source, target)
            } else {
                Ok(Tally { state: self.state, votes: self.votes.insert(target.root, votes) })
            },
        }
    }

    /// The source finalized, if the link that was just justified allows it.
    /// Votes for blocks up to the source are dropped.
    pub open spec fn finalize_by(self, base: u64, source: Checkpoint, target: Checkpoint) -> Result<
        Tally,
        (StateView, StateError),
    > {
        if !self.state.link_finalizes(source, target) {
            Ok(self)
        } else if !self.all_known(base) {
            Err((self.state, StateError::JustificationRootMissing))
        } else {
            Ok(
                Tally {
                    state: self.state.with_finalized(source),
                    votes: self.pruned_votes(base, source.slot),
                },
            )
        }
    }

    /// Whether each root with votes is in the part of the history after `base`.
    pub open spec fn all_known(self, base: u64) -> bool {
        forall|root: B256| #[trigger]
            self.votes.contains_key(root) ==> self.slot_of(base, root) is Some
    }

    /// Whether a root belongs to a block after the given slot.
    pub open spec fn is_after(self, base: u64, root: B256, slot: u64) -> bool {
        self.slot_of(base, root) matches Some(position) && position > slot
    }

    /// The votes for blocks after the given slot.
    pub open spec fn pruned_votes(self, base: u64, slot: u64) -> Map<B256, Seq<bool>> {
        Map::new(
            |root: B256| self.votes.contains_key(root) && self.is_after(base, root, slot),
            |root: B256| self.votes[root],
        )
    }

    /// The first `count` attestations counted one after the other, up to the
    /// first error.
    pub open spec fn count_all(
        self,
        base: u64,
        attestations: Seq<AttestationView>,
        count: nat,
    ) -> Result<Tally, (StateView, StateError)>
        decreases count,
    {
        if count == 0 {
            Ok(self)
        } else {
            match self.count_all(base, attestations, (count - 1) as nat) {
                Err(failure) => Err(failure),
                Ok(tally) => tally.count(base, attestations[count - 1]),
            }
        }
    }

    /// Counting stops at the first error.
    pub proof fn lemma_failure_stays(
        self,
        base: u64,
        attestations: Seq<AttestationView>,
        count: nat,
        more: nat,
    )
        requires
            count <= more,
            self.count_all(base, attestations, count) is Err,
        ensures
            self.count_all(base, attestations, more) == self.count_all(base, attestations, count),
        decreases more - count,
    {
        if count < more {
            self.lemma_failure_stays(base, attestations, count, (more - 1) as nat);
        }
    }

    /// The roots with votes, in the order of their bytes.
    pub open spec fn sorted_roots(self) -> Seq<B256> {
        self.votes.dom().to_sorted_seq(hash_order())
    }

    /// The state with the remaining votes written back.
    pub open spec fn settled(self) -> (StateView, Result<(), StateError>) {
        let roots = self.sorted_roots();
        if roots.len() > HISTORICAL_ROOTS_LIMIT {
            (self.state, Err(StateError::JustificationRootsFull))
        } else {
            (
                StateView {
                    justifications_roots: roots,
                    justifications_validators: flat_votes(roots, self.votes),
                    ..self.state
                },
                Ok(()),
            )
        }
    }
}

} // verus!
