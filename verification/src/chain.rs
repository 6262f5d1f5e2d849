//! Counting attestations: justification and finalization.

use crate::attestation::{attestation_views, AggregatedAttestation, AttestationData};
use crate::block::Block;
use crate::bytes::{contains_hash, is_zero_hash, same_hash, B256, ZERO_HASH};
use crate::checkpoint::Checkpoint;
use crate::collections::{
    attestation_list_slice, justified_bits, justified_get, justified_len, justified_set,
    justified_with_capacity, participants_to_vec, root_list_slice, validator_list_slice, vote_bits,
    votes_count, votes_get, votes_set, votes_to_vec, votes_with_capacity, HISTORICAL_ROOTS_LIMIT,
    VALIDATOR_REGISTRY_LIMIT,
};
use crate::error::StateError;
use crate::model::{StateView, Tally, MAX_ATTESTATIONS_DATA};
use crate::slot::{is_justifiable_after, justified_index_after};
use crate::state::{list_position, LeanState};
use crate::votes::VoteTable;
use vstd::prelude::*;

verus! {

/// Whether the chain has the checkpoint's block at the checkpoint's slot.
fn is_on_chain(historical_block_hashes: &[B256], checkpoint: &Checkpoint) -> (found: bool)
    ensures
        found == crate::model::on_chain(historical_block_hashes@, *checkpoint),
{
    if is_zero_hash(&checkpoint.root) {
        return false;
    }
    let position = list_position(checkpoint.slot);
    position < historical_block_hashes.len() && same_hash(
        &historical_block_hashes[position],
        &checkpoint.root,
    )
}

/// Whether the source, the target and the head of an attestation are blocks of
/// the chain. The zero hash is no block.
pub fn attestation_data_matches_chain(
    historical_block_hashes: &[B256],
    attestation_data: AttestationData,
) -> (matches: Result<bool, StateError>)
    ensures
        matches == Ok::<bool, StateError>(
            crate::model::matches_chain(historical_block_hashes@, attestation_data),
        ),
{
    Ok(
        is_on_chain(historical_block_hashes, &attestation_data.source) && is_on_chain(
            historical_block_hashes,
            &attestation_data.target,
        ) && is_on_chain(historical_block_hashes, &attestation_data.head),
    )
}

/// The number of different hashes in a list.
fn count_distinct(hashes: &[B256]) -> (distinct: usize)
    ensures
        distinct == hashes@.to_set().len(),
{
    let mut seen: Vec<B256> = Vec::new();
    let mut i: usize = 0;
    assert(hashes@.take(0).to_set() =~= Set::empty());
    assert(seen@.to_set() =~= Set::empty());
    while i < hashes.len()
        invariant
            i <= hashes@.len(),
            seen@.no_duplicates(),
            seen@.to_set() == hashes@.take(i as int).to_set(),
        decreases hashes@.len() - i,
    {
        let hash = hashes[i];
        let ghost before = seen@;
        assert(hashes@.take(i + 1) =~= hashes@.take(i as int).push(hash));
        proof {
            hashes@.take(i as int).lemma_push_to_set_commute(hash);
            before.lemma_push_to_set_commute(hash);
        }
        if !contains_hash(&seen, &hash) {
            seen.push(hash);
        } else {
            assert(before.to_set().contains(hash));
            assert(before.to_set().insert(hash) =~= before.to_set());
        }
        i += 1;
    }
    assert(hashes@.take(i as int) =~= hashes@);
    proof {
        seen@.unique_seq_to_set();
    }
    seen.len()
}

impl LeanState {
    /// Whether a slot is justified.
    fn is_slot_justified(&self, slot: u64) -> (justified: Result<bool, StateError>)
        ensures
            match self@.slot_justified(slot) {
                Some(value) => justified == Ok::<bool, StateError>(value),
                None => justified == Err::<bool, StateError>(
                    StateError::JustifiedSlotOutOfRange { slot },
                ),
            },
    {
        match justified_index_after(slot, self.latest_finalized.slot) {
            None => Ok(true),
            Some(index) => {
                let _length = justified_len(&self.justified_slots);
                match justified_get(&self.justified_slots, list_position(index)) {
                    Ok(value) => Ok(value),
                    Err(_) => Err(StateError::JustifiedSlotOutOfRange { slot }),
                }
            },
        }
    }

    /// Whether no slot between `source` and `target` may be justified, and the
    /// source lies after the finalized slot.
    fn is_link_finalizing(&self, source: &Checkpoint, target: &Checkpoint) -> (finalizing: bool)
        requires
            source.slot < target.slot,
        ensures
            finalizing == self@.link_finalizes(*source, *target),
    {
        if source.slot <= self.latest_finalized.slot {
            return false;
        }
        let mut slot: u64 = source.slot + 1;
        while slot < target.slot
            invariant
                source.slot < slot <= target.slot,
                forall|earlier: u64|
                    source.slot < earlier < slot ==> !#[trigger] crate::slot::justifiable(
                        earlier,
                        self.latest_finalized.slot,
                    ),
            decreases target.slot - slot,
        {
            if is_justifiable_after(slot, self.latest_finalized.slot) {
                return false;
            }
            slot += 1;
        }
        true
    }

    /// Marks `target` as justified.
    fn justify(&mut self, target: &Checkpoint)
        requires
            old(self)@.slot_justified(target.slot) == Some(false),
        ensures
            final(self)@ == old(self)@.with_justified(*target),
    {
        // Attestations come in any order: one for an earlier target must not
        // drag the latest justified checkpoint backwards.
        if target.slot > self.latest_justified.slot {
            self.latest_justified = *target;
        }
        if let Some(index) = justified_index_after(target.slot, self.latest_finalized.slot) {
            let _length = justified_len(&self.justified_slots);
            let _done = justified_set(&mut self.justified_slots, list_position(index), true);
        }
        assert(self@ =~= old(self)@.with_justified(*target));
    }

    /// Marks `source` as finalized.
    fn finalize(&mut self, source: &Checkpoint)
        requires
            source.slot > old(self).latest_finalized.slot,
            old(self)@.slot_justified(source.slot) is Some,
        ensures
            final(self)@ == old(self)@.with_finalized(*source),
    {
        let length: usize = justified_len(&self.justified_slots);
        let delta: usize = (source.slot - self.latest_finalized.slot) as usize;
        let mut shifted = match justified_with_capacity(length - delta) {
            Ok(bits) => bits,
            Err(_) => vstd::pervasive::unreached(),
        };
        let ghost bits = self@.justified_slots;
        let mut index: usize = delta;
        while index < length
            invariant
                delta <= index <= length,
                length == bits.len(),
                bits == justified_bits(self.justified_slots),
                justified_bits(shifted).len() == length - delta,
                forall|j: int|
                    0 <= j < length - delta ==> #[trigger] justified_bits(shifted)[j] == (j + delta
                        < index && bits[j + delta]),
            decreases length - index,
        {
            match justified_get(&self.justified_slots, index) {
                Ok(value) => {
                    if value {
                        let _done = justified_set(&mut shifted, index - delta, true);
                    }
                },
                Err(_) => {},
            }
            index += 1;
        }
        self.justified_slots = shifted;
        self.latest_finalized = *source;
        assert(self@.justified_slots =~= bits.skip(delta as int));
        assert(self@ =~= old(self)@.with_finalized(*source));
    }

    /// Counts the votes of one attestation, where `base` is the slot that was
    /// finalized before the first attestation.
    fn count_attestation(
        &mut self,
        table: &mut VoteTable,
        base: u64,
        attestation: &AggregatedAttestation,
    ) -> (outcome: Result<(), StateError>)
        requires
            old(table).wf(),
            old(table).electorate() == old(self)@.validators.len(),
        ensures
            match (Tally { state: old(self)@, votes: old(table)@ }).count(base, attestation@) {
                Ok(tally) => {
                    &&& outcome is Ok
                    &&& final(self)@ == tally.state
                    &&& final(table)@ == tally.votes
                    &&& final(table).wf()
                    &&& final(table).electorate() == final(self)@.validators.len()
                },
                Err((state, error)) => {
                    &&& outcome == Err::<(), StateError>(error)
                    &&& final(self)@ == state
                },
            },
    {
        let source = attestation.source();
        let target = attestation.target();
        let source_justified = match self.is_slot_justified(source.slot) {
            Ok(justified) => justified,
            Err(error) => {
                return Err(error);
            },
        };
        if is_zero_hash(&source.root) || is_zero_hash(&target.root) {
            return Ok(());
        }
        if !source_justified {
            return Ok(());
        }
        let target_justified = match self.is_slot_justified(target.slot) {
            Ok(justified) => justified,
            Err(error) => {
                return Err(error);
            },
        };
        if target_justified {
            return Ok(());
        }
        match attestation_data_matches_chain(
            root_list_slice(&self.historical_block_hashes),
            attestation.message,
        ) {
            Ok(on_chain) => {
                if !on_chain {
                    return Ok(());
                }
            },
            Err(error) => {
                return Err(error);
            },
        }
        if target.slot <= source.slot {
            return Ok(());
        }
        if !is_justifiable_after(target.slot, self.latest_finalized.slot) {
            return Ok(());
        }
        self.record_attestation(table, base, attestation)
    }

    /// Records the votes of an attestation that counts, justifies its target when
    /// two thirds of the validators have voted for it, and finalizes its source
    /// when the link allows it.
    fn record_attestation(
        &mut self,
        table: &mut VoteTable,
        base: u64,
        attestation: &AggregatedAttestation,
    ) -> (outcome: Result<(), StateError>)
        requires
            old(table).wf(),
            old(table).electorate() == old(self)@.validators.len(),
            old(self)@.slot_justified(attestation@.message.source.slot) is Some,
            old(self)@.slot_justified(attestation@.message.target.slot) == Some(false),
            attestation@.message.source.slot < attestation@.message.target.slot,
        ensures
            match (Tally { state: old(self)@, votes: old(table)@ }).record(
                base,
                attestation@.message.source,
                attestation@.message.target,
                attestation@.participants,
            ) {
                Ok(tally) => {
                    &&& outcome is Ok
                    &&& final(self)@ == tally.state
                    &&& final(table)@ == tally.votes
                    &&& final(table).wf()
                    &&& final(table).electorate() == final(self)@.validators.len()
                },
                Err((state, error)) => {
                    &&& outcome == Err::<(), StateError>(error)
                    &&& final(self)@ == state
                },
            },
    {
        let ghost start = Tally { state: self@, votes: table@ };
        let source = attestation.source();
        let target = attestation.target();
        let validators: usize = validator_list_slice(&self.validators).len();
        proof {
            table.lemma_contents();
        }
        let mut votes = match table.take(&target.root) {
            Some(votes) => votes,
            None => match votes_with_capacity(validators) {
                Ok(votes) => votes,
                Err(_) => vstd::pervasive::unreached(),
            },
        };
        assert(vote_bits(votes) == start.votes_for(target.root));
        let participants = participants_to_vec(&attestation.aggregation_bits);
        match add_votes(&mut votes, &participants) {
            Ok(_) => {},
            Err(error) => {
                return Err(error);
            },
        }
        proof {
            crate::collections::lemma_count_set_bound(vote_bits(votes));
        }
        let count: usize = votes_count(&votes);
        if 3 * count < 2 * validators {
            table.insert(target.root, votes);
            assert(table@ =~= start.votes.insert(target.root, vote_bits(votes)));
            return Ok(());
        }
        self.justify(&target);
        let ghost justified = Tally { state: self@, votes: table@ };
        if self.is_link_finalizing(&source, &target) {
            let history = root_list_slice(&self.historical_block_hashes);
            if !table.all_known(history, base) {
                return Err(StateError::JustificationRootMissing);
            }
            table.prune(history, base, source.slot);
            assert(table@ =~= justified.pruned_votes(base, source.slot));
            self.finalize(&source);
        }
        Ok(())
    }

    /// The votes for pending justifications in one list, if they are one per root
    /// and validator and none of them is for the zero hash.
    fn read_pending(&self) -> (votes: Result<Vec<bool>, StateError>)
        ensures
            match votes {
                Ok(votes) => {
                    &&& self@.pending_refusal() is None
                    &&& votes@ == self@.justifications_validators
                },
                Err(error) => self@.pending_refusal() == Some(error),
            },
    {
        let validators: usize = validator_list_slice(&self.validators).len();
        let roots = root_list_slice(&self.justifications_roots);
        if contains_hash(roots, &ZERO_HASH) {
            return Err(StateError::ZeroHashJustification);
        }
        assert(roots@.len() * validators <= HISTORICAL_ROOTS_LIMIT * VALIDATOR_REGISTRY_LIMIT)
            by (nonlinear_arith)
            requires
                roots@.len() <= HISTORICAL_ROOTS_LIMIT,
                validators <= VALIDATOR_REGISTRY_LIMIT,
        ;
        let expected: usize = roots.len() * validators;
        let votes = votes_to_vec(&self.justifications_validators);
        let actual: usize = votes.len();
        if actual != expected {
            return Err(StateError::JustificationVotesMismatch { expected, actual });
        }
        Ok(votes)
    }

    /// Counts attestations, where `data_roots` are the roots of what they attest
    /// to.
    pub fn process_attestations_with_data_roots(
        &mut self,
        attestations: &[AggregatedAttestation],
        data_roots: &[B256],
    ) -> (outcome: Result<(), StateError>)
        requires
            old(self)@.can_count(data_roots@),
        ensures
            (final(self)@, outcome) == old(self)@.process_attestations(
                attestation_views(attestations@),
                data_roots@,
            ),
    {
        let distinct: usize = count_distinct(data_roots);
        if distinct as u64 > MAX_ATTESTATIONS_DATA {
            return Err(StateError::TooManyAttestationData { distinct });
        }
        let flat = match self.read_pending() {
            Ok(flat) => flat,
            Err(error) => {
                return Err(error);
            },
        };
        let validators: usize = validator_list_slice(&self.validators).len();
        let roots = root_list_slice(&self.justifications_roots);
        let mut table = VoteTable::load(roots, &flat, validators);
        let base: u64 = self.latest_finalized.slot;
        let ghost start = self@.tally();
        let ghost views = attestation_views(attestations@);
        let mut i: usize = 0;
        while i < attestations.len()
            invariant
                i <= attestations@.len(),
                views == attestation_views(attestations@),
                table.wf(),
                table.electorate() == self@.validators.len(),
                start.count_all(base, views, i as nat) == Ok::<Tally, (StateView, StateError)>(
                    Tally { state: self@, votes: table@ },
                ),
                start == old(self)@.tally(),
                base == old(self)@.latest_finalized.slot,
                old(self)@.attestations_refusal(data_roots@) is None,
            decreases attestations@.len() - i,
        {
            assert(views[i as int] == attestations@[i as int]@);
            match self.count_attestation(&mut table, base, &attestations[i]) {
                Ok(_) => {},
                Err(error) => {
                    proof {
                        start.lemma_failure_stays(base, views, (i + 1) as nat, views.len());
                    }
                    return Err(error);
                },
            }
            i += 1;
        }
        let ghost counted = Tally { state: self@, votes: table@ };
        match table.store() {
            Ok((roots, votes)) => {
                self.justifications_roots = roots;
                self.justifications_validators = votes;
                assert(self@ =~= counted.settled().0);
                Ok(())
            },
            Err(error) => Err(error),
        }
    }

    /// Counts attestations.
    pub fn process_attestations(&mut self, attestations: &[AggregatedAttestation]) -> (outcome:
        Result<(), StateError>)
        requires
            old(self)@.can_count(crate::model::data_roots(attestation_views(attestations@))),
        ensures
            (final(self)@, outcome) == old(self)@.process_attestations(
                attestation_views(attestations@),
                crate::model::data_roots(attestation_views(attestations@)),
            ),
    {
        let data_roots = attestation_data_roots(attestations);
        self.process_attestations_with_data_roots(attestations, &data_roots)
    }

    /// Takes over a block for the current slot.
    pub fn process_block(&mut self, block: &Block) -> (outcome: Result<(), StateError>)
        requires
            old(self)@.can_take_block(*block),
        ensures
            (final(self)@, outcome) == old(self)@.process_block(*block),
    {
        match self.process_block_header(block) {
            Ok(_) => {},
            Err(error) => {
                return Err(error);
            },
        }
        self.process_attestations(attestation_list_slice(&block.body.attestations))
    }

    /// Advances to the slot of a block and takes the block over, if its signatures
    /// check and it commits to the resulting state.
    pub fn state_transition(&mut self, block: &Block, valid_signatures: bool) -> (outcome: Result<
        (),
        StateError,
    >)
        requires
            old(self)@.can_transition(*block, valid_signatures),
        ensures
            (final(self)@, outcome) == old(self)@.state_transition(*block, valid_signatures),
    {
        if !valid_signatures {
            return Err(StateError::InvalidSignatures);
        }
        match self.process_slots(block.slot) {
            Ok(_) => {},
            Err(error) => {
                return Err(error);
            },
        }
        match self.process_block(block) {
            Ok(_) => {},
            Err(error) => {
                return Err(error);
            },
        }
        check_state_root(&block.state_root, &self.tree_hash_root())
    }
}

impl LeanState {
    /// Whether attestations are within what machine numbers allow.
    pub fn can_count_attestations(&self, attestations: &[AggregatedAttestation]) -> (possible: bool)
        ensures
            possible == self@.can_count(
                crate::model::data_roots(attestation_views(attestations@)),
            ),
    {
        if self.latest_finalized.slot < u64::MAX {
            return true;
        }
        let data_roots = attestation_data_roots(attestations);
        if count_distinct(&data_roots) as u64 > MAX_ATTESTATIONS_DATA {
            return true;
        }
        self.read_pending().is_err()
    }

    /// Whether a block for the current slot is within what machine numbers allow.
    pub fn can_take_block(&self, block: &Block) -> (possible: bool)
        ensures
            possible == self@.can_take_block(*block),
    {
        if block.slot != self.slot || block.slot <= self.latest_block_header.slot {
            return true;
        }
        if validator_list_slice(&self.validators).len() == 0 {
            return false;
        }
        if self.latest_finalized.slot < u64::MAX {
            return true;
        }
        let mut accepted = self.clone();
        match accepted.process_block_header(block) {
            Ok(_) => accepted.can_count_attestations(
                attestation_list_slice(&block.body.attestations),
            ),
            Err(_) => true,
        }
    }

    /// Whether a block whose slot may lie ahead is within what machine numbers
    /// allow.
    pub fn can_transition(&self, block: &Block, valid_signatures: bool) -> (possible: bool)
        ensures
            possible == self@.can_transition(*block, valid_signatures),
    {
        if !valid_signatures || self.slot >= block.slot {
            return true;
        }
        proof {
            self@.lemma_at_slot(block.slot);
        }
        if validator_list_slice(&self.validators).len() > 0 && self.latest_finalized.slot
            < u64::MAX {
            return true;
        }
        let mut ahead = self.clone();
        let _advanced = ahead.process_slots(block.slot);
        ahead.can_take_block(block)
    }

    /// Counts attestations, if they are within what machine numbers allow; if not,
    /// nothing changes.
    pub fn checked_process_attestations(&mut self, attestations: &[AggregatedAttestation]) -> (
    outcome: Option<Result<(), StateError>>)
        ensures
            ({
                let views = attestation_views(attestations@);
                let data_roots = crate::model::data_roots(views);
                match outcome {
                    Some(outcome) => {
                        &&& old(self)@.can_count(data_roots)
                        &&& (final(self)@, outcome) == old(self)@.process_attestations(
                            views,
                            data_roots,
                        )
                    },
                    None => !old(self)@.can_count(data_roots) && final(self)@ == old(self)@,
                }
            }),
    {
        if self.can_count_attestations(attestations) {
            Some(self.process_attestations(attestations))
        } else {
            None
        }
    }

    /// Takes over a block for the current slot, if it is within what machine numbers
    /// allow; if not, nothing changes.
    pub fn checked_process_block(&mut self, block: &Block) -> (outcome: Option<
        Result<(), StateError>,
    >)
        ensures
            match outcome {
                Some(outcome) => {
                    &&& old(self)@.can_take_block(*block)
                    &&& (final(self)@, outcome) == old(self)@.process_block(*block)
                },
                None => !old(self)@.can_take_block(*block) && final(self)@ == old(self)@,
            },
    {
        if self.can_take_block(block) {
            Some(self.process_block(block))
        } else {
            None
        }
    }

    /// Advances to the slot of a block and takes the block over, if that is within
    /// what machine numbers allow; if not, nothing changes.
    pub fn checked_state_transition(&mut self, block: &Block, valid_signatures: bool) -> (outcome:
        Option<Result<(), StateError>>)
        ensures
            match outcome {
                Some(outcome) => {
                    &&& old(self)@.can_transition(*block, valid_signatures)
                    &&& (final(self)@, outcome) == old(self)@.state_transition(
                        *block,
                        valid_signatures,
                    )
                },
                None => {
                    &&& !old(self)@.can_transition(*block, valid_signatures)
                    &&& final(self)@ == old(self)@
                },
            },
    {
        if self.can_transition(block, valid_signatures) {
            Some(self.state_transition(block, valid_signatures))
        } else {
            None
        }
    }
}

/// Whether a block commits to the state that it leads to.
pub fn check_state_root(claimed: &B256, actual: &B256) -> (outcome: Result<(), StateError>)
    ensures
        outcome == crate::model::state_root_check(*claimed, *actual),
{
    if same_hash(claimed, actual) {
        Ok(())
    } else {
        Err(StateError::InvalidStateRoot)
    }
}

/// The roots of what the attestations attest to.
fn attestation_data_roots(attestations: &[AggregatedAttestation]) -> (roots: Vec<B256>)
    ensures
        roots@ == crate::model::data_roots(attestation_views(attestations@)),
{
    let ghost all = crate::model::data_roots(attestation_views(attestations@));
    let mut roots: Vec<B256> = Vec::new();
    let mut i: usize = 0;
    while i < attestations.len()
        invariant
            i <= attestations@.len(),
            all == crate::model::data_roots(attestation_views(attestations@)),
            roots@ == all.take(i as int),
        decreases attestations@.len() - i,
    {
        roots.push(attestations[i].message.tree_hash_root());
        assert(all.take(i + 1) =~= all.take(i as int).push(all[i as int]));
        i += 1;
    }
    assert(all.take(i as int) =~= all);
    roots
}

/// Adds the votes of the participants, each of whom has to be a validator.
fn add_votes(
    votes: &mut ssz_types::BitList<ssz_types::typenum::U1073741824>,
    participants: &[bool],
) -> (outcome: Result<(), StateError>)
    ensures
        match crate::model::first_set_from(participants@, vote_bits(*old(votes)).len()) {
            Some(validator_id) => outcome == Err::<(), StateError>(
                StateError::ValidatorOutOfRange { validator_id: validator_id as usize },
            ),
            None => outcome is Ok && vote_bits(*final(votes)) == crate::model::votes_joined(
                vote_bits(*old(votes)),
                participants@,
            ),
        },
{
    let ghost before = vote_bits(*votes);
    let ghost validators = before.len();
    let mut i: usize = 0;
    while i < participants.len()
        invariant
            i <= participants@.len(),
            before == vote_bits(*old(votes)),
            validators == before.len(),
            vote_bits(*votes).len() == validators,
            forall|j: int|
                0 <= j < validators ==> #[trigger] vote_bits(*votes)[j] == (before[j] || (j < i
                    && participants@[j])),
            crate::model::first_set_from(participants@, validators)
                == crate::model::first_set_from(
                participants@,
                if i < validators {
                    validators
                } else {
                    i as nat
                },
            ),
        decreases participants@.len() - i,
    {
        if participants[i] {
            let counted = match votes_get(votes, i) {
                Ok(vote) => vote,
                Err(_) => false,
            };
            if !counted {
                match votes_set(votes, i, true) {
                    Ok(_) => {},
                    Err(_) => {
                        return Err(StateError::ValidatorOutOfRange { validator_id: i });
                    },
                }
            }
        }
        i += 1;
    }
    assert(vote_bits(*votes) =~= crate::model::votes_joined(before, participants@));
    Ok(())
}

} // verus!
