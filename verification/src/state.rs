//! The chain state and its transitions.

use crate::block::{Block, BlockBody, BlockHeader};
use crate::bytes::{is_zero_hash, same_hash, B256, ZERO_HASH};
use crate::checkpoint::Checkpoint;
use crate::collections::{
    justified_bits, justified_clone, justified_len, justified_union, justified_with_capacity,
    root_list, root_list_clone, root_list_empty, root_list_push, validator_list, validator_list_new,
    validator_list_slice, vote_bits, votes_clone, votes_with_capacity, HISTORICAL_ROOTS_LIMIT,
    VALIDATOR_REGISTRY_LIMIT,
};
use crate::config::Config;
use crate::error::StateError;
use crate::hashing::{
    append, justified_tree_hash_root, merkle_root, mix_in_length, root_list_tree_hash_root,
    u64_tree_hash_root, votes_tree_hash_root,
};
use crate::model::StateView;
use crate::slot::justified_index_after;
use crate::validator::{is_proposer, Validator};
use ssz_types::typenum::{U1073741824, U262144, U4096};
use ssz_types::{BitList, VariableList};
use vstd::prelude::*;

verus! {

/// The state of a chain.
#[derive(Debug, PartialEq, Eq)]
pub struct LeanState {
    pub config: Config,
    pub slot: u64,
    pub latest_block_header: BlockHeader,
    pub latest_justified: Checkpoint,
    pub latest_finalized: Checkpoint,
    pub historical_block_hashes: VariableList<B256, U262144>,
    pub justified_slots: BitList<U262144>,
    pub validators: VariableList<Validator, U4096>,
    pub justifications_roots: VariableList<B256, U262144>,
    pub justifications_validators: BitList<U1073741824>,
}

impl View for LeanState {
    type V = StateView;

    open spec fn view(&self) -> StateView {
        StateView {
            config: self.config,
            slot: self.slot,
            latest_block_header: self.latest_block_header,
            latest_justified: self.latest_justified,
            latest_finalized: self.latest_finalized,
            historical_block_hashes: root_list(self.historical_block_hashes),
            justified_slots: justified_bits(self.justified_slots),
            validators: validator_list(self.validators),
            justifications_roots: root_list(self.justifications_roots),
            justifications_validators: vote_bits(self.justifications_validators),
        }
    }
}

/// A list position that stands for `value`. A value that is too large for a
/// position lies beyond every list, and so does what is returned for it.
pub(crate) fn list_position(value: u64) -> (position: usize)
    ensures
        position == if value <= usize::MAX {
            value as usize
        } else {
            usize::MAX
        },
{
    if value <= usize::MAX as u64 {
        value as usize
    } else {
        usize::MAX
    }
}

/// A copy of a list of validators.
fn copy_validators(list: &VariableList<Validator, U4096>) -> (copy: VariableList<Validator, U4096>)
    ensures
        validator_list(copy) == validator_list(*list),
{
    let validators = validator_list_slice(list);
    let mut copies: Vec<Validator> = Vec::new();
    let mut i: usize = 0;
    while i < validators.len()
        invariant
            i <= validators@.len() <= VALIDATOR_REGISTRY_LIMIT,
            copies@ == validators@.take(i as int),
        decreases validators@.len() - i,
    {
        copies.push(validators[i]);
        assert(validators@.take(i + 1) =~= validators@.take(i as int).push(validators@[i as int]));
        i += 1;
    }
    assert(validators@.take(i as int) =~= validators@);
    match validator_list_new(copies) {
        Ok(copy) => copy,
        Err(_) => vstd::pervasive::unreached(),
    }
}

impl Clone for LeanState {
    fn clone(&self) -> (copy: Self)
        ensures
            copy@ == self@,
    {
        LeanState {
            config: self.config,
            slot: self.slot,
            latest_block_header: self.latest_block_header,
            latest_justified: self.latest_justified,
            latest_finalized: self.latest_finalized,
            historical_block_hashes: root_list_clone(&self.historical_block_hashes),
            justified_slots: justified_clone(&self.justified_slots),
            validators: copy_validators(&self.validators),
            justifications_roots: root_list_clone(&self.justifications_roots),
            justifications_validators: votes_clone(&self.justifications_validators),
        }
    }
}

impl LeanState {
    /// The state that a chain starts with.
    pub fn generate_genesis(genesis_time: u64, validators: Option<Vec<Validator>>) -> (state:
        LeanState)
        requires
            validators matches Some(validators) ==> validators@.len() <= VALIDATOR_REGISTRY_LIMIT,
        ensures
            state@ == crate::model::genesis(
                genesis_time,
                match validators {
                    Some(validators) => validators@,
                    None => Seq::empty(),
                },
            ),
    {
        let registry: Vec<Validator> = match validators {
            Some(validators) => validators,
            None => Vec::new(),
        };
        let validators = match validator_list_new(registry) {
            Ok(validators) => validators,
            Err(_) => vstd::pervasive::unreached(),
        };
        let justified_slots = match justified_with_capacity(0) {
            Ok(bits) => bits,
            Err(_) => vstd::pervasive::unreached(),
        };
        let justifications_validators = match votes_with_capacity(0) {
            Ok(bits) => bits,
            Err(_) => vstd::pervasive::unreached(),
        };
        let state = LeanState {
            config: Config { genesis_time },
            slot: 0,
            latest_block_header: BlockHeader {
                slot: 0,
                proposer_index: 0,
                parent_root: ZERO_HASH,
                state_root: ZERO_HASH,
                body_root: BlockBody::default().tree_hash_root(),
            },
            latest_justified: Checkpoint::default(),
            latest_finalized: Checkpoint::default(),
            historical_block_hashes: root_list_empty(),
            justified_slots,
            validators,
            justifications_roots: root_list_empty(),
            justifications_validators,
        };
        assert(state@.justified_slots =~= Seq::empty());
        assert(state@.justifications_validators =~= Seq::empty());
        state
    }

    /// The root of the validator registry.
    fn validators_root(&self) -> (root: B256)
        ensures
            root == crate::hashing::list_root(
                crate::model::validator_roots(self@.validators),
                VALIDATOR_REGISTRY_LIMIT,
            ),
    {
        let validators = validator_list_slice(&self.validators);
        let ghost roots = crate::model::validator_roots(self@.validators);
        let mut leaves: Vec<u8> = Vec::new();
        let mut i: usize = 0;
        assert(roots.take(0) =~= Seq::empty());
        while i < validators.len()
            invariant
                i <= validators@.len() <= VALIDATOR_REGISTRY_LIMIT,
                validators@ == self@.validators,
                roots == crate::model::validator_roots(self@.validators),
                leaves@ == crate::hashing::joined(roots.take(i as int)),
                leaves@.len() == 32 * i,
            decreases validators@.len() - i,
        {
            let root = validators[i].tree_hash_root();
            append(&mut leaves, &root);
            proof {
                assert(roots.take(i + 1).drop_last() =~= roots.take(i as int));
                assert(roots.take(i + 1).last() == root);
            }
            i += 1;
        }
        assert(roots.take(i as int) =~= roots);
        mix_in_length(&merkle_root(&leaves, VALIDATOR_REGISTRY_LIMIT), validators.len())
    }

    /// The hash tree root of the state.
    pub fn tree_hash_root(&self) -> (root: B256)
        ensures
            root == self@.root(),
    {
        let mut leaves: Vec<u8> = Vec::new();
        append(&mut leaves, &self.config.tree_hash_root());
        append(&mut leaves, &u64_tree_hash_root(self.slot));
        append(&mut leaves, &self.latest_block_header.tree_hash_root());
        append(&mut leaves, &self.latest_justified.tree_hash_root());
        append(&mut leaves, &self.latest_finalized.tree_hash_root());
        append(&mut leaves, &root_list_tree_hash_root(&self.historical_block_hashes));
        append(&mut leaves, &justified_tree_hash_root(&self.justified_slots));
        append(&mut leaves, &self.validators_root());
        append(&mut leaves, &root_list_tree_hash_root(&self.justifications_roots));
        append(&mut leaves, &votes_tree_hash_root(&self.justifications_validators));
        proof {
            let s = self@;
            assert(leaves@ =~= s.config.root()@ + crate::hashing::u64_leaf(s.slot)
                + s.latest_block_header.root()@ + s.latest_justified.tree_root()@
                + s.latest_finalized.tree_root()@ + crate::hashing::root_list_root(
                s.historical_block_hashes,
            )@ + crate::hashing::justified_slots_root(s.justified_slots)@
                + crate::hashing::list_root(
                crate::model::validator_roots(s.validators),
                VALIDATOR_REGISTRY_LIMIT,
            )@ + crate::hashing::root_list_root(s.justifications_roots)@
                + crate::hashing::votes_root(s.justifications_validators)@);
        }
        merkle_root(&leaves, 10)
    }

    /// Begins the next slot, where `state_root` is the root of the state so far.
    /// It goes into the latest header if that has none yet.
    pub fn begin_next_slot(&mut self, state_root: B256)
        requires
            old(self).slot < u64::MAX,
        ensures
            final(self)@ == old(self)@.next_slot(state_root),
    {
        if is_zero_hash(&self.latest_block_header.state_root) {
            self.latest_block_header.state_root = state_root;
        }
        self.slot += 1;
    }

    /// Advances over empty slots to `target_slot`, which has to lie ahead.
    pub fn process_slots(&mut self, target_slot: u64) -> (outcome: Result<(), StateError>)
        ensures
            (final(self)@, outcome) == old(self)@.process_slots(target_slot),
    {
        if self.slot >= target_slot {
            return Err(
                StateError::TargetSlotNotInFuture { current: self.slot, target: target_slot },
            );
        }
        while self.slot < target_slot
            invariant
                self.slot <= target_slot,
                self@.at_slot(target_slot) == old(self)@.at_slot(target_slot),
            decreases target_slot - self.slot,
        {
            let state_root = if is_zero_hash(&self.latest_block_header.state_root) {
                self.tree_hash_root()
            } else {
                ZERO_HASH
            };
            assert(self@.next_slot(state_root) == self@.next_slot(self@.root()));
            self.begin_next_slot(state_root);
        }
        Ok(())
    }

    /// Whether it is the turn of a validator to propose at the current slot.
    fn is_proposer(&self, validator_index: u64) -> (turn: bool)
        requires
            self@.validators.len() > 0,
        ensures
            turn == crate::validator::proposes_at(
                validator_index,
                self.slot,
                self@.validators.len(),
            ),
    {
        is_proposer(validator_index, self.slot, validator_list_slice(&self.validators).len() as u64)
    }

    /// Checks the header of a block against the state and takes it over, where
    /// `latest_root` is the root of the latest header and `body_root` that of
    /// the block's body.
    pub fn process_block_header_with_roots(
        &mut self,
        block: &Block,
        latest_root: &B256,
        body_root: B256,
    ) -> (outcome: Result<(), StateError>)
        requires
            old(self)@.slot_fits(block.slot) ==> old(self)@.validators.len() > 0,
        ensures
            (final(self)@, outcome) == old(self)@.process_header(
                crate::model::open_header(*block, body_root),
                *latest_root,
            ),
    {
        // The block must be for the current slot.
        if block.slot != self.slot {
            return Err(StateError::BlockSlotMismatch);
        }
        // The block must be newer than the latest header.
        if block.slot <= self.latest_block_header.slot {
            return Err(StateError::BlockSlotNotNewer);
        }
        // The proposer must be the expected validator for this slot.
        if !self.is_proposer(block.proposer_index) {
            return Err(StateError::WrongProposer);
        }
        // The declared parent must be the latest header.
        if !same_hash(&block.parent_root, latest_root) {
            return Err(StateError::ParentRootMismatch);
        }
        self.accept_block_header(block, body_root)
    }

    /// Takes over the header of a block that follows the latest header.
    fn accept_block_header(&mut self, block: &Block, body_root: B256) -> (outcome: Result<
        (),
        StateError,
    >)
        requires
            block.slot > old(self).latest_block_header.slot,
        ensures
            (final(self)@, outcome) == old(self)@.accept_header(
                crate::model::open_header(*block, body_root),
            ),
    {
        let ghost before = self@;
        let ghost header = crate::model::open_header(*block, body_root);
        // The parent of the first block is the genesis block, which counts as
        // justified and finalized.
        if self.latest_block_header.slot == 0 {
            self.latest_justified.root = block.parent_root;
            self.latest_finalized.root = block.parent_root;
        }
        assert(self@ =~= before.with_anchor(block.parent_root));

        // The parent goes to the position of its slot, and each empty slot after
        // it gets a zero hash.
        match root_list_push(&mut self.historical_block_hashes, block.parent_root) {
            Ok(_) => {},
            Err(_) => {
                assert(self@ =~= before.with_anchor(block.parent_root));
                return Err(StateError::HistoryFull);
            },
        }
        let num_empty_slots: u64 = block.slot - self.latest_block_header.slot - 1;
        match self.prefill_history(num_empty_slots) {
            Ok(_) => {},
            Err(error) => {
                proof {
                    let full = before.historical_block_hashes.push(block.parent_root)
                        + crate::model::zero_hashes(num_empty_slots as nat);
                    assert(self@.historical_block_hashes =~= full.take(
                        HISTORICAL_ROOTS_LIMIT as int,
                    ));
                    assert(self@ =~= before.accept_header(header).0);
                }
                return Err(error);
            },
        }

        if let Some(target_index) = justified_index_after(
            block.slot - 1,
            self.latest_finalized.slot,
        ) {
            let length = list_position(target_index + 1);
            if justified_len(&self.justified_slots) < length {
                match justified_with_capacity(length) {
                    Ok(longer) => {
                        self.justified_slots = justified_union(&longer, &self.justified_slots);
                        assert(justified_bits(self.justified_slots) =~= crate::model::padded(
                            before.justified_slots,
                            length as nat,
                        ));
                    },
                    Err(_) => {
                        assert(self@ =~= before.accept_header(header).0);
                        return Err(StateError::JustifiedSlotsFull);
                    },
                }
            }
        }
        self.latest_block_header = BlockHeader {
            slot: block.slot,
            proposer_index: block.proposer_index,
            parent_root: block.parent_root,
            // Filled in when the next slot begins.
            state_root: ZERO_HASH,
            body_root,
        };
        assert(self@ =~= before.accept_header(header).0);
        Ok(())
    }

    /// Appends zero hashes to the history, as many as there is room for.
    fn prefill_history(&mut self, count: u64) -> (outcome: Result<(), StateError>)
        requires
            old(self)@.historical_block_hashes.len() <= HISTORICAL_ROOTS_LIMIT,
        ensures
            ({
                let full = old(self)@.historical_block_hashes + crate::model::zero_hashes(
                    count as nat,
                );
                if full.len() <= HISTORICAL_ROOTS_LIMIT {
                    outcome is Ok && final(self)@ == (StateView {
                        historical_block_hashes: full,
                        ..old(self)@
                    })
                } else {
                    outcome == Err::<(), StateError>(StateError::HistoryPrefillFull)
                        && final(self)@ == (StateView {
                        historical_block_hashes: full.take(HISTORICAL_ROOTS_LIMIT as int),
                        ..old(self)@
                    })
                }
            }),
    {
        let ghost start = self@.historical_block_hashes;
        let mut done: u64 = 0;
        while done < count
            invariant
                done <= count,
                start == old(self)@.historical_block_hashes,
                start.len() + done <= HISTORICAL_ROOTS_LIMIT,
                self@ == (StateView {
                    historical_block_hashes: start + crate::model::zero_hashes(done as nat),
                    ..old(self)@
                }),
            decreases count - done,
        {
            let ghost filled = self@.historical_block_hashes;
            match root_list_push(&mut self.historical_block_hashes, ZERO_HASH) {
                Ok(_) => {
                    assert(filled.push(ZERO_HASH) =~= start + crate::model::zero_hashes(
                        (done + 1) as nat,
                    ));
                },
                Err(_) => {
                    assert((start + crate::model::zero_hashes(count as nat)).take(
                        HISTORICAL_ROOTS_LIMIT as int,
                    ) =~= filled);
                    return Err(StateError::HistoryPrefillFull);
                },
            }
            done += 1;
        }
        Ok(())
    }

    /// Checks the header of a block against the state and takes it over.
    pub fn process_block_header(&mut self, block: &Block) -> (outcome: Result<(), StateError>)
        requires
            old(self)@.slot_fits(block.slot) ==> old(self)@.validators.len() > 0,
        ensures
            (final(self)@, outcome) == old(self)@.process_header(
                crate::model::open_header(*block, crate::block::body_root(block.body@)),
                old(self)@.latest_block_header.root(),
            ),
    {
        let latest_root = self.latest_block_header.tree_hash_root();
        let body_root = block.body.tree_hash_root();
        self.process_block_header_with_roots(block, &latest_root, body_root)
    }
}

} // verus!
