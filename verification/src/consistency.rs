//! What holds of every state that a chain can reach.

use crate::attestation::AttestationView;
use crate::block::{Block, BlockHeader};
use crate::bytes::{hash_order, B256, ZERO_HASH};
use crate::checkpoint::Checkpoint;
use crate::error::StateError;
use crate::model::{flat_votes, pending_votes, root_slot, StateView, Tally};
use crate::validator::Validator;
use vstd::prelude::*;
use vstd::relations::sorted_by;

verus! {

/// Whether the history holds the checkpoint's root at the checkpoint's slot.
pub open spec fn recorded(history: Seq<B256>, checkpoint: Checkpoint) -> bool {
    &&& checkpoint.slot < history.len()
    &&& history[checkpoint.slot as int] == checkpoint.root
}

/// Whether the history holds a root after the given slot.
pub open spec fn occurs_after(history: Seq<B256>, slot: u64, root: B256) -> bool {
    exists|position: int| slot < position < history.len() && #[trigger] history[position] == root
}

impl StateView {
    /// The finalized checkpoint is not after the justified one, and both are
    /// blocks of the chain once there is a block after the genesis block.
    pub open spec fn checkpoints_fit(self) -> bool {
        &&& self.latest_finalized.slot <= self.latest_justified.slot
        &&& self.latest_justified.slot <= self.latest_block_header.slot
        &&& self.latest_block_header.slot > 0 ==> {
            &&& recorded(self.historical_block_hashes, self.latest_justified)
            &&& recorded(self.historical_block_hashes, self.latest_finalized)
        }
    }

    /// It is known of each slot before the latest block whether it is justified,
    /// and the latest justified checkpoint stands at the highest justified slot.
    pub open spec fn justified_slots_fit(self) -> bool {
        &&& forall|slot: u64|
            slot < self.latest_block_header.slot ==> #[trigger] self.slot_justified(slot) is Some
        &&& self.slot_justified(self.latest_justified.slot) == Some(true)
        &&& forall|slot: u64| #[trigger]
            self.slot_justified(slot) == Some(true) ==> slot <= self.latest_justified.slot
    }

    /// The pending justifications are for different blocks, in the order of their
    /// bytes, each with one vote for each validator.
    pub open spec fn pending_in_order(self) -> bool {
        &&& self.pending_refusal() is None
        &&& self.justifications_roots.no_duplicates()
        &&& sorted_by(self.justifications_roots, hash_order())
    }

    /// The pending justifications are for blocks after the finalized one.
    pub open spec fn pending_occurs(self) -> bool {
        forall|i: int|
            0 <= i < self.justifications_roots.len() ==> occurs_after(
                self.historical_block_hashes,
                self.latest_finalized.slot,
                #[trigger] self.justifications_roots[i],
            )
    }

    /// The history holds one entry for each slot before the latest block.
    pub open spec fn history_fits(self) -> bool {
        &&& self.latest_block_header.slot <= self.slot
        &&& self.historical_block_hashes.len() == self.latest_block_header.slot
    }

    /// What holds of every state that a chain can reach.
    pub open spec fn consistent(self) -> bool {
        &&& self.history_fits()
        &&& self.checkpoints_fit()
        &&& self.justified_slots_fit()
        &&& self.pending_in_order()
        &&& self.pending_occurs()
    }
}

/// A chain starts in a consistent state.
pub proof fn genesis_is_consistent(genesis_time: u64, validators: Seq<Validator>)
    ensures
        crate::model::genesis(genesis_time, validators).consistent(),
{
    let state = crate::model::genesis(genesis_time, validators);
    assert(0 * validators.len() == 0);
    assert(state.slot_justified(0) == Some(true));
}

/// Advancing over empty slots keeps a state consistent.
pub proof fn slots_keep_consistency(state: StateView, target: u64)
    requires
        state.consistent(),
    ensures
        state.process_slots(target).0.consistent(),
{
    if state.slot < target {
        state.lemma_at_slot(target);
        let after = state.at_slot(target);
        assert forall|slot: u64| after.slot_justified(slot) == state.slot_justified(slot) by {}
        assert(after.pending_refusal() == state.pending_refusal());
    }
}

/// A header that is taken over keeps a state consistent.
pub proof fn header_keeps_consistency(state: StateView, header: BlockHeader, latest_root: B256)
    requires
        state.consistent(),
        state.process_header(header, latest_root).1 is Ok,
    ensures
        state.process_header(header, latest_root).0.consistent(),
{
    let after = state.process_header(header, latest_root).0;
    let old_history = state.historical_block_hashes;
    let history = after.historical_block_hashes;
    assert(history.len() == header.slot);
    assert forall|i: int| 0 <= i < old_history.len() implies #[trigger] history[i]
        == old_history[i] by {}
    assert(history[old_history.len() as int] == header.parent_root);
    assert(after.pending_refusal() == state.pending_refusal());
    assert forall|slot: u64| #[trigger] state.slot_justified(slot) is Some implies after.slot_justified(
        slot,
    ) == state.slot_justified(slot) by {}
    assert(state.slot_justified(state.latest_justified.slot) == Some(true));
    assert forall|slot: u64| slot < header.slot implies #[trigger] after.slot_justified(
        slot,
    ) is Some by {}
    assert forall|slot: u64| #[trigger] after.slot_justified(slot) == Some(true) implies slot
        <= after.latest_justified.slot by {
        if state.slot_justified(slot) is None {
            assert(after.slot_justified(slot) != Some(true));
        }
    }
    assert forall|i: int| 0 <= i < after.justifications_roots.len() implies occurs_after(
        history,
        after.latest_finalized.slot,
        #[trigger] after.justifications_roots[i],
    ) by {
        let root = state.justifications_roots[i];
        assert(occurs_after(old_history, state.latest_finalized.slot, root));
        let position = choose|position: int|
            state.latest_finalized.slot < position < old_history.len()
                && #[trigger] old_history[position] == root;
        assert(history[position] == root);
    }
}

/// `root_slot` finds the last place of a root, and finds it if there is one.
pub proof fn lemma_root_slot(history: Seq<B256>, start: int, end: int, root: B256)
    requires
        0 <= start,
        end <= history.len(),
    ensures
        match root_slot(history, start, end, root) {
            Some(position) => {
                &&& start <= position < end
                &&& history[position] == root
                &&& forall|later: int| position < later < end ==> history[later] != root
            },
            None => forall|position: int| start <= position < end ==> history[position] != root,
        },
    decreases end - start,
{
    if end > start && history[end - 1] != root {
        lemma_root_slot(history, start, end - 1, root);
    }
}

impl Tally {
    /// There are votes for finitely many roots, none of them the zero hash, and one
    /// vote for each validator.
    pub open spec fn votes_valid(self) -> bool {
        &&& self.votes.dom().finite()
        &&& forall|root: B256| #[trigger]
            self.votes.contains_key(root) ==> {
                &&& root != ZERO_HASH
                &&& self.votes[root].len() == self.state.validators.len()
            }
    }

    /// The votes are valid, and each root with votes is a block after the finalized
    /// one.
    pub open spec fn votes_fit(self) -> bool {
        &&& self.votes_valid()
        &&& forall|root: B256| #[trigger]
            self.votes.contains_key(root) ==> occurs_after(
                self.state.historical_block_hashes,
                self.state.latest_finalized.slot,
                root,
            )
    }

    /// What holds while attestations are being counted, where `base` is the slot
    /// that was finalized before the first one.
    pub open spec fn consistent(self, base: u64) -> bool {
        &&& self.state.history_fits()
        &&& self.state.checkpoints_fit()
        &&& self.state.justified_slots_fit()
        &&& self.votes_fit()
        &&& base <= self.state.latest_finalized.slot
    }
}

/// Attestations do not change what a state holds besides its checkpoints and the
/// list of justified slots, until the votes are written back.
pub open spec fn same_chain(before: StateView, after: StateView) -> bool {
    after == (StateView {
        latest_justified: after.latest_justified,
        latest_finalized: after.latest_finalized,
        justified_slots: after.justified_slots,
        ..before
    })
}

/// Justifying the target of an attestation keeps the counting consistent.
proof fn lemma_justify(tally: Tally, base: u64, target: Checkpoint)
    requires
        tally.consistent(base),
        tally.state.slot_justified(target.slot) == Some(false),
        crate::model::on_chain(tally.state.historical_block_hashes, target),
    ensures
        (Tally {
            state: tally.state.with_justified(target),
            votes: tally.votes.remove(target.root),
        }).consistent(base),
        tally.state.with_justified(target).slot_justified(target.slot) == Some(true),
        tally.state.with_justified(target).latest_justified.slot >= target.slot,
{
    let before = tally.state;
    let after = before.with_justified(target);
    assert forall|slot: u64| slot != target.slot implies #[trigger] after.slot_justified(slot)
        == before.slot_justified(slot) by {}
    assert(after.slot_justified(target.slot) == Some(true));
    assert forall|slot: u64| slot < after.latest_block_header.slot implies #[trigger] after.slot_justified(
        slot,
    ) is Some by {
        assert(before.slot_justified(slot) is Some);
    }
    assert(before.slot_justified(before.latest_justified.slot) == Some(true));
    assert forall|slot: u64| #[trigger] after.slot_justified(slot) == Some(true) implies slot
        <= after.latest_justified.slot by {
        if slot != target.slot {
            assert(before.slot_justified(slot) == Some(true));
        }
    }
}

/// Finalizing the source of a justified link keeps the counting consistent, and
/// leaves every later slot as justified as it was.
proof fn lemma_finalize(tally: Tally, base: u64, source: Checkpoint)
    requires
        tally.consistent(base),
        source.slot > tally.state.latest_finalized.slot,
        source.slot < tally.state.latest_justified.slot,
        tally.state.slot_justified(source.slot) is Some,
        crate::model::on_chain(tally.state.historical_block_hashes, source),
    ensures
        (Tally {
            state: tally.state.with_finalized(source),
            votes: tally.pruned_votes(base, source.slot),
        }).consistent(base),
{
    let before = tally.state;
    let after = before.with_finalized(source);
    let votes = tally.pruned_votes(base, source.slot);
    assert forall|slot: u64| slot > source.slot implies #[trigger] after.slot_justified(slot)
        == before.slot_justified(slot) by {}
    assert forall|slot: u64| slot < after.latest_block_header.slot implies #[trigger] after.slot_justified(
        slot,
    ) is Some by {
        assert(before.slot_justified(slot) is Some);
    }
    assert(before.slot_justified(before.latest_justified.slot) == Some(true));
    assert forall|slot: u64| #[trigger] after.slot_justified(slot) == Some(true) implies slot
        <= after.latest_justified.slot by {
        if slot > source.slot {
            assert(before.slot_justified(slot) == Some(true));
        }
    }
    assert(votes.dom().subset_of(tally.votes.dom()));
    vstd::set_lib::lemma_set_subset_finite(tally.votes.dom(), votes.dom());
    assert forall|root: B256| #[trigger] votes.contains_key(root) implies root != ZERO_HASH
        && votes[root].len() == after.validators.len() && occurs_after(
        after.historical_block_hashes,
        after.latest_finalized.slot,
        root,
    ) by {
        assert(tally.votes.contains_key(root));
        let history = before.historical_block_hashes;
        lemma_root_slot(history, base + 1, history.len() as int, root);
        let position = tally.slot_of(base, root)->Some_0;
        assert(history[position] == root);
    }
}

/// While the counting is consistent, each root with votes is in the history after
/// the slot that was finalized at first.
proof fn lemma_all_known(tally: Tally, base: u64)
    requires
        tally.consistent(base),
    ensures
        tally.all_known(base),
{
    let history = tally.state.historical_block_hashes;
    assert forall|root: B256| #[trigger] tally.votes.contains_key(root) implies tally.slot_of(
        base,
        root,
    ) is Some by {
        lemma_root_slot(history, base + 1, history.len() as int, root);
        let position = choose|position: int|
            tally.state.latest_finalized.slot < position < history.len()
                && #[trigger] history[position] == root;
        assert(history[position] == root);
    }
}

/// Counting one attestation keeps the counting consistent, and cannot fail for
/// want of a root in the history.
pub proof fn attestation_keeps_consistency(tally: Tally, base: u64, attestation: AttestationView)
    requires
        tally.consistent(base),
    ensures
        match tally.count(base, attestation) {
            Ok(after) => after.consistent(base) && same_chain(tally.state, after.state),
            Err((state, error)) => {
                &&& error is JustifiedSlotOutOfRange || error is ValidatorOutOfRange
                &&& state == tally.state
            },
        },
{
    let source = attestation.message.source;
    let target = attestation.message.target;
    let state = tally.state;
    if tally.count(base, attestation) != Ok::<Tally, (StateView, StateError)>(tally)
        && state.slot_justified(source.slot) == Some(true) && state.slot_justified(target.slot)
        == Some(false) && tally.is_candidate(attestation.message) {
        let votes = crate::model::votes_joined(
            tally.votes_for(target.root),
            attestation.participants,
        );
        let recorded_votes = tally.votes.insert(target.root, votes);
        assert(occurs_after(
            state.historical_block_hashes,
            state.latest_finalized.slot,
            target.root,
        )) by {
            assert(state.historical_block_hashes[target.slot as int] == target.root);
        }
        lemma_justify(tally, base, target);
        let justified = Tally {
            state: state.with_justified(target),
            votes: tally.votes.remove(target.root),
        };
        lemma_all_known(justified, base);
        if justified.state.link_finalizes(source, target) {
            lemma_finalize(justified, base, source);
        }
    }
}

/// Counting attestations keeps the counting consistent, and cannot fail for want
/// of a root in the history.
pub proof fn counting_keeps_consistency(
    tally: Tally,
    base: u64,
    attestations: Seq<AttestationView>,
    count: nat,
)
    requires
        tally.consistent(base),
        count <= attestations.len(),
    ensures
        match tally.count_all(base, attestations, count) {
            Ok(after) => after.consistent(base) && same_chain(tally.state, after.state),
            Err((state, error)) => {
                &&& error is JustifiedSlotOutOfRange || error is ValidatorOutOfRange
                &&& same_chain(tally.state, state)
            },
        },
    decreases count,
{
    if count > 0 {
        counting_keeps_consistency(tally, base, attestations, (count - 1) as nat);
        if let Ok(before) = tally.count_all(base, attestations, (count - 1) as nat) {
            attestation_keeps_consistency(before, base, attestations[count - 1]);
        }
    }
}

/// Part `i` of `parts` parts of equal length lies within the whole.
proof fn lemma_part_bounds(i: int, parts: int, length: int)
    by (nonlinear_arith)
    requires
        0 <= i < parts,
        0 <= length,
    ensures
        0 <= i * length,
        (i + 1) * length == i * length + length,
        (i + 1) * length <= parts * length,
{
}

/// The pending votes are for the roots that are listed, one vote for each
/// validator, and each root that is listed once has its own part of the list of
/// votes.
pub proof fn lemma_pending_votes(
    roots: Seq<B256>,
    flat: Seq<bool>,
    validators: nat,
    count: nat,
)
    requires
        count <= roots.len(),
        flat.len() == roots.len() * validators,
    ensures
        ({
            let votes = pending_votes(roots, flat, validators, count);
            &&& votes.dom() == roots.take(count as int).to_set()
            &&& votes.dom().finite()
            &&& forall|root: B256| #[trigger]
                votes.contains_key(root) ==> votes[root].len() == validators
            &&& roots.no_duplicates() ==> forall|i: int|
                0 <= i < count ==> votes[#[trigger] roots[i]] == flat.subrange(
                    i * validators,
                    (i + 1) * validators,
                )
        }),
    decreases count,
{
    let votes = pending_votes(roots, flat, validators, count);
    if count == 0 {
        assert(votes.dom() =~= roots.take(0).to_set());
    } else {
        let before = pending_votes(roots, flat, validators, (count - 1) as nat);
        let last = roots[count - 1];
        lemma_pending_votes(roots, flat, validators, (count - 1) as nat);
        lemma_part_bounds(count - 1, roots.len() as int, validators as int);
        assert(roots.take(count as int) =~= roots.take(count - 1).push(last));
        roots.take(count - 1).lemma_push_to_set_commute(last);
        assert(votes.dom() =~= roots.take(count as int).to_set());
    }
}

/// The length of the votes for some roots, and the part of each root in them.
pub proof fn lemma_flat_votes(roots: Seq<B256>, votes: Map<B256, Seq<bool>>, validators: nat)
    requires
        forall|i: int| 0 <= i < roots.len() ==> votes[#[trigger] roots[i]].len() == validators,
    ensures
        flat_votes(roots, votes).len() == roots.len() * validators,
        forall|i: int|
            0 <= i < roots.len() ==> votes[#[trigger] roots[i]] == flat_votes(
                roots,
                votes,
            ).subrange(i * validators, (i + 1) * validators),
    decreases roots.len(),
{
    let flat = flat_votes(roots, votes);
    if roots.len() == 0 {
        assert(roots.len() * validators == 0) by (nonlinear_arith)
            requires
                roots.len() == 0,
        ;
    } else {
        let shorter = roots.drop_last();
        let before = flat_votes(shorter, votes);
        assert forall|i: int| 0 <= i < shorter.len() implies votes[#[trigger] shorter[i]].len()
            == validators by {
            assert(shorter[i] == roots[i]);
        }
        lemma_flat_votes(shorter, votes, validators);
        lemma_part_bounds(shorter.len() as int, roots.len() as int, validators as int);
        assert(votes[roots[roots.len() - 1]].len() == validators);
        assert(flat.len() == roots.len() * validators);
        assert forall|i: int| 0 <= i < roots.len() implies votes[#[trigger] roots[i]]
            == flat.subrange(i * validators, (i + 1) * validators) by {
            if i < shorter.len() {
                lemma_part_bounds(i, shorter.len() as int, validators as int);
                assert(shorter[i] == roots[i]);
                assert(flat.subrange(i * validators, (i + 1) * validators) =~= before.subrange(
                    i * validators,
                    (i + 1) * validators,
                ));
            } else {
                assert(flat.subrange(i * validators, (i + 1) * validators) =~= votes[roots.last()]);
            }
        }
    }
}

/// Two lists of votes for the same roots are the same if they agree on the part of
/// each root.
proof fn lemma_flat_same(left: Seq<bool>, right: Seq<bool>, parts: nat, length: nat)
    requires
        left.len() == parts * length,
        right.len() == parts * length,
        forall|i: int|
            0 <= i < parts ==> #[trigger] left.subrange(i * length, (i + 1) * length)
                == right.subrange(i * length, (i + 1) * length),
    ensures
        left == right,
{
    assert forall|k: int| 0 <= k < left.len() implies left[k] == right[k] by {
        let i = k / length as int;
        assert(length > 0 && 0 <= i < parts && i * length <= k < (i + 1) * length) by (nonlinear_arith)
            requires
                0 <= k < parts * length,
                length >= 0,
                i == k / length as int,
        ;
        lemma_part_bounds(i, parts as int, length as int);
        let part = left.subrange(i * length, (i + 1) * length);
        assert(part[k - i * length] == left[k]);
        assert(right.subrange(i * length, (i + 1) * length)[k - i * length] == right[k]);
    }
    assert(left =~= right);
}

/// Reading back what was written: the votes that a state holds after a count are
/// those that were left over by the count.
pub proof fn stored_votes_are_read_back(tally: Tally)
    requires
        tally.votes_valid(),
        tally.settled().1 is Ok,
    ensures
        tally.settled().0.pending_refusal() is None,
        tally.settled().0.tally().votes == tally.votes,
{
    let after = tally.settled().0;
    let roots = tally.sorted_roots();
    let validators = tally.state.validators.len();
    let flat = flat_votes(roots, tally.votes);
    crate::votes::lemma_sorted_set_items(tally.votes.dom());
    assert forall|i: int| 0 <= i < roots.len() implies tally.votes.contains_key(#[trigger] roots[i])
        && tally.votes[roots[i]].len() == validators by {
        assert(roots.to_set().contains(roots[i]));
    }
    lemma_flat_votes(roots, tally.votes, validators);
    lemma_pending_votes(roots, flat, validators, roots.len());
    assert(roots.take(roots.len() as int) =~= roots);
    assert(after.pending_refusal() is None);
    let read = after.tally().votes;
    assert forall|root: B256| #[trigger] read.contains_key(root) implies read[root]
        == tally.votes[root] by {
        assert(roots.to_set().contains(root));
        let i = choose|i: int| 0 <= i < roots.len() && roots[i] == root;
        assert(read[roots[i]] == tally.votes[roots[i]]);
    }
    assert(read =~= tally.votes);
}

/// The votes that a state holds are valid if they can be read, and for blocks after
/// the finalized one if those that are listed are.
pub proof fn lemma_tally_valid(state: StateView)
    requires
        state.pending_refusal() is None,
    ensures
        state.tally().votes_valid(),
        state.pending_occurs() ==> state.tally().votes_fit(),
{
    let roots = state.justifications_roots;
    lemma_pending_votes(
        roots,
        state.justifications_validators,
        state.validators.len(),
        roots.len(),
    );
    assert(roots.take(roots.len() as int) =~= roots);
    assert forall|root: B256| #[trigger] state.tally().votes.contains_key(root) implies {
        &&& root != ZERO_HASH
        &&& state.pending_occurs() ==> occurs_after(
            state.historical_block_hashes,
            state.latest_finalized.slot,
            root,
        )
    } by {
        assert(roots.to_set().contains(root));
        let i = choose|i: int| 0 <= i < roots.len() && roots[i] == root;
        assert(roots[i] == root);
    }
}

/// The votes that a state holds in order are what would be written back.
pub proof fn lemma_tally_in_order(state: StateView)
    requires
        state.pending_in_order(),
    ensures
        state.tally().sorted_roots() == state.justifications_roots,
        flat_votes(state.justifications_roots, state.tally().votes)
            == state.justifications_validators,
{
    let roots = state.justifications_roots;
    let flat = state.justifications_validators;
    let validators = state.validators.len();
    let votes = state.tally().votes;
    lemma_pending_votes(roots, flat, validators, roots.len());
    assert(roots.take(roots.len() as int) =~= roots);
    crate::votes::lemma_sorted_set(roots, votes.dom());
    assert forall|i: int| 0 <= i < roots.len() implies votes[#[trigger] roots[i]].len()
        == validators by {
        assert(roots.to_set().contains(roots[i]));
    }
    lemma_flat_votes(roots, votes, validators);
    let written = flat_votes(roots, votes);
    assert forall|i: int| 0 <= i < roots.len() implies #[trigger] written.subrange(
        i * validators,
        (i + 1) * validators,
    ) == flat.subrange(i * validators, (i + 1) * validators) by {
        assert(votes[roots[i]] == flat.subrange(i * validators, (i + 1) * validators));
    }
    lemma_flat_same(written, flat, roots.len(), validators);
}

/// Writing the votes back ends a count in a consistent state.
proof fn lemma_settled(tally: Tally, base: u64)
    requires
        tally.consistent(base),
        tally.settled().1 is Ok,
    ensures
        tally.settled().0.consistent(),
{
    let after = tally.settled().0;
    let roots = tally.sorted_roots();
    stored_votes_are_read_back(tally);
    crate::votes::lemma_sorted_set_items(tally.votes.dom());
    assert forall|slot: u64| after.slot_justified(slot) == tally.state.slot_justified(slot) by {}
    assert forall|i: int| 0 <= i < roots.len() implies occurs_after(
        after.historical_block_hashes,
        after.latest_finalized.slot,
        #[trigger] roots[i],
    ) by {
        assert(roots.to_set().contains(roots[i]));
        assert(tally.votes.contains_key(roots[i]));
    }
}

/// Counting attestations changes a state in its checkpoints and its list of justified
/// slots at most.
proof fn lemma_counting_keeps_chain(
    tally: Tally,
    base: u64,
    attestations: Seq<AttestationView>,
    count: nat,
)
    ensures
        match tally.count_all(base, attestations, count) {
            Ok(after) => same_chain(tally.state, after.state),
            Err((state, _)) => same_chain(tally.state, state),
        },
    decreases count,
{
    if count > 0 {
        lemma_counting_keeps_chain(tally, base, attestations, (count - 1) as nat);
    }
}

/// Attestations change nothing of a state but its checkpoints, the list of justified
/// slots and the pending votes, even where they fail.
pub proof fn attestations_keep_the_chain(
    state: StateView,
    attestations: Seq<AttestationView>,
    data_roots: Seq<B256>,
)
    ensures
        ({
            let after = state.process_attestations(attestations, data_roots).0;
            after == (StateView {
                latest_justified: after.latest_justified,
                latest_finalized: after.latest_finalized,
                justified_slots: after.justified_slots,
                justifications_roots: after.justifications_roots,
                justifications_validators: after.justifications_validators,
                ..state
            })
        }),
{
    let base = state.latest_finalized.slot;
    lemma_counting_keeps_chain(state.tally(), base, attestations, attestations.len());
}

/// Attestations that are counted keep a state consistent. They fail only for too many different data, for a slot beyond the list of justified
/// slots, for a participant who is no validator, or for want of room.
pub proof fn attestations_keep_consistency(
    state: StateView,
    attestations: Seq<AttestationView>,
    data_roots: Seq<B256>,
)
    requires
        state.consistent(),
    ensures
        ({
            let (after, outcome) = state.process_attestations(attestations, data_roots);
            &&& outcome is Ok ==> after.consistent()
            &&& outcome matches Err(error) ==> {
                ||| error is TooManyAttestationData
                ||| error is JustifiedSlotOutOfRange
                ||| error is ValidatorOutOfRange
                ||| error is JustificationRootsFull
            }
        }),
{
    let base = state.latest_finalized.slot;
    lemma_tally_valid(state);
    counting_keeps_consistency(state.tally(), base, attestations, attestations.len());
    if let Ok(counted) = state.tally().count_all(base, attestations, attestations.len()) {
        if counted.settled().1 is Ok {
            lemma_settled(counted, base);
        }
    }
}

/// A block that is taken over keeps a state consistent.
pub proof fn block_keeps_consistency(state: StateView, block: Block)
    requires
        state.consistent(),
        state.process_block(block).1 is Ok,
    ensures
        state.process_block(block).0.consistent(),
{
    let header = crate::model::open_header(block, crate::block::body_root(block.body@));
    let latest_root = state.latest_block_header.root();
    header_keeps_consistency(state, header, latest_root);
    attestations_keep_consistency(
        state.process_header(header, latest_root).0,
        block.body@,
        crate::model::data_roots(block.body@),
    );
}

/// Every state that a chain reaches by accepted blocks is consistent.
pub proof fn transition_keeps_consistency(state: StateView, block: Block, valid_signatures: bool)
    requires
        state.consistent(),
        state.state_transition(block, valid_signatures).1 is Ok,
    ensures
        state.state_transition(block, valid_signatures).0.consistent(),
{
    slots_keep_consistency(state, block.slot);
    block_keeps_consistency(state.at_slot(block.slot), block);
}

/// A slot after the finalized one remains, whatever attestation is counted: a source
/// that is finalized lies before its target.
proof fn lemma_slot_remains_after_attestation(tally: Tally, base: u64, attestation: AttestationView)
    requires
        tally.state.has_slot_after_finalized(),
    ensures
        match tally.count(base, attestation) {
            Ok(after) => after.state.has_slot_after_finalized(),
            Err((state, _)) => state.has_slot_after_finalized(),
        },
{
}

/// The same for the first `count` attestations of a list.
proof fn lemma_slot_remains_after_counting(
    tally: Tally,
    base: u64,
    attestations: Seq<AttestationView>,
    count: nat,
)
    requires
        tally.state.has_slot_after_finalized(),
    ensures
        match tally.count_all(base, attestations, count) {
            Ok(after) => after.state.has_slot_after_finalized(),
            Err((state, _)) => state.has_slot_after_finalized(),
        },
    decreases count,
{
    if count > 0 {
        lemma_slot_remains_after_counting(tally, base, attestations, (count - 1) as nat);
        if let Ok(before) = tally.count_all(base, attestations, (count - 1) as nat) {
            lemma_slot_remains_after_attestation(before, base, attestations[count - 1]);
        }
    }
}

/// Where there is a slot after the finalized one, there is one after attestations
/// have been counted, even where they fail: further attestations can be counted.
pub proof fn attestations_keep_a_slot_after_finalized(
    state: StateView,
    attestations: Seq<AttestationView>,
    data_roots: Seq<B256>,
)
    requires
        state.has_slot_after_finalized(),
    ensures
        state.process_attestations(attestations, data_roots).0.has_slot_after_finalized(),
{
    let base = state.latest_finalized.slot;
    lemma_slot_remains_after_counting(state.tally(), base, attestations, attestations.len());
}

/// Where there is a slot after the finalized one, there is one after advancing, after
/// a header and after a block, even where they fail.
pub proof fn blocks_keep_a_slot_after_finalized(state: StateView, block: Block, target: u64)
    requires
        state.has_slot_after_finalized(),
    ensures
        state.process_slots(target).0.has_slot_after_finalized(),
        state.process_header(
            crate::model::open_header(block, crate::block::body_root(block.body@)),
            state.latest_block_header.root(),
        ).0.has_slot_after_finalized(),
        state.process_block(block).0.has_slot_after_finalized(),
{
    let header = crate::model::open_header(block, crate::block::body_root(block.body@));
    let (accepted, outcome) = state.process_header(header, state.latest_block_header.root());
    if state.slot < target {
        state.lemma_at_slot(target);
    }
    if outcome is Ok {
        attestations_keep_a_slot_after_finalized(
            accepted,
            block.body@,
            crate::model::data_roots(block.body@),
        );
    }
}

/// Where there is a slot after the finalized one, there is one after a transition,
/// even where it fails.
pub proof fn transitions_keep_a_slot_after_finalized(
    state: StateView,
    block: Block,
    valid_signatures: bool,
)
    requires
        state.has_slot_after_finalized(),
    ensures
        state.state_transition(block, valid_signatures).0.has_slot_after_finalized(),
{
    blocks_keep_a_slot_after_finalized(state, block, block.slot);
    if state.slot < block.slot {
        blocks_keep_a_slot_after_finalized(state.at_slot(block.slot), block, block.slot);
    }
}

/// A state with validators and a slot after the finalized one can take any
/// attestations and any block.
pub proof fn validators_and_a_later_slot_suffice(
    state: StateView,
    block: Block,
    valid_signatures: bool,
    data_roots: Seq<B256>,
)
    requires
        state.has_slot_after_finalized(),
        state.validators.len() > 0,
    ensures
        state.can_count(data_roots),
        state.can_take_block(block),
        state.can_transition(block, valid_signatures),
{
    blocks_keep_a_slot_after_finalized(state, block, block.slot);
    if state.slot < block.slot {
        state.lemma_at_slot(block.slot);
        blocks_keep_a_slot_after_finalized(state.at_slot(block.slot), block, block.slot);
    }
}

} // verus!
