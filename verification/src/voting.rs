//! What counting an attestation is for, stated over the fields of the states before and
//! after a call with one attestation. A call with several is as good as one call after
//! the other.

use crate::attestation::AttestationView;
use crate::bytes::{B256, ZERO_HASH};
use crate::collections::count_set;
use crate::consistency::{
    lemma_pending_votes, lemma_root_slot, lemma_tally_valid, stored_votes_are_read_back,
};
use crate::error::StateError;
use crate::model::{first_set_from, pending_votes, votes_joined, StateView, Tally};
use crate::slot::justifiable;
use crate::steps::holds;
use vstd::prelude::*;

verus! {

// What a state says of its votes.
/// Whether place `i` of the pending roots is the last one that holds `root`.
pub open spec fn listed_at(state: StateView, root: B256, i: int) -> bool {
    &&& 0 <= i < state.justifications_roots.len()
    &&& state.justifications_roots[i] == root
    &&& forall|j: int|
        i < j < state.justifications_roots.len() ==> state.justifications_roots[j] != root
}

/// Whether a validator's vote for a root is pending: the votes for the root at place `i`
/// start at `i` times the number of validators.
pub open spec fn has_voted(state: StateView, root: B256, validator: int) -> bool {
    &&& 0 <= validator < state.validators.len()
    &&& exists|i: int| #[trigger]
        listed_at(state, root, i) && state.justifications_validators[i * state.validators.len()
            + validator]
}

/// The validators whose votes for a root are pending.
pub open spec fn voters(state: StateView, root: B256) -> Set<int> {
    Set::new(|validator: int| has_voted(state, root, validator))
}

/// The validators who have signed an attestation.
pub open spec fn signed(attestation: AttestationView) -> Set<int> {
    Set::new(
        |validator: int|
            0 <= validator < attestation.participants.len() && attestation.participants[validator],
    )
}

/// Whether attestations with the given data roots are counted at all: there are at most
/// sixteen different ones, and the pending votes are one for each root and validator,
/// with no root that is the zero hash.
pub open spec fn is_open(state: StateView, data_roots: Seq<B256>) -> bool {
    &&& data_roots.to_set().len() <= 16
    &&& forall|i: int|
        0 <= i < state.justifications_roots.len() ==> #[trigger] state.justifications_roots[i]
            != ZERO_HASH
    &&& state.justifications_validators.len() == state.justifications_roots.len()
        * state.validators.len()
}

/// Whether it is known of a slot whether it is justified.
pub open spec fn is_known(state: StateView, slot: u64) -> bool {
    slot <= state.latest_finalized.slot + state.justified_slots.len()
}

/// Whether a slot is justified: it is not after the finalized one, or its bit is set.
pub open spec fn is_justified(state: StateView, slot: u64) -> bool {
    slot <= state.latest_finalized.slot || state.justified_slots[slot
        - state.latest_finalized.slot - 1]
}

/// Whether an attestation is for a target that is still to be justified and may be, from
/// an earlier source that is justified, and the chain holds both, and the head.
pub open spec fn counts(state: StateView, attestation: AttestationView) -> bool {
    let source = attestation.message.source;
    let target = attestation.message.target;
    &&& is_known(state, source.slot) && is_justified(state, source.slot)
    &&& is_known(state, target.slot) && !is_justified(state, target.slot)
    &&& source.slot < target.slot
    &&& holds(state.historical_block_hashes, source)
    &&& holds(state.historical_block_hashes, target)
    &&& holds(state.historical_block_hashes, attestation.message.head)
    &&& justifiable(target.slot, state.latest_finalized.slot)
}

/// Whether the first byte at which two roots differ is lower in the first of them.
pub open spec fn comes_before(left: B256, right: B256) -> bool {
    exists|at: int|
        0 <= at < 32 && #[trigger] left[at] < right[at] && forall|k: int|
            0 <= k < at ==> left[k] == right[k]
}

/// Whether the pending roots ascend, byte by byte from the front, and each has one vote
/// for each validator.
pub open spec fn votes_ascend(state: StateView) -> bool {
    let roots = state.justifications_roots;
    &&& state.justifications_validators.len() == roots.len() * state.validators.len()
    &&& forall|i: int, j: int|
        0 <= i < j < roots.len() ==> comes_before(#[trigger] roots[i], #[trigger] roots[j])
}

/// Whether everything but the checkpoints, the justified slots and the pending votes is
/// the same.
pub open spec fn same_otherwise(before: StateView, after: StateView) -> bool {
    &&& after.config == before.config
    &&& after.slot == before.slot
    &&& after.latest_block_header == before.latest_block_header
    &&& after.historical_block_hashes == before.historical_block_hashes
    &&& after.validators == before.validators
}

// How the fields are read.
/// The votes that are read for a root are those at its last place.
proof fn lemma_last_place(
    roots: Seq<B256>,
    flat: Seq<bool>,
    validators: nat,
    count: nat,
    root: B256,
    i: int,
)
    requires
        0 <= i < count <= roots.len(),
        roots[i] == root,
        forall|j: int| i < j < count ==> roots[j] != root,
    ensures
        pending_votes(roots, flat, validators, count).contains_key(root),
        pending_votes(roots, flat, validators, count)[root] == flat.subrange(
            i * validators,
            (i + 1) * validators,
        ),
    decreases count,
{
    if i < count - 1 {
        lemma_last_place(roots, flat, validators, (count - 1) as nat, root, i);
    }
}

/// A root that is listed has a last place.
proof fn lemma_has_last_place(state: StateView, root: B256, count: nat) -> (i: int)
    requires
        count <= state.justifications_roots.len(),
        state.justifications_roots.take(count as int).contains(root),
    ensures
        0 <= i < count,
        state.justifications_roots[i] == root,
        forall|j: int| i < j < count ==> state.justifications_roots[j] != root,
    decreases count,
{
    let roots = state.justifications_roots;
    let p = choose|p: int| 0 <= p < count && roots.take(count as int)[p] == root;
    assert(0 <= p < count && roots.take(count as int)[p] == root);
    if roots[count - 1] == root {
        count - 1
    } else {
        assert(roots.take(count - 1)[p] == root);
        lemma_has_last_place(state, root, (count - 1) as nat)
    }
}

/// What is read from a state is what it says.
proof fn lemma_read(state: StateView)
    requires
        state.pending_refusal() is None,
    ensures
        state.tally().votes_valid(),
        forall|root: B256| #[trigger]
            state.tally().votes.contains_key(root) <==> state.justifications_roots.contains(root),
        forall|root: B256, validator: int|
            state.tally().votes.contains_key(root) && 0 <= validator < state.validators.len()
                ==> #[trigger] state.tally().votes[root][validator] == has_voted(
                state,
                root,
                validator,
            ),
        forall|root: B256, validator: int| #[trigger]
            has_voted(state, root, validator) ==> state.tally().votes.contains_key(root),
{
    let roots = state.justifications_roots;
    let flat = state.justifications_validators;
    let n = state.validators.len();
    let votes = state.tally().votes;
    lemma_tally_valid(state);
    lemma_pending_votes(roots, flat, n, roots.len());
    assert(roots.take(roots.len() as int) =~= roots);
    assert forall|root: B256| #[trigger] votes.contains_key(root) <==> roots.contains(root) by {
        assert(votes.dom().contains(root) <==> roots.to_set().contains(root));
    }
    assert forall|root: B256, validator: int| #[trigger] has_voted(state, root, validator) implies
        votes.contains_key(root) by {
        let i = choose|i: int| #[trigger]
            listed_at(state, root, i) && flat[i * n + validator];
        assert(roots[i] == root);
    }
    assert forall|root: B256, validator: int|
        votes.contains_key(root) && 0 <= validator < n implies #[trigger] votes[root][validator]
        == has_voted(state, root, validator) by {
        let i = lemma_has_last_place(state, root, roots.len());
        assert(listed_at(state, root, i));
        lemma_last_place(roots, flat, n, roots.len(), root, i);
        assert((i + 1) * n == i * n + n && (i + 1) * n <= roots.len() * n && 0 <= i * n)
            by (nonlinear_arith)
            requires
                0 <= i < roots.len(),
        ;
        assert(votes[root][validator] == flat[i * n + validator]);
        assert forall|j: int| #[trigger] listed_at(state, root, j) implies j == i by {
            if j < i {
                assert(roots[i] != root);
            } else if i < j {
                assert(roots[j] != root);
            }
        }
    }
}

/// The number of bits that are set is the size of the set of their places.
proof fn lemma_count_set(bits: Seq<bool>)
    ensures
        Set::new(|v: int| 0 <= v < bits.len() && bits[v]).finite(),
        count_set(bits) == Set::new(|v: int| 0 <= v < bits.len() && bits[v]).len(),
    decreases bits.len(),
{
    let places = Set::new(|v: int| 0 <= v < bits.len() && bits[v]);
    if bits.len() == 0 {
        assert(places =~= Set::empty());
    } else {
        let shorter = bits.drop_last();
        let before = Set::new(|v: int| 0 <= v < shorter.len() && shorter[v]);
        lemma_count_set(shorter);
        assert(!before.contains(shorter.len() as int));
        if bits.last() {
            assert(places =~= before.insert(shorter.len() as int));
        } else {
            assert(places =~= before);
        }
    }
}

/// The votes of a call are written back as they are, in order.
proof fn lemma_written(tally: Tally)
    requires
        tally.votes_valid(),
    ensures
        tally.votes.dom().len() > 262144 ==> tally.settled() == (
            tally.state,
            Err::<(), StateError>(StateError::JustificationRootsFull),
        ),
        tally.votes.dom().len() <= 262144 ==> {
            let (after, outcome) = tally.settled();
            &&& outcome == Ok::<(), StateError>(())
            &&& same_otherwise(tally.state, after)
            &&& after.latest_justified == tally.state.latest_justified
            &&& after.latest_finalized == tally.state.latest_finalized
            &&& after.justified_slots == tally.state.justified_slots
            &&& votes_ascend(after)
            &&& forall|root: B256| #[trigger]
                after.justifications_roots.contains(root) <==> tally.votes.contains_key(root)
            &&& forall|root: B256, validator: int| #[trigger]
                has_voted(after, root, validator) <==> tally.votes.contains_key(root) && 0
                    <= validator < tally.state.validators.len() && tally.votes[root][validator]
        },
{
    crate::votes::lemma_sorted_set_items(tally.votes.dom());
    if tally.votes.dom().len() <= 262144 {
        let after = tally.settled().0;
        let roots = after.justifications_roots;
        stored_votes_are_read_back(tally);
        lemma_read(after);
        assert forall|i: int, j: int| 0 <= i < j < roots.len() implies comes_before(
            #[trigger] roots[i],
            #[trigger] roots[j],
        ) by {
            let leq = crate::bytes::hash_order();
            assert(leq(roots[i], roots[j]));
            assert(roots[i] != roots[j]);
            let at = choose|at: int| crate::bytes::differs_below(roots[i], roots[j], at);
            assert(crate::bytes::differs_below(roots[i], roots[j], at));
            assert(roots[i][at] < roots[j][at]);
        }
        assert forall|root: B256| #[trigger] roots.contains(root)
            <==> tally.votes.contains_key(root) by {
            assert(after.tally().votes.contains_key(root) <==> roots.contains(root));
        }
        assert forall|root: B256, validator: int| #[trigger]
            has_voted(after, root, validator) <==> tally.votes.contains_key(root) && 0
                <= validator < tally.state.validators.len() && tally.votes[root][validator] by {
            if tally.votes.contains_key(root) && 0 <= validator < after.validators.len() {
                assert(after.tally().votes[root][validator] == tally.votes[root][validator]);
            }
        }
    }
}

/// A call with one attestation counts it.
proof fn lemma_one(state: StateView, attestation: AttestationView, data_roots: Seq<B256>)
    requires
        is_open(state, data_roots),
    ensures
        state.pending_refusal() is None,
        state.process_attestations(seq![attestation], data_roots) == match state.tally().count(
            state.latest_finalized.slot,
            attestation,
        ) {
            Ok(tally) => tally.settled(),
            Err((after, error)) => (after, Err(error)),
        },
{
    let base = state.latest_finalized.slot;
    let one = seq![attestation];
    if state.justifications_roots.contains(ZERO_HASH) {
        let i = choose|i: int|
            0 <= i < state.justifications_roots.len() && state.justifications_roots[i]
                == ZERO_HASH;
        assert(state.justifications_roots[i] == ZERO_HASH);
    }
    assert(state.tally().count_all(base, one, 0) == Ok::<Tally, (StateView, StateError)>(
        state.tally(),
    ));
    assert(state.tally().count_all(base, one, 1) == state.tally().count(base, one[0]));
}

/// The number of listed roots is the number of roots with votes.
proof fn lemma_roots(state: StateView)
    requires
        state.pending_refusal() is None,
    ensures
        state.tally().votes.dom() == state.justifications_roots.to_set(),
{
    lemma_read(state);
    assert forall|root: B256| state.tally().votes.dom().contains(root)
        <==> state.justifications_roots.to_set().contains(root) by {
        assert(state.tally().votes.contains_key(root) <==> state.justifications_roots.contains(
            root,
        ));
    }
    assert(state.tally().votes.dom() =~= state.justifications_roots.to_set());
}

/// The votes for the target, with those of an attestation that counts.
proof fn lemma_joined_votes(state: StateView, attestation: AttestationView)
    requires
        state.pending_refusal() is None,
        forall|validator: int|
            state.validators.len() <= validator < attestation.participants.len()
                ==> !attestation.participants[validator],
    ensures
        ({
            let target = attestation.message.target;
            let joined = votes_joined(
                state.tally().votes_for(target.root),
                attestation.participants,
            );
            let all = voters(state, target.root).union(signed(attestation));
            &&& joined.len() == state.validators.len()
            &&& all.finite()
            &&& count_set(joined) == all.len()
            &&& forall|validator: int|
                0 <= validator < state.validators.len() ==> #[trigger] joined[validator]
                    == all.contains(validator)
            &&& first_set_from(attestation.participants, state.validators.len()) is None
        }),
{
    let target = attestation.message.target;
    let before = state.tally().votes_for(target.root);
    let joined = votes_joined(before, attestation.participants);
    let all = voters(state, target.root).union(signed(attestation));
    lemma_read(state);
    lemma_count_set(joined);
    crate::laws::lemma_no_set_bit(attestation.participants, state.validators.len());
    assert forall|validator: int| 0 <= validator < state.validators.len() implies
        #[trigger] joined[validator] == all.contains(validator) by {
        assert(before[validator] == has_voted(state, target.root, validator)) by {
            if !state.tally().votes.contains_key(target.root) {
                assert(!has_voted(state, target.root, validator));
            } else {
                assert(state.tally().votes[target.root][validator] == has_voted(
                    state,
                    target.root,
                    validator,
                ));
            }
        }
    }
    assert(Set::new(|v: int| 0 <= v < joined.len() && joined[v]) =~= all) by {
        assert forall|v: int| all.contains(v) implies 0 <= v < joined.len() && joined[v] by {
            assert(0 <= v < state.validators.len());
            assert(joined[v] == all.contains(v));
        }
    }
}

/// The first bit that is set is found.
proof fn lemma_first_stranger(bits: Seq<bool>, from: nat, at: int)
    requires
        from <= at < bits.len(),
        bits[at],
        forall|i: int| from <= i < at ==> !bits[i],
    ensures
        first_set_from(bits, from) == Some(at as nat),
    decreases at - from,
{
    if from < at {
        lemma_first_stranger(bits, from + 1, at);
    }
}

/// An attestation that counts is one that is to be recorded.
proof fn lemma_counts(state: StateView, attestation: AttestationView)
    ensures
        ({
            let source = attestation.message.source;
            let target = attestation.message.target;
            let tally = state.tally();
            &&& is_known(state, source.slot) <==> state.slot_justified(source.slot) is Some
            &&& is_known(state, target.slot) <==> state.slot_justified(target.slot) is Some
            &&& is_known(state, source.slot) ==> state.slot_justified(source.slot) == Some(
                is_justified(state, source.slot),
            )
            &&& is_known(state, target.slot) ==> state.slot_justified(target.slot) == Some(
                is_justified(state, target.slot),
            )
            &&& counts(state, attestation) <==> {
                &&& state.slot_justified(source.slot) == Some(true)
                &&& state.slot_justified(target.slot) == Some(false)
                &&& tally.is_candidate(attestation.message)
            }
            &&& counts(state, attestation) ==> source.root != ZERO_HASH && target.root
                != ZERO_HASH && tally.count(state.latest_finalized.slot, attestation)
                == tally.record(
                state.latest_finalized.slot,
                source,
                target,
                attestation.participants,
            )
        }),
{
    crate::steps::data_match_where_all_three_are_held(
        state.historical_block_hashes,
        attestation.message,
    );
}

// What is refused.
/// Attestations with more than sixteen different data are refused, and so are all of them
/// where the pending votes cannot be read. The first reason is told, and nothing changes.
pub proof fn closed_calls_are_refused(
    state: StateView,
    attestations: Seq<AttestationView>,
    data_roots: Seq<B256>,
)
    requires
        !is_open(state, data_roots),
    ensures
        ({
            let (after, outcome) = state.process_attestations(attestations, data_roots);
            let distinct = data_roots.to_set().len();
            let expected = state.justifications_roots.len() * state.validators.len();
            let actual = state.justifications_validators.len();
            &&& after == state
            &&& outcome == Err::<(), StateError>(
                if distinct > 16 {
                    StateError::TooManyAttestationData { distinct: distinct as usize }
                } else if exists|i: int|
                    0 <= i < state.justifications_roots.len()
                        && #[trigger] state.justifications_roots[i] == ZERO_HASH {
                    StateError::ZeroHashJustification
                } else {
                    StateError::JustificationVotesMismatch {
                        expected: expected as usize,
                        actual: actual as usize,
                    }
                },
            )
        }),
{
    assert(state.justifications_roots.contains(ZERO_HASH) <==> exists|i: int|
        0 <= i < state.justifications_roots.len() && #[trigger] state.justifications_roots[i]
            == ZERO_HASH);
}

/// An attestation whose source is at a slot that is not known is an error. So is one whose
/// target is, unless it is passed over before for a zero root or for a source that is not
/// justified. Nothing changes.
pub proof fn unknown_slots_are_refused(
    state: StateView,
    attestation: AttestationView,
    data_roots: Seq<B256>,
)
    requires
        is_open(state, data_roots),
    ensures
        ({
            let call = state.process_attestations(seq![attestation], data_roots);
            let source = attestation.message.source;
            let target = attestation.message.target;
            &&& !is_known(state, source.slot) ==> call == (
                state,
                Err::<(), StateError>(StateError::JustifiedSlotOutOfRange { slot: source.slot }),
            )
            &&& is_known(state, source.slot) && is_justified(state, source.slot) && source.root
                != ZERO_HASH && target.root != ZERO_HASH && !is_known(state, target.slot)
                ==> call == (
                state,
                Err::<(), StateError>(StateError::JustifiedSlotOutOfRange { slot: target.slot }),
            )
        }),
{
    lemma_one(state, attestation, data_roots);
    lemma_counts(state, attestation);
}

/// An attestation that counts and is signed by someone who is no validator is an error,
/// which tells the first such signer. Nothing changes.
pub proof fn strangers_are_refused(
    state: StateView,
    attestation: AttestationView,
    data_roots: Seq<B256>,
    stranger: int,
)
    requires
        is_open(state, data_roots),
        counts(state, attestation),
        state.validators.len() <= stranger < attestation.participants.len(),
        attestation.participants[stranger],
        forall|i: int|
            state.validators.len() <= i < stranger ==> !attestation.participants[i],
    ensures
        state.process_attestations(seq![attestation], data_roots) == (
            state,
            Err::<(), StateError>(
                StateError::ValidatorOutOfRange { validator_id: stranger as usize },
            ),
        ),
{
    lemma_one(state, attestation, data_roots);
    lemma_counts(state, attestation);
    lemma_first_stranger(attestation.participants, state.validators.len(), stranger);
}

// What is counted.
/// Whether the pending votes after a call are those before it, in order.
pub open spec fn same_votes(before: StateView, after: StateView) -> bool {
    &&& votes_ascend(after)
    &&& forall|root: B256| #[trigger]
        after.justifications_roots.contains(root) <==> before.justifications_roots.contains(root)
    &&& forall|root: B256, validator: int| #[trigger]
        has_voted(after, root, validator) <==> has_voted(before, root, validator)
}

/// An attestation that does not count, at slots that are known, changes nothing, but that
/// the pending votes are put in order.
pub proof fn what_does_not_count_changes_nothing(
    state: StateView,
    attestation: AttestationView,
    data_roots: Seq<B256>,
)
    requires
        is_open(state, data_roots),
        !counts(state, attestation),
        is_known(state, attestation.message.source.slot),
        is_known(state, attestation.message.target.slot) || attestation.message.source.root
            == ZERO_HASH || attestation.message.target.root == ZERO_HASH || !is_justified(
            state,
            attestation.message.source.slot,
        ),
        state.justifications_roots.len() <= 262144,
    ensures
        ({
            let (after, outcome) = state.process_attestations(seq![attestation], data_roots);
            &&& outcome == Ok::<(), StateError>(())
            &&& same_otherwise(state, after)
            &&& after.latest_justified == state.latest_justified
            &&& after.latest_finalized == state.latest_finalized
            &&& after.justified_slots == state.justified_slots
            &&& same_votes(state, after)
        }),
{
    lemma_one(state, attestation, data_roots);
    lemma_counts(state, attestation);
    lemma_read(state);
    lemma_roots(state);
    state.justifications_roots.lemma_cardinality_of_set();
    lemma_written(state.tally());
    let after = state.process_attestations(seq![attestation], data_roots).0;
    assert forall|root: B256, validator: int| #[trigger]
        has_voted(after, root, validator) <==> has_voted(state, root, validator) by {
        if state.tally().votes.contains_key(root) && 0 <= validator < state.validators.len() {
            assert(state.tally().votes[root][validator] == has_voted(state, root, validator));
        }
    }
}

/// An attestation that counts justifies nothing while three times the number of
/// validators who have voted for its target, before or with it, is less than twice the
/// number of validators. Its votes are then pending for the target's root, each validator
/// once; the votes for other roots stay. If there is no room for another root, nothing
/// changes.
pub proof fn too_few_votes_stay_pending(
    state: StateView,
    attestation: AttestationView,
    data_roots: Seq<B256>,
)
    requires
        is_open(state, data_roots),
        counts(state, attestation),
        forall|i: int|
            state.validators.len() <= i < attestation.participants.len()
                ==> !attestation.participants[i],
        ({
            let votes = voters(state, attestation.message.target.root).union(signed(attestation));
            !(3 * votes.len() >= 2 * state.validators.len())
        }),
    ensures
        ({
            let (after, outcome) = state.process_attestations(seq![attestation], data_roots);
            let target = attestation.message.target;
            let roots = state.justifications_roots.to_set().insert(target.root);
            &&& roots.len() > 262144 ==> after == state && outcome == Err::<(), StateError>(
                StateError::JustificationRootsFull,
            )
            &&& roots.len() <= 262144 ==> {
                &&& outcome == Ok::<(), StateError>(())
                &&& same_otherwise(state, after)
                &&& after.latest_justified == state.latest_justified
                &&& after.latest_finalized == state.latest_finalized
                &&& after.justified_slots == state.justified_slots
                &&& votes_ascend(after)
                &&& forall|root: B256| #[trigger]
                    after.justifications_roots.contains(root) <==> root == target.root
                        || state.justifications_roots.contains(root)
                &&& voters(after, target.root) == voters(state, target.root).union(
                    signed(attestation),
                )
                &&& forall|root: B256, validator: int|
                    root != target.root ==> (#[trigger] has_voted(after, root, validator)
                        <==> has_voted(state, root, validator))
            }
        }),
{
    let target = attestation.message.target;
    let before = state.tally();
    let all = voters(state, target.root).union(signed(attestation));
    lemma_one(state, attestation, data_roots);
    lemma_counts(state, attestation);
    lemma_read(state);
    lemma_roots(state);
    lemma_joined_votes(state, attestation);
    let joined = votes_joined(before.votes_for(target.root), attestation.participants);
    let counted = Tally { state, votes: before.votes.insert(target.root, joined) };
    assert(before.count(state.latest_finalized.slot, attestation) == Ok::<
        Tally,
        (StateView, StateError),
    >(counted));
    assert(counted.votes.dom() =~= state.justifications_roots.to_set().insert(target.root));
    assert(counted.votes_valid());
    lemma_written(counted);
    let after = state.process_attestations(seq![attestation], data_roots).0;
    if counted.votes.dom().len() <= 262144 {
        assert forall|validator: int| voters(after, target.root).contains(validator)
            <==> all.contains(validator) by {
            assert(has_voted(after, target.root, validator) <==> 0 <= validator
                < state.validators.len() && counted.votes[target.root][validator]);
            if 0 <= validator < state.validators.len() {
                assert(joined[validator] == all.contains(validator));
            }
        }
        assert(voters(after, target.root) =~= all);
        assert forall|root: B256, validator: int| root != target.root implies (
        #[trigger] has_voted(after, root, validator) <==> has_voted(state, root, validator)) by {
            if before.votes.contains_key(root) && 0 <= validator < state.validators.len() {
                assert(before.votes[root][validator] == has_voted(state, root, validator));
            }
        }
    }
}

/// Whether a link finalizes its source: it lies after the finalized slot, and no slot
/// strictly between source and target may be justified.
pub open spec fn is_closed_link(state: StateView, attestation: AttestationView) -> bool {
    &&& attestation.message.source.slot > state.latest_finalized.slot
    &&& forall|slot: u64|
        attestation.message.source.slot < slot < attestation.message.target.slot
            ==> !#[trigger] justifiable(slot, state.latest_finalized.slot)
}

/// Whether the history holds a root after a slot.
pub open spec fn held_after(state: StateView, slot: u64, root: B256) -> bool {
    exists|i: int|
        slot < i < state.historical_block_hashes.len()
            && #[trigger] state.historical_block_hashes[i] == root
}

/// The target is the latest justified checkpoint if it is later than that; else that
/// stays.
pub open spec fn justified_moves(
    before: StateView,
    after: StateView,
    attestation: AttestationView,
) -> bool {
    let target = attestation.message.target;
    after.latest_justified == if target.slot > before.latest_justified.slot {
        target
    } else {
        before.latest_justified
    }
}

/// What an attestation with enough votes leaves for its target: a justified state, and no
/// votes for the root.
proof fn lemma_enough(state: StateView, attestation: AttestationView, data_roots: Seq<B256>)
    requires
        is_open(state, data_roots),
        counts(state, attestation),
        forall|i: int|
            state.validators.len() <= i < attestation.participants.len()
                ==> !attestation.participants[i],
        ({
            let votes = voters(state, attestation.message.target.root).union(signed(attestation));
            3 * votes.len() >= 2 * state.validators.len()
        }),
    ensures
        ({
            let target = attestation.message.target;
            let justified = Tally {
                state: state.with_justified(target),
                votes: state.tally().votes.remove(target.root),
            };
            &&& justified.votes_valid()
            &&& justified.votes.dom() == state.justifications_roots.to_set().remove(target.root)
            &&& state.tally().count(state.latest_finalized.slot, attestation)
                == justified.finalize_by(
                state.latest_finalized.slot,
                attestation.message.source,
                target,
            )
            &&& justified.state.link_finalizes(attestation.message.source, target)
                <==> is_closed_link(state, attestation)
        }),
{
    let target = attestation.message.target;
    lemma_one(state, attestation, data_roots);
    lemma_counts(state, attestation);
    lemma_read(state);
    lemma_roots(state);
    lemma_joined_votes(state, attestation);
    let justified = Tally {
        state: state.with_justified(target),
        votes: state.tally().votes.remove(target.root),
    };
    assert(justified.votes.dom() =~= state.justifications_roots.to_set().remove(target.root));
}

/// The votes for other roots than the target's stay as they are.
proof fn lemma_others_stay(state: StateView, after: StateView, kept: Map<B256, Seq<bool>>)
    requires
        state.pending_refusal() is None,
        after.validators == state.validators,
        forall|root: B256| #[trigger]
            kept.contains_key(root) ==> state.tally().votes.contains_key(root) && kept[root]
                == state.tally().votes[root],
        forall|root: B256, validator: int| #[trigger]
            has_voted(after, root, validator) <==> kept.contains_key(root) && 0 <= validator
                < state.validators.len() && kept[root][validator],
    ensures
        forall|root: B256, validator: int| #[trigger]
            has_voted(after, root, validator) <==> kept.contains_key(root) && has_voted(
                state,
                root,
                validator,
            ),
{
    lemma_read(state);
    assert forall|root: B256, validator: int| #[trigger]
        has_voted(after, root, validator) <==> kept.contains_key(root) && has_voted(
            state,
            root,
            validator,
        ) by {
        if kept.contains_key(root) && 0 <= validator < state.validators.len() {
            assert(state.tally().votes[root][validator] == has_voted(state, root, validator));
        }
    }
}

/// An attestation that counts justifies its target as soon as three times the number of
/// validators who have voted for it, before or with it, is at least twice the number of
/// validators. The target's bit is set and no other. The latest justified checkpoint does
/// not move backwards. The votes for the target are pending no longer; those for other
/// roots stay. Where the link does not finalize the source, the finalized checkpoint
/// stays.
pub proof fn two_thirds_justify(
    state: StateView,
    attestation: AttestationView,
    data_roots: Seq<B256>,
)
    requires
        is_open(state, data_roots),
        counts(state, attestation),
        forall|i: int|
            state.validators.len() <= i < attestation.participants.len()
                ==> !attestation.participants[i],
        ({
            let votes = voters(state, attestation.message.target.root).union(signed(attestation));
            3 * votes.len() >= 2 * state.validators.len()
        }),
        !is_closed_link(state, attestation),
        state.justifications_roots.len() <= 262144,
    ensures
        ({
            let (after, outcome) = state.process_attestations(seq![attestation], data_roots);
            let target = attestation.message.target;
            &&& outcome == Ok::<(), StateError>(())
            &&& same_otherwise(state, after)
            &&& justified_moves(state, after, attestation)
            &&& after.latest_finalized == state.latest_finalized
            &&& after.justified_slots.len() == state.justified_slots.len()
            &&& forall|i: int|
                0 <= i < after.justified_slots.len() ==> (#[trigger] after.justified_slots[i]
                    <==> state.justified_slots[i] || state.latest_finalized.slot + 1 + i
                    == target.slot)
            &&& votes_ascend(after)
            &&& forall|root: B256| #[trigger]
                after.justifications_roots.contains(root) <==> root != target.root
                    && state.justifications_roots.contains(root)
            &&& forall|root: B256, validator: int| #[trigger]
                has_voted(after, root, validator) <==> root != target.root && has_voted(
                    state,
                    root,
                    validator,
                )
        }),
{
    let target = attestation.message.target;
    let justified = Tally {
        state: state.with_justified(target),
        votes: state.tally().votes.remove(target.root),
    };
    lemma_one(state, attestation, data_roots);
    lemma_counts(state, attestation);
    lemma_read(state);
    lemma_enough(state, attestation, data_roots);
    state.justifications_roots.lemma_cardinality_of_set();
    vstd::set_lib::lemma_len_subset(
        justified.votes.dom(),
        state.justifications_roots.to_set(),
    );
    lemma_written(justified);
    let after = state.process_attestations(seq![attestation], data_roots).0;
    lemma_others_stay(state, after, justified.votes);
}

/// A pending root is found after the finalized slot exactly where the history holds it
/// there.
proof fn lemma_held(state: StateView, tally: Tally, slot: u64, root: B256)
    requires
        tally.state.historical_block_hashes == state.historical_block_hashes,
        state.latest_finalized.slot <= slot,
    ensures
        tally.slot_of(state.latest_finalized.slot, root) is Some <==> held_after(
            state,
            state.latest_finalized.slot,
            root,
        ),
        tally.is_after(state.latest_finalized.slot, root, slot) <==> held_after(state, slot, root),
{
    let history = state.historical_block_hashes;
    let base = state.latest_finalized.slot;
    lemma_root_slot(history, base + 1, history.len() as int, root);
    if let Some(position) = tally.slot_of(base, root) {
        assert(history[position] == root);
    }
}

/// A link whose target gets justified finalizes its source if that lies after the
/// finalized slot, no slot strictly between the two may be justified, and the history
/// holds each other root with votes after the finalized slot. The list of justified slots
/// then starts right after the source, and holds what it held, and the target. Pending
/// are the votes for roots that the history holds after the source, but for the target's.
pub proof fn closed_links_finalize(
    state: StateView,
    attestation: AttestationView,
    data_roots: Seq<B256>,
)
    requires
        is_open(state, data_roots),
        counts(state, attestation),
        forall|i: int|
            state.validators.len() <= i < attestation.participants.len()
                ==> !attestation.participants[i],
        ({
            let votes = voters(state, attestation.message.target.root).union(signed(attestation));
            3 * votes.len() >= 2 * state.validators.len()
        }),
        attestation.message.source.slot > state.latest_finalized.slot,
        forall|slot: u64|
            attestation.message.source.slot < slot < attestation.message.target.slot
                ==> !#[trigger] justifiable(slot, state.latest_finalized.slot),
        forall|root: B256| #[trigger]
            state.justifications_roots.contains(root) && root != attestation.message.target.root
                ==> held_after(state, state.latest_finalized.slot, root),
        state.justifications_roots.len() <= 262144,
    ensures
        ({
            let (after, outcome) = state.process_attestations(seq![attestation], data_roots);
            let source = attestation.message.source;
            let target = attestation.message.target;
            let passed = source.slot - state.latest_finalized.slot;
            &&& outcome == Ok::<(), StateError>(())
            &&& same_otherwise(state, after)
            &&& justified_moves(state, after, attestation)
            &&& after.latest_finalized == source
            &&& after.justified_slots.len() == state.justified_slots.len() - passed
            &&& forall|i: int|
                0 <= i < after.justified_slots.len() ==> (#[trigger] after.justified_slots[i]
                    <==> state.justified_slots[i + passed] || source.slot + 1 + i == target.slot)
            &&& votes_ascend(after)
            &&& forall|root: B256| #[trigger]
                after.justifications_roots.contains(root) <==> root != target.root
                    && state.justifications_roots.contains(root) && held_after(
                    state,
                    source.slot,
                    root,
                )
            &&& forall|root: B256, validator: int| #[trigger]
                has_voted(after, root, validator) <==> root != target.root && has_voted(
                    state,
                    root,
                    validator,
                ) && held_after(state, source.slot, root)
        }),
{
    let base = state.latest_finalized.slot;
    let source = attestation.message.source;
    let target = attestation.message.target;
    let justified = Tally {
        state: state.with_justified(target),
        votes: state.tally().votes.remove(target.root),
    };
    lemma_one(state, attestation, data_roots);
    lemma_counts(state, attestation);
    lemma_read(state);
    lemma_enough(state, attestation, data_roots);
    assert forall|root: B256| #[trigger] justified.votes.contains_key(root) implies
        justified.slot_of(base, root) is Some by {
        assert(state.justifications_roots.contains(root));
        lemma_held(state, justified, source.slot, root);
    }
    assert(justified.all_known(base));
    let pruned = justified.pruned_votes(base, source.slot);
    let finalized = Tally { state: justified.state.with_finalized(source), votes: pruned };
    assert(state.tally().count(base, attestation) == Ok::<Tally, (StateView, StateError)>(
        finalized,
    ));
    assert forall|root: B256| #[trigger] pruned.contains_key(root) <==> justified.votes.contains_key(
        root,
    ) && held_after(state, source.slot, root) by {
        lemma_held(state, justified, source.slot, root);
    }
    assert(pruned.dom().subset_of(justified.votes.dom()));
    vstd::set_lib::lemma_set_subset_finite(justified.votes.dom(), pruned.dom());
    assert(finalized.votes_valid());
    state.justifications_roots.lemma_cardinality_of_set();
    vstd::set_lib::lemma_len_subset(
        justified.votes.dom(),
        state.justifications_roots.to_set(),
    );
    vstd::set_lib::lemma_len_subset(pruned.dom(), justified.votes.dom());
    lemma_written(finalized);
    let after = state.process_attestations(seq![attestation], data_roots).0;
    lemma_others_stay(state, after, pruned);
    assert forall|root: B256, validator: int| #[trigger]
        has_voted(after, root, validator) <==> root != target.root && has_voted(
            state,
            root,
            validator,
        ) && held_after(state, source.slot, root) by {
        assert(has_voted(state, root, validator) ==> state.tally().votes.contains_key(root));
    }
}

/// A link that would finalize its source fails where the history does not hold a root
/// with votes after the finalized slot, other than the target's. The target is justified
/// all the same; nothing else changes.
pub proof fn lost_roots_stop_finality(
    state: StateView,
    attestation: AttestationView,
    data_roots: Seq<B256>,
    lost: B256,
)
    requires
        is_open(state, data_roots),
        counts(state, attestation),
        forall|i: int|
            state.validators.len() <= i < attestation.participants.len()
                ==> !attestation.participants[i],
        ({
            let votes = voters(state, attestation.message.target.root).union(signed(attestation));
            3 * votes.len() >= 2 * state.validators.len()
        }),
        is_closed_link(state, attestation),
        state.justifications_roots.contains(lost),
        lost != attestation.message.target.root,
        !held_after(state, state.latest_finalized.slot, lost),
    ensures
        ({
            let (after, outcome) = state.process_attestations(seq![attestation], data_roots);
            let target = attestation.message.target;
            &&& outcome == Err::<(), StateError>(StateError::JustificationRootMissing)
            &&& same_otherwise(state, after)
            &&& justified_moves(state, after, attestation)
            &&& after.latest_finalized == state.latest_finalized
            &&& after.justified_slots.len() == state.justified_slots.len()
            &&& forall|i: int|
                0 <= i < after.justified_slots.len() ==> (#[trigger] after.justified_slots[i]
                    <==> state.justified_slots[i] || state.latest_finalized.slot + 1 + i
                    == target.slot)
            &&& after.justifications_roots == state.justifications_roots
            &&& after.justifications_validators == state.justifications_validators
        }),
{
    let base = state.latest_finalized.slot;
    let target = attestation.message.target;
    let justified = Tally {
        state: state.with_justified(target),
        votes: state.tally().votes.remove(target.root),
    };
    lemma_one(state, attestation, data_roots);
    lemma_counts(state, attestation);
    lemma_read(state);
    lemma_enough(state, attestation, data_roots);
    lemma_held(state, justified, base, lost);
    assert(justified.votes.contains_key(lost));
    assert(!justified.all_known(base));
}

// Several attestations.
/// Counting one attestation never fails for want of room, however many roots have votes:
/// a vote for another root is recorded beside them.
pub proof fn room_does_not_matter_while_counting(
    tally: Tally,
    base: u64,
    attestation: AttestationView,
)
    ensures
        tally.count(base, attestation) matches Err((_, error)) ==> {
            ||| error is JustifiedSlotOutOfRange
            ||| error is ValidatorOutOfRange
            ||| error is JustificationRootMissing
        },
{
}

/// Attestations are counted one after the other, up to the first error: with one more at
/// the end, that one is counted after the others.
pub proof fn attestations_are_counted_in_turn(
    tally: Tally,
    base: u64,
    attestations: Seq<AttestationView>,
    more: AttestationView,
)
    ensures
        tally.count_all(base, Seq::empty(), 0) == Ok::<Tally, (StateView, StateError)>(tally),
        ({
            let longer = attestations.push(more);
            let before = tally.count_all(base, attestations, attestations.len());
            let after = tally.count_all(base, longer, longer.len());
            &&& before is Err ==> after == before
            &&& before matches Ok(counted) ==> after == counted.count(base, more)
        }),
{
    lemma_same_front(tally, base, attestations, more, attestations.len());
}

/// What is counted first does not depend on what follows.
proof fn lemma_same_front(
    tally: Tally,
    base: u64,
    attestations: Seq<AttestationView>,
    more: AttestationView,
    count: nat,
)
    requires
        count <= attestations.len(),
    ensures
        tally.count_all(base, attestations.push(more), count) == tally.count_all(
            base,
            attestations,
            count,
        ),
    decreases count,
{
    if count > 0 {
        lemma_same_front(tally, base, attestations, more, (count - 1) as nat);
        assert(attestations.push(more)[count - 1] == attestations[count - 1]);
    }
}

/// There is no room for the pending votes exactly where, after the last attestation, more
/// than 262144 roots have votes. That it was so in between does not matter.
pub proof fn room_matters_at_the_end(
    state: StateView,
    attestations: Seq<AttestationView>,
    data_roots: Seq<B256>,
)
    requires
        is_open(state, data_roots),
    ensures
        ({
            let outcome = state.process_attestations(attestations, data_roots).1;
            match state.tally().count_all(
                state.latest_finalized.slot,
                attestations,
                attestations.len(),
            ) {
                Ok(counted) => outcome == if counted.votes.dom().len() > 262144 {
                    Err::<(), StateError>(StateError::JustificationRootsFull)
                } else {
                    Ok::<(), StateError>(())
                },
                Err((_, error)) => outcome == Err::<(), StateError>(error),
            }
        }),
{
    let base = state.latest_finalized.slot;
    if state.justifications_roots.contains(ZERO_HASH) {
        let i = choose|i: int|
            0 <= i < state.justifications_roots.len() && state.justifications_roots[i]
                == ZERO_HASH;
        assert(state.justifications_roots[i] == ZERO_HASH);
    }
    lemma_tally_valid(state);
    crate::whole_calls::lemma_counting_valid(
        state.tally(),
        base,
        attestations,
        attestations.len(),
    );
    if let Ok(counted) = state.tally().count_all(base, attestations, attestations.len()) {
        lemma_written(counted);
    }
}

/// Counting writes no votes back.
proof fn lemma_counting_keeps_pending(
    tally: Tally,
    base: u64,
    attestations: Seq<AttestationView>,
    count: nat,
)
    ensures
        ({
            let after = match tally.count_all(base, attestations, count) {
                Ok(counted) => counted.state,
                Err((state, _)) => state,
            };
            &&& after.justifications_roots == tally.state.justifications_roots
            &&& after.justifications_validators == tally.state.justifications_validators
        }),
    decreases count,
{
    if count > 0 {
        lemma_counting_keeps_pending(tally, base, attestations, (count - 1) as nat);
    }
}

/// A call that fails, with however many attestations, leaves the pending votes as they
/// were.
pub proof fn failing_calls_keep_the_pending_votes(
    state: StateView,
    attestations: Seq<AttestationView>,
    data_roots: Seq<B256>,
)
    requires
        state.process_attestations(attestations, data_roots).1 is Err,
    ensures
        ({
            let after = state.process_attestations(attestations, data_roots).0;
            &&& after.justifications_roots == state.justifications_roots
            &&& after.justifications_validators == state.justifications_validators
        }),
{
    lemma_counting_keeps_pending(
        state.tally(),
        state.latest_finalized.slot,
        attestations,
        attestations.len(),
    );
}

/// The order of roots is that of their bytes: of two different ones, the one comes first
/// that is lower at the first byte at which they differ.
pub proof fn roots_are_ordered_by_their_bytes(left: B256, right: B256)
    ensures
        crate::bytes::hash_le(left, right) <==> left == right || comes_before(left, right),
{
    if comes_before(left, right) {
        let at = choose|at: int|
            0 <= at < 32 && #[trigger] left[at] < right[at] && forall|k: int|
                0 <= k < at ==> left[k] == right[k];
        assert(crate::bytes::differs_below(left, right, at));
    }
    if left != right && crate::bytes::hash_le(left, right) {
        let at = choose|at: int| crate::bytes::differs_below(left, right, at);
        assert(crate::bytes::differs_below(left, right, at));
        assert(left[at] < right[at]);
    }
}

} // verus!
