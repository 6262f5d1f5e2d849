//! Choosing signature proofs that together cover many validators.

use crate::attestation::{proof_views, AggregatedSignatureProof, ProofView};
use crate::collections::{participants_to_vec, VALIDATOR_REGISTRY_LIMIT};
use crate::state::LeanState;
use std::collections::HashSet;
use vstd::prelude::*;

verus! {

broadcast use vstd::std_specs::hash::group_hash_axioms;

/// The number of participants that are not covered yet.
pub open spec fn fresh_count(participants: Seq<bool>, covered: Set<u64>) -> nat
    decreases participants.len(),
{
    if participants.len() == 0 {
        0
    } else {
        let id = (participants.len() - 1) as u64;
        fresh_count(participants.drop_last(), covered) + if participants.last()
            && !covered.contains(id) {
            1nat
        } else {
            0nat
        }
    }
}

/// The participants.
pub open spec fn signers(participants: Seq<bool>) -> Set<u64> {
    Set::new(|id: u64| id < participants.len() && participants[id as int])
}

/// Among the first `count` proofs, the place of the one with the most
/// participants that are not covered yet; the last such place.
pub open spec fn best_place(proofs: Seq<ProofView>, covered: Set<u64>, count: nat) -> int
    decreases count,
{
    if count <= 1 {
        0
    } else {
        let best = best_place(proofs, covered, (count - 1) as nat);
        if fresh_count(proofs[count - 1].participants, covered) >= fresh_count(
            proofs[best].participants,
            covered,
        ) {
            count - 1
        } else {
            best
        }
    }
}

/// Proofs taken greedily: the one that covers the most further validators comes
/// first, until none covers any. The last proof moves to the place of the one
/// that was taken. Returns the proofs taken, after `selected`, and the validators
/// covered.
pub open spec fn greedy_selection(
    remaining: Seq<ProofView>,
    selected: Seq<ProofView>,
    covered: Set<u64>,
) -> (Seq<ProofView>, Set<u64>)
    decreases remaining.len(),
{
    if remaining.len() == 0 {
        (selected, covered)
    } else {
        let best = best_place(remaining, covered, remaining.len());
        if fresh_count(remaining[best].participants, covered) == 0 {
            (selected, covered)
        } else {
            proof {
                lemma_best_place(remaining, covered, remaining.len());
            }
            greedy_selection(
                remaining.update(best, remaining.last()).drop_last(),
                selected.push(remaining[best]),
                covered.union(signers(remaining[best].participants)),
            )
        }
    }
}

/// The best place is one of the first `count` places, and none of these has
/// more participants that are not covered yet.
pub proof fn lemma_best_place(proofs: Seq<ProofView>, covered: Set<u64>, count: nat)
    requires
        0 < count <= proofs.len(),
    ensures
        0 <= best_place(proofs, covered, count) < count,
        forall|i: int|
            0 <= i < count ==> fresh_count((#[trigger] proofs[i]).participants, covered)
                <= fresh_count(
                proofs[best_place(proofs, covered, count)].participants,
                covered,
            ),
    decreases count,
{
    if count > 1 {
        lemma_best_place(proofs, covered, (count - 1) as nat);
    }
}

/// The number of participants that are not covered yet.
fn count_fresh(participants: &[bool], covered: &HashSet<u64>) -> (count: usize)
    requires
        participants@.len() <= VALIDATOR_REGISTRY_LIMIT,
    ensures
        count == fresh_count(participants@, covered@),
{
    let mut count: usize = 0;
    let mut id: usize = 0;
    assert(participants@.take(0) =~= Seq::empty());
    while id < participants.len()
        invariant
            count <= id <= participants@.len() <= VALIDATOR_REGISTRY_LIMIT,
            count == fresh_count(participants@.take(id as int), covered@),
        decreases participants@.len() - id,
    {
        assert(participants@.take(id + 1).drop_last() =~= participants@.take(id as int));
        if participants[id] && !covered.contains(&(id as u64)) {
            count += 1;
        }
        id += 1;
    }
    assert(participants@.take(id as int) =~= participants@);
    count
}

/// Marks the participants as covered.
fn cover(participants: &[bool], covered: &mut HashSet<u64>)
    requires
        participants@.len() <= VALIDATOR_REGISTRY_LIMIT,
    ensures
        final(covered)@ == old(covered)@.union(signers(participants@)),
{
    let ghost before = covered@;
    let mut id: usize = 0;
    assert(covered@ =~= before.union(signers(participants@.take(0))));
    while id < participants.len()
        invariant
            id <= participants@.len() <= VALIDATOR_REGISTRY_LIMIT,
            covered@ == before.union(signers(participants@.take(id as int))),
        decreases participants@.len() - id,
    {
        let ghost covered_before = covered@;
        if participants[id] {
            covered.insert(id as u64);
        }
        proof {
            let shorter = participants@.take(id as int);
            let longer = participants@.take(id + 1);
            assert forall|other: u64| signers(longer).contains(other) <==> signers(
                shorter,
            ).contains(other) || (participants@[id as int] && other == id) by {}
            assert(covered@ =~= before.union(signers(longer)));
        }
        id += 1;
    }
    assert(participants@.take(id as int) =~= participants@);
}

/// Whether no proof has more participants than there can be validators.
pub open spec fn participants_bounded(proofs: Seq<AggregatedSignatureProof>) -> bool {
    forall|i: int|
        0 <= i < proofs.len() ==> (#[trigger] proofs[i])@.participants.len()
            <= VALIDATOR_REGISTRY_LIMIT
}

/// The place of the proof with the most participants that are not covered yet,
/// and their number.
fn find_best(proofs: &Vec<AggregatedSignatureProof>, covered: &HashSet<u64>) -> (best: (
    usize,
    usize,
))
    requires
        proofs@.len() > 0,
    ensures
        best.0 == best_place(proof_views(proofs@), covered@, proofs@.len()),
        best.0 < proofs@.len(),
        best.1 == fresh_count(proofs@[best.0 as int]@.participants, covered@),
        participants_bounded(proofs@),
{
    let ghost views = proof_views(proofs@);
    let mut best: usize = 0;
    let mut most: usize = count_fresh(&participants_to_vec(&proofs[0].participants), covered);
    let mut i: usize = 1;
    while i < proofs.len()
        invariant
            1 <= i <= proofs@.len(),
            views == proof_views(proofs@),
            best < i,
            best == best_place(views, covered@, i as nat),
            most == fresh_count(views[best as int].participants, covered@),
            participants_bounded(proofs@.take(i as int)),
        decreases proofs@.len() - i,
    {
        let count = count_fresh(&participants_to_vec(&proofs[i].participants), covered);
        if count >= most {
            best = i;
            most = count;
        }
        proof {
            assert forall|j: int| 0 <= j < i + 1 implies (#[trigger] proofs@.take(
                i + 1,
            )[j])@.participants.len() <= VALIDATOR_REGISTRY_LIMIT by {
                if j < i {
                    assert(proofs@.take(i as int)[j] == proofs@[j]);
                }
            }
        }
        i += 1;
    }
    assert(proofs@.take(i as int) =~= proofs@);
    (best, most)
}

/// Whether `order` lists the proofs of a set, each once.
pub open spec fn lists(
    order: Seq<AggregatedSignatureProof>,
    proofs: Set<AggregatedSignatureProof>,
) -> bool {
    order.no_duplicates() && order.to_set() == proofs
}

/// `HashSet::iter` visits each item of the set once, in an order that is left
/// open.
#[verifier::external_body]
fn listed(proofs: &HashSet<AggregatedSignatureProof>) -> (list: Vec<&AggregatedSignatureProof>)
    ensures
        lists(list@.unref(), proofs@),
{
    proofs.iter().collect()
}

impl LeanState {
    /// Takes proofs greedily until none covers a further validator. Of those
    /// that cover equally many further validators, the last in the remaining list is
    /// taken; the list starts in the order of the set, and the last proof moves to the
    /// place of the one that is taken.
    pub fn extend_proofs_greedily(
        &self,
        proofs: Option<&HashSet<AggregatedSignatureProof>>,
        selected_proofs: &mut Vec<AggregatedSignatureProof>,
        covered_validators: &mut HashSet<u64>,
    )
        ensures
            match proofs {
                Some(proofs) => {
                    &&& exists|order: Seq<AggregatedSignatureProof>| #[trigger]
                        lists(order, proofs@) && greedy_selection(
                            proof_views(order),
                            proof_views(old(selected_proofs)@),
                            old(covered_validators)@,
                        ) == (proof_views(final(selected_proofs)@), final(covered_validators)@)
                    &&& forall|item: AggregatedSignatureProof| #[trigger]
                        proofs@.contains(item) ==> item@.participants.len()
                            <= VALIDATOR_REGISTRY_LIMIT
                },
                None => {
                    &&& final(selected_proofs)@ == old(selected_proofs)@
                    &&& final(covered_validators)@ == old(covered_validators)@
                },
            },
    {
        let proofs = match proofs {
            Some(proofs) => proofs,
            None => {
                return;
            },
        };
        let list = listed(proofs);
        let ghost order = list@.unref();
        let mut remaining: Vec<AggregatedSignatureProof> = Vec::new();
        let mut i: usize = 0;
        while i < list.len()
            invariant
                i <= list@.len(),
                order == list@.unref(),
                proof_views(remaining@) == proof_views(order).take(i as int),
                forall|j: int|
                    0 <= j < i ==> (#[trigger] order[j])@.participants.len()
                        <= VALIDATOR_REGISTRY_LIMIT,
            decreases list@.len() - i,
        {
            let ghost before = remaining@;
            let copy = list[i].clone();
            remaining.push(copy);
            assert(proof_views(remaining@) =~= proof_views(before).push(copy@));
            assert(proof_views(order).take(i + 1) =~= proof_views(order).take(i as int).push(
                order[i as int]@,
            ));
            i += 1;
        }
        assert(proof_views(order).take(i as int) =~= proof_views(order));
        self.extend_proofs_in_order(remaining, selected_proofs, covered_validators);
        proof {
            assert(lists(order, proofs@));
            assert forall|item: AggregatedSignatureProof| #[trigger]
                proofs@.contains(item) implies item@.participants.len()
                <= VALIDATOR_REGISTRY_LIMIT by {
                assert(order.to_set().contains(item));
                let j = choose|j: int| 0 <= j < order.len() && order[j] == item;
                assert(order[j]@.participants.len() <= VALIDATOR_REGISTRY_LIMIT);
            }
        }
    }

    /// Takes proofs greedily out of a list until none covers a further validator.
    /// Of two that cover equally many further validators the later one is taken
    /// first.
    pub fn extend_proofs_in_order(
        &self,
        proofs: Vec<AggregatedSignatureProof>,
        selected_proofs: &mut Vec<AggregatedSignatureProof>,
        covered_validators: &mut HashSet<u64>,
    )
        ensures
            (proof_views(final(selected_proofs)@), final(covered_validators)@) == greedy_selection(
                proof_views(proofs@),
                proof_views(old(selected_proofs)@),
                old(covered_validators)@,
            ),
            participants_bounded(proofs@),
    {
        let ghost offered = proofs@;
        let mut remaining = proofs;
        let ghost goal = greedy_selection(
            proof_views(remaining@),
            proof_views(selected_proofs@),
            covered_validators@,
        );
        while remaining.len() > 0
            invariant
                remaining@ == offered || participants_bounded(offered),
                goal == greedy_selection(
                    proof_views(remaining@),
                    proof_views(selected_proofs@),
                    covered_validators@,
                ),
            ensures
                participants_bounded(offered),
                goal == (proof_views(selected_proofs@), covered_validators@),
            decreases remaining@.len(),
        {
            let (best_index, count) = find_best(&remaining, covered_validators);
            if count == 0 {
                break;
            }
            let ghost left = remaining@;
            let ghost taken = selected_proofs@;
            let best = remaining.swap_remove(best_index);
            cover(&participants_to_vec(&best.participants), covered_validators);
            selected_proofs.push(best);
            assert(proof_views(remaining@) =~= proof_views(left).update(
                best_index as int,
                proof_views(left).last(),
            ).drop_last());
            assert(proof_views(selected_proofs@) =~= proof_views(taken).push(best@));
        }
    }
}

} // verus!
