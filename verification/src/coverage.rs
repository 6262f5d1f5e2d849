//! What the choice of signature proofs is for: each step takes the proof with the most
//! signers that are not covered yet, counted as a set.

use crate::attestation::{proof_views, AggregatedSignatureProof, ProofView};
use crate::collections::{participant_bits, VALIDATOR_REGISTRY_LIMIT};
use crate::selection::{best_place, fresh_count, greedy_selection, lists, signers};
use vstd::prelude::*;

verus! {

/// The validators whose bit is set in a proof.
pub open spec fn signed_by(item: ProofView) -> Set<u64> {
    Set::new(|id: u64| id < item.participants.len() && item.participants[id as int])
}

/// Whether no proof has more participants than there can be validators.
pub open spec fn all_bounded(proofs: Seq<ProofView>) -> bool {
    forall|i: int|
        0 <= i < proofs.len() ==> (#[trigger] proofs[i]).participants.len()
            <= VALIDATOR_REGISTRY_LIMIT
}

/// The validators that are covered once the proofs from place `from` up to place `to`
/// have been added.
pub open spec fn covered_with(covered: Set<u64>, proofs: Seq<ProofView>, from: int, to: int) -> Set<
    u64,
> {
    Set::new(
        |id: u64|
            covered.contains(id) || exists|i: int|
                from <= i < to && signed_by(#[trigger] proofs[i]).contains(id),
    )
}

/// The number of participants that are not covered is the size of the set of signers
/// without the covered ones.
pub proof fn fresh_count_is_the_size_of_the_difference(item: ProofView, covered: Set<u64>)
    requires
        item.participants.len() <= VALIDATOR_REGISTRY_LIMIT,
    ensures
        signed_by(item).difference(covered).finite(),
        fresh_count(item.participants, covered) == signed_by(item).difference(covered).len(),
    decreases item.participants.len(),
{
    let fresh = signed_by(item).difference(covered);
    if item.participants.len() == 0 {
        assert(fresh =~= Set::empty());
    } else {
        let shorter = ProofView { participants: item.participants.drop_last(), ..item };
        let before = signed_by(shorter).difference(covered);
        let id = (item.participants.len() - 1) as u64;
        fresh_count_is_the_size_of_the_difference(shorter, covered);
        assert(!before.contains(id));
        if item.participants.last() && !covered.contains(id) {
            assert(fresh =~= before.insert(id));
        } else {
            assert(fresh =~= before);
        }
    }
}

/// Of the proofs that cover the most further validators, the best place is the last.
proof fn lemma_best_is_last(proofs: Seq<ProofView>, covered: Set<u64>, count: nat)
    requires
        0 < count <= proofs.len(),
    ensures
        0 <= best_place(proofs, covered, count) < count,
        forall|i: int|
            0 <= i < count ==> fresh_count((#[trigger] proofs[i]).participants, covered)
                <= fresh_count(proofs[best_place(proofs, covered, count)].participants, covered),
        forall|i: int|
            best_place(proofs, covered, count) < i < count ==> fresh_count(
                (#[trigger] proofs[i]).participants,
                covered,
            ) < fresh_count(proofs[best_place(proofs, covered, count)].participants, covered),
    decreases count,
{
    if count > 1 {
        lemma_best_is_last(proofs, covered, (count - 1) as nat);
    }
}

/// One step of the choice. Let the proof at place `best` have the most signers who are
/// not covered yet, and more than those at later places, and let there be such a
/// signer. Then choosing goes on as if that proof had been chosen before, its signers
/// were covered, and the last proof stood in its place.
pub proof fn the_widest_proof_is_taken(
    remaining: Seq<ProofView>,
    selected: Seq<ProofView>,
    covered: Set<u64>,
    best: int,
)
    requires
        all_bounded(remaining),
        0 <= best < remaining.len(),
        forall|i: int|
            0 <= i < remaining.len() ==> signed_by(#[trigger] remaining[i]).difference(covered).len()
                <= signed_by(remaining[best]).difference(covered).len(),
        forall|i: int|
            best < i < remaining.len() ==> signed_by(#[trigger] remaining[i]).difference(
                covered,
            ).len() < signed_by(remaining[best]).difference(covered).len(),
        exists|id: u64| #[trigger] signed_by(remaining[best]).contains(id) && !covered.contains(id),
    ensures
        greedy_selection(remaining, selected, covered) == greedy_selection(
            remaining.update(best, remaining[remaining.len() - 1]).drop_last(),
            selected.push(remaining[best]),
            covered.union(signed_by(remaining[best])),
        ),
{
    let found = best_place(remaining, covered, remaining.len());
    lemma_best_is_last(remaining, covered, remaining.len());
    assert forall|i: int| 0 <= i < remaining.len() implies fresh_count(
        (#[trigger] remaining[i]).participants,
        covered,
    ) == signed_by(remaining[i]).difference(covered).len() by {
        fresh_count_is_the_size_of_the_difference(remaining[i], covered);
    }
    assert(remaining[found].participants.len() <= VALIDATOR_REGISTRY_LIMIT);
    assert(found == best);
    let id = choose|id: u64| #[trigger]
        signed_by(remaining[best]).contains(id) && !covered.contains(id);
    fresh_count_is_the_size_of_the_difference(remaining[best], covered);
    assert(signed_by(remaining[best]).difference(covered).contains(id));
    if signed_by(remaining[best]).difference(covered).len() == 0 {
        assert(signed_by(remaining[best]).difference(covered) =~= Set::empty());
    }
    assert(signers(remaining[best].participants) =~= signed_by(remaining[best]));
}

/// The choice ends, without a change, exactly where every signer of every proof is
/// covered: if one is not, a proof is added.
pub proof fn choosing_ends_when_all_are_covered(
    remaining: Seq<ProofView>,
    selected: Seq<ProofView>,
    covered: Set<u64>,
)
    requires
        all_bounded(remaining),
    ensures
        greedy_selection(remaining, selected, covered) == (selected, covered) <==> forall|i: int|
            0 <= i < remaining.len() ==> signed_by(#[trigger] remaining[i]).subset_of(covered),
{
    if remaining.len() > 0 {
        let found = best_place(remaining, covered, remaining.len());
        lemma_best_is_last(remaining, covered, remaining.len());
        assert forall|i: int| 0 <= i < remaining.len() implies (fresh_count(
            (#[trigger] remaining[i]).participants,
            covered,
        ) == 0 <==> signed_by(remaining[i]).subset_of(covered)) by {
            let fresh = signed_by(remaining[i]).difference(covered);
            fresh_count_is_the_size_of_the_difference(remaining[i], covered);
            if fresh_count(remaining[i].participants, covered) == 0 {
                assert(fresh =~= Set::empty());
                assert forall|id: u64| signed_by(remaining[i]).contains(id) implies covered.contains(
                    id,
                ) by {
                    assert(!fresh.contains(id));
                }
            } else if signed_by(remaining[i]).subset_of(covered) {
                assert(fresh =~= Set::empty());
            }
        }
        assert(remaining[found].participants.len() <= VALIDATOR_REGISTRY_LIMIT);
        if fresh_count(remaining[found].participants, covered) > 0 {
            assert(!signed_by(remaining[found]).subset_of(covered));
            let rest = remaining.update(found, remaining.last()).drop_last();
            assert forall|i: int| 0 <= i < rest.len() implies (#[trigger] rest[i]).participants.len()
                <= VALIDATOR_REGISTRY_LIMIT by {
                assert(rest[i] == remaining[if i == found {
                    remaining.len() - 1
                } else {
                    i
                }]);
            }
            crate::laws::greedy_selection_covers_all(
                rest,
                selected.push(remaining[found]),
                covered.union(signers(remaining[found].participants)),
            );
        } else {
            assert forall|i: int| 0 <= i < remaining.len() implies signed_by(
                #[trigger] remaining[i],
            ).subset_of(covered) by {
                assert(fresh_count(remaining[i].participants, covered) == 0);
            }
        }
    }
}

/// Each proof that is added has, of all the proofs offered, the most signers who are
/// covered neither before nor by the proofs added before it, and at least one. In the
/// end exactly those are covered who were before or have signed a proof that was
/// added, and every signer of every proof offered is.
pub proof fn each_added_proof_is_the_widest(
    remaining: Seq<ProofView>,
    selected: Seq<ProofView>,
    covered: Set<u64>,
)
    requires
        all_bounded(remaining),
    ensures
        ({
            let (chosen, reached) = greedy_selection(remaining, selected, covered);
            let start = selected.len() as int;
            &&& chosen.len() >= selected.len()
            &&& forall|i: int| 0 <= i < start ==> chosen[i] == selected[i]
            &&& reached == covered_with(covered, chosen, start, chosen.len() as int)
            &&& forall|place: int, i: int|
                start <= place < chosen.len() && 0 <= i < remaining.len() ==> signed_by(
                    #[trigger] remaining[i],
                ).difference(covered_with(covered, chosen, start, place)).len() <= signed_by(
                    #[trigger] chosen[place],
                ).difference(covered_with(covered, chosen, start, place)).len()
            &&& forall|place: int|
                start <= place < chosen.len() ==> signed_by(#[trigger] chosen[place]).difference(
                    covered_with(covered, chosen, start, place),
                ).len() > 0
            &&& forall|i: int|
                0 <= i < remaining.len() ==> signed_by(#[trigger] remaining[i]).subset_of(reached)
        }),
    decreases remaining.len(),
{
    let (chosen, reached) = greedy_selection(remaining, selected, covered);
    let start = selected.len() as int;
    crate::laws::greedy_selection_covers_all(remaining, selected, covered);
    assert forall|item: ProofView| signers(item.participants) =~= #[trigger] signed_by(item) by {}
    assert(covered_with(covered, chosen, start, start) =~= covered);
    assert forall|i: int| 0 <= i < start implies chosen[i] == selected[i] by {
        assert(chosen.take(start)[i] == selected[i]);
    }
    assert(reached =~= covered_with(covered, chosen, start, chosen.len() as int)) by {
        assert forall|id: u64| reached.contains(id) <==> covered_with(
            covered,
            chosen,
            start,
            chosen.len() as int,
        ).contains(id) by {
            if reached.contains(id) && !covered.contains(id) {
                let i = choose|i: int|
                    start <= i < chosen.len() && signers(
                        (#[trigger] chosen[i]).participants,
                    ).contains(id);
                assert(signed_by(chosen[i]).contains(id));
            }
            if exists|i: int|
                start <= i < chosen.len() && signed_by(#[trigger] chosen[i]).contains(id) {
                let i = choose|i: int|
                    start <= i < chosen.len() && signed_by(#[trigger] chosen[i]).contains(id);
                assert(signers(chosen[i].participants).contains(id));
            }
        }
    }
    assert forall|i: int| 0 <= i < remaining.len() implies signed_by(
        #[trigger] remaining[i],
    ).subset_of(reached) by {
        assert(signers(remaining[i].participants).subset_of(reached));
    }
    if remaining.len() > 0 {
        let best = best_place(remaining, covered, remaining.len());
        lemma_best_is_last(remaining, covered, remaining.len());
        assert(remaining[best].participants.len() <= VALIDATOR_REGISTRY_LIMIT);
        if fresh_count(remaining[best].participants, covered) > 0 {
            let rest = remaining.update(best, remaining.last()).drop_last();
            let taken = selected.push(remaining[best]);
            let wider = covered.union(signers(remaining[best].participants));
            assert forall|i: int| 0 <= i < rest.len() implies (#[trigger] rest[i]).participants.len()
                <= VALIDATOR_REGISTRY_LIMIT by {
                assert(rest[i] == remaining[if i == best {
                    remaining.len() - 1
                } else {
                    i
                }]);
            }
            each_added_proof_is_the_widest(rest, taken, wider);
            assert(chosen[start] == taken[start]);
            assert forall|place: int| start < place <= chosen.len() implies #[trigger] covered_with(
                covered,
                chosen,
                start,
                place,
            ) == covered_with(wider, chosen, start + 1, place) by {
                assert forall|id: u64| covered_with(covered, chosen, start, place).contains(id)
                    <==> covered_with(wider, chosen, start + 1, place).contains(id) by {
                    if signed_by(chosen[start]).contains(id) {
                        assert(start <= start < place && signed_by(chosen[start]).contains(id));
                    }
                }
                assert(covered_with(covered, chosen, start, place) =~= covered_with(
                    wider,
                    chosen,
                    start + 1,
                    place,
                ));
            }
            assert forall|place: int, i: int|
                start <= place < chosen.len() && 0 <= i < remaining.len() implies signed_by(
                #[trigger] remaining[i],
            ).difference(covered_with(covered, chosen, start, place)).len() <= signed_by(
                #[trigger] chosen[place],
            ).difference(covered_with(covered, chosen, start, place)).len() by {
                let before = covered_with(covered, chosen, start, place);
                fresh_count_is_the_size_of_the_difference(remaining[i], covered);
                fresh_count_is_the_size_of_the_difference(remaining[best], covered);
                if place > start {
                    assert(before == covered_with(wider, chosen, start + 1, place));
                    if i == best {
                        assert(signed_by(remaining[i]).difference(before) =~= Set::empty());
                    } else {
                        let moved = if i == remaining.len() - 1 {
                            best
                        } else {
                            i
                        };
                        assert(rest[moved] == remaining[i]);
                    }
                }
            }
            assert forall|place: int| start <= place < chosen.len() implies signed_by(
                #[trigger] chosen[place],
            ).difference(covered_with(covered, chosen, start, place)).len() > 0 by {
                fresh_count_is_the_size_of_the_difference(remaining[best], covered);
                if place > start {
                    assert(covered_with(covered, chosen, start, place) == covered_with(
                        wider,
                        chosen,
                        start + 1,
                        place,
                    ));
                }
            }
        }
    }
}

/// A listing of a set of proofs holds each proof of the set at one place, and no
/// other. What is known of a listed proof is its bits and its data.
pub proof fn listings_are_complete(
    order: Seq<AggregatedSignatureProof>,
    proofs: Set<AggregatedSignatureProof>,
)
    requires
        lists(order, proofs),
    ensures
        forall|item: AggregatedSignatureProof| #[trigger]
            proofs.contains(item) <==> exists|i: int| 0 <= i < order.len() && order[i] == item,
        forall|i: int, j: int| 0 <= i < j < order.len() ==> order[i] != order[j],
        proof_views(order).len() == order.len(),
        forall|i: int|
            0 <= i < order.len() ==> {
                &&& (#[trigger] proof_views(order)[i]).participants == participant_bits(
                    order[i].participants,
                )
                &&& proof_views(order)[i].proof_data == order[i].proof_data@
            },
{
    assert forall|item: AggregatedSignatureProof| #[trigger] proofs.contains(item) <==> exists|
        i: int,
    |
        0 <= i < order.len() && order[i] == item by {
        assert(proofs.contains(item) <==> order.to_set().contains(item));
        assert(order.to_set().contains(item) <==> order.contains(item));
    }
}

} // verus!
