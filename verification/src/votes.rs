//! Votes for blocks that are not justified yet, kept by block root.

use crate::bytes::{hash_le, hash_order, is_before, same_hash, B256};
use crate::collections::{
    root_list, root_list_empty, root_list_push, vote_bits, votes_set, votes_to_vec,
    votes_with_capacity, HISTORICAL_ROOTS_LIMIT, JUSTIFICATION_VOTES_LIMIT,
    VALIDATOR_REGISTRY_LIMIT,
};
use crate::error::StateError;
use crate::model::{flat_votes, pending_votes, root_slot};
use itertools::Itertools;
use ssz_types::typenum::{U1073741824, U262144};
use ssz_types::{BitList, VariableList};
use vstd::prelude::*;
use vstd::relations::sorted_by;

verus! {

/// The order of pairs: the first parts decide, unless they are the same.
pub open spec fn entry_order() -> spec_fn((B256, usize), (B256, usize)) -> bool {
    |left: (B256, usize), right: (B256, usize)|
        if left.0 == right.0 {
            left.1 <= right.1
        } else {
            hash_le(left.0, right.0)
        }
}

/// `Itertools::sorted` hands out the same items, the smallest first. Of pairs the
/// first parts are compared first; arrays of bytes are compared byte by byte from
/// the front.
#[verifier::external_body]
fn sorted_entries(entries: Vec<(B256, usize)>) -> (sorted: Vec<(B256, usize)>)
    ensures
        sorted@.to_multiset() == entries@.to_multiset(),
        sorted_by(sorted@, entry_order()),
{
    entries.into_iter().sorted().collect()
}

/// The last slot after `base` at which the history holds `root`.
pub fn last_slot_of(history: &[B256], base: u64, root: &B256) -> (slot: Option<u64>)
    ensures
        match slot {
            Some(position) => root_slot(history@, base + 1, history@.len() as int, *root) == Some(
                position as int,
            ),
            None => root_slot(history@, base + 1, history@.len() as int, *root) is None,
        },
{
    let mut end: usize = history.len();
    while end > 0 && (end - 1) as u64 > base
        invariant
            end <= history@.len(),
            root_slot(history@, base + 1, history@.len() as int, *root) == root_slot(
                history@,
                base + 1,
                end as int,
                *root,
            ),
        decreases end,
    {
        if same_hash(&history[end - 1], root) {
            return Some((end - 1) as u64);
        }
        end -= 1;
    }
    None
}

/// The votes for each of some block roots, one for each validator. No root
/// occurs twice.
pub struct VoteTable {
    validators: usize,
    roots: Vec<B256>,
    votes: Vec<BitList<U1073741824>>,
}

impl View for VoteTable {
    type V = Map<B256, Seq<bool>>;

    closed spec fn view(&self) -> Map<B256, Seq<bool>> {
        Map::new(
            |root: B256| self.roots@.contains(root),
            |root: B256| vote_bits(self.votes@[self.roots@.index_of(root)]),
        )
    }
}

impl VoteTable {
    /// The number of validators that can vote.
    pub closed spec fn electorate(&self) -> nat {
        self.validators as nat
    }

    /// No root occurs twice, and each has one vote for each validator.
    pub closed spec fn wf(&self) -> bool {
        &&& self.validators <= VALIDATOR_REGISTRY_LIMIT
        &&& self.roots@.len() == self.votes@.len()
        &&& self.roots@.no_duplicates()
        &&& forall|i: int|
            0 <= i < self.votes@.len() ==> vote_bits(#[trigger] self.votes@[i]).len()
                == self.validators
    }

    /// In a well-formed table a root is found at one place only.
    proof fn lemma_entry(&self, i: int)
        requires
            self.wf(),
            0 <= i < self.roots@.len(),
        ensures
            self@.contains_key(self.roots@[i]),
            self@[self.roots@[i]] == vote_bits(self.votes@[i]),
            self.roots@.index_of(self.roots@[i]) == i,
    {
        let root = self.roots@[i];
        assert(self.roots@.contains(root));
        let j = self.roots@.index_of(root);
        assert(0 <= j < self.roots@.len() && self.roots@[j] == root);
    }

    /// The table holds votes of the right length, for finitely many roots.
    pub proof fn lemma_contents(&self)
        requires
            self.wf(),
        ensures
            self@.dom().finite(),
            forall|root: B256| #[trigger]
                self@.contains_key(root) ==> self@[root].len() == self.electorate(),
    {
        assert(self@.dom() =~= self.roots@.to_set());
        assert forall|root: B256| #[trigger] self@.contains_key(root) implies self@[root].len()
            == self.electorate() by {
            let i = self.roots@.index_of(root);
            assert(0 <= i < self.roots@.len() && self.roots@[i] == root);
            assert(vote_bits(self.votes@[i]).len() == self.validators);
        }
    }

    /// A table without votes.
    pub fn new(validators: usize) -> (table: Self)
        requires
            validators <= VALIDATOR_REGISTRY_LIMIT,
        ensures
            table.wf(),
            table.electorate() == validators,
            table@ == Map::<B256, Seq<bool>>::empty(),
    {
        let table = VoteTable { validators, roots: Vec::new(), votes: Vec::new() };
        assert(table@ =~= Map::<B256, Seq<bool>>::empty());
        table
    }

    /// The place of a root.
    fn find(&self, root: &B256) -> (place: Option<usize>)
        ensures
            match place {
                Some(i) => i < self.roots@.len() && self.roots@[i as int] == *root,
                None => !self.roots@.contains(*root),
            },
    {
        let mut i: usize = 0;
        while i < self.roots.len()
            invariant
                i <= self.roots@.len(),
                forall|j: int| 0 <= j < i ==> self.roots@[j] != *root,
            decreases self.roots@.len() - i,
        {
            if same_hash(&self.roots[i], root) {
                return Some(i);
            }
            i += 1;
        }
        None
    }

    /// Takes the votes at a place out of the table. The last root moves there.
    fn take_at(&mut self, i: usize) -> (bits: BitList<U1073741824>)
        requires
            old(self).wf(),
            i < old(self).roots@.len(),
        ensures
            final(self).wf(),
            final(self).electorate() == old(self).electorate(),
            final(self).roots@ == old(self).roots@.update(
                i as int,
                old(self).roots@.last(),
            ).drop_last(),
            final(self)@ == old(self)@.remove(old(self).roots@[i as int]),
            vote_bits(bits) == old(self)@[old(self).roots@[i as int]],
    {
        proof {
            self.lemma_entry(i as int);
        }
        let root = self.roots.swap_remove(i);
        let bits = self.votes.swap_remove(i);
        proof {
            let before = *old(self);
            let last = before.roots@.len() - 1;
            let old_place = |j: int|
                if j == i {
                    last
                } else {
                    j
                };
            assert forall|j: int| 0 <= j < self.roots@.len() implies #[trigger] self.roots@[j]
                == before.roots@[old_place(j)] && self.votes@[j] == before.votes@[old_place(j)] by {}
            assert(self.wf()) by {
                assert forall|j: int| 0 <= j < self.votes@.len() implies vote_bits(
                    #[trigger] self.votes@[j],
                ).len() == self.validators by {
                    assert(self.roots@[j] == before.roots@[old_place(j)]);
                }
            }
            assert forall|r: B256| self@.contains_key(r) <==> before@.remove(root).contains_key(
                r,
            ) by {
                if self.roots@.contains(r) {
                    let j = self.roots@.index_of(r);
                    assert(before.roots@[old_place(j)] == r);
                }
                if before.roots@.contains(r) && r != root {
                    let j = before.roots@.index_of(r);
                    assert(self.roots@[if j == last {
                        i as int
                    } else {
                        j
                    }] == r);
                }
            }
            assert forall|r: B256| #[trigger] self@.contains_key(r) implies self@[r]
                == before@[r] by {
                let j = self.roots@.index_of(r);
                before.lemma_entry(old_place(j));
                self.lemma_entry(j);
            }
            assert(self@ =~= before@.remove(root));
        }
        bits
    }

    /// Takes the votes for a root out of the table.
    pub fn take(&mut self, root: &B256) -> (votes: Option<BitList<U1073741824>>)
        requires
            old(self).wf(),
        ensures
            final(self).wf(),
            final(self).electorate() == old(self).electorate(),
            final(self)@ == old(self)@.remove(*root),
            votes is Some <==> old(self)@.contains_key(*root),
            votes matches Some(bits) ==> vote_bits(bits) == old(self)@[*root],
    {
        match self.find(root) {
            None => {
                assert(self@ =~= old(self)@.remove(*root));
                None
            },
            Some(i) => {
                proof {
                    self.lemma_entry(i as int);
                }
                Some(self.take_at(i))
            },
        }
    }

    /// Puts the votes for a root into the table, which has none for it yet.
    fn add_entry(&mut self, root: B256, bits: BitList<U1073741824>)
        requires
            old(self).wf(),
            !old(self).roots@.contains(root),
            vote_bits(bits).len() == old(self).electorate(),
        ensures
            final(self).wf(),
            final(self).electorate() == old(self).electorate(),
            final(self).roots@ == old(self).roots@.push(root),
            final(self)@ == old(self)@.insert(root, vote_bits(bits)),
    {
        let ghost before = *self;
        let ghost entry = vote_bits(bits);
        self.roots.push(root);
        self.votes.push(bits);
        proof {
            assert(self.wf());
            assert forall|r: B256| self@.contains_key(r) <==> before@.insert(
                root,
                entry,
            ).contains_key(r) by {
                if before.roots@.contains(r) {
                    let j = before.roots@.index_of(r);
                    assert(self.roots@[j] == r);
                }
                if r == root {
                    assert(self.roots@[before.roots@.len() as int] == r);
                }
            }
            assert forall|r: B256| #[trigger] self@.contains_key(r) implies self@[r]
                == before@.insert(root, entry)[r] by {
                let j = self.roots@.index_of(r);
                self.lemma_entry(j);
                if j < before.roots@.len() {
                    before.lemma_entry(j);
                }
            }
            assert(self@ =~= before@.insert(root, entry));
        }
    }

    /// Puts the votes for a root into the table, in place of those that it has.
    pub fn insert(&mut self, root: B256, bits: BitList<U1073741824>)
        requires
            old(self).wf(),
            vote_bits(bits).len() == old(self).electorate(),
        ensures
            final(self).wf(),
            final(self).electorate() == old(self).electorate(),
            final(self)@ == old(self)@.insert(root, vote_bits(bits)),
    {
        let _previous = self.take(&root);
        assert(!self@.contains_key(root));
        let ghost entry = vote_bits(bits);
        self.add_entry(root, bits);
        assert(self@ =~= old(self)@.insert(root, entry));
    }

    /// The table of pending votes that a state holds in one list.
    pub fn load(roots: &[B256], flat: &[bool], validators: usize) -> (table: Self)
        requires
            validators <= VALIDATOR_REGISTRY_LIMIT,
            roots@.len() <= HISTORICAL_ROOTS_LIMIT,
            flat@.len() == roots@.len() * validators,
        ensures
            table.wf(),
            table.electorate() == validators,
            table@ == pending_votes(roots@, flat@, validators as nat, roots@.len()),
    {
        let total: usize = flat.len();
        let mut table = VoteTable::new(validators);
        proof {
            if table.roots@.len() > 0 {
                table.lemma_entry(0);
            }
            assert(table.roots@ =~= roots@.take(0));
        }
        // While the roots come in ascending order, none of them is in the table.
        let mut ascending = true;
        let mut i: usize = 0;
        while i < roots.len()
            invariant
                ascending ==> {
                    &&& table.roots@ == roots@.take(i as int)
                    &&& forall|j: int|
                        0 <= j < i ==> hash_le(#[trigger] roots@[j], roots@[i - 1])
                },
                i <= roots@.len(),
                total == flat@.len(),
                validators <= VALIDATOR_REGISTRY_LIMIT,
                roots@.len() <= HISTORICAL_ROOTS_LIMIT,
                flat@.len() == roots@.len() * validators,
                table.wf(),
                table.electorate() == validators,
                table@ == pending_votes(roots@, flat@, validators as nat, i as nat),
            decreases roots@.len() - i,
        {
            assert(i * validators + validators == (i + 1) * validators) by (nonlinear_arith);
            assert((i + 1) * validators <= roots@.len() * validators) by (nonlinear_arith)
                requires
                    i + 1 <= roots@.len(),
            ;
            let start: usize = i * validators;
            let bits = bits_from(flat, start, validators);
            if ascending && (i == 0 || is_before(&roots[i - 1], &roots[i])) {
                proof {
                    lemma_ascending(roots@, i as int);
                }
                table.add_entry(roots[i], bits);
                assert(roots@.take(i + 1) =~= roots@.take(i as int).push(roots@[i as int]));
            } else {
                ascending = false;
                table.insert(roots[i], bits);
            }
            i += 1;
        }
        table
    }

    /// Whether each root with votes is in the part of the history after `base`.
    pub fn all_known(&self, history: &[B256], base: u64) -> (known: bool)
        requires
            self.wf(),
        ensures
            known == forall|root: B256| #[trigger]
                self@.contains_key(root) ==> root_slot(
                    history@,
                    base + 1,
                    history@.len() as int,
                    root,
                ) is Some,
    {
        let mut i: usize = 0;
        while i < self.roots.len()
            invariant
                self.wf(),
                i <= self.roots@.len(),
                forall|j: int|
                    0 <= j < i ==> root_slot(
                        history@,
                        base + 1,
                        history@.len() as int,
                        #[trigger] self.roots@[j],
                    ) is Some,
            decreases self.roots@.len() - i,
        {
            if last_slot_of(history, base, &self.roots[i]).is_none() {
                proof {
                    self.lemma_entry(i as int);
                }
                return false;
            }
            i += 1;
        }
        true
    }

    /// Drops the votes for blocks up to the given slot, and those for blocks that
    /// are not in the part of the history after `base`.
    pub fn prune(&mut self, history: &[B256], base: u64, slot: u64)
        requires
            old(self).wf(),
        ensures
            final(self).wf(),
            final(self).electorate() == old(self).electorate(),
            final(self)@ == old(self)@.restrict(
                old(self)@.dom().filter(
                    |root: B256|
                        root_slot(history@, base + 1, history@.len() as int, root) matches Some(
                            position,
                        ) && position > slot,
                ),
            ),
    {
        let ghost before = *self;
        let ghost keep = |root: B256|
            root_slot(history@, base + 1, history@.len() as int, root) matches Some(position)
                && position > slot;
        let mut i: usize = 0;
        while i < self.roots.len()
            invariant
                self.wf(),
                self.electorate() == before.electorate(),
                i <= self.roots@.len(),
                keep == (|root: B256|
                    root_slot(history@, base + 1, history@.len() as int, root) matches Some(
                        position,
                    ) && position > slot),
                forall|j: int| 0 <= j < i ==> keep(#[trigger] self.roots@[j]),
                forall|root: B256| #[trigger]
                    self@.contains_key(root) ==> before@.contains_key(root) && self@[root]
                        == before@[root],
                forall|root: B256| #[trigger]
                    before@.contains_key(root) && keep(root) ==> self@.contains_key(root),
            decreases self.roots@.len() - i,
        {
            let after = match last_slot_of(history, base, &self.roots[i]) {
                Some(position) => position > slot,
                None => false,
            };
            if after {
                i += 1;
            } else {
                let _dropped = self.take_at(i);
            }
        }
        proof {
            let kept = before@.restrict(before@.dom().filter(keep));
            assert forall|root: B256| self@.contains_key(root) <==> kept.contains_key(root) by {
                if self@.contains_key(root) {
                    let j = self.roots@.index_of(root);
                    assert(keep(self.roots@[j]));
                }
            }
            assert(self@ =~= kept);
        }
    }
}

impl VoteTable {
    /// The roots with votes in the order of their bytes, and their votes one root
    /// after the other, unless there are more roots than a state can hold.
    pub fn store(&self) -> (stored: Result<
        (VariableList<B256, U262144>, BitList<U1073741824>),
        StateError,
    >)
        requires
            self.wf(),
        ensures
            ({
                let sorted = self@.dom().to_sorted_seq(hash_order());
                match stored {
                    Ok((roots, votes)) => {
                        &&& sorted.len() <= HISTORICAL_ROOTS_LIMIT
                        &&& root_list(roots) == sorted
                        &&& vote_bits(votes) == flat_votes(sorted, self@)
                    },
                    Err(error) => {
                        &&& sorted.len() > HISTORICAL_ROOTS_LIMIT
                        &&& error == StateError::JustificationRootsFull
                    },
                }
            }),
    {
        let unsorted = self.entries();
        let ghost named = unsorted@;
        let entries = sorted_entries(unsorted);
        let ghost sorted = entry_roots(entries@);
        proof {
            self.lemma_contents();
            assert(self@.dom() =~= self.roots@.to_set());
            assert(self.are_entries(named));
            self.lemma_sorted_entries(entries@);
            lemma_sorted_set(sorted, self@.dom());
        }
        let mut roots = root_list_empty();
        let mut flat: Vec<bool> = Vec::new();
        let mut i: usize = 0;
        assert(sorted.take(0) =~= Seq::empty());
        while i < entries.len()
            invariant
                self.wf(),
                i <= entries@.len(),
                i <= HISTORICAL_ROOTS_LIMIT,
                sorted == entry_roots(entries@),
                sorted == self@.dom().to_sorted_seq(hash_order()),
                forall|j: int|
                    0 <= j < entries@.len() ==> {
                        &&& (#[trigger] entries@[j]).1 < self.roots@.len()
                        &&& self.roots@[entries@[j].1 as int] == entries@[j].0
                    },
                root_list(roots) == sorted.take(i as int),
                flat@ == flat_votes(sorted.take(i as int), self@),
                flat@.len() == i * self.validators,
            decreases entries@.len() - i,
        {
            let (root, place) = entries[i];
            match root_list_push(&mut roots, root) {
                Ok(_) => {},
                Err(_) => {
                    return Err(StateError::JustificationRootsFull);
                },
            }
            proof {
                self.lemma_entry(place as int);
                assert(sorted[i as int] == root);
                assert(sorted.take(i + 1).drop_last() =~= sorted.take(i as int));
                assert(sorted.take(i + 1) =~= sorted.take(i as int).push(root));
                assert((i + 1) * self.validators == i * self.validators + self.validators)
                    by (nonlinear_arith);
            }
            let mut votes = votes_to_vec(&self.votes[place]);
            flat.append(&mut votes);
            i += 1;
        }
        assert(sorted.take(i as int) =~= sorted);
        assert(i * self.validators <= JUSTIFICATION_VOTES_LIMIT) by (nonlinear_arith)
            requires
                i <= HISTORICAL_ROOTS_LIMIT,
                self.validators <= VALIDATOR_REGISTRY_LIMIT,
        ;
        let total: usize = flat.len();
        let votes = bits_from(&flat, 0, total);
        assert(flat@.subrange(0, total as int) =~= flat@);
        Ok((roots, votes))
    }

    /// The roots, each with its place.
    fn entries(&self) -> (entries: Vec<(B256, usize)>)
        ensures
            entries@.len() == self.roots@.len(),
            forall|i: int|
                0 <= i < entries@.len() ==> #[trigger] entries@[i] == (
                    self.roots@[i],
                    i as usize,
                ) && i <= usize::MAX,
    {
        let mut entries: Vec<(B256, usize)> = Vec::new();
        let mut i: usize = 0;
        while i < self.roots.len()
            invariant
                i <= self.roots@.len(),
                entries@.len() == i,
                forall|j: int|
                    0 <= j < i ==> #[trigger] entries@[j] == (self.roots@[j], j as usize) && j
                        <= usize::MAX,
            decreases self.roots@.len() - i,
        {
            entries.push((self.roots[i], i));
            i += 1;
        }
        entries
    }

    /// The entries in order name each root of the table once, at its place.
    proof fn lemma_sorted_entries(&self, sorted: Seq<(B256, usize)>)
        requires
            self.wf(),
            sorted_by(sorted, entry_order()),
            exists|entries: Seq<(B256, usize)>| #[trigger]
                self.are_entries(entries) && sorted.to_multiset() == entries.to_multiset(),
        ensures
            entry_roots(sorted).no_duplicates(),
            entry_roots(sorted).to_set() == self.roots@.to_set(),
            sorted_by(entry_roots(sorted), hash_order()),
            forall|i: int|
                0 <= i < sorted.len() ==> {
                    &&& (#[trigger] sorted[i]).1 < self.roots@.len()
                    &&& self.roots@[sorted[i].1 as int] == sorted[i].0
                },
    {
        broadcast use vstd::seq_lib::group_to_multiset_ensures;

        let entries = choose|entries: Seq<(B256, usize)>| #[trigger]
            self.are_entries(entries) && sorted.to_multiset() == entries.to_multiset();
        let roots = entry_roots(sorted);
        assert(entries.no_duplicates());
        entries.lemma_multiset_has_no_duplicates();
        assert forall|entry: (B256, usize)| sorted.to_multiset().contains(
            entry,
        ) implies sorted.to_multiset().count(entry) == 1 by {
            assert(entries.to_multiset().contains(entry));
        }
        sorted.lemma_multiset_has_no_duplicates_conv();
        assert forall|i: int| 0 <= i < sorted.len() implies (#[trigger] sorted[i]).1
            < self.roots@.len() && self.roots@[sorted[i].1 as int] == sorted[i].0 by {
            assert(sorted.contains(sorted[i]));
            assert(sorted.to_multiset().contains(sorted[i]));
            assert(entries.contains(sorted[i]));
        }
        assert forall|i: int, j: int| 0 <= i < j < roots.len() implies roots[i] != roots[j] by {
            assert(sorted[i] != sorted[j]);
        }
        assert forall|i: int, j: int| 0 <= i < j < roots.len() implies #[trigger] hash_order()(
            roots[i],
            roots[j],
        ) by {
            assert(entry_order()(sorted[i], sorted[j]));
        }
        assert forall|root: B256| roots.to_set().contains(root) <==> self.roots@.to_set().contains(
            root,
        ) by {
            if roots.contains(root) {
                let i = choose|i: int| 0 <= i < roots.len() && roots[i] == root;
                assert(self.roots@[sorted[i].1 as int] == root);
            }
            if self.roots@.contains(root) {
                let i = choose|i: int| 0 <= i < self.roots@.len() && self.roots@[i] == root;
                assert(entries[i] == (root, i as usize));
                assert(entries.to_multiset().contains(entries[i]));
                assert(sorted.contains(entries[i]));
                let j = choose|j: int| 0 <= j < sorted.len() && sorted[j] == entries[i];
                assert(roots[j] == root);
            }
        }
        assert(roots.to_set() =~= self.roots@.to_set());
    }

    /// Whether the list names each root of the table with its place.
    spec fn are_entries(&self, entries: Seq<(B256, usize)>) -> bool {
        &&& entries.len() == self.roots@.len()
        &&& forall|i: int|
            0 <= i < entries.len() ==> #[trigger] entries[i] == (self.roots@[i], i as usize) && i
                <= usize::MAX
    }
}

/// The roots of a list of entries.
pub open spec fn entry_roots(entries: Seq<(B256, usize)>) -> Seq<B256> {
    entries.map_values(|entry: (B256, usize)| entry.0)
}

/// In a list that ascends up to `upto`, the root there does not occur before.
proof fn lemma_ascending(roots: Seq<B256>, upto: int)
    requires
        0 <= upto < roots.len(),
        forall|j: int| 0 <= j < upto ==> hash_le(#[trigger] roots[j], roots[upto - 1]),
        upto > 0 ==> hash_le(roots[upto - 1], roots[upto]) && roots[upto - 1] != roots[upto],
    ensures
        !roots.take(upto).contains(roots[upto]),
        forall|j: int| 0 <= j <= upto ==> hash_le(#[trigger] roots[j], roots[upto]),
{
    let leq = hash_order();
    crate::bytes::hash_order_is_total();
    assert forall|j: int| 0 <= j < upto implies #[trigger] roots[j] != roots[upto] && hash_le(
        roots[j],
        roots[upto],
    ) by {
        assert(leq(roots[j], roots[upto - 1]) && leq(roots[upto - 1], roots[upto]));
        if roots[j] == roots[upto] {
            assert(leq(roots[upto], roots[upto - 1]));
        }
    }
    if roots.take(upto).contains(roots[upto]) {
        let j = choose|j: int|
            0 <= j < roots.take(upto).len() && roots.take(upto)[j] == roots[upto];
        assert(roots[j] == roots[upto]);
    }
}

/// Listing a finite set names no item twice.
proof fn lemma_set_listed_once(set: Set<B256>)
    requires
        set.finite(),
    ensures
        set.to_seq().no_duplicates(),
        set.to_seq().to_set() == set,
    decreases set.len(),
{
    set.lemma_to_seq_to_set_id();
    if set.len() != 0 {
        let first = set.choose();
        let rest = set.remove(first).to_seq();
        lemma_set_listed_once(set.remove(first));
        assert(!rest.contains(first)) by {
            if rest.contains(first) {
                assert(rest.to_set().contains(first));
            }
        }
        assert(set.to_seq() == Seq::<B256>::empty().push(first) + rest);
    }
}

/// Two lists of the same items, each item once, hold each item equally often.
proof fn lemma_same_items(left: Seq<B256>, right: Seq<B256>)
    requires
        left.no_duplicates(),
        right.no_duplicates(),
        left.to_set() == right.to_set(),
    ensures
        left.to_multiset() == right.to_multiset(),
{
    broadcast use vstd::seq_lib::group_to_multiset_ensures;

    left.lemma_multiset_has_no_duplicates();
    right.lemma_multiset_has_no_duplicates();
    assert forall|hash: B256| left.to_multiset().count(hash) == right.to_multiset().count(hash) by {
        assert(left.contains(hash) <==> left.to_set().contains(hash));
        assert(right.contains(hash) <==> right.to_set().contains(hash));
        assert(left.to_multiset().contains(hash) <==> left.contains(hash));
        assert(right.to_multiset().contains(hash) <==> right.contains(hash));
    }
    assert(left.to_multiset() =~= right.to_multiset());
}

/// A sorted list that holds each item of a set once is the sorted list of the
/// set.
pub proof fn lemma_sorted_set(sorted: Seq<B256>, set: Set<B256>)
    requires
        sorted.no_duplicates(),
        sorted.to_set() == set,
        sorted_by(sorted, hash_order()),
    ensures
        sorted == set.to_sorted_seq(hash_order()),
{
    crate::bytes::hash_order_is_total();
    lemma_set_listed_once(set);
    lemma_same_items(sorted, set.to_seq());
    set.to_seq().lemma_sort_by_ensures(hash_order());
    vstd::seq_lib::lemma_sorted_unique(sorted, set.to_sorted_seq(hash_order()), hash_order());
}

/// The sorted list of a finite set holds each of its items once.
pub proof fn lemma_sorted_set_items(set: Set<B256>)
    requires
        set.finite(),
    ensures
        set.to_sorted_seq(hash_order()).no_duplicates(),
        set.to_sorted_seq(hash_order()).to_set() == set,
        set.to_sorted_seq(hash_order()).len() == set.len(),
        sorted_by(set.to_sorted_seq(hash_order()), hash_order()),
{
    broadcast use vstd::seq_lib::group_to_multiset_ensures;

    let listed = set.to_seq();
    let sorted = set.to_sorted_seq(hash_order());
    crate::bytes::hash_order_is_total();
    lemma_set_listed_once(set);
    listed.lemma_sort_by_ensures(hash_order());
    listed.lemma_multiset_has_no_duplicates();
    assert forall|hash: B256| sorted.to_multiset().contains(hash) implies sorted.to_multiset().count(
        hash,
    ) == 1 by {
        assert(listed.to_multiset().contains(hash));
    }
    sorted.lemma_multiset_has_no_duplicates_conv();
    assert forall|hash: B256| sorted.to_set().contains(hash) <==> set.contains(hash) by {
        assert(sorted.contains(hash) <==> sorted.to_multiset().contains(hash));
        assert(listed.contains(hash) <==> listed.to_multiset().contains(hash));
        assert(listed.contains(hash) <==> listed.to_set().contains(hash));
    }
    assert(sorted.to_set() =~= set);
    sorted.unique_seq_to_set();
}

/// The bits of `flat` from `start` on as a list of `length` votes.
fn bits_from(flat: &[bool], start: usize, length: usize) -> (bits: BitList<U1073741824>)
    requires
        start + length <= flat@.len(),
        length <= JUSTIFICATION_VOTES_LIMIT,
    ensures
        vote_bits(bits) == flat@.subrange(start as int, start + length),
{
    let mut bits = match votes_with_capacity(length) {
        Ok(bits) => bits,
        Err(_) => vstd::pervasive::unreached(),
    };
    let total: usize = flat.len();
    let mut i: usize = 0;
    while i < length
        invariant
            i <= length,
            total == flat@.len(),
            start + length <= flat@.len(),
            vote_bits(bits).len() == length,
            forall|j: int| 0 <= j < i ==> vote_bits(bits)[j] == flat@[start + j],
        decreases length - i,
    {
        let _done = votes_set(&mut bits, i, flat[start + i]);
        i += 1;
    }
    assert(vote_bits(bits) =~= flat@.subrange(start as int, start + length));
    bits
}

} // verus!
