//! The allocation pool: which identifiers of a fixed range have been issued,
//! and the selection of the free identifier of a given rank.

use crate::error::Error;
use std::collections::HashMap;
use vstd::prelude::*;

verus! {

broadcast use vstd::std_specs::hash::group_hash_axioms;

/// The number of identifiers below `bound` that are not in `issued`.
pub open spec fn free_below(issued: Set<u128>, bound: nat) -> nat
    decreases bound,
{
    if bound == 0 {
        0
    } else {
        let rest = free_below(issued, (bound - 1) as nat);
        if issued.contains((bound - 1) as u128) {
            rest
        } else {
            rest + 1
        }
    }
}

/// `id` is free and is the `rank`-th free identifier, counting from 1 in
/// ascending order.
pub open spec fn is_nth_free(issued: Set<u128>, rank: nat, id: u128) -> bool {
    !issued.contains(id) && free_below(issued, id as nat) + 1 == rank
}

/// The `rank`-th free identifier, where there is one.
pub open spec fn nth_free(issued: Set<u128>, rank: nat) -> u128 {
    choose|id: u128| is_nth_free(issued, rank, id)
}

/// A pool as a mathematical value: the size of the identifier range, and the
/// identifiers issued so far.
pub struct PoolView {
    pub total: nat,
    pub issued: Set<u128>,
}

impl PoolView {
    /// Only identifiers of the range are issued, and finitely many.
    pub open spec fn wf(self) -> bool {
        &&& self.total <= u128::MAX
        &&& self.issued.finite()
        &&& forall|id: u128| self.issued.contains(id) ==> id < self.total
    }

    /// The pool of a given size of which nothing has been issued.
    pub open spec fn fresh(total: nat) -> PoolView {
        PoolView { total, issued: Set::empty() }
    }

    /// How many identifiers have been issued.
    pub open spec fn issued_count(self) -> nat {
        self.issued.len()
    }

    /// How many identifiers are left to issue.
    pub open spec fn remaining(self) -> nat {
        (self.total - self.issued.len()) as nat
    }

    /// `id` is in the range and has not been issued.
    pub open spec fn is_free(self, id: u128) -> bool {
        id < self.total && !self.issued.contains(id)
    }

    /// The pool after `id` has been issued.
    pub open spec fn commit(self, id: u128) -> PoolView {
        PoolView { total: self.total, issued: self.issued.insert(id) }
    }

    /// What a selection by rank gives: the free identifier of that rank, or
    /// the reason why there is none.
    pub open spec fn select(self, rank: nat) -> Result<u128, Error> {
        if self.remaining() == 0 {
            Err(Error::PoolExhausted)
        } else if rank < 1 || rank > self.remaining() {
            Err(Error::InvariantViolation)
        } else {
            Ok(nth_free(self.issued, rank))
        }
    }

    /// The pool after a selection by rank: the selected identifier is issued,
    /// and a failed selection changes nothing.
    pub open spec fn after_select(self, rank: nat) -> PoolView {
        match self.select(rank) {
            Ok(id) => self.commit(id),
            Err(_) => self,
        }
    }
}

/// The free count grows with the bound, by at most one for each identifier.
pub proof fn lemma_free_below_monotonic(issued: Set<u128>, low: nat, high: nat)
    requires
        low <= high,
    ensures
        free_below(issued, low) <= free_below(issued, high),
        free_below(issued, high) - free_below(issued, low) <= high - low,
    decreases high,
{
    if low < high {
        lemma_free_below_monotonic(issued, low, (high - 1) as nat);
    }
}

/// The free count below a bound depends only on the identifiers below it.
proof fn lemma_free_below_agrees(first: Set<u128>, second: Set<u128>, bound: nat)
    requires
        bound <= u128::MAX + 1,
        forall|id: u128| id < bound ==> first.contains(id) == second.contains(id),
    ensures
        free_below(first, bound) == free_below(second, bound),
    decreases bound,
{
    if bound > 0 {
        lemma_free_below_agrees(first, second, (bound - 1) as nat);
    }
}

/// Of the identifiers below a bound, those that are not issued are free.
proof fn lemma_free_and_issued(issued: Set<u128>, bound: nat)
    requires
        bound <= u128::MAX + 1,
        issued.finite(),
        forall|id: u128| issued.contains(id) ==> id < bound,
    ensures
        free_below(issued, bound) + issued.len() == bound,
    decreases bound,
{
    if bound == 0 {
        assert(issued =~= Set::empty());
    } else {
        let last = (bound - 1) as u128;
        let rest = issued.remove(last);
        lemma_free_and_issued(rest, (bound - 1) as nat);
        lemma_free_below_agrees(issued, rest, (bound - 1) as nat);
    }
}

/// The free identifiers of a pool are as many as remain.
pub proof fn lemma_remaining_is_free_count(pool: PoolView)
    requires
        pool.wf(),
    ensures
        free_below(pool.issued, pool.total) == pool.remaining(),
        pool.issued_count() + pool.remaining() == pool.total,
{
    lemma_free_and_issued(pool.issued, pool.total);
}

/// Every rank up to the free count below a bound is the rank of a free
/// identifier below that bound.
pub proof fn lemma_nth_free_exists(issued: Set<u128>, bound: nat, rank: nat) -> (id: u128)
    requires
        bound <= u128::MAX + 1,
        1 <= rank <= free_below(issued, bound),
    ensures
        id < bound,
        is_nth_free(issued, rank, id),
    decreases bound,
{
    if rank <= free_below(issued, (bound - 1) as nat) {
        lemma_nth_free_exists(issued, (bound - 1) as nat, rank)
    } else {
        (bound - 1) as u128
    }
}

/// No two identifiers have the same rank.
pub proof fn lemma_nth_free_unique(issued: Set<u128>, rank: nat, first: u128, second: u128)
    requires
        is_nth_free(issued, rank, first),
        is_nth_free(issued, rank, second),
    ensures
        first == second,
{
    if first < second {
        lemma_free_below_monotonic(issued, (first + 1) as nat, second as nat);
    } else if second < first {
        lemma_free_below_monotonic(issued, (second + 1) as nat, first as nat);
    }
}

/// A selection by a rank from 1 to what remains gives the one free
/// identifier of that rank.
pub proof fn lemma_select_in_range(pool: PoolView, rank: nat)
    requires
        pool.wf(),
        1 <= rank <= pool.remaining(),
    ensures
        pool.select(rank) is Ok,
        pool.is_free(pool.select(rank)->Ok_0),
        is_nth_free(pool.issued, rank, pool.select(rank)->Ok_0),
        pool.after_select(rank).wf(),
        pool.after_select(rank).remaining() == pool.remaining() - 1,
{
    lemma_remaining_is_free_count(pool);
    let witness = lemma_nth_free_exists(pool.issued, pool.total, rank);
    let id = nth_free(pool.issued, rank);
    lemma_nth_free_unique(pool.issued, rank, witness, id);
}

/// A fixed range of identifiers, each issued at most once.
pub struct AllocationPool {
    total_count: u128,
    issued_count: u128,
    /// Sparse: an identifier that is absent has not been issued.
    issued: HashMap<u128, bool>,
}

impl View for AllocationPool {
    type V = PoolView;

    closed spec fn view(&self) -> PoolView {
        PoolView { total: self.total_count as nat, issued: self.issued@.dom() }
    }
}

impl AllocationPool {
    /// The count kept and the flags stored agree with the identifiers issued.
    pub closed spec fn counted(&self) -> bool {
        &&& self.issued@.dom().len() == self.issued_count
        &&& self.issued_count <= self.total_count
        &&& forall|id: u128| self.issued@.contains_key(id) ==> self.issued@[id]
    }

    /// The invariant of a pool.
    pub open spec fn wf(&self) -> bool {
        self@.wf() && self.counted()
    }

    /// A pool of `total_count` identifiers, none of them issued.
    pub fn new(total_count: u128) -> (pool: AllocationPool)
        ensures
            pool.wf(),
            pool@ == PoolView::fresh(total_count as nat),
    {
        AllocationPool { total_count, issued_count: 0, issued: HashMap::new() }
    }

    /// The size of the identifier range.
    pub fn total_count(&self) -> (count: u128)
        ensures
            count == self@.total,
    {
        self.total_count
    }

    /// How many identifiers have been issued.
    pub fn issued_count(&self) -> (count: u128)
        requires
            self.wf(),
        ensures
            count == self@.issued_count(),
    {
        self.issued_count
    }

    /// How many identifiers are left to issue.
    pub fn remaining(&self) -> (count: u128)
        requires
            self.wf(),
        ensures
            count == self@.remaining(),
            count + self@.issued_count() == self@.total,
    {
        self.total_count - self.issued_count
    }

    /// Whether `id` has been issued.
    pub fn is_issued(&self, id: u128) -> (issued: bool)
        requires
            self.wf(),
        ensures
            issued == self@.issued.contains(id),
    {
        self.issued.contains_key(&id)
    }

    /// Rebuilds a pool from its size and the identifiers issued from it, in
    /// any order. There is none where an identifier lies outside the range
    /// or occurs twice.
    pub fn restore(total_count: u128, issued: &Vec<u128>) -> (restored: Option<AllocationPool>)
        ensures
            restored is Some <==> issued@.no_duplicates() && forall|k: int|
                0 <= k < issued.len() ==> issued[k] < total_count,
            restored matches Some(pool) ==> {
                &&& pool.wf()
                &&& pool@.total == total_count
                &&& pool@.issued_count() == issued.len()
                &&& forall|id: u128| pool@.issued.contains(id) <==> issued@.contains(id)
            },
    {
        let mut pool = AllocationPool::new(total_count);
        let mut place: usize = 0;
        while place < issued.len()
            invariant
                pool.wf(),
                pool@.total == total_count,
                place <= issued.len(),
                pool@.issued_count() == place,
                forall|k: int| 0 <= k < place ==> issued[k] < total_count,
                forall|j: int, k: int| 0 <= j < k < place ==> issued[j] != issued[k],
                forall|id: u128|
                    pool@.issued.contains(id) <==> exists|k: int|
                        0 <= k < place && issued[k] == id,
            decreases issued.len() - place,
        {
            let id = issued[place];
            if id >= total_count || pool.is_issued(id) {
                proof {
                    if id < total_count {
                        let twin = choose|k: int| 0 <= k < place && issued[k] == id;
                        assert(issued@[twin] == issued@[place as int]);
                    }
                }
                return None;
            }
            pool.commit(id);
            place = place + 1;
            assert forall|other: u128| pool@.issued.contains(other) implies exists|k: int|
                0 <= k < place && issued[k] == other by {
                if other == id {
                    assert(issued[place - 1] == other);
                } else {
                    let k = choose|k: int| 0 <= k < place - 1 && issued[k] == other;
                    assert(issued[k] == other);
                }
            }
        }
        Some(pool)
    }

    /// The identifiers issued, in ascending order.
    pub fn issued_ids(&self) -> (ids: Vec<u128>)
        requires
            self.wf(),
        ensures
            ids.len() == self@.issued_count(),
            forall|j: int, k: int| 0 <= j < k < ids.len() ==> ids[j] < ids[k],
            forall|id: u128| ids@.contains(id) <==> self@.issued.contains(id),
    {
        let mut ids: Vec<u128> = Vec::new();
        let mut id: u128 = 0;
        while id < self.total_count
            invariant
                self.wf(),
                id <= self.total_count,
                forall|k: int| 0 <= k < ids.len() ==> ids[k] < id,
                forall|j: int, k: int| 0 <= j < k < ids.len() ==> ids[j] < ids[k],
                forall|other: u128|
                    ids@.contains(other) <==> other < id && self@.issued.contains(other),
            decreases self.total_count - id,
        {
            let ghost before = ids@;
            let taken = self.issued.contains_key(&id);
            if taken {
                ids.push(id);
            }
            proof {
                assert forall|other: u128|
                    ids@.contains(other) <==> other < id + 1 && self@.issued.contains(other) by {
                    if before.contains(other) {
                        let k = choose|k: int| 0 <= k < before.len() && before[k] == other;
                        assert(ids@[k] == other);
                    }
                    if taken {
                        assert(ids@[ids.len() - 1] == id);
                    }
                    if ids@.contains(other) {
                        let k = choose|k: int| 0 <= k < ids@.len() && ids@[k] == other;
                        if k < before.len() {
                            assert(before[k] == other);
                        }
                    }
                }
            }
            id = id + 1;
        }
        proof {
            ids@.unique_seq_to_set();
            assert(ids@.to_set() =~= self@.issued);
        }
        ids
    }

    /// Finds the free identifier of a rank, by a scan of the whole range in
    /// ascending order that counts the free identifiers it passes. The pool
    /// is left as it is.
    pub fn select(&self, rank: u128) -> (result: Result<u128, Error>)
        requires
            self.wf(),
        ensures
            result == self@.select(rank as nat),
    {
        let remaining = self.remaining();
        if remaining == 0 {
            return Err(Error::PoolExhausted);
        }
        if rank < 1 || rank > remaining {
            return Err(Error::InvariantViolation);
        }
        let mut passed: u128 = 0;
        let mut idx: u128 = 0;
        while idx < self.total_count
            invariant
                self.wf(),
                1 <= rank <= self@.remaining(),
                idx <= self.total_count,
                passed == free_below(self@.issued, idx as nat),
                passed < rank,
            decreases self.total_count - idx,
        {
            if !self.issued.contains_key(&idx) {
                passed = passed + 1;
                if passed == rank {
                    proof {
                        lemma_select_in_range(self@, rank as nat);
                        lemma_nth_free_unique(
                            self@.issued,
                            rank as nat,
                            idx,
                            nth_free(self@.issued, rank as nat),
                        );
                    }
                    return Ok(idx);
                }
            }
            idx = idx + 1;
        }
        proof {
            lemma_remaining_is_free_count(self@);
        }
        Err(Error::InvariantViolation)
    }

    /// Marks a free identifier as issued.
    pub(crate) fn commit(&mut self, id: u128)
        requires
            old(self).wf(),
            old(self)@.is_free(id),
        ensures
            final(self).wf(),
            final(self)@ == old(self)@.commit(id),
    {
        proof {
            lemma_remaining_is_free_count(self@);
            lemma_free_below_monotonic(self@.issued, (id + 1) as nat, self@.total);
        }
        self.issued.insert(id, true);
        self.issued_count = self.issued_count + 1;
        assert(self@.issued =~= old(self)@.issued.insert(id));
    }

    /// Selects the free identifier of a rank and marks it as issued. With
    /// nothing left it fails with `PoolExhausted`; with a rank that is not
    /// between 1 and what remains, with `InvariantViolation`. A failed
    /// selection leaves the pool as it was.
    pub fn select_and_commit(&mut self, rank: u128) -> (result: Result<u128, Error>)
        requires
            old(self).wf(),
        ensures
            final(self).wf(),
            result == old(self)@.select(rank as nat),
            final(self)@ == old(self)@.after_select(rank as nat),
    {
        let result = self.select(rank);
        if let Ok(id) = result {
            proof {
                lemma_select_in_range(self@, rank as nat);
            }
            self.commit(id);
        }
        result
    }
}

} // verus!
