//! What holds of a pool over any sequence of selections.

use crate::error::Error;
use crate::pool::{free_below, lemma_free_below_monotonic, lemma_nth_free_unique};
use crate::pool::{lemma_remaining_is_free_count, lemma_select_in_range, PoolView};
use vstd::prelude::*;

verus! {

impl PoolView {
    /// The pool after selections by the ranks of a sequence, in order.
    pub open spec fn run(self, ranks: Seq<nat>) -> PoolView
        decreases ranks.len(),
    {
        if ranks.len() == 0 {
            self
        } else {
            self.run(ranks.drop_last()).after_select(ranks.last())
        }
    }

    /// Every selection of the run gave an identifier.
    pub open spec fn run_succeeds(self, ranks: Seq<nat>) -> bool
        decreases ranks.len(),
    {
        ranks.len() == 0 || (self.run_succeeds(ranks.drop_last()) && self.run(
            ranks.drop_last(),
        ).select(ranks.last()) is Ok)
    }

    /// The identifiers that the selections of a successful run gave, in
    /// order.
    pub open spec fn run_ids(self, ranks: Seq<nat>) -> Seq<u128>
        decreases ranks.len(),
    {
        if ranks.len() == 0 {
            Seq::empty()
        } else {
            self.run_ids(ranks.drop_last()).push(
                self.run(ranks.drop_last()).select(ranks.last())->Ok_0,
            )
        }
    }
}

/// A successful run issues exactly the identifiers it gave: each was free
/// when the run began, none was given twice, and what remains has gone
/// down by one for each.
pub proof fn lemma_run(pool: PoolView, ranks: Seq<nat>)
    requires
        pool.wf(),
        pool.run_succeeds(ranks),
    ensures
        pool.run(ranks).wf(),
        pool.run(ranks).total == pool.total,
        pool.run_ids(ranks).len() == ranks.len(),
        ranks.len() <= pool.remaining(),
        pool.run(ranks).remaining() == pool.remaining() - ranks.len(),
        pool.run(ranks).issued_count() == pool.issued_count() + ranks.len(),
        pool.run_ids(ranks).no_duplicates(),
        forall|k: int| 0 <= k < ranks.len() ==> pool.is_free(#[trigger] pool.run_ids(ranks)[k]),
        forall|id: u128|
            pool.run(ranks).issued.contains(id) <==> pool.issued.contains(id) || pool.run_ids(
                ranks,
            ).contains(id),
    decreases ranks.len(),
{
    lemma_remaining_is_free_count(pool);
    if ranks.len() > 0 {
        let before = pool.run(ranks.drop_last());
        let earlier = pool.run_ids(ranks.drop_last());
        lemma_run(pool, ranks.drop_last());
        lemma_remaining_is_free_count(before);
        lemma_select_in_range(before, ranks.last());
        let id = before.select(ranks.last())->Ok_0;
        let ids = pool.run_ids(ranks);
        assert(ids == earlier.push(id));
        assert(!earlier.contains(id));
        assert forall|i: int, j: int| 0 <= i < ids.len() && 0 <= j < ids.len() && i != j implies ids[i]
            != ids[j] by {
            if i < earlier.len() {
                assert(earlier.contains(ids[i]));
            }
            if j < earlier.len() {
                assert(earlier.contains(ids[j]));
            }
        }
        assert forall|other: u128|
            pool.run(ranks).issued.contains(other) <==> pool.issued.contains(other)
                || ids.contains(other) by {
            if other == id {
                assert(ids[ids.len() - 1] == id);
            }
            if earlier.contains(other) {
                let k = choose|k: int| 0 <= k < earlier.len() && earlier[k] == other;
                assert(ids[k] == other);
            }
            if ids.contains(other) && other != id {
                let k = choose|k: int| 0 <= k < ids.len() && ids[k] == other;
                assert(earlier[k] == other);
            }
        }
    }
}

/// Exhaustion: after as many successful selections as a fresh pool has
/// identifiers, nothing remains, and one selection more fails with
/// `PoolExhausted` and changes nothing, whatever its rank.
pub proof fn lemma_exhaustion(total: nat, ranks: Seq<nat>, next: nat)
    requires
        total <= u128::MAX,
        ranks.len() == total,
        PoolView::fresh(total).run_succeeds(ranks),
    ensures
        PoolView::fresh(total).run(ranks).remaining() == 0,
        PoolView::fresh(total).run(ranks).select(next) == Err::<u128, Error>(Error::PoolExhausted),
        PoolView::fresh(total).run(ranks).after_select(next) == PoolView::fresh(total).run(ranks),
{
    lemma_run(PoolView::fresh(total), ranks);
}

/// A pool never gives more identifiers than it has left: a run longer than
/// what remains holds a selection that fails.
pub proof fn lemma_no_more_than_remaining(pool: PoolView, ranks: Seq<nat>)
    requires
        pool.wf(),
        ranks.len() > pool.remaining(),
    ensures
        !pool.run_succeeds(ranks),
{
    if pool.run_succeeds(ranks) {
        lemma_run(pool, ranks);
    }
}

/// Uniqueness: over any sequence of successful selections no identifier is
/// given twice, and none that had been issued before.
pub proof fn lemma_uniqueness(pool: PoolView, ranks: Seq<nat>, first: int, second: int)
    requires
        pool.wf(),
        pool.run_succeeds(ranks),
        0 <= first < second < ranks.len(),
    ensures
        pool.run_ids(ranks)[first] != pool.run_ids(ranks)[second],
        !pool.issued.contains(pool.run_ids(ranks)[first]),
        pool.run_ids(ranks)[first] < pool.total,
{
    lemma_run(pool, ranks);
}

/// Coverage: no free identifier is out of reach. Each is selected by one
/// rank between 1 and what remains, the count of the free identifiers up
/// to and including it, and by no other rank.
pub proof fn lemma_every_free_identifier_is_selectable(pool: PoolView, id: u128)
    requires
        pool.wf(),
        pool.is_free(id),
    ensures
        1 <= free_below(pool.issued, id as nat) + 1 <= pool.remaining(),
        pool.select(free_below(pool.issued, id as nat) + 1) == Ok::<u128, Error>(id),
        forall|rank: nat| pool.select(rank) == Ok::<u128, Error>(id) ==> rank == free_below(
            pool.issued,
            id as nat,
        ) + 1,
{
    let rank = free_below(pool.issued, id as nat) + 1;
    lemma_remaining_is_free_count(pool);
    lemma_free_below_monotonic(pool.issued, (id + 1) as nat, pool.total);
    lemma_select_in_range(pool, rank);
    lemma_nth_free_unique(pool.issued, rank, id, pool.select(rank)->Ok_0);
    assert forall|other: nat| pool.select(other) == Ok::<u128, Error>(id) implies other
        == rank by {
        lemma_select_in_range(pool, other);
    }
}

/// Every identifier that a selection gives was free.
pub proof fn lemma_selected_is_free(pool: PoolView, rank: nat)
    requires
        pool.wf(),
        pool.select(rank) is Ok,
    ensures
        pool.is_free(pool.select(rank)->Ok_0),
{
    lemma_select_in_range(pool, rank);
}

/// What is issued stays issued: a selection takes no identifier back, adds
/// one at most, and leaves the size of the range alone.
pub proof fn lemma_issued_stays_issued(pool: PoolView, rank: nat, id: u128)
    requires
        pool.wf(),
        pool.issued.contains(id),
    ensures
        pool.after_select(rank).issued.contains(id),
        pool.after_select(rank).total == pool.total,
        pool.issued_count() <= pool.after_select(rank).issued_count() <= pool.issued_count() + 1,
{
    if pool.select(rank) is Ok {
        lemma_select_in_range(pool, rank);
        lemma_remaining_is_free_count(pool);
        lemma_remaining_is_free_count(pool.after_select(rank));
    }
}

} // verus!
