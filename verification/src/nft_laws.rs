//! What holds of an issuer over any sequence of successful requests.

use crate::error::Error;
use crate::escrow::Payment;
use crate::nft::ContractView;
use crate::pool::lemma_select_in_range;
use crate::pool_laws::lemma_run;
use crate::token::MintReceipt;
use vstd::prelude::*;

verus! {

/// A successful request is one selection of the pool: it issues the
/// identifier that the selection by its rank gives, which was free and is
/// the identifier of the item handed out, and records that item for the
/// receiver. So what holds of every run of selections holds of every
/// sequence of requests.
pub proof fn lemma_mint_is_selection(
    before: ContractView,
    after: ContractView,
    receipt: MintReceipt,
    receiver: Seq<char>,
    rank: nat,
    payment: Payment,
)
    requires
        before.wf(),
        before.mints(after, receipt, receiver, rank, payment),
    ensures
        after.wf(),
        after.pool == before.pool.after_select(rank),
        after.pool.remaining() == before.pool.remaining() - 1,
        receipt.token@.token_id == before.pool.select(rank)->Ok_0,
        !before.tokens.owners.contains_key(receipt.token@.token_id),
        after.tokens.owners.contains_key(receipt.token@.token_id),
        after.tokens.owners[receipt.token@.token_id] == receiver,
        receipt.token@.owner_id == receiver,
{
    lemma_select_in_range(before.pool, rank);
    let id = before.pool.select(rank)->Ok_0;
    assert(after.tokens.owners.dom() =~= after.pool.issued);
}

/// A sequence of successful requests to one issuer: `states[k]` is the
/// issuer before the request `k` and `states[k + 1]` the issuer after it.
pub struct MintHistory {
    pub states: Seq<ContractView>,
    pub receipts: Seq<MintReceipt>,
    pub receivers: Seq<Seq<char>>,
    pub ranks: Seq<nat>,
    pub payments: Seq<Payment>,
}

impl MintHistory {
    /// The number of requests.
    pub open spec fn len(self) -> nat {
        self.receipts.len()
    }

    /// The issuer before the first request.
    pub open spec fn first(self) -> ContractView {
        self.states[0]
    }

    /// The issuer after the last request.
    pub open spec fn last(self) -> ContractView {
        self.states[self.len() as int]
    }

    /// The identifier that the request `k` issued.
    pub open spec fn id(self, k: int) -> u128 {
        self.receipts[k].token@.token_id
    }

    /// The issuer was in order at first, and each request led from one
    /// state to the next as a successful request does.
    pub open spec fn wf(self) -> bool {
        &&& self.states.len() == self.len() + 1
        &&& self.receivers.len() == self.len()
        &&& self.ranks.len() == self.len()
        &&& self.payments.len() == self.len()
        &&& self.first().wf()
        &&& forall|k: int|
            0 <= k < self.len() ==> (#[trigger] self.states[k]).mints(
                self.states[k + 1],
                self.receipts[k],
                self.receivers[k],
                self.ranks[k],
                self.payments[k],
            )
    }
}

/// The first `count` requests of a history are a successful run of
/// selections of the pool, by the ranks of the requests, which gives the
/// identifiers that the requests issued.
pub proof fn lemma_history_is_run(history: MintHistory, count: nat)
    requires
        history.wf(),
        count <= history.len(),
    ensures
        history.states[count as int].wf(),
        history.first().pool.run_succeeds(history.ranks.take(count as int)),
        history.states[count as int].pool == history.first().pool.run(
            history.ranks.take(count as int),
        ),
        forall|k: int|
            0 <= k < count ==> history.first().pool.run_ids(history.ranks.take(count as int))[k]
                == history.id(k),
    decreases count,
{
    let pool = history.first().pool;
    let ranks = history.ranks.take(count as int);
    if count > 0 {
        let earlier = (count - 1) as nat;
        lemma_history_is_run(history, earlier);
        assert(ranks.drop_last() =~= history.ranks.take(earlier as int));
        assert(ranks.last() == history.ranks[earlier as int]);
        let before = history.states[earlier as int];
        assert(before.mints(
            history.states[count as int],
            history.receipts[earlier as int],
            history.receivers[earlier as int],
            history.ranks[earlier as int],
            history.payments[earlier as int],
        ));
        lemma_mint_is_selection(
            before,
            history.states[count as int],
            history.receipts[earlier as int],
            history.receivers[earlier as int],
            history.ranks[earlier as int],
            history.payments[earlier as int],
        );
        lemma_run(pool, ranks.drop_last());
    }
}

/// Exhaustion: after as many successful requests as a fresh issuer has
/// identifiers, nothing remains, and one request more fails with
/// `PoolExhausted`, whatever is paid and whatever rank is asked for.
pub proof fn lemma_issuer_exhaustion(history: MintHistory, payment: Payment, rank: nat)
    requires
        history.wf(),
        history.first().pool.issued == Set::<u128>::empty(),
        history.len() == history.first().pool.total,
    ensures
        history.last().pool.remaining() == 0,
        history.last().mint_error(payment) == Some(Error::PoolExhausted),
        history.last().mint_ranked_error(rank, payment) == Some(Error::PoolExhausted),
{
    lemma_history_is_run(history, history.len());
    assert(history.ranks.take(history.len() as int) =~= history.ranks);
    lemma_run(history.first().pool, history.ranks);
}

/// What remains goes down by one with each successful request, so no
/// issuer grants more requests than it has identifiers left.
pub proof fn lemma_issuer_countdown(history: MintHistory)
    requires
        history.wf(),
    ensures
        history.len() <= history.first().pool.remaining(),
        history.last().pool.remaining() == history.first().pool.remaining() - history.len(),
        history.last().pool.issued_count() == history.first().pool.issued_count() + history.len(),
{
    lemma_history_is_run(history, history.len());
    assert(history.ranks.take(history.len() as int) =~= history.ranks);
    lemma_run(history.first().pool, history.ranks);
}

/// Uniqueness: no two successful requests issue the same identifier, and
/// none issues an identifier that had been issued before the first.
pub proof fn lemma_issuer_uniqueness(history: MintHistory, first: int, second: int)
    requires
        history.wf(),
        0 <= first < second < history.len(),
    ensures
        history.id(first) != history.id(second),
        history.first().pool.is_free(history.id(first)),
        history.first().pool.is_free(history.id(second)),
{
    lemma_history_is_run(history, history.len());
    assert(history.ranks.take(history.len() as int) =~= history.ranks);
    lemma_run(history.first().pool, history.ranks);
    let ids = history.first().pool.run_ids(history.ranks);
    assert(ids[first] == history.id(first));
    assert(ids[second] == history.id(second));
}

} // verus!
