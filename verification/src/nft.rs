//! The issuer: one pool, one ledger and one price, and the request that
//! issues an item at random to whoever pays for it.

use crate::entropy::draw_rank;
use crate::error::Error;
use crate::escrow::{Payment, Settlement};
use crate::pool::{lemma_select_in_range, AllocationPool, PoolView};
use crate::record::{described, locator_prefix, NFTContractMetadata, TokenMetadataView};
use crate::token::{Custom_NonFungibleTokenCore, LedgerView, MintReceipt, NonFungibleToken};
use crate::token::{Token, TokenView};
use vstd::prelude::*;

verus! {

/// Prices are quoted in this many of the smallest units of payment.
pub const PRICE_UNIT: u128 = 10_000_000_000_000_000;

/// An issuer as a mathematical value.
pub struct ContractView {
    pub tokens: LedgerView,
    pub pool: PoolView,
    pub metadata: NFTContractMetadata,
    pub mint_price: u128,
}

impl ContractView {
    /// The pool and the ledger are each in order, the ledger keeps a record
    /// of every item, and the items recorded are the identifiers issued.
    pub open spec fn wf(self) -> bool {
        &&& self.pool.wf()
        &&& self.tokens.wf()
        &&& self.tokens.metadata is Some
        &&& self.tokens.owners.dom() == self.pool.issued
    }

    /// The fixed price of one item, in the smallest units of payment.
    pub open spec fn unit_price(self) -> int {
        self.mint_price * PRICE_UNIT
    }

    /// Why a request to mint fails, if it does: nothing is left to issue, or
    /// the payment does not cover the price and the storage, in this order.
    pub open spec fn mint_error(self, payment: Payment) -> Option<Error> {
        if self.pool.remaining() == 0 {
            Some(Error::PoolExhausted)
        } else if !payment.covers(self.unit_price()) {
            Some(Error::InsufficientPayment)
        } else {
            None
        }
    }

    /// Why a request to mint the free identifier of a given rank fails, if
    /// it does: there is no such identifier, or the payment does not cover
    /// the price and the storage, in this order.
    pub open spec fn mint_ranked_error(self, rank: nat, payment: Payment) -> Option<Error> {
        if self.pool.select(rank) is Err {
            Some(self.pool.select(rank)->Err_0)
        } else if !payment.covers(self.unit_price()) {
            Some(Error::InsufficientPayment)
        } else {
            None
        }
    }

    /// The record of the item with the identifier `id`.
    pub open spec fn record_of(self, id: u128) -> TokenMetadataView {
        described(self.metadata.name@, locator_prefix(self.metadata.base_uri), id as nat)
    }

    /// The issuer after the identifier `id` has been issued to `receiver`.
    pub open spec fn issued_to(self, id: u128, receiver: Seq<char>) -> ContractView {
        ContractView {
            tokens: self.tokens.record(id, receiver, Some(self.record_of(id))),
            pool: self.pool.commit(id),
            metadata: self.metadata,
            mint_price: self.mint_price,
        }
    }

    /// The item that is handed out when `id` is issued to `receiver`.
    pub open spec fn token_for(self, id: u128, receiver: Seq<char>) -> TokenView {
        self.tokens.minted(id, receiver, Some(self.record_of(id)))
    }

    /// `after` and `receipt` are what a paid request leaves and hands back
    /// when it issues the free identifier of rank `rank` to `receiver`.
    pub open spec fn mints(
        self,
        after: ContractView,
        receipt: MintReceipt,
        receiver: Seq<char>,
        rank: nat,
        payment: Payment,
    ) -> bool {
        let id = self.pool.select(rank)->Ok_0;
        &&& 1 <= rank <= self.pool.remaining()
        &&& self.pool.select(rank) is Ok
        &&& self.pool.is_free(id)
        &&& after == self.issued_to(id, receiver)
        &&& receipt.token@ == self.token_for(id, receiver)
        &&& payment.covers(self.unit_price())
        &&& Ok::<Settlement, Error>(receipt.settlement) == payment.settlement(
            self.unit_price() as u128,
        )
    }
}

/// The issuer of one collection.
pub struct Contract {
    tokens: NonFungibleToken,
    metadata: NFTContractMetadata,
    pool: AllocationPool,
    mint_price: u128,
}

impl View for Contract {
    type V = ContractView;

    closed spec fn view(&self) -> ContractView {
        ContractView {
            tokens: self.tokens@,
            pool: self.pool@,
            metadata: self.metadata,
            mint_price: self.mint_price,
        }
    }
}

impl Contract {
    /// The pool keeps its count as its flags say.
    pub closed spec fn counted(&self) -> bool {
        self.pool.counted()
    }

    /// The invariant of an issuer.
    pub open spec fn wf(&self) -> bool {
        self@.wf() && self.counted()
    }

    /// An issuer of `count` items at the price `price`, with a ledger that
    /// belongs to `owner_id` and nothing issued yet.
    pub fn new(owner_id: String, metadata: NFTContractMetadata, price: u128, count: u128) -> (contract:
        Contract)
        ensures
            contract.wf(),
            contract@ == (ContractView {
                tokens: LedgerView::empty(owner_id@, true, true),
                pool: PoolView::fresh(count as nat),
                metadata,
                mint_price: price,
            }),
    {
        Contract {
            tokens: NonFungibleToken::new(owner_id, true, true),
            metadata,
            pool: AllocationPool::new(count),
            mint_price: price,
        }
    }

    /// Rebuilds an issuer from what it was made with and the items it has
    /// issued, in any order. There is none where an identifier lies outside
    /// the range or occurs twice, or where an item has no record.
    pub fn restore(
        owner_id: String,
        metadata: NFTContractMetadata,
        price: u128,
        count: u128,
        tokens: &Vec<Token>,
    ) -> (restored: Option<Contract>)
        ensures
            restored is Some <==> {
                &&& forall|k: int|
                    0 <= k < tokens.len() ==> (#[trigger] tokens[k]).token_id < count
                        && tokens[k].metadata is Some
                &&& forall|j: int, k: int|
                    0 <= j < k < tokens.len() ==> tokens[j].token_id != tokens[k].token_id
            },
            restored matches Some(contract) ==> {
                &&& contract.wf()
                &&& contract@.metadata == metadata
                &&& contract@.mint_price == price
                &&& contract@.pool.total == count
                &&& contract@.pool.issued_count() == tokens.len()
                &&& contract@.tokens.owner_id == owner_id@
                &&& forall|k: int|
                    0 <= k < tokens.len() ==> {
                        let id = (#[trigger] tokens[k]).token_id;
                        &&& contract@.pool.issued.contains(id)
                        &&& contract@.tokens.owners[id] == tokens[k].owner_id@
                        &&& contract@.tokens.metadata->Some_0[id] == tokens[k].metadata->Some_0@
                    }
                &&& forall|id: u128|
                    contract@.pool.issued.contains(id) ==> exists|k: int|
                        0 <= k < tokens.len() && (#[trigger] tokens[k]).token_id == id
            },
    {
        let mut contract = Contract::new(owner_id, metadata, price, count);
        let mut place: usize = 0;
        while place < tokens.len()
            invariant
                contract.wf(),
                contract@.metadata == metadata,
                contract@.mint_price == price,
                contract@.pool.total == count,
                contract@.pool.issued_count() == place,
                contract@.tokens.owner_id == owner_id@,
                place <= tokens.len(),
                forall|k: int|
                    0 <= k < place ==> (#[trigger] tokens[k]).token_id < count
                        && tokens[k].metadata is Some,
                forall|j: int, k: int|
                    0 <= j < k < place ==> tokens[j].token_id != tokens[k].token_id,
                forall|k: int|
                    0 <= k < place ==> {
                        let id = (#[trigger] tokens[k]).token_id;
                        &&& contract@.pool.issued.contains(id)
                        &&& contract@.tokens.owners[id] == tokens[k].owner_id@
                        &&& contract@.tokens.metadata->Some_0[id] == tokens[k].metadata->Some_0@
                    },
                forall|id: u128|
                    contract@.pool.issued.contains(id) ==> exists|k: int|
                        0 <= k < place && (#[trigger] tokens[k]).token_id == id,
            decreases tokens.len() - place,
        {
            let token = &tokens[place];
            let id = token.token_id;
            if id >= count || contract.pool.is_issued(id) {
                proof {
                    if id < count {
                        let twin = choose|k: int|
                            0 <= k < place && (#[trigger] tokens[k]).token_id == id;
                        assert(tokens[twin].token_id == tokens[place as int].token_id);
                    }
                }
                return None;
            }
            let record = match &token.metadata {
                Some(record) => record.duplicate(),
                None => {
                    return None;
                },
            };
            let ghost before = contract@;
            contract.tokens.record(id, token.owner_id.clone(), Some(record));
            contract.pool.commit(id);
            place = place + 1;
            proof {
                assert(contract@.tokens.owners.dom() =~= contract@.pool.issued);
                assert forall|other: u128| contract@.pool.issued.contains(other) implies exists|
                    k: int,
                | 0 <= k < place && (#[trigger] tokens[k]).token_id == other by {
                    if other == id {
                        assert(tokens[place - 1].token_id == other);
                    } else {
                        assert(before.pool.issued.contains(other));
                        let k = choose|k: int|
                            0 <= k < place - 1 && (#[trigger] tokens[k]).token_id == other;
                        assert(tokens[k].token_id == other);
                    }
                }
            }
        }
        Some(contract)
    }

    /// The items issued, in the ascending order of their identifiers.
    pub fn tokens(&self) -> (tokens: Vec<Token>)
        requires
            self.wf(),
        ensures
            tokens.len() == self@.pool.issued_count(),
            forall|j: int, k: int|
                0 <= j < k < tokens.len() ==> tokens[j].token_id < tokens[k].token_id,
            forall|k: int|
                0 <= k < tokens.len() ==> self@.pool.issued.contains(
                    (#[trigger] tokens[k]).token_id,
                ) && tokens[k]@ == self@.tokens.token(tokens[k].token_id),
            forall|id: u128|
                self@.pool.issued.contains(id) ==> exists|k: int|
                    0 <= k < tokens.len() && (#[trigger] tokens[k]).token_id == id,
    {
        let ids = self.pool.issued_ids();
        let mut tokens: Vec<Token> = Vec::new();
        let mut place: usize = 0;
        while place < ids.len()
            invariant
                self.wf(),
                place <= ids.len(),
                tokens.len() == place,
                forall|id: u128| ids@.contains(id) <==> self@.pool.issued.contains(id),
                forall|k: int|
                    0 <= k < place ==> (#[trigger] tokens[k]).token_id == ids[k] && tokens[k]@
                        == self@.tokens.token(ids[k]),
            decreases ids.len() - place,
        {
            let id = ids[place];
            assert(ids@.contains(id));
            match self.tokens.token(id) {
                Some(token) => {
                    tokens.push(token);
                },
                None => {
                    assert(false);
                },
            }
            place = place + 1;
        }
        proof {
            assert forall|id: u128| self@.pool.issued.contains(id) implies exists|k: int|
                0 <= k < tokens.len() && (#[trigger] tokens[k]).token_id == id by {
                assert(ids@.contains(id));
                let k = choose|k: int| 0 <= k < ids@.len() && ids@[k] == id;
                assert(tokens[k].token_id == id);
            }
            assert forall|k: int| 0 <= k < tokens.len() implies self@.pool.issued.contains(
                (#[trigger] tokens[k]).token_id,
            ) by {
                assert(ids@.contains(ids@[k]));
            }
        }
        tokens
    }

    /// The account that the ledger of the issuer belongs to.
    pub fn owner_id(&self) -> (owner_id: &String)
        ensures
            owner_id@ == self@.tokens.owner_id,
    {
        self.tokens.owner_id()
    }

    /// The price of one item, in price units.
    pub fn mint_price(&self) -> (price: u128)
        ensures
            price == self@.mint_price,
    {
        self.mint_price
    }

    /// The fixed price of one item in the smallest units of payment, where
    /// it is an amount that can be paid at all.
    pub fn unit_price(&self) -> (price: Option<u128>)
        ensures
            match price {
                Some(amount) => amount == self@.unit_price(),
                None => self@.unit_price() > u128::MAX,
            },
    {
        self.mint_price.checked_mul(PRICE_UNIT)
    }

    /// The size of the identifier range.
    pub fn total_count(&self) -> (count: u128)
        ensures
            count == self@.pool.total,
    {
        self.pool.total_count()
    }

    /// How many items have been issued.
    pub fn get_minted(&self) -> (count: u128)
        requires
            self.wf(),
        ensures
            count == self@.pool.issued_count(),
    {
        self.pool.issued_count()
    }

    /// How many items are left to issue.
    pub fn remaining(&self) -> (count: u128)
        requires
            self.wf(),
        ensures
            count == self@.pool.remaining(),
            count + self@.pool.issued_count() == self@.pool.total,
    {
        self.pool.remaining()
    }

    /// The metadata of the collection.
    pub fn nft_metadata(&self) -> (metadata: &NFTContractMetadata)
        ensures
            *metadata == self@.metadata,
    {
        &self.metadata
    }

    /// Issues the free identifier of rank `rank` to `receiver_id` against a
    /// payment: the item is recorded under that identifier with the record
    /// of the collection for it, and the payment is settled against the price
    /// and the storage. It fails with `PoolExhausted` when nothing remains,
    /// else with `InvariantViolation` when the rank is not between 1 and
    /// what remains, else with `InsufficientPayment` when the payment does
    /// not cover the cost, and in no other case. A request that fails
    /// changes nothing.
    pub fn mint_ranked(&mut self, receiver_id: String, rank: u128, payment: Payment) -> (result:
        Result<MintReceipt, Error>)
        requires
            old(self).wf(),
        ensures
            final(self).wf(),
            match result {
                Ok(receipt) => {
                    &&& old(self)@.mint_ranked_error(rank as nat, payment) is None
                    &&& old(self)@.mints(final(self)@, receipt, receiver_id@, rank as nat, payment)
                },
                Err(e) => {
                    &&& old(self)@.mint_ranked_error(rank as nat, payment) == Some(e)
                    &&& final(self)@ == old(self)@
                },
            },
    {
        let id = match self.pool.select(rank) {
            Ok(id) => id,
            Err(e) => {
                return Err(e);
            },
        };
        proof {
            lemma_select_in_range(self.pool@, rank as nat);
        }
        let unit_price = match self.unit_price() {
            Some(price) => price,
            None => {
                return Err(Error::InsufficientPayment);
            },
        };
        let record = self.metadata.describe(id);
        let receipt = match self.tokens.custom_mint(id, receiver_id, Some(record), unit_price, payment) {
            Ok(receipt) => receipt,
            Err(e) => {
                return Err(e);
            },
        };
        self.pool.commit(id);
        assert(self@.tokens.owners.dom() =~= self@.pool.issued);
        Ok(receipt)
    }

    /// Issues a free identifier to `receiver_id` against a payment. The
    /// identifier is the one whose rank among the free ones is drawn, between
    /// 1 and what remains, from a generator made of `seed` for this request
    /// alone. It fails with `PoolExhausted` when nothing remains, else with
    /// `InsufficientPayment` when the payment does not cover the cost, and
    /// in no other case. A request that fails changes nothing.
    pub fn nft_mint(&mut self, receiver_id: String, seed: [u8; 32], payment: Payment) -> (result:
        Result<MintReceipt, Error>)
        requires
            old(self).wf(),
        ensures
            final(self).wf(),
            match result {
                Ok(receipt) => {
                    &&& old(self)@.mint_error(payment) is None
                    &&& exists|rank: nat|
                        old(self)@.mints(final(self)@, receipt, receiver_id@, rank, payment)
                },
                Err(e) => {
                    &&& old(self)@.mint_error(payment) == Some(e)
                    &&& final(self)@ == old(self)@
                },
            },
    {
        let remaining = self.pool.remaining();
        if remaining == 0 {
            return Err(Error::PoolExhausted);
        }
        let rank = draw_rank(seed, remaining);
        proof {
            lemma_select_in_range(self.pool@, rank as nat);
        }
        self.mint_ranked(receiver_id, rank, payment)
    }
}

} // verus!
