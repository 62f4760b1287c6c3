//! The token ledger: who owns which issued item, and under what record.

use crate::error::Error;
use crate::escrow::{settle, Payment, Settlement};
use crate::record::{metadata_view, TokenMetadata, TokenMetadataView};
use std::collections::HashMap;
use vstd::prelude::*;

verus! {

broadcast use vstd::std_specs::hash::group_hash_axioms;

/// An issued item, as it is handed to the one who asked for it.
#[derive(Clone, Debug, PartialEq, Eq)]
pub struct Token {
    pub token_id: u128,
    pub owner_id: String,
    pub metadata: Option<TokenMetadata>,
    /// The accounts approved to act for the owner, where the ledger keeps
    /// approvals: none when the item is created.
    pub approved_account_ids: Option<Vec<String>>,
}

/// An issued item as a mathematical value.
pub struct TokenView {
    pub token_id: u128,
    pub owner_id: Seq<char>,
    pub metadata: Option<TokenMetadataView>,
    pub approved_account_ids: Option<Seq<String>>,
}

impl View for Token {
    type V = TokenView;

    open spec fn view(&self) -> TokenView {
        TokenView {
            token_id: self.token_id,
            owner_id: self.owner_id@,
            metadata: metadata_view(self.metadata),
            approved_account_ids: match self.approved_account_ids {
                Some(accounts) => Some(accounts@),
                None => None,
            },
        }
    }
}

/// What a successful mint hands back: the item, and how its payment was
/// settled.
#[derive(Clone, Debug, PartialEq, Eq)]
pub struct MintReceipt {
    pub token: Token,
    pub settlement: Settlement,
}

/// The ledger as a mathematical value.
pub struct LedgerView {
    /// The account that the ledger belongs to.
    pub owner_id: Seq<char>,
    /// The owner of each recorded item.
    pub owners: Map<u128, Seq<char>>,
    /// The record of each item, where the ledger keeps records.
    pub metadata: Option<Map<u128, TokenMetadataView>>,
    /// Whether the ledger keeps approvals.
    pub approvals: bool,
}

impl LedgerView {
    /// Finitely many items are recorded, and where records are kept, every
    /// item has one.
    pub open spec fn wf(self) -> bool {
        &&& self.owners.dom().finite()
        &&& self.metadata matches Some(records) ==> records.dom() == self.owners.dom()
    }

    /// The ledger without any item.
    pub open spec fn empty(owner_id: Seq<char>, records: bool, approvals: bool) -> LedgerView {
        LedgerView {
            owner_id,
            owners: Map::empty(),
            metadata: if records {
                Some(Map::empty())
            } else {
                None
            },
            approvals,
        }
    }

    /// Why an item cannot be minted, if it cannot: a record is kept and none
    /// is given, the identifier is taken, or the payment does not cover the
    /// price and the storage, in this order.
    pub open spec fn mint_error(
        self,
        token_id: u128,
        metadata: Option<TokenMetadataView>,
        price: u128,
        payment: Payment,
    ) -> Option<Error> {
        if self.metadata is Some && metadata is None {
            Some(Error::MissingMetadata)
        } else if self.owners.contains_key(token_id) {
            Some(Error::DuplicateIdentifier)
        } else if !payment.covers(price as int) {
            Some(Error::InsufficientPayment)
        } else {
            None
        }
    }

    /// The ledger after an item has been recorded.
    pub open spec fn record(
        self,
        token_id: u128,
        owner: Seq<char>,
        metadata: Option<TokenMetadataView>,
    ) -> LedgerView {
        LedgerView {
            owner_id: self.owner_id,
            owners: self.owners.insert(token_id, owner),
            metadata: match self.metadata {
                Some(records) => Some(records.insert(token_id, metadata->Some_0)),
                None => None,
            },
            approvals: self.approvals,
        }
    }

    /// The item recorded under `token_id`, as it was minted.
    pub open spec fn token(self, token_id: u128) -> TokenView {
        self.minted(
            token_id,
            self.owners[token_id],
            match self.metadata {
                Some(records) => Some(records[token_id]),
                None => None,
            },
        )
    }

    /// The item that a mint hands back.
    pub open spec fn minted(
        self,
        token_id: u128,
        owner: Seq<char>,
        metadata: Option<TokenMetadataView>,
    ) -> TokenView {
        TokenView {
            token_id,
            owner_id: owner,
            metadata,
            approved_account_ids: if self.approvals {
                Some(Seq::empty())
            } else {
                None
            },
        }
    }
}

/// The ledger of issued items: the owner of each, and optionally its record
/// and its approvals.
pub struct NonFungibleToken {
    owner_id: String,
    owner_by_id: HashMap<u128, String>,
    token_metadata_by_id: Option<HashMap<u128, TokenMetadata>>,
    approvals: bool,
}

impl View for NonFungibleToken {
    type V = LedgerView;

    closed spec fn view(&self) -> LedgerView {
        LedgerView {
            owner_id: self.owner_id@,
            owners: self.owner_by_id@.map_values(|owner: String| owner@),
            metadata: match self.token_metadata_by_id {
                Some(by_id) => Some(by_id@.map_values(|record: TokenMetadata| record@)),
                None => None,
            },
            approvals: self.approvals,
        }
    }
}

/// Minting on a ledger.
#[allow(non_camel_case_types)]
pub trait Custom_NonFungibleTokenCore {
    /// The invariant of the ledger.
    spec fn valid(&self) -> bool;

    /// Records a new item under `token_id` for `token_owner_id` and settles
    /// its payment, or fails and changes nothing.
    fn custom_mint(
        &mut self,
        token_id: u128,
        token_owner_id: String,
        token_metadata: Option<TokenMetadata>,
        price: u128,
        payment: Payment,
    ) -> (result: Result<MintReceipt, Error>)
        requires
            old(self).valid(),
        ensures
            final(self).valid(),
    ;
}

impl NonFungibleToken {
    /// The invariant of a ledger.
    pub open spec fn wf(&self) -> bool {
        self@.wf()
    }

    /// A ledger without items, which belongs to `owner_id`. It keeps records
    /// and approvals as asked.
    pub fn new(owner_id: String, records: bool, approvals: bool) -> (ledger: NonFungibleToken)
        ensures
            ledger.wf(),
            ledger@ == LedgerView::empty(owner_id@, records, approvals),
    {
        let ledger = NonFungibleToken {
            owner_id,
            owner_by_id: HashMap::new(),
            token_metadata_by_id: if records {
                Some(HashMap::new())
            } else {
                None
            },
            approvals,
        };
        assert(ledger@.owners =~= Map::empty());
        assert(records ==> ledger@.metadata->Some_0 =~= Map::empty());
        ledger
    }

    /// Whether an item is recorded under `token_id`.
    pub fn contains(&self, token_id: u128) -> (found: bool)
        ensures
            found == self@.owners.contains_key(token_id),
    {
        self.owner_by_id.contains_key(&token_id)
    }

    /// The account that the ledger belongs to.
    pub fn owner_id(&self) -> (owner_id: &String)
        ensures
            owner_id@ == self@.owner_id,
    {
        &self.owner_id
    }

    /// Whether the ledger keeps a record of each item.
    pub fn keeps_records(&self) -> (records: bool)
        ensures
            records == self@.metadata is Some,
    {
        self.token_metadata_by_id.is_some()
    }

    /// Whether the ledger keeps approvals.
    pub fn keeps_approvals(&self) -> (approvals: bool)
        ensures
            approvals == self@.approvals,
    {
        self.approvals
    }

    /// The item recorded under `token_id`, if there is one.
    pub fn token(&self, token_id: u128) -> (token: Option<Token>)
        requires
            self.wf(),
        ensures
            match token {
                Some(found) => self@.owners.contains_key(token_id) && found@ == self@.token(
                    token_id,
                ),
                None => !self@.owners.contains_key(token_id),
            },
    {
        let owner_id = match self.owner_by_id.get(&token_id) {
            Some(owner) => owner.clone(),
            None => {
                return None;
            },
        };
        let metadata = match &self.token_metadata_by_id {
            Some(by_id) => {
                assert(self@.metadata->Some_0.dom() =~= by_id@.dom());
                match by_id.get(&token_id) {
                    Some(record) => Some(record.duplicate()),
                    None => None,
                }
            },
            None => None,
        };
        let approved_account_ids = if self.approvals {
            Some(Vec::new())
        } else {
            None
        };
        Some(Token { token_id, owner_id, metadata, approved_account_ids })
    }

    /// Records an item that is not yet recorded, without weighing any
    /// payment.
    pub(crate) fn record(
        &mut self,
        token_id: u128,
        owner_id: String,
        metadata: Option<TokenMetadata>,
    )
        requires
            old(self).wf(),
            !old(self)@.owners.contains_key(token_id),
            old(self)@.metadata is Some ==> metadata is Some,
        ensures
            final(self).wf(),
            final(self)@ == old(self)@.record(token_id, owner_id@, metadata_view(metadata)),
    {
        self.owner_by_id.insert(token_id, owner_id);
        match &mut self.token_metadata_by_id {
            Some(by_id) => {
                match metadata {
                    Some(record) => {
                        by_id.insert(token_id, record);
                    },
                    None => {},
                }
            },
            None => {},
        }
        proof {
            let after = old(self)@.record(token_id, owner_id@, metadata_view(metadata));
            assert(self@.owners =~= after.owners);
            assert(self@.metadata is Some ==> self@.metadata->Some_0 =~= after.metadata->Some_0);
        }
    }

    /// How many items are recorded.
    pub fn len(&self) -> (count: usize)
        ensures
            count == self@.owners.dom().len(),
    {
        assert(self@.owners.dom() =~= self.owner_by_id@.dom());
        self.owner_by_id.len()
    }
}

impl Custom_NonFungibleTokenCore for NonFungibleToken {
    open spec fn valid(&self) -> bool {
        self.wf()
    }

    /// Mints an item. It fails with `MissingMetadata` where the ledger keeps
    /// records and none is given, else with `DuplicateIdentifier` where the
    /// identifier is taken, else with `InsufficientPayment` where the
    /// payment does not cover the price and the storage. A failed mint
    /// leaves the ledger as it was.
    fn custom_mint(
        &mut self,
        token_id: u128,
        token_owner_id: String,
        token_metadata: Option<TokenMetadata>,
        price: u128,
        payment: Payment,
    ) -> (result: Result<MintReceipt, Error>)
        ensures
            match result {
                Ok(receipt) => {
                    &&& old(self)@.mint_error(
                        token_id,
                        metadata_view(token_metadata),
                        price,
                        payment,
                    ) is None
                    &&& final(self)@ == old(self)@.record(
                        token_id,
                        token_owner_id@,
                        metadata_view(token_metadata),
                    )
                    &&& receipt.token@ == old(self)@.minted(
                        token_id,
                        token_owner_id@,
                        metadata_view(token_metadata),
                    )
                    &&& Ok::<Settlement, Error>(receipt.settlement) == payment.settlement(price)
                },
                Err(e) => {
                    &&& old(self)@.mint_error(
                        token_id,
                        metadata_view(token_metadata),
                        price,
                        payment,
                    ) == Some(e)
                    &&& final(self)@ == old(self)@
                },
            },
    {
        if self.token_metadata_by_id.is_some() && token_metadata.is_none() {
            return Err(Error::MissingMetadata);
        }
        if self.owner_by_id.contains_key(&token_id) {
            return Err(Error::DuplicateIdentifier);
        }
        let settlement = match settle(
            payment.attached_amount,
            price,
            payment.storage_bytes_delta,
            payment.byte_cost_rate,
            payment.payer,
        ) {
            Ok(settlement) => settlement,
            Err(e) => {
                return Err(e);
            },
        };
        let stored = match &token_metadata {
            Some(record) => Some(record.duplicate()),
            None => None,
        };
        let approved_account_ids = if self.approvals {
            Some(Vec::new())
        } else {
            None
        };
        self.record(token_id, token_owner_id.clone(), stored);
        Ok(
            MintReceipt {
                token: Token {
                    token_id,
                    owner_id: token_owner_id,
                    metadata: token_metadata,
                    approved_account_ids,
                },
                settlement,
            },
        )
    }
}

/// An item is recorded once and for all: a later mint changes nothing of the
/// items recorded before it, and adds exactly the one it mints, with its
/// record where the ledger keeps records.
pub proof fn lemma_record_keeps_items(
    ledger: LedgerView,
    token_id: u128,
    owner: Seq<char>,
    metadata: Option<TokenMetadataView>,
    other: u128,
)
    requires
        ledger.wf(),
        !ledger.owners.contains_key(token_id),
        ledger.metadata is Some ==> metadata is Some,
    ensures
        ledger.record(token_id, owner, metadata).wf(),
        ledger.record(token_id, owner, metadata).token(token_id) == ledger.minted(
            token_id,
            owner,
            if ledger.metadata is Some {
                metadata
            } else {
                None
            },
        ),
        ledger.owners.contains_key(other) ==> ledger.record(token_id, owner, metadata).token(other)
            == ledger.token(other),
        ledger.record(token_id, owner, metadata).owners.contains_key(other) <==> other == token_id
            || ledger.owners.contains_key(other),
{
    let after = ledger.record(token_id, owner, metadata);
    if ledger.metadata is Some {
        assert(after.metadata->Some_0.dom() =~= after.owners.dom());
    }
}

} // verus!
