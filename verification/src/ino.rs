//! The registry of collections: an append-only list, each entry with a flag
//! that its owner switches on once.

use crate::error::Error;
use crate::escrow::{settle, Payment, Settlement};
use vstd::prelude::*;

verus! {

/// A collection on offer.
#[derive(Clone, Debug, PartialEq, Eq)]
pub struct Collection {
    pub name: String,
    pub symbol: String,
    pub url: String,
    pub total_count: u128,
    pub price: u128,
    pub contract: String,
}

impl Collection {
    /// A copy with the same contents.
    pub fn duplicate(&self) -> (copy: Collection)
        ensures
            copy == *self,
    {
        Collection {
            name: self.name.clone(),
            symbol: self.symbol.clone(),
            url: self.url.clone(),
            total_count: self.total_count,
            price: self.price,
            contract: self.contract.clone(),
        }
    }
}

/// What a successful addition hands back: the id given to the entry, and how
/// its payment was settled.
#[derive(Clone, Debug, PartialEq, Eq)]
pub struct AddReceipt {
    pub id: u128,
    pub settlement: Settlement,
}

/// A registry as a mathematical value. The id of an entry is its place in
/// the sequences.
pub struct RegistryView {
    pub owner: Seq<char>,
    pub collections: Seq<Collection>,
    pub active: Seq<bool>,
}

impl RegistryView {
    /// Every entry has a flag.
    pub open spec fn wf(self) -> bool {
        self.collections.len() == self.active.len()
    }

    /// The registry of `owner` without entries.
    pub open spec fn empty(owner: Seq<char>) -> RegistryView {
        RegistryView { owner, collections: Seq::empty(), active: Seq::empty() }
    }

    /// How many entries the registry has.
    pub open spec fn entry_count(self) -> nat {
        self.collections.len()
    }

    /// The registry after `record` has been added: it takes the next id,
    /// and its flag is off.
    pub open spec fn add(self, record: Collection) -> RegistryView {
        RegistryView {
            owner: self.owner,
            collections: self.collections.push(record),
            active: self.active.push(false),
        }
    }

    /// The id that a request to activate is aimed at: the one given, or that
    /// of the entry added last.
    pub open spec fn target(self, id: Option<u128>) -> int {
        match id {
            Some(id) => id as int,
            None => self.entry_count() - 1,
        }
    }

    /// Why a request to activate fails, if it does: the caller is not the
    /// owner, or the id aimed at is not that of an entry, in this order.
    pub open spec fn activate_error(self, caller: Seq<char>, id: Option<u128>) -> Option<Error> {
        if caller != self.owner {
            Some(Error::Unauthorized)
        } else if !(0 <= self.target(id) < self.entry_count()) {
            Some(Error::InvalidId)
        } else {
            None
        }
    }

    /// The registry after a request to activate: the flag aimed at is on,
    /// and a failed request changes nothing.
    pub open spec fn activate(self, caller: Seq<char>, id: Option<u128>) -> RegistryView {
        if self.activate_error(caller, id) is None {
            RegistryView {
                owner: self.owner,
                collections: self.collections,
                active: self.active.update(self.target(id), true),
            }
        } else {
            self
        }
    }
}

/// The registry of collections.
pub struct INO {
    owner: String,
    collections: Vec<Collection>,
    status: Vec<bool>,
}

impl View for INO {
    type V = RegistryView;

    closed spec fn view(&self) -> RegistryView {
        RegistryView { owner: self.owner@, collections: self.collections@, active: self.status@ }
    }
}

impl INO {
    /// The invariant of a registry.
    pub open spec fn wf(&self) -> bool {
        self@.wf()
    }

    /// A registry without entries, which belongs to `owner`.
    pub fn new(owner: String) -> (registry: INO)
        ensures
            registry.wf(),
            registry@ == RegistryView::empty(owner@),
    {
        INO { owner, collections: Vec::new(), status: Vec::new() }
    }

    /// Rebuilds a registry from its owner, its entries and their flags, each
    /// in the order of the ids. There is none where the entries and the flags
    /// differ in number.
    pub fn restore(owner: String, collections: Vec<Collection>, status: Vec<bool>) -> (restored:
        Option<INO>)
        ensures
            restored is Some <==> collections.len() == status.len(),
            restored matches Some(registry) ==> registry.wf() && registry@ == (RegistryView {
                owner: owner@,
                collections: collections@,
                active: status@,
            }),
    {
        if collections.len() != status.len() {
            return None;
        }
        Some(INO { owner, collections, status })
    }

    /// The account that may switch flags on.
    pub fn owner(&self) -> (owner: &String)
        ensures
            owner@ == self@.owner,
    {
        &self.owner
    }

    /// Appends a collection under the next id, with its flag off, against a
    /// payment for the storage it takes. Anyone may add. It fails with
    /// `InsufficientPayment` exactly when the payment does not cover the
    /// storage, and then changes nothing.
    pub fn add_collection(&mut self, new_collection: Collection, payment: Payment) -> (result:
        Result<AddReceipt, Error>)
        requires
            old(self).wf(),
        ensures
            final(self).wf(),
            match result {
                Ok(receipt) => {
                    &&& payment.covers(0)
                    &&& receipt.id == old(self)@.entry_count()
                    &&& Ok::<Settlement, Error>(receipt.settlement) == payment.settlement(0)
                    &&& final(self)@ == old(self)@.add(new_collection)
                },
                Err(e) => {
                    &&& !payment.covers(0)
                    &&& e == Error::InsufficientPayment
                    &&& final(self)@ == old(self)@
                },
            },
    {
        let settlement = match settle(
            payment.attached_amount,
            0,
            payment.storage_bytes_delta,
            payment.byte_cost_rate,
            payment.payer,
        ) {
            Ok(settlement) => settlement,
            Err(e) => {
                return Err(e);
            },
        };
        let id = self.collections.len() as u128;
        self.collections.push(new_collection);
        self.status.push(false);
        Ok(AddReceipt { id, settlement })
    }

    /// Switches the flag of an entry on: that of the entry `arg_collection_id`,
    /// or of the one added last where none is given. Only the owner may. A
    /// flag that is on stays on. It fails with `Unauthorized` for another
    /// caller, else with `InvalidId` where the id is not that of an entry,
    /// and then changes nothing.
    pub fn update_collection_status(
        &mut self,
        caller: &String,
        arg_collection_id: Option<u128>,
    ) -> (result: Result<(), Error>)
        requires
            old(self).wf(),
        ensures
            final(self).wf(),
            final(self)@ == old(self)@.activate(caller@, arg_collection_id),
            match result {
                Ok(_) => old(self)@.activate_error(caller@, arg_collection_id) is None,
                Err(e) => old(self)@.activate_error(caller@, arg_collection_id) == Some(e),
            },
    {
        if *caller != self.owner {
            return Err(Error::Unauthorized);
        }
        let count = self.status.len();
        let index: usize = match arg_collection_id {
            Some(id) => {
                if id >= count as u128 {
                    return Err(Error::InvalidId);
                }
                id as usize
            },
            None => {
                if count == 0 {
                    return Err(Error::InvalidId);
                }
                count - 1
            },
        };
        self.status.set(index, true);
        Ok(())
    }

    /// How many entries the registry has.
    pub fn collection_count(&self) -> (count: u128)
        ensures
            count == self@.entry_count(),
    {
        self.collections.len() as u128
    }

    /// All entries in the order of their ids: the collections, and beside
    /// them their flags.
    pub fn get_collection(&self) -> (listing: (Vec<Collection>, Vec<bool>))
        requires
            self.wf(),
        ensures
            listing.0@ == self@.collections,
            listing.1@ == self@.active,
    {
        let mut collections: Vec<Collection> = Vec::new();
        let mut status: Vec<bool> = Vec::new();
        let count = self.collections.len();
        let mut id: usize = 0;
        while id < count
            invariant
                self.wf(),
                count == self.collections.len(),
                id <= count,
                collections@ == self.collections@.take(id as int),
                status@ == self.status@.take(id as int),
            decreases count - id,
        {
            collections.push(self.collections[id].duplicate());
            status.push(self.status[id]);
            id = id + 1;
            assert(collections@ =~= self.collections@.take(id as int));
            assert(status@ =~= self.status@.take(id as int));
        }
        assert(collections@ =~= self.collections@);
        assert(status@ =~= self.status@);
        (collections, status)
    }
}

impl RegistryView {
    /// The registry after the records of a sequence have been added, in
    /// order.
    pub open spec fn add_all(self, records: Seq<Collection>) -> RegistryView
        decreases records.len(),
    {
        if records.len() == 0 {
            self
        } else {
            self.add_all(records.drop_last()).add(records.last())
        }
    }
}

/// Ids are sequential: an addition gives the new entry the id that is the
/// count of the entries before it, keeps every earlier entry and flag under
/// its id, and starts the new flag as off.
pub proof fn lemma_add_takes_next_id(registry: RegistryView, record: Collection)
    requires
        registry.wf(),
    ensures
        registry.add(record).wf(),
        registry.add(record).entry_count() == registry.entry_count() + 1,
        registry.add(record).collections[registry.entry_count() as int] == record,
        !registry.add(record).active[registry.entry_count() as int],
        forall|id: int|
            0 <= id < registry.entry_count() ==> registry.add(record).collections[id]
                == registry.collections[id] && registry.add(record).active[id]
                == registry.active[id],
{
}

/// Ids start at 0: in a registry that began without entries, the entry with
/// the id `k` is the record that was added as the `k`-th, counting from 0.
pub proof fn lemma_ids_start_at_zero(owner: Seq<char>, records: Seq<Collection>)
    ensures
        RegistryView::empty(owner).add_all(records).wf(),
        RegistryView::empty(owner).add_all(records).collections == records,
        RegistryView::empty(owner).add_all(records).active == Seq::new(
            records.len(),
            |id: int| false,
        ),
    decreases records.len(),
{
    if records.len() > 0 {
        lemma_ids_start_at_zero(owner, records.drop_last());
        let before = RegistryView::empty(owner).add_all(records.drop_last());
        assert(before.add(records.last()).collections =~= records);
        assert(before.add(records.last()).active =~= Seq::new(records.len(), |id: int| false));
    } else {
        assert(RegistryView::empty(owner).collections =~= records);
        assert(RegistryView::empty(owner).active =~= Seq::new(records.len(), |id: int| false));
    }
}

/// Activation is idempotent: a second request with the same caller and id
/// meets the same answer as the first and changes nothing more. After a
/// request that succeeded the flag is on.
pub proof fn lemma_activate_idempotent(registry: RegistryView, caller: Seq<char>, id: Option<u128>)
    requires
        registry.wf(),
    ensures
        registry.activate(caller, id).wf(),
        registry.activate(caller, id).activate_error(caller, id) == registry.activate_error(
            caller,
            id,
        ),
        registry.activate(caller, id).activate(caller, id) == registry.activate(caller, id),
        registry.activate_error(caller, id) is None ==> registry.activate(caller, id).active[
            registry.target(id)
        ],
{
    let once = registry.activate(caller, id);
    assert(once.activate(caller, id).active =~= once.active);
}

/// A request to activate by anyone but the owner fails with `Unauthorized`
/// and leaves every flag as it was.
pub proof fn lemma_activate_unauthorized(
    registry: RegistryView,
    caller: Seq<char>,
    id: Option<u128>,
)
    requires
        caller != registry.owner,
    ensures
        registry.activate_error(caller, id) == Some(Error::Unauthorized),
        registry.activate(caller, id) == registry,
{
}

/// A request to activate touches one flag at most and switches none off:
/// the entries stay as they are, and a flag that is on stays on.
pub proof fn lemma_activate_only_switches_on(
    registry: RegistryView,
    caller: Seq<char>,
    id: Option<u128>,
    other: int,
)
    requires
        registry.wf(),
        0 <= other < registry.entry_count(),
    ensures
        registry.activate(caller, id).collections == registry.collections,
        registry.activate(caller, id).owner == registry.owner,
        registry.active[other] ==> registry.activate(caller, id).active[other],
        other != registry.target(id) ==> registry.activate(caller, id).active[other]
            == registry.active[other],
{
}

} // verus!
