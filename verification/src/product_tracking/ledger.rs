//! The ledger's storage: shipments by identifier, the shipments of each
//! owner, the event counter, events by index, the events of each shipment and
//! the events logged in each block.

use vstd::prelude::*;
use crate::table::{
    assoc_map, copy_bytes, copy_ids, distinct_keys, ids_view, lemma_assoc_absent, lemma_assoc_at,
    lemma_assoc_push, lemma_assoc_update, lemma_distinct_push, same_bytes,
};
use crate::product_tracking::types::{
    AccountId, BlockNumber, Shipment, ShipmentId, ShipmentView, ShippingEvent,
    ShippingEventIndex, ShippingEventView,
};

verus! {

/// The event counter stands at its largest value: no further index exists.
#[derive(Clone, Copy, PartialEq, Eq, Debug, Structural)]
pub struct CounterExhausted;

/// What the ledger holds, as maps. A key that is missing from one of the
/// three index maps stands for the empty list.
pub struct LedgerView {
    pub shipments: Map<Seq<u8>, ShipmentView>,
    pub owner_index: Map<AccountId, Seq<Seq<u8>>>,
    pub event_count: ShippingEventIndex,
    pub events: Map<ShippingEventIndex, ShippingEventView>,
    pub shipment_events: Map<Seq<u8>, Seq<ShippingEventIndex>>,
    pub block_queue: Map<BlockNumber, Seq<ShippingEventIndex>>,
}

impl LedgerView {
    /// The ledger in which nothing was ever stored.
    pub open spec fn empty() -> LedgerView {
        LedgerView {
            shipments: Map::empty(),
            owner_index: Map::empty(),
            event_count: 0,
            events: Map::empty(),
            shipment_events: Map::empty(),
            block_queue: Map::empty(),
        }
    }

    /// The shipment stored under an identifier, if there is one.
    pub open spec fn shipment(self, id: Seq<u8>) -> Option<ShipmentView> {
        if self.shipments.dom().contains(id) {
            Some(self.shipments[id])
        } else {
            None
        }
    }

    /// The event stored under an index, if there is one.
    pub open spec fn event(self, idx: ShippingEventIndex) -> Option<ShippingEventView> {
        if self.events.dom().contains(idx) {
            Some(self.events[idx])
        } else {
            None
        }
    }

    /// The identifiers listed for an owner, oldest first.
    pub open spec fn shipments_of(self, owner: AccountId) -> Seq<Seq<u8>> {
        if self.owner_index.dom().contains(owner) {
            self.owner_index[owner]
        } else {
            Seq::empty()
        }
    }

    /// The event indices listed for a shipment, oldest first.
    pub open spec fn events_of(self, shipment_id: Seq<u8>) -> Seq<ShippingEventIndex> {
        if self.shipment_events.dom().contains(shipment_id) {
            self.shipment_events[shipment_id]
        } else {
            Seq::empty()
        }
    }

    /// The event indices listed for a block, oldest first.
    pub open spec fn queue_at(self, block: BlockNumber) -> Seq<ShippingEventIndex> {
        if self.block_queue.dom().contains(block) {
            self.block_queue[block]
        } else {
            Seq::empty()
        }
    }

    pub open spec fn with_shipment(self, id: Seq<u8>, shipment: ShipmentView) -> LedgerView {
        LedgerView { shipments: self.shipments.insert(id, shipment), ..self }
    }

    pub open spec fn with_owner_entry(self, owner: AccountId, id: Seq<u8>) -> LedgerView {
        LedgerView {
            owner_index: self.owner_index.insert(owner, self.shipments_of(owner).push(id)),
            ..self
        }
    }

    pub open spec fn with_event_count(self, count: ShippingEventIndex) -> LedgerView {
        LedgerView { event_count: count, ..self }
    }

    pub open spec fn with_event(
        self,
        idx: ShippingEventIndex,
        event: ShippingEventView,
    ) -> LedgerView {
        LedgerView { events: self.events.insert(idx, event), ..self }
    }

    pub open spec fn with_shipment_event(
        self,
        shipment_id: Seq<u8>,
        idx: ShippingEventIndex,
    ) -> LedgerView {
        LedgerView {
            shipment_events: self.shipment_events.insert(
                shipment_id,
                self.events_of(shipment_id).push(idx),
            ),
            ..self
        }
    }

    pub open spec fn with_queued(self, block: BlockNumber, idx: ShippingEventIndex) -> LedgerView {
        LedgerView {
            block_queue: self.block_queue.insert(block, self.queue_at(block).push(idx)),
            ..self
        }
    }
}

#[derive(PartialEq, Eq, Debug)]
struct ShipmentEntry {
    key: ShipmentId,
    shipment: Shipment,
}

#[derive(PartialEq, Eq, Debug)]
struct OwnerEntry {
    owner: AccountId,
    shipments: Vec<ShipmentId>,
}

#[derive(PartialEq, Eq, Debug)]
struct EventEntry {
    index: ShippingEventIndex,
    event: ShippingEvent,
}

#[derive(PartialEq, Eq, Debug)]
struct ShipmentEvents {
    shipment_id: ShipmentId,
    indices: Vec<ShippingEventIndex>,
}

#[derive(PartialEq, Eq, Debug)]
struct BlockQueue {
    block: BlockNumber,
    indices: Vec<ShippingEventIndex>,
}

spec fn shipment_pairs(entries: Seq<ShipmentEntry>) -> Seq<(Seq<u8>, ShipmentView)> {
    Seq::new(entries.len(), |i: int| (entries[i].key@, entries[i].shipment@))
}

spec fn owner_pairs(entries: Seq<OwnerEntry>) -> Seq<(AccountId, Seq<Seq<u8>>)> {
    Seq::new(entries.len(), |i: int| (entries[i].owner, ids_view(entries[i].shipments@)))
}

spec fn event_pairs(entries: Seq<EventEntry>) -> Seq<(ShippingEventIndex, ShippingEventView)> {
    Seq::new(entries.len(), |i: int| (entries[i].index, entries[i].event@))
}

spec fn shipment_event_pairs(entries: Seq<ShipmentEvents>) -> Seq<
    (Seq<u8>, Seq<ShippingEventIndex>),
> {
    Seq::new(entries.len(), |i: int| (entries[i].shipment_id@, entries[i].indices@))
}

spec fn block_pairs(entries: Seq<BlockQueue>) -> Seq<(BlockNumber, Seq<ShippingEventIndex>)> {
    Seq::new(entries.len(), |i: int| (entries[i].block, entries[i].indices@))
}

/// The ledger's storage. Each of its five maps is a list of entries in which
/// no key occurs twice.
#[derive(PartialEq, Eq, Debug)]
pub struct Ledger {
    shipments: Vec<ShipmentEntry>,
    owners: Vec<OwnerEntry>,
    event_count: ShippingEventIndex,
    events: Vec<EventEntry>,
    shipment_events: Vec<ShipmentEvents>,
    block_queue: Vec<BlockQueue>,
}

impl View for Ledger {
    type V = LedgerView;

    closed spec fn view(&self) -> LedgerView {
        LedgerView {
            shipments: assoc_map(shipment_pairs(self.shipments@)),
            owner_index: assoc_map(owner_pairs(self.owners@)),
            event_count: self.event_count,
            events: assoc_map(event_pairs(self.events@)),
            shipment_events: assoc_map(shipment_event_pairs(self.shipment_events@)),
            block_queue: assoc_map(block_pairs(self.block_queue@)),
        }
    }
}

fn copy_indices(indices: &Vec<ShippingEventIndex>) -> (copy: Vec<ShippingEventIndex>)
    ensures
        copy@ == indices@,
{
    let mut copy: Vec<ShippingEventIndex> = Vec::new();
    let mut i: usize = 0;
    while i < indices.len()
        invariant
            i <= indices.len(),
            copy@ == indices@.subrange(0, i as int),
        decreases indices.len() - i,
    {
        copy.push(indices[i]);
        assert(indices@.subrange(0, i + 1) =~= indices@.subrange(0, i as int).push(
            indices@[i as int],
        ));
        i += 1;
    }
    assert(indices@.subrange(0, indices@.len() as int) =~= indices@);
    copy
}

fn copy_shipments(entries: &Vec<ShipmentEntry>) -> (copy: Vec<ShipmentEntry>)
    ensures
        shipment_pairs(copy@) == shipment_pairs(entries@),
{
    let mut copy: Vec<ShipmentEntry> = Vec::new();
    let mut i: usize = 0;
    while i < entries.len()
        invariant
            i <= entries.len(),
            copy@.len() == i,
            forall|j: int|
                0 <= j < i ==> copy@[j].key@ == entries@[j].key@ && copy@[j].shipment@
                    == entries@[j].shipment@,
        decreases entries.len() - i,
    {
        copy.push(
            ShipmentEntry {
                key: copy_bytes(entries[i].key.as_slice()),
                shipment: entries[i].shipment.duplicate(),
            },
        );
        i += 1;
    }
    assert(shipment_pairs(copy@) =~= shipment_pairs(entries@));
    copy
}

fn copy_owners(entries: &Vec<OwnerEntry>) -> (copy: Vec<OwnerEntry>)
    ensures
        owner_pairs(copy@) == owner_pairs(entries@),
{
    let mut copy: Vec<OwnerEntry> = Vec::new();
    let mut i: usize = 0;
    while i < entries.len()
        invariant
            i <= entries.len(),
            copy@.len() == i,
            forall|j: int|
                0 <= j < i ==> copy@[j].owner == entries@[j].owner && ids_view(
                    copy@[j].shipments@,
                ) == ids_view(entries@[j].shipments@),
        decreases entries.len() - i,
    {
        copy.push(
            OwnerEntry {
                owner: entries[i].owner,
                shipments: copy_ids(entries[i].shipments.as_slice()),
            },
        );
        i += 1;
    }
    assert(owner_pairs(copy@) =~= owner_pairs(entries@));
    copy
}

fn copy_events(entries: &Vec<EventEntry>) -> (copy: Vec<EventEntry>)
    ensures
        event_pairs(copy@) == event_pairs(entries@),
{
    let mut copy: Vec<EventEntry> = Vec::new();
    let mut i: usize = 0;
    while i < entries.len()
        invariant
            i <= entries.len(),
            copy@.len() == i,
            forall|j: int|
                0 <= j < i ==> copy@[j].index == entries@[j].index && copy@[j].event@
                    == entries@[j].event@,
        decreases entries.len() - i,
    {
        copy.push(EventEntry { index: entries[i].index, event: entries[i].event.duplicate() });
        i += 1;
    }
    assert(event_pairs(copy@) =~= event_pairs(entries@));
    copy
}

fn copy_shipment_events(entries: &Vec<ShipmentEvents>) -> (copy: Vec<ShipmentEvents>)
    ensures
        shipment_event_pairs(copy@) == shipment_event_pairs(entries@),
{
    let mut copy: Vec<ShipmentEvents> = Vec::new();
    let mut i: usize = 0;
    while i < entries.len()
        invariant
            i <= entries.len(),
            copy@.len() == i,
            forall|j: int|
                0 <= j < i ==> copy@[j].shipment_id@ == entries@[j].shipment_id@
                    && copy@[j].indices@ == entries@[j].indices@,
        decreases entries.len() - i,
    {
        copy.push(
            ShipmentEvents {
                shipment_id: copy_bytes(entries[i].shipment_id.as_slice()),
                indices: copy_indices(&entries[i].indices),
            },
        );
        i += 1;
    }
    assert(shipment_event_pairs(copy@) =~= shipment_event_pairs(entries@));
    copy
}

fn copy_block_queue(entries: &Vec<BlockQueue>) -> (copy: Vec<BlockQueue>)
    ensures
        block_pairs(copy@) == block_pairs(entries@),
{
    let mut copy: Vec<BlockQueue> = Vec::new();
    let mut i: usize = 0;
    while i < entries.len()
        invariant
            i <= entries.len(),
            copy@.len() == i,
            forall|j: int|
                0 <= j < i ==> copy@[j].block == entries@[j].block && copy@[j].indices@
                    == entries@[j].indices@,
        decreases entries.len() - i,
    {
        copy.push(
            BlockQueue { block: entries[i].block, indices: copy_indices(&entries[i].indices) },
        );
        i += 1;
    }
    assert(block_pairs(copy@) =~= block_pairs(entries@));
    copy
}

impl Clone for Ledger {
    /// A ledger that holds the same.
    fn clone(&self) -> (copy: Self)
        ensures
            copy@ == self@,
    {
        proof {
            use_type_invariant(self);
        }
        Ledger {
            shipments: copy_shipments(&self.shipments),
            owners: copy_owners(&self.owners),
            event_count: self.event_count,
            events: copy_events(&self.events),
            shipment_events: copy_shipment_events(&self.shipment_events),
            block_queue: copy_block_queue(&self.block_queue),
        }
    }
}

impl Ledger {
    #[verifier::type_invariant]
    spec fn well_formed(self) -> bool {
        &&& distinct_keys(shipment_pairs(self.shipments@))
        &&& distinct_keys(owner_pairs(self.owners@))
        &&& distinct_keys(event_pairs(self.events@))
        &&& distinct_keys(shipment_event_pairs(self.shipment_events@))
        &&& distinct_keys(block_pairs(self.block_queue@))
    }

    /// A ledger that holds nothing and has assigned no index.
    pub fn new() -> (ledger: Ledger)
        ensures
            ledger@ == LedgerView::empty(),
    {
        Ledger::resuming_after(0)
    }

    /// A ledger that holds nothing and continues the numbering of an earlier
    /// log: the first index it assigns is `last_index + 1`.
    pub fn resuming_after(last_index: ShippingEventIndex) -> (ledger: Ledger)
        ensures
            ledger@ == LedgerView::empty().with_event_count(last_index),
    {
        let ledger = Ledger {
            shipments: Vec::new(),
            owners: Vec::new(),
            event_count: last_index,
            events: Vec::new(),
            shipment_events: Vec::new(),
            block_queue: Vec::new(),
        };
        assert(ledger@.shipments =~= Map::empty());
        assert(ledger@.owner_index =~= Map::empty());
        assert(ledger@.events =~= Map::empty());
        assert(ledger@.shipment_events =~= Map::empty());
        assert(ledger@.block_queue =~= Map::empty());
        ledger
    }

    fn find_shipment(&self, id: &[u8]) -> (found: Option<usize>)
        ensures
            match found {
                Some(i) => i < self.shipments@.len() && self.shipments@[i as int].key@ == id@,
                None => forall|j: int|
                    0 <= j < self.shipments@.len() ==> (#[trigger] self.shipments@[j]).key@ != id@,
            },
    {
        let mut i: usize = 0;
        while i < self.shipments.len()
            invariant
                i <= self.shipments@.len(),
                forall|j: int| 0 <= j < i ==> (#[trigger] self.shipments@[j]).key@ != id@,
            decreases self.shipments@.len() - i,
        {
            if same_bytes(self.shipments[i].key.as_slice(), id) {
                return Some(i);
            }
            i += 1;
        }
        None
    }

    fn find_owner(&self, owner: AccountId) -> (found: Option<usize>)
        ensures
            match found {
                Some(i) => i < self.owners@.len() && self.owners@[i as int].owner == owner,
                None => forall|j: int|
                    0 <= j < self.owners@.len() ==> (#[trigger] self.owners@[j]).owner != owner,
            },
    {
        let mut i: usize = 0;
        while i < self.owners.len()
            invariant
                i <= self.owners@.len(),
                forall|j: int| 0 <= j < i ==> (#[trigger] self.owners@[j]).owner != owner,
            decreases self.owners@.len() - i,
        {
            if self.owners[i].owner == owner {
                return Some(i);
            }
            i += 1;
        }
        None
    }

    fn find_event(&self, idx: ShippingEventIndex) -> (found: Option<usize>)
        ensures
            match found {
                Some(i) => i < self.events@.len() && self.events@[i as int].index == idx,
                None => forall|j: int|
                    0 <= j < self.events@.len() ==> (#[trigger] self.events@[j]).index != idx,
            },
    {
        let mut i: usize = 0;
        while i < self.events.len()
            invariant
                i <= self.events@.len(),
                forall|j: int| 0 <= j < i ==> (#[trigger] self.events@[j]).index != idx,
            decreases self.events@.len() - i,
        {
            if self.events[i].index == idx {
                return Some(i);
            }
            i += 1;
        }
        None
    }

    fn find_shipment_events(&self, id: &[u8]) -> (found: Option<usize>)
        ensures
            match found {
                Some(i) => i < self.shipment_events@.len()
                    && self.shipment_events@[i as int].shipment_id@ == id@,
                None => forall|j: int|
                    0 <= j < self.shipment_events@.len() ==> (
                    #[trigger] self.shipment_events@[j]).shipment_id@ != id@,
            },
    {
        let mut i: usize = 0;
        while i < self.shipment_events.len()
            invariant
                i <= self.shipment_events@.len(),
                forall|j: int|
                    0 <= j < i ==> (#[trigger] self.shipment_events@[j]).shipment_id@ != id@,
            decreases self.shipment_events@.len() - i,
        {
            if same_bytes(self.shipment_events[i].shipment_id.as_slice(), id) {
                return Some(i);
            }
            i += 1;
        }
        None
    }

    fn find_block(&self, block: BlockNumber) -> (found: Option<usize>)
        ensures
            match found {
                Some(i) => i < self.block_queue@.len() && self.block_queue@[i as int].block
                    == block,
                None => forall|j: int|
                    0 <= j < self.block_queue@.len() ==> (#[trigger] self.block_queue@[j]).block
                        != block,
            },
    {
        let mut i: usize = 0;
        while i < self.block_queue.len()
            invariant
                i <= self.block_queue@.len(),
                forall|j: int| 0 <= j < i ==> (#[trigger] self.block_queue@[j]).block != block,
            decreases self.block_queue@.len() - i,
        {
            if self.block_queue[i].block == block {
                return Some(i);
            }
            i += 1;
        }
        None
    }

    /// The shipment stored under `id`, if there is one.
    pub fn get_shipment(&self, id: &[u8]) -> (shipment: Option<&Shipment>)
        ensures
            match shipment {
                Some(s) => self@.shipment(id@) == Some(s@),
                None => self@.shipment(id@).is_none(),
            },
    {
        proof {
            use_type_invariant(self);
        }
        match self.find_shipment(id) {
            Some(i) => {
                proof {
                    lemma_assoc_at(shipment_pairs(self.shipments@), i as int);
                }
                Some(&self.shipments[i].shipment)
            },
            None => {
                proof {
                    lemma_assoc_absent(shipment_pairs(self.shipments@), id@);
                }
                None
            },
        }
    }

    /// Stores `shipment` under `id`, in place of what was stored there.
    pub fn put_shipment(&mut self, id: ShipmentId, shipment: Shipment)
        ensures
            final(self)@ == old(self)@.with_shipment(id@, shipment@),
    {
        proof {
            use_type_invariant(&*self);
        }
        let ghost before = shipment_pairs(self.shipments@);
        match self.find_shipment(id.as_slice()) {
            Some(i) => {
                proof {
                    lemma_assoc_update(before, i as int, shipment@);
                }
                let entry = ShipmentEntry { key: id, shipment };
                let mut entries: Vec<ShipmentEntry> = Vec::new();
                core::mem::swap(&mut self.shipments, &mut entries);
                entries.set(i, entry);
                assert(shipment_pairs(entries@) =~= before.update(
                    i as int,
                    (before[i as int].0, shipment@),
                ));
                self.shipments = entries;
            },
            None => {
                proof {
                    lemma_assoc_push(before, id@, shipment@);
                    lemma_distinct_push(before, id@, shipment@);
                }
                let entry = ShipmentEntry { key: id, shipment };
                let mut entries: Vec<ShipmentEntry> = Vec::new();
                core::mem::swap(&mut self.shipments, &mut entries);
                entries.push(entry);
                assert(shipment_pairs(entries@) =~= before.push((id@, shipment@)));
                self.shipments = entries;
            },
        }
    }

    /// The identifiers listed for `owner`, oldest first.
    pub fn shipments_of(&self, owner: AccountId) -> (ids: Vec<ShipmentId>)
        ensures
            ids_view(ids@) == self@.shipments_of(owner),
    {
        proof {
            use_type_invariant(self);
        }
        match self.find_owner(owner) {
            Some(i) => {
                proof {
                    lemma_assoc_at(owner_pairs(self.owners@), i as int);
                }
                copy_ids(self.owners[i].shipments.as_slice())
            },
            None => {
                proof {
                    lemma_assoc_absent(owner_pairs(self.owners@), owner);
                }
                let ids: Vec<ShipmentId> = Vec::new();
                assert(ids_view(ids@) =~= Seq::<Seq<u8>>::empty());
                ids
            },
        }
    }

    /// Adds `id` at the end of the list of `owner`.
    pub fn append_owner_index(&mut self, owner: AccountId, id: ShipmentId)
        ensures
            final(self)@ == old(self)@.with_owner_entry(owner, id@),
    {
        proof {
            use_type_invariant(&*self);
        }
        let ghost before = owner_pairs(self.owners@);
        let found = self.find_owner(owner);
        let mut entries: Vec<OwnerEntry> = Vec::new();
        core::mem::swap(&mut self.owners, &mut entries);
        match found {
            Some(i) => {
                let ghost listed = before[i as int].1.push(id@);
                proof {
                    lemma_assoc_at(before, i as int);
                    lemma_assoc_update(before, i as int, listed);
                }
                entries[i].shipments.push(id);
                assert(ids_view(entries@[i as int].shipments@) =~= listed);
                assert(owner_pairs(entries@) =~= before.update(i as int, (owner, listed)));
            },
            None => {
                let ghost listed = Seq::<Seq<u8>>::empty().push(id@);
                proof {
                    lemma_assoc_absent(before, owner);
                    lemma_assoc_push(before, owner, listed);
                    lemma_distinct_push(before, owner, listed);
                }
                let mut shipments: Vec<ShipmentId> = Vec::new();
                shipments.push(id);
                assert(ids_view(shipments@) =~= listed);
                entries.push(OwnerEntry { owner, shipments });
                assert(owner_pairs(entries@) =~= before.push((owner, listed)));
            },
        }
        self.owners = entries;
    }

    /// The number of indices assigned so far, which is the last one assigned.
    pub fn event_count(&self) -> (count: ShippingEventIndex)
        ensures
            count == self@.event_count,
    {
        self.event_count
    }

    /// Assigns the next index: one more than the last. At the largest value
    /// of the counter nothing is assigned and nothing changes.
    pub fn next_event_index(&mut self) -> (next: Result<ShippingEventIndex, CounterExhausted>)
        ensures
            match next {
                Ok(idx) => {
                    &&& old(self)@.event_count < ShippingEventIndex::MAX
                    &&& idx == old(self)@.event_count + 1
                    &&& final(self)@ == old(self)@.with_event_count(idx)
                },
                Err(_) => {
                    &&& old(self)@.event_count == ShippingEventIndex::MAX
                    &&& final(self)@ == old(self)@
                },
            },
    {
        proof {
            use_type_invariant(&*self);
        }
        match self.event_count.checked_add(1) {
            Some(idx) => {
                self.event_count = idx;
                Ok(idx)
            },
            None => Err(CounterExhausted),
        }
    }

    /// The event stored under `idx`, if there is one.
    pub fn get_event(&self, idx: ShippingEventIndex) -> (event: Option<&ShippingEvent>)
        ensures
            match event {
                Some(e) => self@.event(idx) == Some(e@),
                None => self@.event(idx).is_none(),
            },
    {
        proof {
            use_type_invariant(self);
        }
        match self.find_event(idx) {
            Some(i) => {
                proof {
                    lemma_assoc_at(event_pairs(self.events@), i as int);
                }
                Some(&self.events[i].event)
            },
            None => {
                proof {
                    lemma_assoc_absent(event_pairs(self.events@), idx);
                }
                None
            },
        }
    }

    /// Stores `event` under `idx`, in place of what was stored there.
    pub fn put_event(&mut self, idx: ShippingEventIndex, event: ShippingEvent)
        ensures
            final(self)@ == old(self)@.with_event(idx, event@),
    {
        proof {
            use_type_invariant(&*self);
        }
        let ghost before = event_pairs(self.events@);
        let found = self.find_event(idx);
        let mut entries: Vec<EventEntry> = Vec::new();
        core::mem::swap(&mut self.events, &mut entries);
        match found {
            Some(i) => {
                proof {
                    lemma_assoc_update(before, i as int, event@);
                }
                entries.set(i, EventEntry { index: idx, event });
                assert(event_pairs(entries@) =~= before.update(i as int, (idx, event@)));
            },
            None => {
                proof {
                    lemma_assoc_push(before, idx, event@);
                    lemma_distinct_push(before, idx, event@);
                }
                entries.push(EventEntry { index: idx, event });
                assert(event_pairs(entries@) =~= before.push((idx, event@)));
            },
        }
        self.events = entries;
    }

    /// The event indices listed for a shipment, oldest first.
    pub fn events_of_shipment(&self, shipment_id: &[u8]) -> (indices: Vec<ShippingEventIndex>)
        ensures
            indices@ == self@.events_of(shipment_id@),
    {
        proof {
            use_type_invariant(self);
        }
        match self.find_shipment_events(shipment_id) {
            Some(i) => {
                proof {
                    lemma_assoc_at(shipment_event_pairs(self.shipment_events@), i as int);
                }
                copy_indices(&self.shipment_events[i].indices)
            },
            None => {
                proof {
                    lemma_assoc_absent(
                        shipment_event_pairs(self.shipment_events@),
                        shipment_id@,
                    );
                }
                Vec::new()
            },
        }
    }

    /// Adds `idx` at the end of the list of a shipment.
    pub fn append_shipment_event_index(&mut self, shipment_id: &[u8], idx: ShippingEventIndex)
        ensures
            final(self)@ == old(self)@.with_shipment_event(shipment_id@, idx),
    {
        proof {
            use_type_invariant(&*self);
        }
        let ghost before = shipment_event_pairs(self.shipment_events@);
        let found = self.find_shipment_events(shipment_id);
        let mut entries: Vec<ShipmentEvents> = Vec::new();
        core::mem::swap(&mut self.shipment_events, &mut entries);
        match found {
            Some(i) => {
                let ghost listed = before[i as int].1.push(idx);
                proof {
                    lemma_assoc_at(before, i as int);
                    lemma_assoc_update(before, i as int, listed);
                }
                entries[i].indices.push(idx);
                assert(shipment_event_pairs(entries@) =~= before.update(
                    i as int,
                    (shipment_id@, listed),
                ));
            },
            None => {
                let ghost listed = Seq::<ShippingEventIndex>::empty().push(idx);
                proof {
                    lemma_assoc_absent(before, shipment_id@);
                    lemma_assoc_push(before, shipment_id@, listed);
                    lemma_distinct_push(before, shipment_id@, listed);
                }
                let mut indices: Vec<ShippingEventIndex> = Vec::new();
                indices.push(idx);
                entries.push(ShipmentEvents { shipment_id: copy_bytes(shipment_id), indices });
                assert(shipment_event_pairs(entries@) =~= before.push((shipment_id@, listed)));
            },
        }
        self.shipment_events = entries;
    }

    /// The event indices listed for a block, oldest first.
    pub fn get_block_queue(&self, block: BlockNumber) -> (indices: Vec<ShippingEventIndex>)
        ensures
            indices@ == self@.queue_at(block),
    {
        proof {
            use_type_invariant(self);
        }
        match self.find_block(block) {
            Some(i) => {
                proof {
                    lemma_assoc_at(block_pairs(self.block_queue@), i as int);
                }
                copy_indices(&self.block_queue[i].indices)
            },
            None => {
                proof {
                    lemma_assoc_absent(block_pairs(self.block_queue@), block);
                }
                Vec::new()
            },
        }
    }

    /// The entry at `position` of the list of a block, if the list is that
    /// long.
    pub fn queued(&self, block: BlockNumber, position: usize) -> (entry: Option<
        ShippingEventIndex,
    >)
        ensures
            entry == if position < self@.queue_at(block).len() {
                Some(self@.queue_at(block)[position as int])
            } else {
                None
            },
            entry is Some ==> position < usize::MAX,
    {
        proof {
            use_type_invariant(self);
        }
        match self.find_block(block) {
            Some(i) => {
                proof {
                    lemma_assoc_at(block_pairs(self.block_queue@), i as int);
                }
                if position < self.block_queue[i].indices.len() {
                    Some(self.block_queue[i].indices[position])
                } else {
                    None
                }
            },
            None => {
                proof {
                    lemma_assoc_absent(block_pairs(self.block_queue@), block);
                }
                None
            },
        }
    }

    /// Adds `idx` at the end of the list of a block.
    pub fn append_block_queue(&mut self, block: BlockNumber, idx: ShippingEventIndex)
        ensures
            final(self)@ == old(self)@.with_queued(block, idx),
    {
        proof {
            use_type_invariant(&*self);
        }
        let ghost before = block_pairs(self.block_queue@);
        let found = self.find_block(block);
        let mut entries: Vec<BlockQueue> = Vec::new();
        core::mem::swap(&mut self.block_queue, &mut entries);
        match found {
            Some(i) => {
                let ghost listed = before[i as int].1.push(idx);
                proof {
                    lemma_assoc_at(before, i as int);
                    lemma_assoc_update(before, i as int, listed);
                }
                entries[i].indices.push(idx);
                assert(block_pairs(entries@) =~= before.update(i as int, (block, listed)));
            },
            None => {
                let ghost listed = Seq::<ShippingEventIndex>::empty().push(idx);
                proof {
                    lemma_assoc_absent(before, block);
                    lemma_assoc_push(before, block, listed);
                    lemma_distinct_push(before, block, listed);
                }
                let mut indices: Vec<ShippingEventIndex> = Vec::new();
                indices.push(idx);
                entries.push(BlockQueue { block, indices });
                assert(block_pairs(entries@) =~= before.push((block, listed)));
            },
        }
        self.block_queue = entries;
    }
}

} // verus!
