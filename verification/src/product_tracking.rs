//! The shipment ledger, its two mutating operations and the worker that
//! reconciles logged events with an external listener.

use vstd::prelude::*;
use crate::system::{admitted, ensure_admitted};
use crate::table::{copy_bytes, ids_view};

use crate::product_tracking::builders::{ShipmentBuilder, ShippingEventBuilder};
use crate::product_tracking::ledger::{Ledger, LedgerView};
use crate::product_tracking::types::{
    AccountId, BlockNumber, Moment, ProductId, ReadPoint, Reading, ReadingView, ShipmentId,
    ShipmentStatus, ShipmentView, ShippingEvent, ShippingEventIndex, ShippingEventType,
    ShippingEventView, ShippingOperation, event_type_of, readings_view,
};

pub use crate::system::Origin;

pub mod builders;
pub mod laws;
pub mod ledger;
pub mod types;
pub mod worker;

verus! {

/// Longest identifier, in bytes.
pub const IDENTIFIER_MAX_LENGTH: usize = 36;

/// Largest number of products in one shipment.
pub const SHIPMENT_MAX_PRODUCTS: usize = 10;

/// Where the listener is reached.
pub const LISTENER_ENDPOINT: &'static str = "http://localhost:3005";

/// How long the worker's lease lasts, in milliseconds.
pub const LOCK_TIMEOUT_EXPIRATION: u64 = 3000;

/// Why an operation on the ledger was refused.
#[derive(Clone, Copy, PartialEq, Eq, Debug, Structural)]
pub enum Error {
    InvalidOrMissingIdentifier,
    ShipmentAlreadyExists,
    ShipmentHasBeenDelivered,
    ShipmentIsInTransit,
    ShipmentIsUnknown,
    ShipmentHasTooManyProducts,
    ShippingEventAlreadyExists,
    ShippingEventMaxExceeded,
    OffchainWorkerAlreadyBusy,
}

/// Why a call of one of the two operations was refused.
pub type DispatchError = crate::system::DispatchError<Error>;

/// What an operation announces to the outside.
#[derive(Clone, PartialEq, Eq, Debug)]
pub enum Event {
    /// A shipment was registered: the caller, the shipment, its owner.
    ShipmentRegistered(AccountId, ShipmentId, AccountId),
    /// A shipment's status was written: the caller, the shipment, the index
    /// of the event that records it, the status.
    ShipmentStatusUpdated(AccountId, ShipmentId, ShippingEventIndex, ShipmentStatus),
}

pub type RawEvent = Event;

pub enum EventView {
    ShipmentRegistered(AccountId, Seq<u8>, AccountId),
    ShipmentStatusUpdated(AccountId, Seq<u8>, ShippingEventIndex, ShipmentStatus),
}

impl View for Event {
    type V = EventView;

    open spec fn view(&self) -> EventView {
        match *self {
            Event::ShipmentRegistered(who, id, owner) => EventView::ShipmentRegistered(
                who,
                id@,
                owner,
            ),
            Event::ShipmentStatusUpdated(who, id, idx, status) => EventView::ShipmentStatusUpdated(
                who,
                id@,
                idx,
                status,
            ),
        }
    }
}

/// The values of a list of announcements, in order.
pub open spec fn events_view(events: Seq<Event>) -> Seq<EventView> {
    Seq::new(events.len(), |i: int| events[i]@)
}

/// An identifier is valid if it is not empty and not too long.
pub open spec fn valid_identifier(id: Seq<u8>) -> bool {
    0 < id.len() <= IDENTIFIER_MAX_LENGTH
}

/// The transition table. For a status and an operation, the status that the
/// operation leads to, or why the operation is refused. What the table gives
/// for a scan is neither written nor announced: a scan that is not refused
/// leaves the shipment as it is.
pub open spec fn transition(status: ShipmentStatus, operation: ShippingOperation) -> Result<
    ShipmentStatus,
    Error,
> {
    match status {
        ShipmentStatus::Delivered => Err(Error::ShipmentHasBeenDelivered),
        ShipmentStatus::InTransit => match operation {
            ShippingOperation::Pickup => Err(Error::ShipmentIsInTransit),
            ShippingOperation::Scan => Ok(ShipmentStatus::InTransit),
            ShippingOperation::Deliver => Ok(ShipmentStatus::Delivered),
        },
        ShipmentStatus::Pending => match operation {
            ShippingOperation::Pickup => Ok(ShipmentStatus::InTransit),
            ShippingOperation::Scan => Ok(ShipmentStatus::InTransit),
            ShippingOperation::Deliver => Ok(ShipmentStatus::Delivered),
        },
    }
}

/// The shipment after an operation that the table admits. A scan leaves it
/// as it is; a delivery also records its time.
pub open spec fn applied(
    shipment: ShipmentView,
    operation: ShippingOperation,
    timestamp: Moment,
) -> ShipmentView {
    match operation {
        ShippingOperation::Pickup => shipment.picked_up(),
        ShippingOperation::Scan => shipment,
        ShippingOperation::Deliver => shipment.delivered_at(timestamp),
    }
}

/// The ledger with one more event: the next index is assigned, the event is
/// stored under it and listed for its shipment.
pub open spec fn stored(ledger: LedgerView, event: ShippingEventView) -> LedgerView {
    let idx = (ledger.event_count + 1) as ShippingEventIndex;
    ledger.with_event_count(idx).with_shipment_event(event.shipment_id, idx).with_event(idx, event)
}

/// The shipment that a registration creates.
pub open spec fn new_shipment_view(
    id: Seq<u8>,
    owner: AccountId,
    products: Seq<Seq<u8>>,
    now: Moment,
) -> ShipmentView {
    ShipmentView {
        id,
        owner,
        status: ShipmentStatus::Pending,
        products,
        registered: now,
        delivered: None,
    }
}

/// The event that records a registration.
pub open spec fn registration_event(id: Seq<u8>, now: Moment) -> ShippingEventView {
    ShippingEventView {
        event_type: ShippingEventType::ShipmentRegistration,
        shipment_id: id,
        location: None,
        readings: Seq::empty(),
        timestamp: now,
    }
}

/// The event that records an operation on a shipment.
pub open spec fn tracking_event(
    id: Seq<u8>,
    operation: ShippingOperation,
    timestamp: Moment,
    location: Option<ReadPoint>,
    readings: Seq<ReadingView>,
) -> ShippingEventView {
    ShippingEventView {
        event_type: event_type_of(operation),
        shipment_id: id,
        location,
        readings,
        timestamp,
    }
}

/// The readings given with an operation; none given is an empty list.
pub open spec fn readings_given(readings: Option<Vec<Reading>>) -> Seq<ReadingView> {
    match readings {
        Some(list) => readings_view(list@),
        None => Seq::empty(),
    }
}

/// The state that the two operations work on: the ledger, and the time and
/// block height at which a call is executed.
#[derive(Clone, PartialEq, Eq, Debug)]
pub struct Module {
    pub ledger: Ledger,
    pub now: Moment,
    pub block_number: BlockNumber,
}

pub struct ModuleView {
    pub ledger: LedgerView,
    pub now: Moment,
    pub block_number: BlockNumber,
}

impl View for Module {
    type V = ModuleView;

    open spec fn view(&self) -> ModuleView {
        ModuleView { ledger: self.ledger@, now: self.now, block_number: self.block_number }
    }
}

impl ModuleView {
    /// Why a registration is refused, if it is. The checks are made in this
    /// order: the caller, the identifier, the number of products, whether
    /// the identifier is taken, whether an index is left.
    pub open spec fn register_error(
        self,
        origin: Origin,
        may_invoke: bool,
        id: Seq<u8>,
        products: Seq<Seq<u8>>,
    ) -> Option<DispatchError> {
        if !admitted(origin, may_invoke) {
            Some(DispatchError::BadOrigin)
        } else if !valid_identifier(id) {
            Some(DispatchError::Module(Error::InvalidOrMissingIdentifier))
        } else if products.len() > SHIPMENT_MAX_PRODUCTS {
            Some(DispatchError::Module(Error::ShipmentHasTooManyProducts))
        } else if self.ledger.shipments.dom().contains(id) {
            Some(DispatchError::Module(Error::ShipmentAlreadyExists))
        } else if self.ledger.event_count == ShippingEventIndex::MAX {
            Some(DispatchError::Module(Error::ShippingEventMaxExceeded))
        } else {
            None
        }
    }

    /// The state after a registration that is not refused.
    pub open spec fn after_registration(
        self,
        id: Seq<u8>,
        owner: AccountId,
        products: Seq<Seq<u8>>,
    ) -> ModuleView {
        let idx = (self.ledger.event_count + 1) as ShippingEventIndex;
        let ledger = self.ledger.with_shipment(
            id,
            new_shipment_view(id, owner, products, self.now),
        ).with_owner_entry(owner, id);
        ModuleView {
            ledger: stored(ledger, registration_event(id, self.now)).with_queued(
                self.block_number,
                idx,
            ),
            ..self
        }
    }

    /// What a registration that is not refused announces.
    pub open spec fn registration_events(
        self,
        who: AccountId,
        id: Seq<u8>,
        owner: AccountId,
    ) -> Seq<EventView> {
        let idx = (self.ledger.event_count + 1) as ShippingEventIndex;
        seq![
            EventView::ShipmentRegistered(who, id, owner),
            EventView::ShipmentStatusUpdated(who, id, idx, ShipmentStatus::Pending),
        ]
    }

    /// Why an operation on a shipment is refused, if it is. The checks are
    /// made in this order: the caller, the identifier, whether the shipment
    /// is known, the transition table, whether an index is left.
    pub open spec fn track_error(
        self,
        origin: Origin,
        may_invoke: bool,
        id: Seq<u8>,
        operation: ShippingOperation,
    ) -> Option<DispatchError> {
        if !admitted(origin, may_invoke) {
            Some(DispatchError::BadOrigin)
        } else if !valid_identifier(id) {
            Some(DispatchError::Module(Error::InvalidOrMissingIdentifier))
        } else if !self.ledger.shipments.dom().contains(id) {
            Some(DispatchError::Module(Error::ShipmentIsUnknown))
        } else if transition(self.ledger.shipments[id].status, operation) is Err {
            Some(DispatchError::Module(transition(self.ledger.shipments[id].status, operation)->Err_0))
        } else if self.ledger.event_count == ShippingEventIndex::MAX {
            Some(DispatchError::Module(Error::ShippingEventMaxExceeded))
        } else {
            None
        }
    }

    /// The state after an operation that is not refused. The event is
    /// logged; the shipment is written again unless the operation is a scan.
    pub open spec fn after_tracking(
        self,
        id: Seq<u8>,
        operation: ShippingOperation,
        timestamp: Moment,
        location: Option<ReadPoint>,
        readings: Seq<ReadingView>,
    ) -> ModuleView {
        let idx = (self.ledger.event_count + 1) as ShippingEventIndex;
        let event = tracking_event(id, operation, timestamp, location, readings);
        let logged = stored(self.ledger, event).with_queued(self.block_number, idx);
        ModuleView {
            ledger: if operation == ShippingOperation::Scan {
                logged
            } else {
                logged.with_shipment(id, applied(self.ledger.shipments[id], operation, timestamp))
            },
            ..self
        }
    }

    /// What an operation that is not refused announces: the new status,
    /// unless the operation is a scan.
    pub open spec fn tracking_events(
        self,
        who: AccountId,
        id: Seq<u8>,
        operation: ShippingOperation,
    ) -> Seq<EventView> {
        let idx = (self.ledger.event_count + 1) as ShippingEventIndex;
        if operation == ShippingOperation::Scan {
            Seq::empty()
        } else {
            seq![
                EventView::ShipmentStatusUpdated(
                    who,
                    id,
                    idx,
                    transition(self.ledger.shipments[id].status, operation)->Ok_0,
                ),
            ]
        }
    }
}

impl Module {
    /// An empty ledger at block 0 and time 0.
    pub fn new() -> (module: Module)
        ensures
            module@ == (ModuleView { ledger: LedgerView::empty(), now: 0, block_number: 0 }),
    {
        Module { ledger: Ledger::new(), now: 0, block_number: 0 }
    }

    fn new_shipment() -> (builder: ShipmentBuilder)
        ensures
            builder.pending() == (ShipmentView {
                id: Seq::<u8>::empty(),
                owner: 0,
                status: ShipmentStatus::Pending,
                products: Seq::<Seq<u8>>::empty(),
                registered: 0,
                delivered: None,
            }),
    {
        ShipmentBuilder::default()
    }

    fn new_shipping_event() -> (builder: ShippingEventBuilder)
        ensures
            builder.pending() == (ShippingEventView {
                event_type: ShippingEventType::ShipmentPickup,
                shipment_id: Seq::<u8>::empty(),
                location: None,
                readings: Seq::<ReadingView>::empty(),
                timestamp: 0,
            }),
    {
        ShippingEventBuilder::default()
    }

    /// Logs an event under the next index. Without an index left nothing
    /// changes.
    fn store_event(&mut self, event: ShippingEvent) -> (stored_at: Result<ShippingEventIndex, Error>)
        ensures
            match stored_at {
                Ok(idx) => {
                    &&& old(self)@.ledger.event_count < ShippingEventIndex::MAX
                    &&& idx == old(self)@.ledger.event_count + 1
                    &&& final(self)@ == (ModuleView {
                        ledger: stored(old(self)@.ledger, event@),
                        ..old(self)@
                    })
                },
                Err(e) => {
                    &&& e == Error::ShippingEventMaxExceeded
                    &&& old(self)@.ledger.event_count == ShippingEventIndex::MAX
                    &&& final(self)@ == old(self)@
                },
            },
    {
        match self.ledger.next_event_index() {
            Ok(idx) => {
                self.ledger.append_shipment_event_index(event.shipment_id.as_slice(), idx);
                self.ledger.put_event(idx, event);
                Ok(idx)
            },
            Err(_) => Err(Error::ShippingEventMaxExceeded),
        }
    }

    /// Accepts an identifier that is not empty and not too long.
    pub fn validate_identifier(id: &[u8]) -> (checked: Result<(), Error>)
        ensures
            checked is Ok <==> valid_identifier(id@),
            checked is Err ==> checked->Err_0 == Error::InvalidOrMissingIdentifier,
    {
        if id.len() == 0 {
            return Err(Error::InvalidOrMissingIdentifier);
        }
        if id.len() > IDENTIFIER_MAX_LENGTH {
            return Err(Error::InvalidOrMissingIdentifier);
        }
        Ok(())
    }

    /// Accepts an identifier under which no shipment is stored.
    pub fn validate_new_shipment(&self, id: &[u8]) -> (checked: Result<(), Error>)
        ensures
            checked is Ok <==> !self@.ledger.shipments.dom().contains(id@),
            checked is Err ==> checked->Err_0 == Error::ShipmentAlreadyExists,
    {
        match self.ledger.get_shipment(id) {
            Some(_) => Err(Error::ShipmentAlreadyExists),
            None => Ok(()),
        }
    }

    /// Accepts a list of at most `SHIPMENT_MAX_PRODUCTS` products.
    pub fn validate_shipment_products(props: &[ProductId]) -> (checked: Result<(), Error>)
        ensures
            checked is Ok <==> props@.len() <= SHIPMENT_MAX_PRODUCTS,
            checked is Err ==> checked->Err_0 == Error::ShipmentHasTooManyProducts,
    {
        if props.len() > SHIPMENT_MAX_PRODUCTS {
            return Err(Error::ShipmentHasTooManyProducts);
        }
        Ok(())
    }

    /// Registers a shipment for `owner`. `may_invoke` is the answer of the
    /// authorization to whether this caller may register shipments.
    ///
    /// On success the shipment is stored as pending, listed for its owner,
    /// and a registration event is logged under the next index and queued
    /// for the current block; the two announcements are returned. On refusal
    /// nothing changes.
    pub fn register_shipment(
        &mut self,
        origin: Origin,
        may_invoke: bool,
        id: ShipmentId,
        owner: AccountId,
        products: Vec<ProductId>,
    ) -> (result: Result<Vec<Event>, DispatchError>)
        ensures
            match result {
                Ok(events) => {
                    &&& old(self)@.register_error(origin, may_invoke, id@, ids_view(products@))
                        is None
                    &&& final(self)@ == old(self)@.after_registration(id@, owner, ids_view(products@))
                    &&& events_view(events@) == old(self)@.registration_events(
                        origin->Signed_0,
                        id@,
                        owner,
                    )
                },
                Err(e) => {
                    &&& old(self)@.register_error(origin, may_invoke, id@, ids_view(products@))
                        == Some(e)
                    &&& final(self)@ == old(self)@
                },
            },
    {
        let who = match ensure_admitted::<Error>(origin, may_invoke) {
            Ok(who) => who,
            Err(e) => {
                return Err(e);
            },
        };
        if let Err(e) = Self::validate_identifier(id.as_slice()) {
            return Err(DispatchError::Module(e));
        }
        if let Err(e) = Self::validate_shipment_products(products.as_slice()) {
            return Err(DispatchError::Module(e));
        }
        if let Err(e) = self.validate_new_shipment(id.as_slice()) {
            return Err(DispatchError::Module(e));
        }
        if self.ledger.event_count() == ShippingEventIndex::MAX {
            return Err(DispatchError::Module(Error::ShippingEventMaxExceeded));
        }
        let ghost products_view = ids_view(products@);

        let shipment = Self::new_shipment().identified_by(copy_bytes(id.as_slice())).owned_by(
            owner,
        ).registered_at(self.now).with_products(products).build();
        let status = shipment.status;

        let event = Self::new_shipping_event().of_type(
            ShippingEventType::ShipmentRegistration,
        ).for_shipment(copy_bytes(id.as_slice())).at_location(None).with_readings(
            Vec::new(),
        ).at_time(shipment.registered).build();
        assert(event@.readings =~= Seq::<ReadingView>::empty());
        assert(event@ == registration_event(id@, self.now));
        assert(shipment@ == new_shipment_view(id@, owner, products_view, self.now));

        self.ledger.put_shipment(copy_bytes(id.as_slice()), shipment);
        self.ledger.append_owner_index(owner, copy_bytes(id.as_slice()));
        let event_idx = match self.store_event(event) {
            Ok(idx) => idx,
            Err(e) => {
                return Err(DispatchError::Module(e));
            },
        };
        self.ledger.append_block_queue(self.block_number, event_idx);

        let mut events: Vec<Event> = Vec::new();
        events.push(Event::ShipmentRegistered(who, copy_bytes(id.as_slice()), owner));
        events.push(Event::ShipmentStatusUpdated(who, id, event_idx, status));
        assert(events_view(events@) =~= old(self)@.registration_events(who, id@, owner));
        Ok(events)
    }

    /// Applies an operation to a shipment. `may_invoke` is the answer of the
    /// authorization to whether this caller may track shipments.
    ///
    /// On success an event of the operation's kind is logged under the next
    /// index and queued for the current block. Unless the operation is a
    /// scan, the shipment is written with its new status and the status is
    /// announced. On refusal nothing changes.
    pub fn track_shipment(
        &mut self,
        origin: Origin,
        may_invoke: bool,
        id: ShipmentId,
        operation: ShippingOperation,
        timestamp: Moment,
        location: Option<ReadPoint>,
        readings: Option<Vec<Reading>>,
    ) -> (result: Result<Vec<Event>, DispatchError>)
        ensures
            match result {
                Ok(events) => {
                    &&& old(self)@.track_error(origin, may_invoke, id@, operation) is None
                    &&& final(self)@ == old(self)@.after_tracking(
                        id@,
                        operation,
                        timestamp,
                        location,
                        readings_given(readings),
                    )
                    &&& events_view(events@) == old(self)@.tracking_events(
                        origin->Signed_0,
                        id@,
                        operation,
                    )
                },
                Err(e) => {
                    &&& old(self)@.track_error(origin, may_invoke, id@, operation) == Some(e)
                    &&& final(self)@ == old(self)@
                },
            },
    {
        let who = match ensure_admitted::<Error>(origin, may_invoke) {
            Ok(who) => who,
            Err(e) => {
                return Err(e);
            },
        };
        if let Err(e) = Self::validate_identifier(id.as_slice()) {
            return Err(DispatchError::Module(e));
        }
        let mut shipment = match self.ledger.get_shipment(id.as_slice()) {
            Some(shipment) => match shipment.status {
                ShipmentStatus::Delivered => {
                    return Err(DispatchError::Module(Error::ShipmentHasBeenDelivered));
                },
                ShipmentStatus::InTransit => {
                    if operation == ShippingOperation::Pickup {
                        return Err(DispatchError::Module(Error::ShipmentIsInTransit));
                    }
                    shipment.duplicate()
                },
                ShipmentStatus::Pending => shipment.duplicate(),
            },
            None => {
                return Err(DispatchError::Module(Error::ShipmentIsUnknown));
            },
        };
        if self.ledger.event_count() == ShippingEventIndex::MAX {
            return Err(DispatchError::Module(Error::ShippingEventMaxExceeded));
        }
        shipment = match operation {
            ShippingOperation::Pickup => shipment.pickup(),
            ShippingOperation::Deliver => shipment.deliver(timestamp),
            ShippingOperation::Scan => shipment,
        };
        let status = shipment.status;

        let ghost given = readings_given(readings);
        let readings = match readings {
            Some(list) => list,
            None => Vec::new(),
        };
        assert(readings_view(readings@) =~= given);
        let event = Self::new_shipping_event().of_type(ShippingEventType::from(operation)).for_shipment(
            copy_bytes(id.as_slice()),
        ).at_location(location).with_readings(readings).at_time(timestamp).build();
        assert(event@ == tracking_event(id@, operation, timestamp, location, given));

        let event_idx = match self.store_event(event) {
            Ok(idx) => idx,
            Err(e) => {
                return Err(DispatchError::Module(e));
            },
        };
        self.ledger.append_block_queue(self.block_number, event_idx);

        let mut events: Vec<Event> = Vec::new();
        if operation != ShippingOperation::Scan {
            self.ledger.put_shipment(copy_bytes(id.as_slice()), shipment);
            events.push(Event::ShipmentStatusUpdated(who, id, event_idx, status));
        }
        assert(events_view(events@) =~= old(self)@.tracking_events(who, id@, operation));
        Ok(events)
    }
}

} // verus!
