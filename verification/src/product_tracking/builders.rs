//! Step-by-step construction of shipments and shipping events.

use vstd::prelude::*;
use crate::product_tracking::types::{
    AccountId, Moment, ProductId, ReadPoint, Reading, ReadingView, Shipment, ShipmentId, ShipmentStatus,
    ShipmentView, ShippingEvent, ShippingEventType, ShippingEventView, readings_view,
};
use crate::table::ids_view;

verus! {

/// Collects the fields of a shipment that is about to be registered.
pub struct ShipmentBuilder {
    id: ShipmentId,
    owner: AccountId,
    products: Vec<ProductId>,
    registered: Moment,
}

impl ShipmentBuilder {
    /// The shipment that `build` would return now.
    pub closed spec fn pending(self) -> ShipmentView {
        ShipmentView {
            id: self.id@,
            owner: self.owner,
            status: ShipmentStatus::Pending,
            products: ids_view(self.products@),
            registered: self.registered,
            delivered: None,
        }
    }

    pub fn identified_by(self, id: ShipmentId) -> (builder: Self)
        ensures
            builder.pending() == (ShipmentView { id: id@, ..self.pending() }),
    {
        let mut builder = self;
        builder.id = id;
        builder
    }

    pub fn owned_by(self, owner: AccountId) -> (builder: Self)
        ensures
            builder.pending() == (ShipmentView { owner: owner, ..self.pending() }),
    {
        let mut builder = self;
        builder.owner = owner;
        builder
    }

    pub fn with_products(self, products: Vec<ProductId>) -> (builder: Self)
        ensures
            builder.pending() == (ShipmentView {
                products: ids_view(products@),
                ..self.pending()
            }),
    {
        let mut builder = self;
        builder.products = products;
        builder
    }

    pub fn registered_at(self, registered: Moment) -> (builder: Self)
        ensures
            builder.pending() == (ShipmentView { registered: registered, ..self.pending() }),
    {
        let mut builder = self;
        builder.registered = registered;
        builder
    }

    /// The shipment with the fields given so far. It is pending and has no
    /// delivery time, whatever was given.
    pub fn build(self) -> (shipment: Shipment)
        ensures
            shipment@ == self.pending(),
            shipment@.status == ShipmentStatus::Pending,
            shipment@.delivered.is_none(),
            shipment@.consistent(),
    {
        Shipment {
            id: self.id,
            owner: self.owner,
            products: self.products,
            registered: self.registered,
            status: ShipmentStatus::Pending,
            delivered: None,
        }
    }
}

impl Default for ShipmentBuilder {
    fn default() -> (builder: Self)
        ensures
            builder.pending() == (ShipmentView {
                id: Seq::<u8>::empty(),
                owner: 0,
                status: ShipmentStatus::Pending,
                products: Seq::<Seq<u8>>::empty(),
                registered: 0,
                delivered: None,
            }),
    {
        let builder =
            ShipmentBuilder { id: Vec::new(), owner: 0, products: Vec::new(), registered: 0 };
        assert(ids_view(builder.products@) =~= Seq::<Seq<u8>>::empty());
        builder
    }
}

/// Collects the fields of a shipping event that is about to be logged.
pub struct ShippingEventBuilder {
    shipment_id: ShipmentId,
    event_type: ShippingEventType,
    location: Option<ReadPoint>,
    readings: Vec<Reading>,
    timestamp: Moment,
}

impl ShippingEventBuilder {
    /// The event that `build` would return now.
    pub closed spec fn pending(self) -> ShippingEventView {
        ShippingEventView {
            event_type: self.event_type,
            shipment_id: self.shipment_id@,
            location: self.location,
            readings: readings_view(self.readings@),
            timestamp: self.timestamp,
        }
    }

    pub fn of_type(self, event_type: ShippingEventType) -> (builder: Self)
        ensures
            builder.pending() == (ShippingEventView { event_type: event_type, ..self.pending() }),
    {
        let mut builder = self;
        builder.event_type = event_type;
        builder
    }

    pub fn for_shipment(self, id: ShipmentId) -> (builder: Self)
        ensures
            builder.pending() == (ShippingEventView { shipment_id: id@, ..self.pending() }),
    {
        let mut builder = self;
        builder.shipment_id = id;
        builder
    }

    pub fn at_location(self, location: Option<ReadPoint>) -> (builder: Self)
        ensures
            builder.pending() == (ShippingEventView { location: location, ..self.pending() }),
    {
        let mut builder = self;
        builder.location = location;
        builder
    }

    pub fn with_readings(self, readings: Vec<Reading>) -> (builder: Self)
        ensures
            builder.pending() == (ShippingEventView {
                readings: readings_view(readings@),
                ..self.pending()
            }),
    {
        let mut builder = self;
        builder.readings = readings;
        builder
    }

    pub fn at_time(self, timestamp: Moment) -> (builder: Self)
        ensures
            builder.pending() == (ShippingEventView { timestamp: timestamp, ..self.pending() }),
    {
        let mut builder = self;
        builder.timestamp = timestamp;
        builder
    }

    pub fn build(self) -> (event: ShippingEvent)
        ensures
            event@ == self.pending(),
    {
        ShippingEvent {
            event_type: self.event_type,
            shipment_id: self.shipment_id,
            location: self.location,
            readings: self.readings,
            timestamp: self.timestamp,
        }
    }
}

impl Default for ShippingEventBuilder {
    fn default() -> (builder: Self)
        ensures
            builder.pending() == (ShippingEventView {
                event_type: ShippingEventType::ShipmentPickup,
                shipment_id: Seq::<u8>::empty(),
                location: None,
                readings: Seq::<ReadingView>::empty(),
                timestamp: 0,
            }),
    {
        let builder = ShippingEventBuilder {
            shipment_id: Vec::new(),
            event_type: ShippingEventType::ShipmentPickup,
            location: None,
            readings: Vec::new(),
            timestamp: 0,
        };
        assert(readings_view(builder.readings@) =~= Seq::<ReadingView>::empty());
        builder
    }
}

} // verus!
