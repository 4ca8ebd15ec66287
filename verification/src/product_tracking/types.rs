//! Identifiers, readings, shipments and shipping events, each with the
//! mathematical value that the contracts speak of.

use vstd::prelude::*;
use crate::table::{copy_bytes, copy_ids, ids_view};

pub use crate::system::{AccountId, BlockNumber, Moment};

verus! {

/// A byte string that names something.
pub type Identifier = Vec<u8>;

pub type ShipmentId = Identifier;

pub type DeviceId = Identifier;

pub type ProductId = Vec<u8>;

/// Position of a shipping event in the log. The first event has index 1.
pub type ShippingEventIndex = u128;

/// The 32-bit fixed-point number of the `fixed` crate, with the number of its
/// fractional bits as a type. Nothing is claimed of it: its values are
/// stored and handed back as they came.
#[verifier::external_type_specification]
#[verifier::external_body]
#[verifier::reject_recursive_types(Frac)]
pub struct ExFixedI32<Frac>(fixed::FixedI32<Frac>);

/// A number as a type, of the `typenum` crate: the number `U` with the bit
/// `B` appended. Nothing is claimed of it.
#[verifier::external_type_specification]
#[verifier::external_body]
#[verifier::reject_recursive_types(U)]
#[verifier::reject_recursive_types(B)]
pub struct ExUInt<U, B>(typenum::UInt<U, B>);

/// The number zero as a type, of the `typenum` crate. Nothing is claimed of
/// it.
#[verifier::external_type_specification]
#[verifier::external_body]
pub struct ExUTerm(typenum::UTerm);

/// The bit 0 as a type, of the `typenum` crate. Nothing is claimed of it.
#[verifier::external_type_specification]
#[verifier::external_body]
pub struct ExB0(typenum::B0);

/// The bit 1 as a type, of the `typenum` crate. Nothing is claimed of it.
#[verifier::external_type_specification]
#[verifier::external_body]
pub struct ExB1(typenum::B1);

/// `clone` of the `fixed` crate's 32-bit fixed-point number: the copy is the
/// number itself.
pub assume_specification<Frac>[ <fixed::FixedI32<Frac> as Clone>::clone ](
    value: &fixed::FixedI32<Frac>,
) -> (copy: fixed::FixedI32<Frac>)
    ensures
        copy == *value,
;

/// A signed fixed-point number with 16 integer and 16 fractional bits.
pub type Decimal = fixed::types::I16F16;

#[derive(Clone, Copy, PartialEq, Eq, Debug, Structural)]
pub enum ShipmentStatus {
    Pending,
    InTransit,
    Delivered,
}

#[derive(Clone, Copy, PartialEq, Eq, Debug, Structural)]
pub enum ShippingOperation {
    Pickup,
    Scan,
    Deliver,
}

#[derive(Clone, Copy, PartialEq, Eq, Debug, Structural)]
pub enum ShippingEventType {
    ShipmentRegistration,
    ShipmentPickup,
    ShipmentScan,
    ShipmentDeliver,
}

/// The kind of event that records an operation.
pub open spec fn event_type_of(op: ShippingOperation) -> ShippingEventType {
    match op {
        ShippingOperation::Pickup => ShippingEventType::ShipmentPickup,
        ShippingOperation::Scan => ShippingEventType::ShipmentScan,
        ShippingOperation::Deliver => ShippingEventType::ShipmentDeliver,
    }
}

impl From<ShippingOperation> for ShippingEventType {
    fn from(op: ShippingOperation) -> (t: Self) {
        match op {
            ShippingOperation::Pickup => ShippingEventType::ShipmentPickup,
            ShippingOperation::Scan => ShippingEventType::ShipmentScan,
            ShippingOperation::Deliver => ShippingEventType::ShipmentDeliver,
        }
    }
}

impl vstd::std_specs::convert::FromSpecImpl<ShippingOperation> for ShippingEventType {
    open spec fn obeys_from_spec() -> bool {
        true
    }

    open spec fn from_spec(op: ShippingOperation) -> Self {
        event_type_of(op)
    }
}

#[derive(Clone, Copy, PartialEq, Eq, Debug, Structural)]
pub enum ReadingType {
    Humidity,
    Pressure,
    Shock,
    Tilt,
    Temperature,
    Vibration,
}

/// Where a reading was taken.
#[derive(Clone, Copy, PartialEq, Eq, Debug)]
pub struct ReadPoint {
    pub latitude: Decimal,
    pub longitude: Decimal,
}

/// One measurement of one device.
#[derive(Clone, PartialEq, Eq, Debug)]
pub struct Reading {
    pub device_id: DeviceId,
    pub reading_type: ReadingType,
    pub timestamp: Moment,
    pub value: Decimal,
}

pub struct ReadingView {
    pub device_id: Seq<u8>,
    pub reading_type: ReadingType,
    pub timestamp: Moment,
    pub value: Decimal,
}

impl View for Reading {
    type V = ReadingView;

    open spec fn view(&self) -> ReadingView {
        ReadingView {
            device_id: self.device_id@,
            reading_type: self.reading_type,
            timestamp: self.timestamp,
            value: self.value,
        }
    }
}

impl Reading {
    /// A reading with the same contents.
    pub fn duplicate(&self) -> (copy: Self)
        ensures
            copy@ == self@,
    {
        Reading {
            device_id: copy_bytes(self.device_id.as_slice()),
            reading_type: self.reading_type,
            timestamp: self.timestamp,
            value: self.value,
        }
    }
}

/// The values of a list of readings, in order.
pub open spec fn readings_view(readings: Seq<Reading>) -> Seq<ReadingView> {
    Seq::new(readings.len(), |i: int| readings[i]@)
}

/// A consignment and where it stands in its life.
#[derive(Clone, PartialEq, Eq, Debug)]
pub struct Shipment {
    pub id: ShipmentId,
    pub owner: AccountId,
    pub status: ShipmentStatus,
    pub products: Vec<ProductId>,
    pub registered: Moment,
    pub delivered: Option<Moment>,
}

pub struct ShipmentView {
    pub id: Seq<u8>,
    pub owner: AccountId,
    pub status: ShipmentStatus,
    pub products: Seq<Seq<u8>>,
    pub registered: Moment,
    pub delivered: Option<Moment>,
}

impl ShipmentView {
    /// A delivery time is recorded exactly for a delivered shipment.
    pub open spec fn consistent(self) -> bool {
        self.delivered.is_some() <==> self.status == ShipmentStatus::Delivered
    }

    /// The shipment once picked up.
    pub open spec fn picked_up(self) -> ShipmentView {
        ShipmentView { status: ShipmentStatus::InTransit, ..self }
    }

    /// The shipment once delivered at `delivered_on`.
    pub open spec fn delivered_at(self, delivered_on: Moment) -> ShipmentView {
        ShipmentView {
            status: ShipmentStatus::Delivered,
            delivered: Some(delivered_on),
            ..self
        }
    }
}

impl View for Shipment {
    type V = ShipmentView;

    open spec fn view(&self) -> ShipmentView {
        ShipmentView {
            id: self.id@,
            owner: self.owner,
            status: self.status,
            products: ids_view(self.products@),
            registered: self.registered,
            delivered: self.delivered,
        }
    }
}

impl Shipment {
    /// A shipment with the same contents.
    pub fn duplicate(&self) -> (copy: Self)
        ensures
            copy@ == self@,
    {
        Shipment {
            id: copy_bytes(self.id.as_slice()),
            owner: self.owner,
            status: self.status,
            products: copy_ids(self.products.as_slice()),
            registered: self.registered,
            delivered: self.delivered,
        }
    }

    pub fn pickup(self) -> (shipment: Self)
        ensures
            shipment@ == self@.picked_up(),
    {
        let mut shipment = self;
        shipment.status = ShipmentStatus::InTransit;
        shipment
    }

    pub fn deliver(self, delivered_on: Moment) -> (shipment: Self)
        ensures
            shipment@ == self@.delivered_at(delivered_on),
    {
        let mut shipment = self;
        shipment.status = ShipmentStatus::Delivered;
        shipment.delivered = Some(delivered_on);
        shipment
    }
}

/// One entry of the log: what happened to which shipment, where and when.
#[derive(Clone, PartialEq, Eq, Debug)]
pub struct ShippingEvent {
    pub event_type: ShippingEventType,
    pub shipment_id: ShipmentId,
    pub location: Option<ReadPoint>,
    pub readings: Vec<Reading>,
    pub timestamp: Moment,
}

pub struct ShippingEventView {
    pub event_type: ShippingEventType,
    pub shipment_id: Seq<u8>,
    pub location: Option<ReadPoint>,
    pub readings: Seq<ReadingView>,
    pub timestamp: Moment,
}

impl View for ShippingEvent {
    type V = ShippingEventView;

    open spec fn view(&self) -> ShippingEventView {
        ShippingEventView {
            event_type: self.event_type,
            shipment_id: self.shipment_id@,
            location: self.location,
            readings: readings_view(self.readings@),
            timestamp: self.timestamp,
        }
    }
}

impl ShippingEvent {
    /// An event with the same contents.
    pub fn duplicate(&self) -> (copy: Self)
        ensures
            copy@ == self@,
    {
        let mut readings: Vec<Reading> = Vec::new();
        let mut i: usize = 0;
        while i < self.readings.len()
            invariant
                i <= self.readings.len(),
                readings@.len() == i,
                forall|j: int| 0 <= j < i ==> readings@[j]@ == self.readings@[j]@,
            decreases self.readings.len() - i,
        {
            readings.push(self.readings[i].duplicate());
            i += 1;
        }
        assert(readings_view(readings@) =~= readings_view(self.readings@));
        ShippingEvent {
            event_type: self.event_type,
            shipment_id: copy_bytes(self.shipment_id.as_slice()),
            location: self.location,
            readings,
            timestamp: self.timestamp,
        }
    }
}

/// The text that the standard formatter gives for an event and all it
/// holds, field by field, in the form that `derive(Debug)` defines.
pub uninterp spec fn debug_text(event: ShippingEventView) -> Seq<char>;

impl ShippingEvent {
    /// The standard `format!` with `{:?}`, on the `Debug` that is derived
    /// for events: the text depends on nothing but what the event holds.
    #[verifier::external_body]
    fn debug_format(&self) -> (text: String)
        ensures
            text@ == debug_text(self@),
    {
        format!("{:?}", self)
    }

    /// The event as text, as it is sent to the listener.
    pub fn to_string(&self) -> (text: String)
        ensures
            text@ == debug_text(self@),
    {
        self.debug_format()
    }
}

} // verus!
