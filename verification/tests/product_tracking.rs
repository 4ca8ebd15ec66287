use fixed::types::I16F16;
use supply_chain::product_tracking::types::{
    AccountId, Moment, ProductId, ReadPoint, Reading, ReadingType, Shipment, ShipmentId,
    ShipmentStatus, ShippingEvent, ShippingEventType, ShippingOperation,
};
use supply_chain::product_tracking::{DispatchError, Error, Module, Origin, RawEvent};

fn new_test_ext() -> Module {
    let mut module = Module::new();
    module.block_number = 1;
    module
}

fn account_key(s: &str) -> AccountId {
    let mut key: AccountId = 0xcbf29ce484222325;
    for b in s.bytes() {
        key = (key ^ b as u64).wrapping_mul(0x100000001b3);
    }
    key
}

fn signed_only(origin: &Origin) -> bool {
    matches!(origin, Origin::Signed(_))
}

fn store_test_shipment(
    module: &mut Module,
    id: ShipmentId,
    owner: AccountId,
    status: ShipmentStatus,
    products: Vec<ProductId>,
    registered: Moment,
) {
    module.ledger.put_shipment(
        id.clone(),
        Shipment { id, owner, status, products, registered, delivered: None },
    );
}

fn store_test_event(module: &mut Module, shipment_id: ShipmentId, event_type: ShippingEventType) {
    let event = ShippingEvent {
        event_type,
        shipment_id: shipment_id.clone(),
        location: None,
        readings: vec![],
        timestamp: 42,
    };
    let event_idx = module.ledger.next_event_index().unwrap();
    module.ledger.put_event(event_idx, event);
    module.ledger.append_shipment_event_index(&shipment_id, event_idx);
}

const TEST_PRODUCT_ID: &str = "00012345678905";
const TEST_SHIPMENT_ID: &str = "0001";
const TEST_ORGANIZATION: &str = "Northwind";
const TEST_SENDER: &str = "Alice";
const LONG_VALUE: &str = "Lorem ipsum dolor sit amet, consectetur adipiscing elit. Donec aliquam ut tortor nec congue. Pellente";

#[test]
fn register_shipment_without_products() {
    let mut module = new_test_ext();
    let sender = account_key(TEST_SENDER);
    let id = TEST_SHIPMENT_ID.as_bytes().to_owned();
    let owner = account_key(TEST_ORGANIZATION);
    let now = 42;
    module.now = now;

    let origin = Origin::Signed(sender);
    let result = module.register_shipment(origin, signed_only(&origin), id.clone(), owner, vec![]);

    assert!(result.is_ok());
    let events = result.unwrap();

    assert_eq!(
        module.ledger.get_shipment(&id),
        Some(&Shipment {
            id: id.clone(),
            owner: owner,
            status: ShipmentStatus::Pending,
            products: vec![],
            registered: now,
            delivered: None
        })
    );

    assert_eq!(module.ledger.shipments_of(owner), vec![id.clone()]);

    assert!(events.iter().any(|e| *e == RawEvent::ShipmentRegistered(sender, id.clone(), owner)));

    assert!(events
        .iter()
        .any(|e| *e == RawEvent::ShipmentStatusUpdated(sender, id.clone(), 1, ShipmentStatus::Pending)));
}

#[test]
fn register_shipment_with_valid_products() {
    let mut module = new_test_ext();
    let sender = account_key(TEST_SENDER);
    let id = TEST_SHIPMENT_ID.as_bytes().to_owned();
    let owner = account_key(TEST_ORGANIZATION);
    let now = 42;
    module.now = now;

    let origin = Origin::Signed(sender);
    let result = module.register_shipment(
        origin,
        signed_only(&origin),
        id.clone(),
        owner,
        vec![
            b"00012345600001".to_vec(),
            b"00012345600002".to_vec(),
            b"00012345600003".to_vec(),
        ],
    );

    assert!(result.is_ok());
    let events = result.unwrap();

    assert_eq!(
        module.ledger.get_shipment(&id),
        Some(&Shipment {
            id: id.clone(),
            owner: owner,
            status: ShipmentStatus::Pending,
            products: vec![
                b"00012345600001".to_vec(),
                b"00012345600002".to_vec(),
                b"00012345600003".to_vec(),
            ],
            registered: now,
            delivered: None
        })
    );

    assert_eq!(module.ledger.shipments_of(owner), vec![id.clone()]);

    assert!(events.iter().any(|e| *e == RawEvent::ShipmentRegistered(sender, id.clone(), owner)));

    assert!(events
        .iter()
        .any(|e| *e == RawEvent::ShipmentStatusUpdated(sender, id.clone(), 1, ShipmentStatus::Pending)));
}

#[test]
fn register_shipment_with_invalid_sender() {
    let mut module = new_test_ext();
    let before = module.clone();
    let origin = Origin::Unsigned;
    assert_eq!(
        module.register_shipment(
            origin,
            signed_only(&origin),
            TEST_SHIPMENT_ID.as_bytes().to_owned(),
            account_key(TEST_ORGANIZATION),
            vec!()
        ),
        Err(DispatchError::BadOrigin)
    );
    assert_eq!(module, before);
}

#[test]
fn register_shipment_with_missing_id() {
    let mut module = new_test_ext();
    let before = module.clone();
    let origin = Origin::Signed(account_key(TEST_SENDER));
    assert_eq!(
        module.register_shipment(
            origin,
            signed_only(&origin),
            vec!(),
            account_key(TEST_ORGANIZATION),
            vec!()
        ),
        Err(DispatchError::Module(Error::InvalidOrMissingIdentifier))
    );
    assert_eq!(module, before);
}

#[test]
fn register_shipment_with_long_id() {
    let mut module = new_test_ext();
    let before = module.clone();
    let origin = Origin::Signed(account_key(TEST_SENDER));
    assert_eq!(
        module.register_shipment(
            origin,
            signed_only(&origin),
            LONG_VALUE.as_bytes().to_owned(),
            account_key(TEST_ORGANIZATION),
            vec!()
        ),
        Err(DispatchError::Module(Error::InvalidOrMissingIdentifier))
    );
    assert_eq!(module, before);
}

#[test]
fn register_shipment_with_existing_id() {
    let mut module = new_test_ext();
    let existing_shipment = TEST_SHIPMENT_ID.as_bytes().to_owned();
    let now = 42;

    store_test_shipment(
        &mut module,
        existing_shipment.clone(),
        account_key(TEST_ORGANIZATION),
        ShipmentStatus::Pending,
        vec![],
        now,
    );

    let before = module.clone();
    let origin = Origin::Signed(account_key(TEST_SENDER));
    assert_eq!(
        module.register_shipment(
            origin,
            signed_only(&origin),
            existing_shipment,
            account_key(TEST_ORGANIZATION),
            vec![]
        ),
        Err(DispatchError::Module(Error::ShipmentAlreadyExists))
    );
    assert_eq!(module, before);
}

#[test]
fn register_shipment_with_too_many_products() {
    let mut module = new_test_ext();
    let before = module.clone();
    let origin = Origin::Signed(account_key(TEST_SENDER));
    assert_eq!(
        module.register_shipment(
            origin,
            signed_only(&origin),
            TEST_SHIPMENT_ID.as_bytes().to_owned(),
            account_key(TEST_ORGANIZATION),
            vec![
                b"00012345600001".to_vec(),
                b"00012345600002".to_vec(),
                b"00012345600003".to_vec(),
                b"00012345600004".to_vec(),
                b"00012345600005".to_vec(),
                b"00012345600006".to_vec(),
                b"00012345600007".to_vec(),
                b"00012345600008".to_vec(),
                b"00012345600009".to_vec(),
                b"00012345600010".to_vec(),
                b"00012345600011".to_vec(),
            ]
        ),
        Err(DispatchError::Module(Error::ShipmentHasTooManyProducts))
    );
    assert_eq!(module, before);
}

#[test]
fn track_shipment_with_invalid_sender() {
    let mut module = new_test_ext();
    let now = 42;
    let before = module.clone();
    let origin = Origin::Unsigned;
    assert_eq!(
        module.track_shipment(
            origin,
            signed_only(&origin),
            TEST_SHIPMENT_ID.as_bytes().to_owned(),
            ShippingOperation::Pickup,
            now,
            None,
            None
        ),
        Err(DispatchError::BadOrigin)
    );
    assert_eq!(module, before);
}

#[test]
fn track_shipment_with_missing_shipment_id() {
    let mut module = new_test_ext();
    let now = 42;
    let before = module.clone();
    let origin = Origin::Signed(account_key(TEST_SENDER));
    assert_eq!(
        module.track_shipment(
            origin,
            signed_only(&origin),
            vec![],
            ShippingOperation::Pickup,
            now,
            None,
            None
        ),
        Err(DispatchError::Module(Error::InvalidOrMissingIdentifier))
    );
    assert_eq!(module, before);
}

#[test]
fn track_shipment_with_long_shipment_id() {
    let mut module = new_test_ext();
    let now = 42;
    let before = module.clone();
    let origin = Origin::Signed(account_key(TEST_SENDER));
    assert_eq!(
        module.track_shipment(
            origin,
            signed_only(&origin),
            LONG_VALUE.as_bytes().to_owned(),
            ShippingOperation::Pickup,
            now,
            None,
            None
        ),
        Err(DispatchError::Module(Error::InvalidOrMissingIdentifier))
    );
    assert_eq!(module, before);
}

#[test]
fn track_shipment_with_unknown_shipment() {
    let mut module = new_test_ext();
    let unknown_shipment = TEST_SHIPMENT_ID.as_bytes().to_owned();
    let now = 42;
    let before = module.clone();
    let origin = Origin::Signed(account_key(TEST_SENDER));
    assert_eq!(
        module.track_shipment(
            origin,
            signed_only(&origin),
            unknown_shipment,
            ShippingOperation::Pickup,
            now,
            None,
            None
        ),
        Err(DispatchError::Module(Error::ShipmentIsUnknown))
    );
    assert_eq!(module, before);
}

#[test]
fn track_shipment_pickup() {
    let mut module = new_test_ext();
    let owner = account_key(TEST_ORGANIZATION);
    let shipment_id = TEST_SHIPMENT_ID.as_bytes().to_owned();
    let now = 42;

    // Store shipment w/ Pending status
    store_test_shipment(
        &mut module,
        shipment_id.clone(),
        owner,
        ShipmentStatus::Pending,
        vec![TEST_PRODUCT_ID.as_bytes().to_owned()],
        now,
    );

    // Store shipping registration event
    store_test_event(&mut module, shipment_id.clone(), ShippingEventType::ShipmentRegistration);

    // Dispatchable call succeeds
    let origin = Origin::Signed(owner);
    let result = module.track_shipment(
        origin,
        signed_only(&origin),
        shipment_id.clone(),
        ShippingOperation::Pickup,
        now,
        None,
        None,
    );
    assert!(result.is_ok());
    let events = result.unwrap();

    // Storage is correctly updated
    assert_eq!(module.ledger.event_count(), 2);
    assert_eq!(
        module.ledger.get_event(2),
        Some(&ShippingEvent {
            event_type: ShippingEventType::ShipmentPickup,
            shipment_id: shipment_id.clone(),
            location: None,
            readings: vec![],
            timestamp: now,
        })
    );
    assert_eq!(module.ledger.events_of_shipment(&shipment_id), vec![1, 2]);

    // Shipment's status should be updated to 'InTransit'
    assert_eq!(
        module.ledger.get_shipment(&shipment_id),
        Some(&Shipment {
            id: shipment_id.clone(),
            owner: owner,
            status: ShipmentStatus::InTransit,
            products: vec![TEST_PRODUCT_ID.as_bytes().to_owned()],
            registered: now,
            delivered: None
        })
    );

    // Event is raised
    assert!(events.iter().any(|e| *e
        == RawEvent::ShipmentStatusUpdated(owner, shipment_id.clone(), 2, ShipmentStatus::InTransit)));
}

#[test]
fn track_shipment_delivery() {
    let mut module = new_test_ext();
    let owner = account_key(TEST_ORGANIZATION);
    let shipment_id = TEST_SHIPMENT_ID.as_bytes().to_owned();
    let now = 42;
    module.now = now;

    // Store shipment w/ InTransit status
    store_test_shipment(
        &mut module,
        shipment_id.clone(),
        owner,
        ShipmentStatus::InTransit,
        vec![TEST_PRODUCT_ID.as_bytes().to_owned()],
        now,
    );

    // Store shipping registration & pickup events
    store_test_event(&mut module, shipment_id.clone(), ShippingEventType::ShipmentRegistration);
    store_test_event(&mut module, shipment_id.clone(), ShippingEventType::ShipmentPickup);

    // Dispatchable call succeeds
    let origin = Origin::Signed(owner);
    let result = module.track_shipment(
        origin,
        signed_only(&origin),
        shipment_id.clone(),
        ShippingOperation::Deliver,
        now,
        None,
        None,
    );
    assert!(result.is_ok());
    let events = result.unwrap();

    // Storage is correctly updated
    assert_eq!(module.ledger.event_count(), 3);
    assert_eq!(
        module.ledger.get_event(3),
        Some(&ShippingEvent {
            event_type: ShippingEventType::ShipmentDeliver,
            shipment_id: shipment_id.clone(),
            location: None,
            readings: vec![],
            timestamp: now,
        })
    );
    assert_eq!(module.ledger.events_of_shipment(&shipment_id), vec![1, 2, 3]);

    // Shipment's status should be updated to 'Delivered'
    // and delivered timestamp updated
    assert_eq!(
        module.ledger.get_shipment(&shipment_id),
        Some(&Shipment {
            id: shipment_id.clone(),
            owner: owner,
            status: ShipmentStatus::Delivered,
            products: vec![TEST_PRODUCT_ID.as_bytes().to_owned()],
            registered: now,
            delivered: Some(now)
        })
    );

    // Events is raised
    assert!(events.iter().any(|e| *e
        == RawEvent::ShipmentStatusUpdated(owner, shipment_id.clone(), 3, ShipmentStatus::Delivered)));
}

#[test]
fn track_shipment_for_delivered_shipment() {
    let mut module = new_test_ext();
    let owner = account_key(TEST_ORGANIZATION);
    let shipment_id = TEST_SHIPMENT_ID.as_bytes().to_owned();
    let now = 42;

    // Store shipment w/ Delivered status
    store_test_shipment(
        &mut module,
        shipment_id.clone(),
        owner,
        ShipmentStatus::Delivered,
        vec![TEST_PRODUCT_ID.as_bytes().to_owned()],
        now,
    );

    let before = module.clone();
    let origin = Origin::Signed(owner);
    assert_eq!(
        module.track_shipment(
            origin,
            signed_only(&origin),
            shipment_id.clone(),
            ShippingOperation::Pickup,
            now,
            None,
            None
        ),
        Err(DispatchError::Module(Error::ShipmentHasBeenDelivered))
    );
    assert_eq!(module, before);
}

#[test]
fn track_shipment_for_intransit_shipment() {
    let mut module = new_test_ext();
    let owner = account_key(TEST_ORGANIZATION);
    let shipment_id = TEST_SHIPMENT_ID.as_bytes().to_owned();
    let now = 42;

    // Store shipment w/ InTransit status
    store_test_shipment(
        &mut module,
        shipment_id.clone(),
        owner,
        ShipmentStatus::InTransit,
        vec![TEST_PRODUCT_ID.as_bytes().to_owned()],
        now,
    );

    let before = module.clone();
    let origin = Origin::Signed(owner);
    assert_eq!(
        module.track_shipment(
            origin,
            signed_only(&origin),
            shipment_id.clone(),
            ShippingOperation::Pickup,
            now,
            None,
            None
        ),
        Err(DispatchError::Module(Error::ShipmentIsInTransit))
    );
    assert_eq!(module, before);
}

#[test]
fn monitor_shipment() {
    let mut module = new_test_ext();
    let owner = account_key(TEST_ORGANIZATION);
    let shipment_id = TEST_SHIPMENT_ID.as_bytes().to_owned();
    let now = 42;

    // Store shipment w/ InTransit status
    store_test_shipment(
        &mut module,
        shipment_id.clone(),
        owner,
        ShipmentStatus::InTransit,
        vec![TEST_PRODUCT_ID.as_bytes().to_owned()],
        now,
    );

    // Store shipping registration & pickup events
    store_test_event(&mut module, shipment_id.clone(), ShippingEventType::ShipmentRegistration);
    store_test_event(&mut module, shipment_id.clone(), ShippingEventType::ShipmentPickup);

    // Define location & readings for sensor reading
    let location = ReadPoint {
        latitude: I16F16::from_num(52.4941126),
        longitude: I16F16::from_num(13.4355606),
    };

    let readings = vec![Reading {
        device_id: "14d453ea4bdf46bc8042".as_bytes().to_owned(),
        reading_type: ReadingType::Temperature,
        value: I16F16::from_num(20.123),
        timestamp: now,
    }];

    // Dispatchable call succeeds
    let origin = Origin::Signed(owner);
    let result = module.track_shipment(
        origin,
        signed_only(&origin),
        shipment_id.clone(),
        ShippingOperation::Scan,
        now,
        Some(location.clone()),
        Some(readings.clone()),
    );
    assert!(result.is_ok());

    // Storage is correctly updated
    assert_eq!(module.ledger.event_count(), 3);
    assert_eq!(
        module.ledger.get_event(3),
        Some(&ShippingEvent {
            event_type: ShippingEventType::ShipmentScan,
            shipment_id: shipment_id.clone(),
            location: Some(location),
            readings: readings,
            timestamp: now,
        })
    );
    assert_eq!(module.ledger.events_of_shipment(&shipment_id), vec![1, 2, 3]);

    // Shipment's status should still be 'InTransit'
    assert_eq!(
        module.ledger.get_shipment(&shipment_id),
        Some(&Shipment {
            id: shipment_id.clone(),
            owner: owner,
            status: ShipmentStatus::InTransit,
            products: vec![TEST_PRODUCT_ID.as_bytes().to_owned()],
            registered: now,
            delivered: None
        })
    );
}

#[test]
fn monitor_shipment_with_negative_latlon() {
    let mut module = new_test_ext();
    let owner = account_key(TEST_ORGANIZATION);
    let shipment_id = TEST_SHIPMENT_ID.as_bytes().to_owned();
    let now = 42;

    // Store shipment w/ InTransit status
    store_test_shipment(
        &mut module,
        shipment_id.clone(),
        owner,
        ShipmentStatus::InTransit,
        vec![TEST_PRODUCT_ID.as_bytes().to_owned()],
        now,
    );

    // Store shipping registration & pickup events
    store_test_event(&mut module, shipment_id.clone(), ShippingEventType::ShipmentRegistration);
    store_test_event(&mut module, shipment_id.clone(), ShippingEventType::ShipmentPickup);

    // Define location & readings for sensor reading
    let location = ReadPoint {
        // Rio de Janeiro, Brazil
        latitude: I16F16::from_num(-22.9466369),
        longitude: I16F16::from_num(-43.233472),
    };

    let readings = vec![Reading {
        device_id: "14d453ea4bdf46bc8042".as_bytes().to_owned(),
        reading_type: ReadingType::Temperature,
        value: I16F16::from_num(20.123),
        timestamp: now,
    }];

    // Dispatchable call succeeds
    let origin = Origin::Signed(owner);
    let result = module.track_shipment(
        origin,
        signed_only(&origin),
        shipment_id.clone(),
        ShippingOperation::Scan,
        now,
        Some(location.clone()),
        Some(readings.clone()),
    );
    assert!(result.is_ok());

    // Storage is correctly updated
    assert_eq!(module.ledger.event_count(), 3);
    assert_eq!(
        module.ledger.get_event(3),
        Some(&ShippingEvent {
            event_type: ShippingEventType::ShipmentScan,
            shipment_id: shipment_id.clone(),
            location: Some(location),
            readings: readings,
            timestamp: now,
        })
    );
    assert_eq!(module.ledger.events_of_shipment(&shipment_id), vec![1, 2, 3]);

    // Shipment's status should still be 'InTransit'
    assert_eq!(
        module.ledger.get_shipment(&shipment_id),
        Some(&Shipment {
            id: shipment_id.clone(),
            owner: owner,
            status: ShipmentStatus::InTransit,
            products: vec![TEST_PRODUCT_ID.as_bytes().to_owned()],
            registered: now,
            delivered: None
        })
    );
}
