//! What holds of the ledger in every state that the two operations can
//! reach, and of the operations on any state.

use vstd::prelude::*;
use crate::product_tracking::{
    DispatchError, Error, ModuleView, Origin, SHIPMENT_MAX_PRODUCTS, applied, stored, transition,
    valid_identifier,
};
use crate::system::admitted;
use crate::product_tracking::ledger::LedgerView;
use crate::product_tracking::types::{
    AccountId, BlockNumber, Moment, ReadPoint, ReadingView, ShipmentStatus, ShippingEventIndex,
    ShippingEventView, ShippingOperation,
};

verus! {

/// The indices from 1 to `upto` under which an event of the given shipment
/// is stored, in ascending order.
pub open spec fn indices_of(
    events: Map<ShippingEventIndex, ShippingEventView>,
    shipment_id: Seq<u8>,
    upto: nat,
) -> Seq<ShippingEventIndex>
    decreases upto,
{
    if upto == 0 {
        Seq::empty()
    } else {
        let earlier = indices_of(events, shipment_id, (upto - 1) as nat);
        let idx = upto as ShippingEventIndex;
        if events.dom().contains(idx) && events[idx].shipment_id == shipment_id {
            earlier.push(idx)
        } else {
            earlier
        }
    }
}

/// No index above the counter is in use.
pub open spec fn indices_bounded(ledger: LedgerView) -> bool {
    forall|idx: ShippingEventIndex| #[trigger]
        ledger.events.dom().contains(idx) ==> 1 <= idx <= ledger.event_count
}

/// The list of each shipment holds exactly the indices of its events, in the
/// order in which they were assigned.
pub open spec fn events_indexed(ledger: LedgerView) -> bool {
    forall|shipment_id: Seq<u8>| #[trigger]
        ledger.events_of(shipment_id) == indices_of(
            ledger.events,
            shipment_id,
            ledger.event_count as nat,
        )
}

/// The list of each owner holds exactly the shipments of that owner, each
/// once.
pub open spec fn owners_indexed(ledger: LedgerView) -> bool {
    &&& forall|owner: AccountId, id: Seq<u8>| #[trigger]
        ledger.shipments_of(owner).contains(id) <==> ledger.shipments.dom().contains(id)
            && ledger.shipments[id].owner == owner
    &&& forall|owner: AccountId| #[trigger] ledger.shipments_of(owner).no_duplicates()
}

/// Every index that is queued for a block is the index of a stored event.
pub open spec fn queues_indexed(ledger: LedgerView) -> bool {
    forall|block: BlockNumber, k: int|
        0 <= k < ledger.queue_at(block).len() ==> ledger.events.dom().contains(
            #[trigger] ledger.queue_at(block)[k],
        )
}

/// Every shipment is stored under its own identifier, and has a delivery
/// time exactly if it is delivered.
pub open spec fn shipments_sound(ledger: LedgerView) -> bool {
    forall|id: Seq<u8>| #[trigger]
        ledger.shipments.dom().contains(id) ==> ledger.shipments[id].id == id
            && ledger.shipments[id].consistent()
}

/// The indices agree with the records they are derived from.
pub open spec fn coherent(ledger: LedgerView) -> bool {
    &&& indices_bounded(ledger)
    &&& events_indexed(ledger)
    &&& owners_indexed(ledger)
    &&& queues_indexed(ledger)
    &&& shipments_sound(ledger)
}

/// One call of one of the two operations, with the time and the block
/// height at which it is executed.
pub enum Call {
    Register {
        now: Moment,
        block_number: BlockNumber,
        origin: Origin,
        may_invoke: bool,
        id: Seq<u8>,
        owner: AccountId,
        products: Seq<Seq<u8>>,
    },
    Track {
        now: Moment,
        block_number: BlockNumber,
        origin: Origin,
        may_invoke: bool,
        id: Seq<u8>,
        operation: ShippingOperation,
        timestamp: Moment,
        location: Option<ReadPoint>,
        readings: Seq<ReadingView>,
    },
}

impl Call {
    /// The state in which the call is executed: the ledger as it is, at the
    /// call's time and block height.
    pub open spec fn arrives(self, state: ModuleView) -> ModuleView {
        match self {
            Call::Register { now, block_number, .. } => ModuleView { now, block_number, ..state },
            Call::Track { now, block_number, .. } => ModuleView { now, block_number, ..state },
        }
    }

    /// Why the call is refused in a state, if it is.
    pub open spec fn error(self, state: ModuleView) -> Option<DispatchError> {
        match self {
            Call::Register { origin, may_invoke, id, products, .. } => self.arrives(
                state,
            ).register_error(origin, may_invoke, id, products),
            Call::Track { origin, may_invoke, id, operation, .. } => self.arrives(
                state,
            ).track_error(origin, may_invoke, id, operation),
        }
    }

    /// The state after the call: changed as the operation says if the call
    /// is accepted, and the ledger untouched if it is refused.
    pub open spec fn apply(self, state: ModuleView) -> ModuleView {
        if self.error(state) is Some {
            self.arrives(state)
        } else {
            match self {
                Call::Register { id, owner, products, .. } => self.arrives(
                    state,
                ).after_registration(id, owner, products),
                Call::Track { id, operation, timestamp, location, readings, .. } => self.arrives(
                    state,
                ).after_tracking(id, operation, timestamp, location, readings),
            }
        }
    }

    /// The index that the call's event gets, if the call is accepted.
    pub open spec fn assigned(self, state: ModuleView) -> Option<ShippingEventIndex> {
        if self.error(state) is Some {
            None
        } else {
            Some((state.ledger.event_count + 1) as ShippingEventIndex)
        }
    }
}

/// The state after a series of calls, made one after the other.
pub open spec fn run(state: ModuleView, calls: Seq<Call>) -> ModuleView
    decreases calls.len(),
{
    if calls.len() == 0 {
        state
    } else {
        calls.last().apply(run(state, calls.drop_last()))
    }
}

/// The state before anything was called.
pub open spec fn initial() -> ModuleView {
    ModuleView { ledger: LedgerView::empty(), now: 0, block_number: 0 }
}

proof fn lemma_indices_of_ignores_later(
    events: Map<ShippingEventIndex, ShippingEventView>,
    idx: ShippingEventIndex,
    event: ShippingEventView,
    shipment_id: Seq<u8>,
    upto: nat,
)
    requires
        upto < idx,
    ensures
        indices_of(events.insert(idx, event), shipment_id, upto) == indices_of(
            events,
            shipment_id,
            upto,
        ),
    decreases upto,
{
    if upto > 0 {
        lemma_indices_of_ignores_later(events, idx, event, shipment_id, (upto - 1) as nat);
    }
}

/// Logging an event keeps the bound on the indices and the lists of the
/// shipments' events right.
proof fn lemma_stored_keeps_events(ledger: LedgerView, event: ShippingEventView)
    requires
        indices_bounded(ledger),
        events_indexed(ledger),
        ledger.event_count < ShippingEventIndex::MAX,
    ensures
        indices_bounded(stored(ledger, event)),
        events_indexed(stored(ledger, event)),
{
    let after = stored(ledger, event);
    let idx = (ledger.event_count + 1) as ShippingEventIndex;
    assert forall|shipment_id: Seq<u8>| #[trigger]
        after.events_of(shipment_id) == indices_of(
            after.events,
            shipment_id,
            after.event_count as nat,
        ) by {
        lemma_indices_of_ignores_later(
            ledger.events,
            idx,
            event,
            shipment_id,
            ledger.event_count as nat,
        );
        assert(ledger.events_of(shipment_id) == indices_of(
            ledger.events,
            shipment_id,
            ledger.event_count as nat,
        ));
    }
}

/// The empty ledger is coherent.
pub proof fn initial_is_coherent()
    ensures
        coherent(initial().ledger),
{
    let ledger = initial().ledger;
    assert forall|owner: AccountId| #[trigger] ledger.shipments_of(owner).no_duplicates() by {}
}

/// A registration that is accepted leaves a coherent ledger coherent.
pub proof fn registration_keeps_coherence(
    state: ModuleView,
    origin: Origin,
    may_invoke: bool,
    id: Seq<u8>,
    owner: AccountId,
    products: Seq<Seq<u8>>,
)
    requires
        coherent(state.ledger),
        state.register_error(origin, may_invoke, id, products) is None,
    ensures
        coherent(state.after_registration(id, owner, products).ledger),
{
    let before = state.ledger;
    let after = state.after_registration(id, owner, products).ledger;
    let idx = (before.event_count + 1) as ShippingEventIndex;
    let filed = before.with_shipment(
        id,
        crate::product_tracking::new_shipment_view(id, owner, products, state.now),
    ).with_owner_entry(owner, id);
    assert(indices_bounded(filed));
    assert(events_indexed(filed)) by {
        assert forall|s: Seq<u8>| #[trigger]
            filed.events_of(s) == indices_of(filed.events, s, filed.event_count as nat) by {
            assert(filed.events_of(s) == before.events_of(s));
        }
    }
    let logged = stored(filed, crate::product_tracking::registration_event(id, state.now));
    lemma_stored_keeps_events(filed, crate::product_tracking::registration_event(id, state.now));
    assert(indices_bounded(after));
    assert(events_indexed(after)) by {
        assert forall|s: Seq<u8>| #[trigger]
            after.events_of(s) == indices_of(after.events, s, after.event_count as nat) by {
            assert(after.events_of(s) == logged.events_of(s));
        }
    }

    assert(owners_indexed(after)) by {
        assert(!before.shipments_of(owner).contains(id));
        assert forall|o: AccountId, s: Seq<u8>| #[trigger]
            after.shipments_of(o).contains(s) <==> after.shipments.dom().contains(s)
                && after.shipments[s].owner == o by {
            assert(before.shipments_of(o).contains(s) <==> before.shipments.dom().contains(s)
                && before.shipments[s].owner == o);
            if o == owner {
                let listed = before.shipments_of(owner);
                assert(after.shipments_of(o) == listed.push(id));
                if listed.push(id).contains(s) {
                    let k = choose|k: int| 0 <= k < listed.push(id).len() && listed.push(id)[k] == s;
                    if k < listed.len() {
                        assert(listed[k] == s);
                        assert(listed.contains(s));
                    }
                }
                if listed.contains(s) {
                    let k = choose|k: int| 0 <= k < listed.len() && listed[k] == s;
                    assert(listed.push(id)[k] == s);
                }
                assert(listed.push(id)[listed.len() as int] == id);
            } else {
                assert(after.shipments_of(o) == before.shipments_of(o));
            }
        }
        assert forall|o: AccountId| #[trigger] after.shipments_of(o).no_duplicates() by {
            assert(before.shipments_of(o).no_duplicates());
            if o == owner {
                let listed = before.shipments_of(owner);
                assert(after.shipments_of(o) == listed.push(id));
                assert forall|a: int, b: int|
                    0 <= a < listed.push(id).len() && 0 <= b < listed.push(id).len() && a
                        != b implies listed.push(id)[a] != listed.push(id)[b] by {
                    if a < listed.len() {
                        assert(listed.contains(listed[a]));
                    }
                    if b < listed.len() {
                        assert(listed.contains(listed[b]));
                    }
                }
            } else {
                assert(after.shipments_of(o) == before.shipments_of(o));
            }
        }
    }
    assert(queues_indexed(after)) by {
        assert forall|block: BlockNumber, k: int| 0 <= k < after.queue_at(block).len() implies
            after.events.dom().contains(#[trigger] after.queue_at(block)[k]) by {
            if block == state.block_number {
                assert(after.queue_at(block) == before.queue_at(block).push(idx));
                if k < before.queue_at(block).len() {
                    assert(before.events.dom().contains(before.queue_at(block)[k]));
                }
            } else {
                assert(after.queue_at(block) == before.queue_at(block));
                assert(before.events.dom().contains(before.queue_at(block)[k]));
            }
        }
    }
    assert(shipments_sound(after)) by {
        assert forall|s: Seq<u8>| #[trigger] after.shipments.dom().contains(s) implies
            after.shipments[s].id == s && after.shipments[s].consistent() by {
            if s != id {
                assert(before.shipments.dom().contains(s));
            }
        }
    }
}

/// An operation on a shipment that is accepted leaves a coherent ledger
/// coherent.
pub proof fn tracking_keeps_coherence(
    state: ModuleView,
    origin: Origin,
    may_invoke: bool,
    id: Seq<u8>,
    operation: ShippingOperation,
    timestamp: Moment,
    location: Option<ReadPoint>,
    readings: Seq<ReadingView>,
)
    requires
        coherent(state.ledger),
        state.track_error(origin, may_invoke, id, operation) is None,
    ensures
        coherent(state.after_tracking(id, operation, timestamp, location, readings).ledger),
{
    let before = state.ledger;
    let after = state.after_tracking(id, operation, timestamp, location, readings).ledger;
    let idx = (before.event_count + 1) as ShippingEventIndex;
    let event = crate::product_tracking::tracking_event(
        id,
        operation,
        timestamp,
        location,
        readings,
    );
    lemma_stored_keeps_events(before, event);
    let logged = stored(before, event);
    assert(indices_bounded(after));
    assert(events_indexed(after)) by {
        assert forall|s: Seq<u8>| #[trigger]
            after.events_of(s) == indices_of(after.events, s, after.event_count as nat) by {
            assert(after.events_of(s) == logged.events_of(s));
        }
    }
    assert(before.shipments.dom().contains(id));
    let shipment = before.shipments[id];
    let updated = applied(shipment, operation, timestamp);
    assert(updated.owner == shipment.owner && updated.id == shipment.id);
    assert(updated.consistent()) by {
        assert(shipment.consistent());
    }
    assert(owners_indexed(after)) by {
        assert forall|o: AccountId, s: Seq<u8>| #[trigger]
            after.shipments_of(o).contains(s) <==> after.shipments.dom().contains(s)
                && after.shipments[s].owner == o by {
            assert(after.shipments_of(o) == before.shipments_of(o));
            assert(before.shipments_of(o).contains(s) <==> before.shipments.dom().contains(s)
                && before.shipments[s].owner == o);
        }
        assert forall|o: AccountId| #[trigger] after.shipments_of(o).no_duplicates() by {
            assert(after.shipments_of(o) == before.shipments_of(o));
            assert(before.shipments_of(o).no_duplicates());
        }
    }
    assert(queues_indexed(after)) by {
        assert forall|block: BlockNumber, k: int| 0 <= k < after.queue_at(block).len() implies
            after.events.dom().contains(#[trigger] after.queue_at(block)[k]) by {
            if block == state.block_number {
                assert(after.queue_at(block) == before.queue_at(block).push(idx));
                if k < before.queue_at(block).len() {
                    assert(before.events.dom().contains(before.queue_at(block)[k]));
                }
            } else {
                assert(after.queue_at(block) == before.queue_at(block));
                assert(before.events.dom().contains(before.queue_at(block)[k]));
            }
        }
    }
    assert(shipments_sound(after)) by {
        assert forall|s: Seq<u8>| #[trigger] after.shipments.dom().contains(s) implies
            after.shipments[s].id == s && after.shipments[s].consistent() by {
            assert(before.shipments.dom().contains(s));
        }
    }
}

/// Any call, accepted or refused, leaves a coherent ledger coherent.
pub proof fn call_keeps_coherence(state: ModuleView, call: Call)
    requires
        coherent(state.ledger),
    ensures
        coherent(call.apply(state).ledger),
{
    if call.error(state) is None {
        match call {
            Call::Register { origin, may_invoke, id, owner, products, .. } => {
                registration_keeps_coherence(
                    call.arrives(state),
                    origin,
                    may_invoke,
                    id,
                    owner,
                    products,
                );
            },
            Call::Track {
                origin,
                may_invoke,
                id,
                operation,
                timestamp,
                location,
                readings,
                ..
            } => {
                tracking_keeps_coherence(
                    call.arrives(state),
                    origin,
                    may_invoke,
                    id,
                    operation,
                    timestamp,
                    location,
                    readings,
                );
            },
        }
    }
}

/// Whatever calls are made on a coherent ledger, in whatever order, the
/// ledger is coherent afterwards.
pub proof fn run_keeps_coherence(state: ModuleView, calls: Seq<Call>)
    requires
        coherent(state.ledger),
    ensures
        coherent(run(state, calls).ledger),
    decreases calls.len(),
{
    if calls.len() > 0 {
        run_keeps_coherence(state, calls.drop_last());
        call_keeps_coherence(run(state, calls.drop_last()), calls.last());
    }
}

/// A ledger that holds nothing is coherent, whatever index it starts to
/// count from.
pub proof fn resumed_is_coherent(last_index: ShippingEventIndex)
    ensures
        coherent(LedgerView::empty().with_event_count(last_index)),
{
    let ledger = LedgerView::empty().with_event_count(last_index);
    assert forall|shipment_id: Seq<u8>| #[trigger]
        ledger.events_of(shipment_id) == indices_of(
            ledger.events,
            shipment_id,
            ledger.event_count as nat,
        ) by {
        lemma_no_events_no_indices(shipment_id, last_index as nat);
    }
    assert forall|owner: AccountId| #[trigger] ledger.shipments_of(owner).no_duplicates() by {}
}

proof fn lemma_no_events_no_indices(shipment_id: Seq<u8>, upto: nat)
    ensures
        indices_of(Map::empty(), shipment_id, upto) == Seq::<ShippingEventIndex>::empty(),
    decreases upto,
{
    if upto > 0 {
        lemma_no_events_no_indices(shipment_id, (upto - 1) as nat);
    }
}

/// Whatever calls are made on an empty ledger, in whatever order, the
/// ledger is coherent afterwards. In particular the list of events of each
/// shipment is the list of indices, in ascending order, whose event names
/// that shipment.
pub proof fn reachable_is_coherent(calls: Seq<Call>)
    ensures
        coherent(run(initial(), calls).ledger),
        forall|shipment_id: Seq<u8>| #[trigger]
            run(initial(), calls).ledger.events_of(shipment_id) == indices_of(
                run(initial(), calls).ledger.events,
                shipment_id,
                run(initial(), calls).ledger.event_count as nat,
            ),
{
    initial_is_coherent();
    run_keeps_coherence(initial(), calls);
}

/// A call never lowers the counter, never removes or changes a stored
/// event, and never removes a shipment. An accepted call raises the
/// counter by one and stores its event under the new value, which was not
/// in use; a refused call leaves the ledger as it was.
pub proof fn call_extends_log(state: ModuleView, call: Call)
    requires
        indices_bounded(state.ledger),
    ensures
        call.apply(state).ledger.event_count >= state.ledger.event_count,
        forall|idx: ShippingEventIndex| #[trigger]
            state.ledger.events.dom().contains(idx) ==> call.apply(state).ledger.event(idx)
                == state.ledger.event(idx),
        forall|id: Seq<u8>| #[trigger]
            state.ledger.shipments.dom().contains(id) ==> call.apply(
                state,
            ).ledger.shipments.dom().contains(id),
        match call.assigned(state) {
            Some(idx) => {
                &&& idx == state.ledger.event_count + 1
                &&& call.apply(state).ledger.event_count == idx
                &&& !state.ledger.events.dom().contains(idx)
                &&& call.apply(state).ledger.events.dom() == state.ledger.events.dom().insert(idx)
            },
            None => call.apply(state).ledger == state.ledger,
        },
{
    let idx = (state.ledger.event_count + 1) as ShippingEventIndex;
    if call.error(state) is None {
        assert(state.ledger.event_count < ShippingEventIndex::MAX);
        if state.ledger.events.dom().contains(idx) {
            assert(idx <= state.ledger.event_count);
        }
        assert(call.apply(state).ledger.events.dom() =~= state.ledger.events.dom().insert(idx));
    }
}

/// Over any series of calls the counter never goes down.
pub proof fn counter_never_decreases(state: ModuleView, calls: Seq<Call>, served: int)
    requires
        indices_bounded(state.ledger),
        0 <= served <= calls.len(),
    ensures
        indices_bounded(run(state, calls).ledger),
        run(state, calls.take(served)).ledger.event_count <= run(state, calls).ledger.event_count,
    decreases calls.len(),
{
    if calls.len() == 0 {
        assert(calls.take(served) =~= calls);
    } else if served == calls.len() {
        assert(calls.take(served) =~= calls);
        counter_never_decreases(state, calls.drop_last(), served - 1);
        call_extends_log(run(state, calls.drop_last()), calls.last());
        lemma_call_keeps_bound(run(state, calls.drop_last()), calls.last());
    } else {
        counter_never_decreases(state, calls.drop_last(), served);
        assert(calls.drop_last().take(served) =~= calls.take(served));
        call_extends_log(run(state, calls.drop_last()), calls.last());
        lemma_call_keeps_bound(run(state, calls.drop_last()), calls.last());
    }
}

proof fn lemma_call_keeps_bound(state: ModuleView, call: Call)
    requires
        indices_bounded(state.ledger),
    ensures
        indices_bounded(call.apply(state).ledger),
{
}

/// Indices are assigned in strictly ascending order and none is assigned
/// twice: of two accepted calls in a series, whatever shipments they are
/// about, the later one gets the larger index.
pub proof fn indices_strictly_increase(
    state: ModuleView,
    calls: Seq<Call>,
    earlier: int,
    later: int,
)
    requires
        indices_bounded(state.ledger),
        0 <= earlier < later < calls.len(),
        calls[earlier].assigned(run(state, calls.take(earlier))) is Some,
        calls[later].assigned(run(state, calls.take(later))) is Some,
    ensures
        calls[earlier].assigned(run(state, calls.take(earlier)))->Some_0 < calls[later].assigned(
            run(state, calls.take(later)),
        )->Some_0,
{
    let before_earlier = run(state, calls.take(earlier));
    let through_earlier = calls.take(earlier + 1);
    assert(through_earlier.drop_last() =~= calls.take(earlier));
    assert(through_earlier.last() == calls[earlier]);
    assert(run(state, through_earlier) == calls[earlier].apply(before_earlier));
    counter_never_decreases(state, calls.take(earlier), earlier);
    assert(calls.take(earlier).take(earlier) =~= calls.take(earlier));
    call_extends_log(before_earlier, calls[earlier]);
    counter_never_decreases(state, calls.take(later), earlier + 1);
    assert(calls.take(later).take(earlier + 1) =~= through_earlier);
}

/// A registration with a valid identifier that is not taken, with at most
/// `SHIPMENT_MAX_PRODUCTS` products, by a caller who is admitted, is
/// accepted while an index is left. After it, and after whatever calls
/// follow, a registration under the same identifier by an admitted caller
/// with an admissible list of products is refused because the shipment
/// exists, whatever owner and products it names.
pub proof fn registration_succeeds_once(
    state: ModuleView,
    first: Call,
    between: Seq<Call>,
    second: Call,
)
    requires
        first is Register,
        second is Register,
        first->Register_id == second->Register_id,
        admitted(first->Register_origin, first->Register_may_invoke),
        valid_identifier(first->Register_id),
        first->Register_products.len() <= SHIPMENT_MAX_PRODUCTS,
        !state.ledger.shipments.dom().contains(first->Register_id),
        state.ledger.event_count < ShippingEventIndex::MAX,
        admitted(second->Register_origin, second->Register_may_invoke),
        second->Register_products.len() <= SHIPMENT_MAX_PRODUCTS,
    ensures
        first.error(state) is None,
        first.apply(state).ledger.shipments.dom().contains(first->Register_id),
        second.error(run(first.apply(state), between)) == Some(
            DispatchError::Module(Error::ShipmentAlreadyExists),
        ),
        second.apply(run(first.apply(state), between)).ledger == run(
            first.apply(state),
            between,
        ).ledger,
{
    lemma_shipments_stay(first.apply(state), between, first->Register_id);
}

proof fn lemma_shipments_stay(state: ModuleView, calls: Seq<Call>, id: Seq<u8>)
    requires
        state.ledger.shipments.dom().contains(id),
    ensures
        run(state, calls).ledger.shipments.dom().contains(id),
    decreases calls.len(),
{
    if calls.len() > 0 {
        lemma_shipments_stay(state, calls.drop_last(), id);
    }
}

/// The transition table, cell by cell.
pub proof fn transition_table()
    ensures
        transition(ShipmentStatus::Pending, ShippingOperation::Pickup) == Ok::<
            ShipmentStatus,
            Error,
        >(ShipmentStatus::InTransit),
        transition(ShipmentStatus::Pending, ShippingOperation::Scan) == Ok::<
            ShipmentStatus,
            Error,
        >(ShipmentStatus::InTransit),
        transition(ShipmentStatus::Pending, ShippingOperation::Deliver) == Ok::<
            ShipmentStatus,
            Error,
        >(ShipmentStatus::Delivered),
        transition(ShipmentStatus::InTransit, ShippingOperation::Pickup) == Err::<
            ShipmentStatus,
            Error,
        >(Error::ShipmentIsInTransit),
        transition(ShipmentStatus::InTransit, ShippingOperation::Scan) == Ok::<
            ShipmentStatus,
            Error,
        >(ShipmentStatus::InTransit),
        transition(ShipmentStatus::InTransit, ShippingOperation::Deliver) == Ok::<
            ShipmentStatus,
            Error,
        >(ShipmentStatus::Delivered),
        forall|operation: ShippingOperation| #[trigger]
            transition(ShipmentStatus::Delivered, operation) == Err::<ShipmentStatus, Error>(
                Error::ShipmentHasBeenDelivered,
            ),
{
}

/// An operation by an admitted caller on a known shipment, with a valid
/// identifier and an index left, is accepted or refused as the table says.
/// Once a pickup or a delivery is accepted, the shipment has the status that
/// the table gives; after a scan it has the status it had. It has the
/// operation's time as its delivery time if the operation is a delivery,
/// and the delivery time it had otherwise; nothing else of it changes, and
/// no other shipment changes.
pub proof fn tracking_follows_table(
    state: ModuleView,
    origin: Origin,
    may_invoke: bool,
    id: Seq<u8>,
    operation: ShippingOperation,
    timestamp: Moment,
    location: Option<ReadPoint>,
    readings: Seq<ReadingView>,
)
    requires
        admitted(origin, may_invoke),
        valid_identifier(id),
        state.ledger.shipments.dom().contains(id),
        state.ledger.event_count < ShippingEventIndex::MAX,
    ensures
        match transition(state.ledger.shipments[id].status, operation) {
            Ok(status) => {
                let after = state.after_tracking(id, operation, timestamp, location, readings);
                &&& state.track_error(origin, may_invoke, id, operation) is None
                &&& after.ledger.shipments.dom() == state.ledger.shipments.dom()
                &&& after.ledger.shipments[id].status == if operation
                    == ShippingOperation::Scan {
                    state.ledger.shipments[id].status
                } else {
                    status
                }
                &&& after.ledger.shipments[id].delivered == if operation
                    == ShippingOperation::Deliver {
                    Some(timestamp)
                } else {
                    state.ledger.shipments[id].delivered
                }
                &&& after.ledger.shipments[id].id == state.ledger.shipments[id].id
                &&& after.ledger.shipments[id].owner == state.ledger.shipments[id].owner
                &&& after.ledger.shipments[id].products == state.ledger.shipments[id].products
                &&& after.ledger.shipments[id].registered == state.ledger.shipments[id].registered
                &&& forall|other: Seq<u8>|
                    other != id && state.ledger.shipments.dom().contains(other)
                        ==> #[trigger] after.ledger.shipments[other]
                        == state.ledger.shipments[other]
            },
            Err(e) => state.track_error(origin, may_invoke, id, operation) == Some(
                DispatchError::Module(e),
            ),
        },
{
    if transition(state.ledger.shipments[id].status, operation) is Ok {
        let after = state.after_tracking(id, operation, timestamp, location, readings);
        assert(after.ledger.shipments.dom() =~= state.ledger.shipments.dom());
    }
}

/// A scan that is accepted changes no shipment: neither a status nor a
/// delivery time.
pub proof fn scan_changes_no_shipment(
    state: ModuleView,
    id: Seq<u8>,
    timestamp: Moment,
    location: Option<ReadPoint>,
    readings: Seq<ReadingView>,
)
    ensures
        state.after_tracking(
            id,
            ShippingOperation::Scan,
            timestamp,
            location,
            readings,
        ).ledger.shipments == state.ledger.shipments,
{
}

} // verus!
