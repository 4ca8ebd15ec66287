use supply_chain::product_tracking::types::{
    AccountId, ShippingEvent, ShippingEventType, ShippingOperation,
};
use supply_chain::product_tracking::worker::{
    ListenerReply, Step, LISTENER_ACCEPTED, LISTENER_DEADLINE,
};
use supply_chain::product_tracking::{Module, Origin};

const OWNER: AccountId = 7;
const CALLER: AccountId = 11;

fn id(text: &str) -> Vec<u8> {
    text.as_bytes().to_vec()
}

/// One shipment registered in block 1 and one operation on it in each of the
/// blocks 2 to 5: the events 1 to 5 are queued for the blocks 1 to 5, and a
/// sixth and seventh event for block 3.
fn five_blocks() -> Module {
    let mut module = Module::new();
    module.block_number = 1;
    module.register_shipment(Origin::Signed(CALLER), true, id("0001"), OWNER, vec![]).unwrap();
    for block in 2..=5 {
        module.block_number = block;
        module
            .track_shipment(Origin::Signed(CALLER), true, id("0001"), ShippingOperation::Scan, 0, None, None)
            .unwrap();
    }
    module.block_number = 3;
    for _ in 0..2 {
        module
            .track_shipment(Origin::Signed(CALLER), true, id("0001"), ShippingOperation::Scan, 0, None, None)
            .unwrap();
    }
    module.block_number = 6;
    module
}

/// Runs the worker as its caller does: delivers what `advance` hands out and
/// stops at the first delivery that the listener does not accept.
fn run_worker(
    module: &Module,
    stored: Option<Option<u32>>,
    block_number: u32,
    listener: &mut dyn FnMut(u128, &ShippingEvent) -> ListenerReply,
) -> (Vec<u128>, Option<u32>) {
    let mut attempted = vec![];
    let mut run = match Module::offchain_worker(true, stored, block_number) {
        Some(run) => run,
        None => return (attempted, None),
    };
    loop {
        match run.advance(&module.ledger) {
            Step::Deliver(idx, event) => {
                attempted.push(idx);
                if Module::notify_listener(listener(idx, event)).is_err() {
                    return (attempted, run.abort());
                }
            }
            Step::Done(checkpoint) => return (attempted, checkpoint),
        }
    }
}

fn accept_all(_: u128, _: &ShippingEvent) -> ListenerReply {
    ListenerReply::Answered(200)
}

#[test]
fn listener_constants_have_their_values() {
    assert_eq!(LISTENER_ACCEPTED, 200);
    assert_eq!(LISTENER_DEADLINE, 3000);
}

#[test]
fn only_status_200_is_a_delivery() {
    assert_eq!(Module::notify_listener(ListenerReply::Answered(200)), Ok(()));
    assert_eq!(Module::notify_listener(ListenerReply::Answered(201)), Err("http response error"));
    assert_eq!(Module::notify_listener(ListenerReply::Answered(199)), Err("http response error"));
    assert_eq!(Module::notify_listener(ListenerReply::Answered(500)), Err("http response error"));
    assert_eq!(Module::notify_listener(ListenerReply::Answered(0)), Err("http response error"));
    assert_eq!(Module::notify_listener(ListenerReply::NotSent), Err("http post request building error"));
    assert_eq!(Module::notify_listener(ListenerReply::NoAnswer), Err("http post request sent error"));
}

#[test]
fn worker_does_not_start_without_the_lease() {
    assert!(Module::offchain_worker(false, None, 10).is_none());
    assert!(Module::offchain_worker(false, Some(Some(3)), 10).is_none());
    assert!(Module::offchain_worker(true, Some(Some(3)), 10).is_some());
}

#[test]
fn worker_does_not_start_without_a_block_to_work_on() {
    // the checkpoint is at or beyond the current block
    assert!(Module::process_ocw_notifications(Some(Some(10)), 10).is_none());
    assert!(Module::process_ocw_notifications(Some(Some(11)), 10).is_none());
    assert!(Module::process_ocw_notifications(Some(Some(u32::MAX)), u32::MAX).is_none());
    // only the current block is left, which is not worked on
    assert!(Module::process_ocw_notifications(Some(Some(9)), 10).is_none());
    assert!(Module::process_ocw_notifications(None, 0).is_none());
    assert!(Module::process_ocw_notifications(None, 1).is_none());
    // the stored value cannot be read
    assert!(Module::process_ocw_notifications(Some(None), 10).is_none());
    // one block is left
    assert!(Module::process_ocw_notifications(Some(Some(8)), 10).is_some());
    assert!(Module::process_ocw_notifications(None, 2).is_some());
    assert!(Module::process_ocw_notifications(Some(Some(u32::MAX - 2)), u32::MAX).is_some());
}

#[test]
fn worker_delivers_every_block_before_the_current_one() {
    let module = five_blocks();
    let mut seen = vec![];
    let (attempted, checkpoint) = run_worker(&module, None, 6, &mut |idx, event| {
        seen.push((idx, event.event_type));
        ListenerReply::Answered(200)
    });
    assert_eq!(attempted, vec![1, 2, 3, 6, 7, 4, 5]);
    assert_eq!(checkpoint, Some(5));
    assert_eq!(seen[0], (1, ShippingEventType::ShipmentRegistration));
    assert_eq!(seen[1], (2, ShippingEventType::ShipmentScan));

    // the current block is left for a later run
    let (attempted, checkpoint) = run_worker(&module, None, 5, &mut accept_all);
    assert_eq!(attempted, vec![1, 2, 3, 6, 7, 4]);
    assert_eq!(checkpoint, Some(4));

    // a run starts behind its checkpoint
    let (attempted, checkpoint) = run_worker(&module, Some(Some(3)), 6, &mut accept_all);
    assert_eq!(attempted, vec![4, 5]);
    assert_eq!(checkpoint, Some(5));
}

#[test]
fn failed_delivery_in_block_three_leaves_the_checkpoint_at_two() {
    let module = five_blocks();
    let listener_down_for = |failing: u128| {
        move |idx: u128, _: &ShippingEvent| {
            if idx == failing {
                ListenerReply::Answered(503)
            } else {
                ListenerReply::Answered(200)
            }
        }
    };

    // the first delivery of block 3 fails
    let (attempted, checkpoint) = run_worker(&module, None, 6, &mut listener_down_for(3));
    assert_eq!(attempted, vec![1, 2, 3]);
    assert_eq!(checkpoint, Some(2));

    // the second delivery of block 3 fails: the rest of the block is left too
    let (attempted, checkpoint) = run_worker(&module, None, 6, &mut listener_down_for(6));
    assert_eq!(attempted, vec![1, 2, 3, 6]);
    assert_eq!(checkpoint, Some(2));

    // the next run takes the blocks 3 to 5 from their beginning
    let (attempted, checkpoint) = run_worker(&module, Some(Some(2)), 6, &mut accept_all);
    assert_eq!(attempted, vec![3, 6, 7, 4, 5]);
    assert_eq!(checkpoint, Some(5));
}

#[test]
fn failure_in_the_first_block_stores_no_checkpoint() {
    let module = five_blocks();
    let (attempted, checkpoint) = run_worker(&module, None, 6, &mut |_, _| ListenerReply::NoAnswer);
    assert_eq!(attempted, vec![1]);
    assert_eq!(checkpoint, None);

    let (attempted, checkpoint) = run_worker(&module, Some(Some(2)), 6, &mut |_, _| ListenerReply::NotSent);
    assert_eq!(attempted, vec![3]);
    assert_eq!(checkpoint, None);
}

#[test]
fn rerun_with_unchanged_checkpoint_attempts_the_same() {
    let module = five_blocks();
    let mut failing = |idx: u128, _: &ShippingEvent| {
        if idx == 4 {
            ListenerReply::NoAnswer
        } else {
            ListenerReply::Answered(200)
        }
    };
    let first = run_worker(&module, Some(Some(1)), 6, &mut failing);
    let second = run_worker(&module, Some(Some(1)), 6, &mut failing);
    assert_eq!(first, (vec![2, 3, 6, 7, 4], Some(3)));
    assert_eq!(first, second);
}

#[test]
fn finished_run_leaves_nothing_for_a_rerun() {
    let module = five_blocks();
    let (_, checkpoint) = run_worker(&module, None, 6, &mut accept_all);
    assert_eq!(checkpoint, Some(5));
    let mut calls = 0;
    let (attempted, again) = run_worker(&module, Some(checkpoint), 6, &mut |_, _| {
        calls += 1;
        ListenerReply::Answered(200)
    });
    assert_eq!(attempted, Vec::<u128>::new());
    assert_eq!(again, None);
    assert_eq!(calls, 0);
}

#[test]
fn queued_index_without_event_is_passed_over() {
    let mut module = five_blocks();
    module.ledger.append_block_queue(2, 99);
    module.ledger.append_block_queue(4, 98);
    module.ledger.append_block_queue(4, 1);
    let (attempted, checkpoint) = run_worker(&module, None, 6, &mut accept_all);
    assert_eq!(attempted, vec![1, 2, 3, 6, 7, 4, 1, 5]);
    assert_eq!(checkpoint, Some(5));
}

#[test]
fn blocks_without_events_are_done_at_once() {
    let mut module = Module::new();
    module.block_number = 4;
    module.register_shipment(Origin::Signed(CALLER), true, id("a"), OWNER, vec![]).unwrap();
    let (attempted, checkpoint) = run_worker(&module, None, 9, &mut accept_all);
    assert_eq!(attempted, vec![1]);
    assert_eq!(checkpoint, Some(8));

    let (attempted, checkpoint) = run_worker(&module, None, 9, &mut |_, _| ListenerReply::Answered(404));
    assert_eq!(attempted, vec![1]);
    assert_eq!(checkpoint, Some(3));

    let empty = Module::new();
    let (attempted, checkpoint) = run_worker(&empty, Some(Some(2)), 7, &mut accept_all);
    assert_eq!(attempted, Vec::<u128>::new());
    assert_eq!(checkpoint, Some(6));
}

#[test]
fn steps_hand_out_the_stored_event() {
    let module = five_blocks();
    let mut run = Module::process_ocw_notifications(Some(Some(4)), 6).unwrap();
    match run.advance(&module.ledger) {
        Step::Deliver(idx, event) => {
            assert_eq!(idx, 5);
            assert_eq!(Some(event), module.ledger.get_event(5));
        }
        other => panic!("unexpected {:?}", other),
    }
    assert_eq!(run.advance(&module.ledger), Step::Done(Some(5)));
    assert_eq!(run.advance(&module.ledger), Step::Done(Some(5)));
    assert_eq!(run.abort(), Some(5));
}
