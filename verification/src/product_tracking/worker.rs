//! The decisions of the worker that forwards logged events to the listener:
//! where a run starts, which event it delivers next, and which checkpoint it
//! leaves behind. The deliveries themselves, the lease and the stored
//! checkpoint are the caller's business.

use vstd::prelude::*;
use crate::product_tracking::Module;
use crate::product_tracking::ledger::{Ledger, LedgerView};
use crate::product_tracking::types::{BlockNumber, ShippingEvent, ShippingEventIndex};

verus! {

/// Status code with which the listener accepts a delivery.
pub const LISTENER_ACCEPTED: u16 = 200;

/// How long a delivery may take, in milliseconds.
pub const LISTENER_DEADLINE: u64 = 3000;

/// How an attempt to reach the listener ended.
#[derive(Clone, Copy, PartialEq, Eq, Debug, Structural)]
pub enum ListenerReply {
    /// The request could not be sent.
    NotSent,
    /// No answer came before the deadline, or the transport failed.
    NoAnswer,
    /// The listener answered with this status code.
    Answered(u16),
}

/// Where a run stands: it works on the blocks from `start` up to, not
/// including, `end`; the blocks before `block` are done, and so are the first
/// `position` entries of the queue of `block`.
pub struct Cursor {
    pub start: BlockNumber,
    pub end: BlockNumber,
    pub block: BlockNumber,
    pub position: nat,
}

/// What the worker does next.
#[derive(Clone, PartialEq, Eq, Debug)]
pub enum Step<'a> {
    /// Deliver this event, which is stored under this index.
    Deliver(ShippingEventIndex, &'a ShippingEvent),
    /// The run is over. Store the checkpoint if there is one.
    Done(Option<BlockNumber>),
}

/// The first block of a run, given what is stored as the last block done.
/// Nothing stored counts as block 0 done; a value that cannot be read ends
/// the run.
pub open spec fn first_block(stored: Option<Option<BlockNumber>>) -> Option<nat> {
    match stored {
        Some(Some(last)) => Some((last + 1) as nat),
        Some(None) => None,
        None => Some(1nat),
    }
}

/// Whether there is a block to work on: the checkpoint can be read and the
/// block after it is below the current one.
pub open spec fn has_work(stored: Option<Option<BlockNumber>>, block_number: BlockNumber) -> bool {
    first_block(stored) is Some && first_block(stored)->Some_0 < block_number
}

/// The checkpoint that a run leaves when it stops in `block`: the block
/// before, if the run has finished any block at all.
pub open spec fn checkpoint_at(start: BlockNumber, block: BlockNumber) -> Option<BlockNumber> {
    if block > start {
        Some((block - 1) as BlockNumber)
    } else {
        None
    }
}

/// Whether the entry at a position of a block's queue is the index of a
/// stored event.
pub open spec fn deliverable(ledger: LedgerView, block: BlockNumber, position: nat) -> bool {
    position < ledger.queue_at(block).len() && ledger.events.dom().contains(
        ledger.queue_at(block)[position as int],
    )
}

/// The first place at or after `(block, position)`, below block `end`, whose
/// entry is the index of a stored event; `(end, 0)` if there is none. Entries
/// without an event are passed over.
pub open spec fn next_stop(ledger: LedgerView, block: BlockNumber, position: nat, end: BlockNumber) -> (
    BlockNumber,
    nat,
)
    decreases end - block, ledger.queue_at(block).len() - position,
{
    if block >= end {
        (end, 0)
    } else if position >= ledger.queue_at(block).len() {
        next_stop(ledger, (block + 1) as BlockNumber, 0, end)
    } else if ledger.events.dom().contains(ledger.queue_at(block)[position as int]) {
        (block, position)
    } else {
        next_stop(ledger, block, position + 1, end)
    }
}

/// The verdict on a delivery: it succeeded exactly if the listener answered
/// with `LISTENER_ACCEPTED`.
pub open spec fn accepted(reply: ListenerReply) -> bool {
    reply == ListenerReply::Answered(LISTENER_ACCEPTED)
}

/// A run of the worker over the blocks after its checkpoint.
#[derive(PartialEq, Eq, Debug)]
pub struct Reconciliation {
    start: BlockNumber,
    end: BlockNumber,
    block: BlockNumber,
    position: usize,
}

impl View for Reconciliation {
    type V = Cursor;

    closed spec fn view(&self) -> Cursor {
        Cursor {
            start: self.start,
            end: self.end,
            block: self.block,
            position: self.position as nat,
        }
    }
}

impl Reconciliation {
    #[verifier::type_invariant]
    spec fn well_formed(self) -> bool {
        1 <= self.start <= self.block <= self.end
    }

    /// Finds the next event to deliver. Entries of a queue under which no
    /// event is stored are passed over; a block whose queue is used up is
    /// done. Without a further event the run is over, and its checkpoint is
    /// the last block before the current one.
    pub fn advance<'a>(&mut self, ledger: &'a Ledger) -> (step: Step<'a>)
        ensures
            final(self)@.start == old(self)@.start,
            final(self)@.end == old(self)@.end,
            match step {
                Step::Deliver(idx, event) => {
                    let stop = next_stop(
                        ledger@,
                        old(self)@.block,
                        old(self)@.position,
                        old(self)@.end,
                    );
                    &&& stop.0 < old(self)@.end
                    &&& deliverable(ledger@, stop.0, stop.1)
                    &&& idx == ledger@.queue_at(stop.0)[stop.1 as int]
                    &&& event@ == ledger@.events[idx]
                    &&& final(self)@.block == stop.0
                    &&& final(self)@.position == stop.1 + 1
                },
                Step::Done(checkpoint) => {
                    &&& next_stop(ledger@, old(self)@.block, old(self)@.position, old(self)@.end)
                        == (old(self)@.end, 0nat)
                    &&& final(self)@.block == old(self)@.end
                    &&& final(self)@.position == 0
                    &&& checkpoint == checkpoint_at(old(self)@.start, old(self)@.end)
                },
            },
    {
        proof {
            use_type_invariant(&*self);
        }
        loop
            invariant
                1 <= self.start <= self.block <= self.end,
                self.start == old(self).start,
                self.end == old(self).end,
                next_stop(ledger@, self.block, self.position as nat, self.end) == next_stop(
                    ledger@,
                    old(self)@.block,
                    old(self)@.position,
                    old(self)@.end,
                ),
            decreases
                    self.end - self.block,
                    ledger@.queue_at(self.block).len() - self.position,
        {
            if self.block >= self.end {
                self.position = 0;
                let checkpoint = if self.end > self.start {
                    Some(self.end - 1)
                } else {
                    None
                };
                return Step::Done(checkpoint);
            }
            match ledger.queued(self.block, self.position) {
                None => {
                    self.block = self.block + 1;
                    self.position = 0;
                },
                Some(idx) => {
                    self.position = self.position + 1;
                    match ledger.get_event(idx) {
                        Some(event) => {
                            return Step::Deliver(idx, event);
                        },
                        None => {},
                    }
                },
            }
        }
    }

    /// The checkpoint to store after a delivery has failed: the block
    /// before the one in which it failed, if the run has finished any block.
    /// The run ends here; what is left of it is for the next run.
    pub fn abort(self) -> (checkpoint: Option<BlockNumber>)
        ensures
            checkpoint == checkpoint_at(self@.start, self@.block),
    {
        proof {
            use_type_invariant(&self);
        }
        if self.block > self.start {
            Some(self.block - 1)
        } else {
            None
        }
    }
}

impl Module {
    /// Starts a run of the worker at block `block_number`, if the lease was
    /// acquired. While another run holds the lease this one does not start.
    pub fn offchain_worker(
        lease_acquired: bool,
        stored: Option<Option<BlockNumber>>,
        block_number: BlockNumber,
    ) -> (run: Option<Reconciliation>)
        ensures
            run is Some <==> lease_acquired && has_work(stored, block_number),
            run is Some ==> run->Some_0@ == (Cursor {
                start: first_block(stored)->Some_0 as BlockNumber,
                end: block_number,
                block: first_block(stored)->Some_0 as BlockNumber,
                position: 0,
            }),
    {
        if lease_acquired {
            Self::process_ocw_notifications(stored, block_number)
        } else {
            None
        }
    }

    /// Plans a run at block `block_number`, given what is stored as the last
    /// block done. The run covers the blocks after that one and before the
    /// current one. There is no run if no such block exists or if the stored
    /// value cannot be read.
    pub fn process_ocw_notifications(
        stored: Option<Option<BlockNumber>>,
        block_number: BlockNumber,
    ) -> (run: Option<Reconciliation>)
        ensures
            run is Some <==> has_work(stored, block_number),
            run is Some ==> run->Some_0@ == (Cursor {
                start: first_block(stored)->Some_0 as BlockNumber,
                end: block_number,
                block: first_block(stored)->Some_0 as BlockNumber,
                position: 0,
            }),
    {
        let last_processed_block: BlockNumber = match stored {
            Some(Some(last)) => {
                if last >= block_number {
                    return None;
                }
                last
            },
            None => 0,
            Some(None) => {
                return None;
            },
        };
        if last_processed_block >= block_number {
            return None;
        }
        let start_block = last_processed_block + 1;
        if start_block >= block_number {
            return None;
        }
        Some(
            Reconciliation {
                start: start_block,
                end: block_number,
                block: start_block,
                position: 0,
            },
        )
    }

    /// The verdict on one delivery.
    pub fn notify_listener(reply: ListenerReply) -> (verdict: Result<(), &'static str>)
        ensures
            verdict is Ok <==> accepted(reply),
            verdict is Err ==> verdict->Err_0@ == (match reply {
                ListenerReply::NotSent => "http post request building error"@,
                ListenerReply::NoAnswer => "http post request sent error"@,
                ListenerReply::Answered(_) => "http response error"@,
            }),
    {
        match reply {
            ListenerReply::NotSent => Err("http post request building error"),
            ListenerReply::NoAnswer => Err("http post request sent error"),
            ListenerReply::Answered(code) => {
                if code != LISTENER_ACCEPTED {
                    return Err("http response error");
                }
                Ok(())
            },
        }
    }
}

/// What a run has done when it ends: the indices it tried to deliver, in
/// order, and the checkpoint it stores, if any.
pub struct Report {
    pub attempted: Seq<ShippingEventIndex>,
    pub checkpoint: Option<BlockNumber>,
}

/// A whole run from a place on, with a listener that accepts the attempt
/// number `n` of the run exactly if `listener(n)`; `attempt` is the number of
/// the next attempt. The run delivers the events of each queue in order,
/// passes over entries without an event, and stops at the first attempt that
/// the listener does not accept.
pub open spec fn reconcile(
    ledger: LedgerView,
    start: BlockNumber,
    block: BlockNumber,
    position: nat,
    end: BlockNumber,
    listener: spec_fn(nat) -> bool,
    attempt: nat,
) -> Report
    decreases end - block, ledger.queue_at(block).len() - position,
{
    if block >= end {
        Report { attempted: Seq::empty(), checkpoint: checkpoint_at(start, end) }
    } else if position >= ledger.queue_at(block).len() {
        reconcile(ledger, start, (block + 1) as BlockNumber, 0, end, listener, attempt)
    } else {
        let idx = ledger.queue_at(block)[position as int];
        if !ledger.events.dom().contains(idx) {
            reconcile(ledger, start, block, position + 1, end, listener, attempt)
        } else if listener(attempt) {
            let rest = reconcile(ledger, start, block, position + 1, end, listener, attempt + 1);
            Report { attempted: seq![idx] + rest.attempted, checkpoint: rest.checkpoint }
        } else {
            Report { attempted: seq![idx], checkpoint: checkpoint_at(start, block) }
        }
    }
}

/// A run is what `advance` and `abort` make of it, step by step. Where
/// `advance` finds nothing more, the run attempts nothing and leaves the
/// checkpoint of a finished run. Where it finds an event, that event is
/// attempted first: if the listener accepts, the run goes on behind it; if
/// not, the run ends with the checkpoint that `abort` gives. The event
/// found never lies before the place from which it was looked for, so a run
/// delivers in the order of block and position.
pub proof fn run_follows_steps(
    ledger: LedgerView,
    start: BlockNumber,
    block: BlockNumber,
    position: nat,
    end: BlockNumber,
    listener: spec_fn(nat) -> bool,
    attempt: nat,
)
    requires
        block <= end,
    ensures
        ({
            let stop = next_stop(ledger, block, position, end);
            let run = reconcile(ledger, start, block, position, end, listener, attempt);
            if stop.0 >= end {
                run == (Report { attempted: Seq::empty(), checkpoint: checkpoint_at(start, end) })
            } else {
                let idx = ledger.queue_at(stop.0)[stop.1 as int];
                let rest = reconcile(ledger, start, stop.0, stop.1 + 1, end, listener, attempt + 1);
                &&& block < stop.0 || (block == stop.0 && position <= stop.1)
                &&& deliverable(ledger, stop.0, stop.1)
                &&& run == if listener(attempt) {
                    Report { attempted: seq![idx] + rest.attempted, checkpoint: rest.checkpoint }
                } else {
                    Report { attempted: seq![idx], checkpoint: checkpoint_at(start, stop.0) }
                }
            }
        }),
    decreases end - block, ledger.queue_at(block).len() - position,
{
    if block >= end {
    } else if position >= ledger.queue_at(block).len() {
        run_follows_steps(ledger, start, (block + 1) as BlockNumber, 0, end, listener, attempt);
    } else if !ledger.events.dom().contains(ledger.queue_at(block)[position as int]) {
        run_follows_steps(ledger, start, block, position + 1, end, listener, attempt);
    }
}

/// A run reads only the queues of its blocks and whether their entries have
/// an event. Two runs over the same blocks, from the same checkpoint, with
/// queues that are the same and a listener that answers the same, attempt
/// the same deliveries in the same order and leave the same checkpoint.
pub proof fn rerun_attempts_the_same(
    ledger: LedgerView,
    again: LedgerView,
    start: BlockNumber,
    block: BlockNumber,
    position: nat,
    end: BlockNumber,
    listener: spec_fn(nat) -> bool,
    attempt: nat,
)
    requires
        forall|b: BlockNumber| block <= b < end ==> #[trigger] ledger.queue_at(b) == again.queue_at(b),
        forall|b: BlockNumber, p: nat|
            block <= b < end ==> #[trigger] deliverable(ledger, b, p) == deliverable(again, b, p),
    ensures
        reconcile(ledger, start, block, position, end, listener, attempt) == reconcile(
            again,
            start,
            block,
            position,
            end,
            listener,
            attempt,
        ),
    decreases end - block, ledger.queue_at(block).len() - position,
{
    if block >= end {
    } else {
        assert(ledger.queue_at(block) == again.queue_at(block));
        if position >= ledger.queue_at(block).len() {
            rerun_attempts_the_same(
                ledger,
                again,
                start,
                (block + 1) as BlockNumber,
                0,
                end,
                listener,
                attempt,
            );
        } else {
            assert(deliverable(ledger, block, position) == deliverable(again, block, position));
            rerun_attempts_the_same(
                ledger,
                again,
                start,
                block,
                position + 1,
                end,
                listener,
                attempt,
            );
            rerun_attempts_the_same(
                ledger,
                again,
                start,
                block,
                position + 1,
                end,
                listener,
                attempt + 1,
            );
        }
    }
}

/// A checkpoint that a run stores lies within the run's blocks: it is never
/// below the block after the old checkpoint, so the checkpoint never goes
/// back, and never reaches the current block.
pub proof fn checkpoint_advances(
    ledger: LedgerView,
    start: BlockNumber,
    block: BlockNumber,
    position: nat,
    end: BlockNumber,
    listener: spec_fn(nat) -> bool,
    attempt: nat,
)
    requires
        1 <= start <= block <= end,
    ensures
        match reconcile(ledger, start, block, position, end, listener, attempt).checkpoint {
            Some(checkpoint) => start <= checkpoint < end && block <= checkpoint + 1,
            None => block == start,
        },
    decreases end - block, ledger.queue_at(block).len() - position,
{
    if block >= end {
    } else if position >= ledger.queue_at(block).len() {
        checkpoint_advances(ledger, start, (block + 1) as BlockNumber, 0, end, listener, attempt);
    } else {
        checkpoint_advances(ledger, start, block, position + 1, end, listener, attempt);
        checkpoint_advances(ledger, start, block, position + 1, end, listener, attempt + 1);
    }
}

/// Without a new block a second run has nothing to do. Once a run has gone
/// through all its blocks, a run at the same block height from the
/// checkpoint it stored does not start; and a run that does not start
/// attempts no delivery and stores no checkpoint.
pub proof fn finished_run_leaves_no_work(
    ledger: LedgerView,
    start: BlockNumber,
    end: BlockNumber,
    listener: spec_fn(nat) -> bool,
)
    requires
        1 <= start <= end,
        reconcile(ledger, start, start, 0, end, listener, 0).checkpoint == checkpoint_at(
            start,
            end,
        ),
    ensures
        match checkpoint_at(start, end) {
            Some(checkpoint) => !has_work(Some(Some(checkpoint)), end),
            None => !has_work(Some(Some((start - 1) as BlockNumber)), end),
        },
{
}

/// Every event of a block at or below the checkpoint that a run stores was
/// attempted in that run: no event is skipped by the checkpoint.
pub proof fn checkpoint_covers_attempts(
    ledger: LedgerView,
    start: BlockNumber,
    block: BlockNumber,
    position: nat,
    end: BlockNumber,
    listener: spec_fn(nat) -> bool,
    attempt: nat,
    b: BlockNumber,
    p: nat,
)
    requires
        1 <= start <= block <= end,
        reconcile(ledger, start, block, position, end, listener, attempt).checkpoint is Some,
        b <= reconcile(ledger, start, block, position, end, listener, attempt).checkpoint->Some_0,
        block < b || (block == b && position <= p),
        deliverable(ledger, b, p),
    ensures
        reconcile(ledger, start, block, position, end, listener, attempt).attempted.contains(
            ledger.queue_at(b)[p as int],
        ),
    decreases end - block, ledger.queue_at(block).len() - position,
{
    let run = reconcile(ledger, start, block, position, end, listener, attempt);
    checkpoint_advances(ledger, start, block, position, end, listener, attempt);
    if block >= end {
    } else if position >= ledger.queue_at(block).len() {
        checkpoint_covers_attempts(
            ledger,
            start,
            (block + 1) as BlockNumber,
            0,
            end,
            listener,
            attempt,
            b,
            p,
        );
    } else {
        let idx = ledger.queue_at(block)[position as int];
        if !ledger.events.dom().contains(idx) {
            checkpoint_covers_attempts(
                ledger,
                start,
                block,
                position + 1,
                end,
                listener,
                attempt,
                b,
                p,
            );
        } else if listener(attempt) {
            let rest = reconcile(ledger, start, block, position + 1, end, listener, attempt + 1);
            if block == b && position == p {
                assert(run.attempted[0] == idx);
            } else {
                checkpoint_covers_attempts(
                    ledger,
                    start,
                    block,
                    position + 1,
                    end,
                    listener,
                    attempt + 1,
                    b,
                    p,
                );
                let wanted = ledger.queue_at(b)[p as int];
                let k = choose|k: int| 0 <= k < rest.attempted.len() && rest.attempted[k] == wanted;
                assert(run.attempted[k + 1] == wanted);
            }
        } else {
        }
    }
}

} // verus!
