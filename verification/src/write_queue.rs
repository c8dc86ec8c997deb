//! The writing end of a queue, with the items that wait for room.

use crate::counters::{counters_full, slot_of, SET};
use crate::memory::{lemma_flags_apart, lemma_put, Access, Memory, Reply, Ring, RingView, Step};
use crate::queue::{push_steps_left, push_under_way, Queue, QueueMeta};
use crate::script::{PushOp, RouseOp};
use crate::waker::{ended, initial_slot, wake_waiter, PushJoinHandle, PushResult, Waiter};
use std::collections::VecDeque;
use vstd::prelude::*;

verus! {

/// An item that waits for room, and who is to be woken when it has gone through.
pub struct PendingTask<T> {
    pub data: T,
    pub waiter: Option<Waiter>,
}

/// An item that was handed back because the queue was full.
pub struct Refused<T> {
    pub item: T,
    /// Whether there was room again once the writer had been marked as waiting.
    pub room: bool,
}

/// Puts one item into a queue and sees to it that the reader works, or else marks the writer as
/// waiting for room, looks once more and hands the item back.
///
/// The second look is for a reader that has emptied the queue and gone to sleep after the first
/// one: it has not seen that the writer waits, and will not come to see it.
pub enum WriteOp<T> {
    /// Puts the item in. If it goes in and `rouse` holds, the reader is looked after next.
    Offering { op: PushOp<T>, buffer_len: usize, rouse: bool },
    /// Sees to it that the reader works.
    Rousing(RouseOp),
    /// Has asked for the writer to be marked as waiting.
    Stick { item: T, buffer_len: usize },
    /// Has asked for the counters.
    Look { item: T, buffer_len: usize },
}

impl<T> WriteOp<T> {
    /// Whether `reply` can have come of the access that was asked for.
    pub open spec fn ready(self, reply: Reply<T>) -> bool {
        match self {
            WriteOp::Offering { op, buffer_len, rouse } => op.ready(reply),
            WriteOp::Rousing(op) => op.ready(reply),
            WriteOp::Stick { item, buffer_len } => reply is Done,
            WriteOp::Look { item, buffer_len } => reply is Counters && reply->head <= reply->tail,
        }
    }

    /// What follows on `reply`.
    pub open spec fn next(self, reply: Reply<T>) -> Step<T, WriteOp<T>, Result<(), Refused<T>>> {
        match self {
            WriteOp::Offering { op, buffer_len, rouse } => match op.next(reply) {
                Step::Do(access, op) => Step::Do(
                    access,
                    WriteOp::Offering { op, buffer_len, rouse },
                ),
                Step::Done(Ok(())) => if rouse {
                    Step::Do(Access::LoadWorking, WriteOp::Rousing(RouseOp::Check))
                } else {
                    Step::Done(Ok(()))
                },
                Step::Done(Err(item)) => Step::Do(
                    Access::StoreStuck(SET),
                    WriteOp::Stick { item, buffer_len },
                ),
            },
            WriteOp::Rousing(op) => match op.next(reply) {
                Step::Do(access, op) => Step::Do(access, WriteOp::Rousing(op)),
                Step::Done(called) => Step::Done(Ok(())),
            },
            WriteOp::Stick { item, buffer_len } => Step::Do(
                Access::Counters,
                WriteOp::Look { item, buffer_len },
            ),
            WriteOp::Look { item, buffer_len } => Step::Done(
                Err(Refused { item, room: reply->tail - reply->head != buffer_len }),
            ),
        }
    }

    /// Begins to put `item` into a queue of `buffer_len` slots.
    pub fn start(item: T, buffer_len: usize, rouse: bool) -> (r: (Access<T>, Self))
        ensures
            r == (
                Access::<T>::Counters,
                WriteOp::Offering { op: PushOp::Offer { item, buffer_len }, buffer_len, rouse },
            ),
    {
        let (access, op) = PushOp::start(item, buffer_len);
        (access, WriteOp::Offering { op, buffer_len, rouse })
    }

    /// Whether `reply` can have come of the access that was asked for.
    pub fn accepts(&self, reply: &Reply<T>) -> (ok: bool)
        ensures
            ok <==> self.ready(*reply),
    {
        match self {
            WriteOp::Offering { op, .. } => op.accepts(reply),
            WriteOp::Rousing(op) => op.accepts(reply),
            WriteOp::Stick { .. } => matches!(reply, Reply::Done),
            WriteOp::Look { .. } => match reply {
                Reply::Counters { head, tail } => *head <= *tail,
                _ => false,
            },
        }
    }

    /// Goes on after `reply`.
    pub fn step(self, reply: Reply<T>) -> (s: Step<T, WriteOp<T>, Result<(), Refused<T>>>)
        requires
            self.ready(reply),
        ensures
            s == self.next(reply),
    {
        match (self, reply) {
            (WriteOp::Offering { op, buffer_len, rouse }, reply) => match op.step(reply) {
                Step::Do(access, op) => Step::Do(
                    access,
                    WriteOp::Offering { op, buffer_len, rouse },
                ),
                Step::Done(Ok(())) => if rouse {
                    let (access, op) = RouseOp::start();
                    Step::Do(access, WriteOp::Rousing(op))
                } else {
                    Step::Done(Ok(()))
                },
                Step::Done(Err(item)) => Step::Do(
                    Access::StoreStuck(SET),
                    WriteOp::Stick { item, buffer_len },
                ),
            },
            (WriteOp::Rousing(op), reply) => match op.step(reply) {
                Step::Do(access, op) => Step::Do(access, WriteOp::Rousing(op)),
                Step::Done(_) => Step::Done(Ok(())),
            },
            (WriteOp::Stick { item, buffer_len }, _) => Step::Do(
                Access::Counters,
                WriteOp::Look { item, buffer_len },
            ),
            (WriteOp::Look { item, buffer_len }, Reply::Counters { head, tail }) => {
                let full = counters_full(head, tail, buffer_len);
                Step::Done(Err(Refused { item, room: !full }))
            },
            (WriteOp::Look { item, .. }, _) => Step::Done(Err(Refused { item, room: false })),
        }
    }
}

/// What became of a push.
#[derive(Debug, Clone, Copy, PartialEq, Eq, Structural)]
pub struct Settled {
    /// Whether the item is in the queue. If not, it waits for room.
    pub queued: bool,
    /// Whether a round over the waiting items is due at once.
    pub flush_due: bool,
}

/// One round over the items that wait for room: moves them into the queue, first come first
/// served, until none is left or there is no room, sees to it that the reader works, and if items
/// are left marks the writer as waiting and looks once more. The result says whether another
/// round is due at once, because the reader has made room meanwhile.
pub enum FlushOp<T> {
    /// Puts in the item that was first. `waiter` is to be woken if it goes in.
    Offering { op: PushOp<T>, waiter: Option<Waiter> },
    /// Sees to it that the reader works.
    Rousing(RouseOp),
    /// Has asked for the writer to be marked as waiting.
    Stick,
    /// Has asked for the counters.
    Look,
}

impl<T> FlushOp<T> {
    /// Whether `reply` can have come of the access that was asked for.
    pub open spec fn ready(self, reply: Reply<T>) -> bool {
        match self {
            FlushOp::Offering { op, waiter } => op.ready(reply),
            FlushOp::Rousing(op) => op.ready(reply),
            FlushOp::Stick => reply is Done,
            FlushOp::Look => reply is Counters && reply->head <= reply->tail,
        }
    }

    /// Whether `reply` can have come of the access that was asked for.
    pub fn accepts(&self, reply: &Reply<T>) -> (ok: bool)
        ensures
            ok <==> self.ready(*reply),
    {
        match self {
            FlushOp::Offering { op, .. } => op.accepts(reply),
            FlushOp::Rousing(op) => op.accepts(reply),
            FlushOp::Stick => matches!(reply, Reply::Done),
            FlushOp::Look => match reply {
                Reply::Counters { head, tail } => *head <= *tail,
                _ => false,
            },
        }
    }
}

/// What a round over the waiting items asks for: a slot to be woken first, if there is one, and
/// then the next access.
pub struct FlushStep<T> {
    pub wake: Option<Waiter>,
    pub step: Step<T, FlushOp<T>, bool>,
}

/// How a round goes on when the next waiting item is to be offered: what then waits, and the
/// access to make.
pub open spec fn flush_from<T>(pending: Seq<PendingTask<T>>, buffer_len: usize) -> (
    Seq<PendingTask<T>>,
    (Access<T>, FlushOp<T>),
) {
    if pending.len() > 0 {
        let PendingTask { data, waiter } = pending[0];
        (
            pending.drop_first(),
            (
                Access::Counters,
                FlushOp::Offering { op: PushOp::Offer { item: data, buffer_len }, waiter },
            ),
        )
    } else {
        (pending, (Access::LoadWorking, FlushOp::Rousing(RouseOp::Check)))
    }
}

/// How a round goes on after `reply`: what then waits, and what is asked for.
pub open spec fn flush_next<T>(
    pending: Seq<PendingTask<T>>,
    buffer_len: usize,
    op: FlushOp<T>,
    reply: Reply<T>,
) -> (Seq<PendingTask<T>>, FlushStep<T>) {
    match op {
        FlushOp::Offering { op, waiter } => match op.next(reply) {
            Step::Do(access, op) => (
                pending,
                FlushStep { wake: None, step: Step::Do(access, FlushOp::Offering { op, waiter }) },
            ),
            Step::Done(Ok(())) => {
                let (left, (access, op)) = flush_from(pending, buffer_len);
                (left, FlushStep { wake: waiter, step: Step::Do(access, op) })
            },
            Step::Done(Err(data)) => (
                seq![PendingTask { data, waiter }] + pending,
                FlushStep {
                    wake: None,
                    step: Step::Do(Access::LoadWorking, FlushOp::Rousing(RouseOp::Check)),
                },
            ),
        },
        FlushOp::Rousing(op) => match op.next(reply) {
            Step::Do(access, op) => (
                pending,
                FlushStep { wake: None, step: Step::Do(access, FlushOp::Rousing(op)) },
            ),
            Step::Done(called) => if pending.len() > 0 {
                (
                    pending,
                    FlushStep { wake: None, step: Step::Do(Access::StoreStuck(SET), FlushOp::Stick) },
                )
            } else {
                (pending, FlushStep { wake: None, step: Step::Done(false) })
            },
        },
        FlushOp::Stick => (
            pending,
            FlushStep { wake: None, step: Step::Do(Access::Counters, FlushOp::Look) },
        ),
        FlushOp::Look => (
            pending,
            FlushStep { wake: None, step: Step::Done(reply->tail - reply->head != buffer_len) },
        ),
    }
}

/// The writing end of a queue.
pub struct WriteQueue<T> {
    queue: Queue<T>,
    pending_tasks: VecDeque<PendingTask<T>>,
}

impl<T> Queue<T> {
    /// Makes this the writing end, with nothing waiting.
    pub fn write(self) -> (w: WriteQueue<T>)
        ensures
            w.queue() == self,
            w.pending() == Seq::<PendingTask<T>>::empty(),
    {
        WriteQueue { queue: self, pending_tasks: VecDeque::new() }
    }
}

impl<T> WriteQueue<T> {
    /// The handle that this end writes through.
    pub closed spec fn queue(self) -> Queue<T> {
        self.queue
    }

    /// The items that wait for room, from first to last.
    pub closed spec fn pending(self) -> Seq<PendingTask<T>> {
        self.pending_tasks@
    }

    /// What this party knows of the queue.
    pub fn meta(&self) -> (meta: QueueMeta)
        ensures
            meta == self.queue().known(),
    {
        self.queue.meta()
    }

    /// Whether the queue itself holds no item. Items that wait for room do not count.
    pub fn is_empty(&self, ring: &Ring<T>) -> (empty: bool)
        requires
            ring.wf(),
        ensures
            empty <==> ring@.items.len() == 0,
    {
        self.queue.is_empty(ring)
    }

    /// If the reader does not work, marks it working and calls it. Tells whether it was called.
    pub fn notify_manually(&self, ring: &mut Ring<T>) -> (called: bool)
        requires
            old(ring).wf(),
        ensures
            final(ring).wf(),
            notified(old(ring)@, called, final(ring)@),
            called <==> old(ring)@.working != SET,
            final(ring)@.working == SET,
            called ==> final(ring)@.reader_called && final(ring)@.calls_to_reader == old(
                ring,
            )@.calls_to_reader + 1,
            !called ==> final(ring)@ == old(ring)@,
            final(ring)@.items == old(ring)@.items,
    {
        let (mut access, mut op): (Access<T>, RouseOp) = RouseOp::start();
        loop
            invariant
                rouse_under_way(old(ring)@, access, op, ring.memory()),
            decreases rouse_steps_left(op),
        {
            let ghost now = ring.memory();
            let reply = ring.perform(access);
            proof {
                lemma_flags_apart(now, ring.memory());
            }
            match op.step(reply) {
                Step::Do(next_access, next_op) => {
                    access = next_access;
                    op = next_op;
                },
                Step::Done(called) => return called,
            }
        }
    }

    /// Lets `item` wait for room, behind all that wait already.
    fn park(&mut self, item: T, waiter: Option<Waiter>)
        ensures
            final(self).queue() == old(self).queue(),
            final(self).pending() == old(self).pending().push(PendingTask { data: item, waiter }),
    {
        self.pending_tasks.push_back(PendingTask { data: item, waiter });
    }

    /// Ends a push: an item that was handed back waits for room.
    pub fn settle(&mut self, written: Result<(), Refused<T>>) -> (s: Settled)
        ensures
            final(self).queue() == old(self).queue(),
            match written {
                Ok(()) => {
                    &&& s == (Settled { queued: true, flush_due: false })
                    &&& final(self).pending() == old(self).pending()
                },
                Err(Refused { item, room }) => {
                    &&& s == (Settled { queued: false, flush_due: room })
                    &&& final(self).pending() == old(self).pending().push(
                        PendingTask { data: item, waiter: None },
                    )
                },
            },
            settled(old(self).pending(), written, s, final(self).pending()),
    {
        match written {
            Ok(()) => Settled { queued: true, flush_due: false },
            Err(Refused { item, room }) => {
                self.park(item, None);
                Settled { queued: false, flush_due: room }
            },
        }
    }

    /// Ends a push that can be awaited: an item that was handed back waits for room, and the
    /// handle tells when it has gone through. The second result says whether a round over the
    /// waiting items is due at once.
    pub fn settle_with_awaiter(&mut self, written: Result<(), Refused<T>>) -> (r: (PushResult, bool))
        ensures
            final(self).queue() == old(self).queue(),
            match written {
                Ok(()) => r.0 is Queued && !r.1 && final(self).pending() == old(self).pending(),
                Err(Refused { item, room }) => {
                    &&& r.0 is Pending
                    &&& r.1 == room
                    &&& initial_slot(*r.0->Pending_0.slot()) is Empty
                    &&& final(self).pending() == old(self).pending().push(
                        PendingTask { data: item, waiter: Some(r.0->Pending_0.slot()) },
                    )
                },
            },
            settled_with_awaiter(old(self).pending(), written, r, final(self).pending()),
    {
        match written {
            Ok(()) => (PushResult::Queued, false),
            Err(Refused { item, room }) => {
                let (handle, waiter) = PushJoinHandle::new();
                self.park(item, Some(waiter));
                (PushResult::Pending(handle), room)
            },
        }
    }

    /// Offers `item` to the queue, and marks the writer as waiting if it is handed back.
    fn write_out(&self, ring: &mut Ring<T>, item: T, rouse: bool) -> (r: Result<(), Refused<T>>)
        requires
            old(ring).wf(),
            self.queue().spans(*old(ring)),
            old(ring)@.is_full() || old(ring)@.tail() < u64::MAX,
        ensures
            final(ring).wf(),
            match r {
                Ok(()) => !old(ring)@.is_full() && final(ring)@ == (if rouse {
                    old(ring)@.pushed(item).roused()
                } else {
                    old(ring)@.pushed(item)
                }),
                Err(back) => {
                    &&& old(ring)@.is_full()
                    &&& back == (Refused { item, room: false })
                    &&& final(ring)@ == old(ring)@.with_stuck(SET)
                },
            },
    {
        let ghost before = ring.memory();
        let (mut access, mut op) = WriteOp::start(item, self.meta().buffer_len, rouse);
        loop
            invariant
                before == old(ring).memory(),
                before.wf(),
                before.meaning().is_full() || before.tail < u64::MAX,
                before.slots.len() == self.queue().known().buffer_len,
                write_under_way(before, item, rouse, access, op, ring.memory()),
            decreases write_steps_left(op),
        {
            proof {
                if !before.meaning().is_full() {
                    let index = slot_of(before.tail as int, before.slots.len() as int);
                    lemma_put(before, index as usize, item, (before.tail + 1) as u64);
                }
            }
            let ghost now = ring.memory();
            let reply = ring.perform(access);
            proof {
                if !(op is Offering) {
                    lemma_flags_apart(now, ring.memory());
                }
            }
            match op.step(reply) {
                Step::Do(next_access, next_op) => {
                    access = next_access;
                    op = next_op;
                },
                Step::Done(r) => return r,
            }
        }
    }

    /// Puts `item` into the queue and sees to it that the reader works, or lets the item wait for
    /// room. Tells whether the item went in.
    pub fn push(&mut self, ring: &mut Ring<T>, item: T) -> (queued: bool)
        requires
            old(ring).wf(),
            old(self).queue().spans(*old(ring)),
            old(ring)@.is_full() || old(ring)@.tail() < u64::MAX,
        ensures
            final(ring).wf(),
            final(self).queue() == old(self).queue(),
            pushed(
                old(ring)@,
                old(self).pending(),
                item,
                true,
                queued,
                final(ring)@,
                final(self).pending(),
            ),
            queued <==> old(ring)@.items.len() < old(ring)@.capacity,
            queued ==> final(ring)@.items == old(ring)@.items.push(item) && final(self).pending()
                == old(self).pending(),
            !queued ==> final(ring)@.items == old(ring)@.items && final(ring)@.stuck == SET
                && final(self).pending() == old(self).pending().push(
                PendingTask { data: item, waiter: None },
            ),
            queued ==> final(ring)@.working == SET,
            queued && old(ring)@.working != SET ==> final(ring)@.reader_called && final(ring)@.calls_to_reader == old(ring)@.calls_to_reader + 1,
            !queued || old(ring)@.working == SET ==> final(ring)@.working == old(ring)@.working
                && final(ring)@.reader_called == old(ring)@.reader_called && final(ring)@.calls_to_reader == old(ring)@.calls_to_reader,
    {
        let written = self.write_out(ring, item, true);
        self.settle(written).queued
    }

    /// Puts `item` into the queue, or lets it wait for room, and leaves the reader alone. Tells
    /// whether the item went in.
    pub fn push_without_notify(&mut self, ring: &mut Ring<T>, item: T) -> (queued: bool)
        requires
            old(ring).wf(),
            old(self).queue().spans(*old(ring)),
            old(ring)@.is_full() || old(ring)@.tail() < u64::MAX,
        ensures
            final(ring).wf(),
            final(self).queue() == old(self).queue(),
            pushed(
                old(ring)@,
                old(self).pending(),
                item,
                false,
                queued,
                final(ring)@,
                final(self).pending(),
            ),
            queued <==> old(ring)@.items.len() < old(ring)@.capacity,
            queued ==> final(ring)@.items == old(ring)@.items.push(item) && final(self).pending()
                == old(self).pending(),
            !queued ==> final(ring)@.items == old(ring)@.items && final(ring)@.stuck == SET
                && final(self).pending() == old(self).pending().push(
                PendingTask { data: item, waiter: None },
            ),
            final(ring)@.working == old(ring)@.working,
            final(ring)@.reader_called == old(ring)@.reader_called,
            final(ring)@.calls_to_reader == old(ring)@.calls_to_reader,
    {
        let written = self.write_out(ring, item, false);
        self.settle(written).queued
    }

    /// Puts `item` into the queue and sees to it that the reader works, or lets the item wait for
    /// room and hands out a handle that tells when it has gone through.
    pub fn push_with_awaiter(&mut self, ring: &mut Ring<T>, item: T) -> (r: PushResult)
        requires
            old(ring).wf(),
            old(self).queue().spans(*old(ring)),
            old(ring)@.is_full() || old(ring)@.tail() < u64::MAX,
        ensures
            final(ring).wf(),
            final(self).queue() == old(self).queue(),
            pushed_with_awaiter(
                old(ring)@,
                old(self).pending(),
                item,
                r,
                final(ring)@,
                final(self).pending(),
            ),
            r is Queued <==> old(ring)@.items.len() < old(ring)@.capacity,
            r is Queued ==> {
                &&& final(ring)@.items == old(ring)@.items.push(item)
                &&& final(ring)@.working == SET
                &&& old(ring)@.working != SET ==> final(ring)@.reader_called && final(ring)@.calls_to_reader == old(ring)@.calls_to_reader + 1
                &&& final(self).pending() == old(self).pending()
            },
            r matches PushResult::Pending(handle) ==> {
                &&& final(ring)@.items == old(ring)@.items
                &&& final(ring)@.stuck == SET
                &&& final(self).pending() == old(self).pending().push(
                    PendingTask { data: item, waiter: Some(handle.slot()) },
                )
            },
    {
        let written = self.write_out(ring, item, true);
        let (r, _) = self.settle_with_awaiter(written);
        r
    }

    /// Begins a round over the waiting items.
    pub fn flush_start(&mut self) -> (r: (Access<T>, FlushOp<T>))
        ensures
            final(self).queue() == old(self).queue(),
            (final(self).pending(), r) == flush_from(
                old(self).pending(),
                old(self).queue().known().buffer_len,
            ),
    {
        match self.pending_tasks.pop_front() {
            Some(PendingTask { data, waiter }) => {
                let (access, op) = PushOp::start(data, self.queue.meta().buffer_len);
                (access, FlushOp::Offering { op, waiter })
            },
            None => {
                let (access, op) = RouseOp::start();
                (access, FlushOp::Rousing(op))
            },
        }
    }

    /// Goes on with a round over the waiting items after `reply`.
    pub fn flush_step(&mut self, op: FlushOp<T>, reply: Reply<T>) -> (s: FlushStep<T>)
        requires
            op.ready(reply),
        ensures
            final(self).queue() == old(self).queue(),
            (final(self).pending(), s) == flush_next(
                old(self).pending(),
                old(self).queue().known().buffer_len,
                op,
                reply,
            ),
    {
        match (op, reply) {
            (FlushOp::Offering { op, waiter }, reply) => match op.step(reply) {
                Step::Do(access, op) => FlushStep {
                    wake: None,
                    step: Step::Do(access, FlushOp::Offering { op, waiter }),
                },
                Step::Done(Ok(())) => {
                    let (access, op) = self.flush_start();
                    FlushStep { wake: waiter, step: Step::Do(access, op) }
                },
                Step::Done(Err(data)) => {
                    self.pending_tasks.push_front(PendingTask { data, waiter });
                    let (access, op) = RouseOp::start();
                    FlushStep { wake: None, step: Step::Do(access, FlushOp::Rousing(op)) }
                },
            },
            (FlushOp::Rousing(op), reply) => match op.step(reply) {
                Step::Do(access, op) => FlushStep {
                    wake: None,
                    step: Step::Do(access, FlushOp::Rousing(op)),
                },
                Step::Done(_) => if self.pending_tasks.len() > 0 {
                    FlushStep { wake: None, step: Step::Do(Access::StoreStuck(SET), FlushOp::Stick) }
                } else {
                    FlushStep { wake: None, step: Step::Done(false) }
                },
            },
            (FlushOp::Stick, _) => FlushStep {
                wake: None,
                step: Step::Do(Access::Counters, FlushOp::Look),
            },
            (FlushOp::Look, Reply::Counters { head, tail }) => {
                let full = counters_full(head, tail, self.queue.meta().buffer_len);
                FlushStep { wake: None, step: Step::Done(!full) }
            },
            (FlushOp::Look, _) => FlushStep { wake: None, step: Step::Done(false) },
        }
    }

    /// Makes one round over the waiting items: moves them into the queue, first come first served,
    /// until none is left or there is no room, and sees to it that the reader works. If items are
    /// left, the writer is marked as waiting. The slot of each item that goes in is woken; the
    /// result holds these slots, in order.
    pub fn flush(&mut self, ring: &mut Ring<T>) -> (woken: Vec<Waiter>)
        requires
            old(ring).wf(),
            old(self).queue().spans(*old(ring)),
            old(ring)@.tail() + flushable(old(ring)@, old(self).pending()) <= u64::MAX,
        ensures
            final(ring).wf(),
            final(self).queue() == old(self).queue(),
            ({
                let moved = flushable(old(ring)@, old(self).pending());
                let left = old(self).pending().skip(moved);
                &&& final(self).pending() == left
                &&& woken@ == waiters_of(old(self).pending().take(moved))
                &&& forall|i: int| 0 <= i < woken@.len() ==> ended(#[trigger] woken@[i])
                &&& final(ring)@ == flushed(old(ring)@, old(self).pending())
            }),
            round_made(
                old(ring)@,
                old(self).pending(),
                woken@,
                final(ring)@,
                final(self).pending(),
            ),
            final(ring)@.working == SET,
            old(ring)@.working != SET ==> final(ring)@.reader_called && final(ring)@.calls_to_reader == old(ring)@.calls_to_reader + 1,
            old(ring)@.working == SET ==> final(ring)@.reader_called == old(ring)@.reader_called
                && final(ring)@.calls_to_reader == old(ring)@.calls_to_reader,
            final(self).pending().len() > 0 ==> final(ring)@.items.len() == final(ring)@.capacity
                && final(ring)@.stuck == SET,
    {
        let ghost ring0 = ring@;
        let ghost tasks = self.pending();
        let ghost mut base = ring.memory();
        let ghost mut moved: int = 0;
        let mut woken: Vec<Waiter> = Vec::new();
        let (mut access, mut op) = self.flush_start();
        proof {
            ring.lemma_bounds();
            assert(ring0.items + data_of(tasks.take(0)) =~= ring0.items);
            assert(tasks.skip(0) =~= tasks);
            assert(tasks.len() > 0 ==> tasks.skip(1) =~= tasks.drop_first());
        }
        loop
            invariant
                self.queue() == old(self).queue(),
                ring0 == old(ring)@,
                tasks == old(self).pending(),
                ring0.capacity == self.queue().known().buffer_len,
                ring0.tail() + flushable(ring0, tasks) <= u64::MAX,
                0 <= moved <= flushable(ring0, tasks),
                woken@ == waiters_of(tasks.take(moved)),
                forall|i: int| 0 <= i < woken@.len() ==> ended(#[trigger] woken@[i]),
                flush_under_way(
                    ring0,
                    tasks,
                    moved,
                    base,
                    self.pending(),
                    access,
                    op,
                    ring.memory(),
                ),
            decreases
                    (if op is Offering {
                        tasks.len() - moved
                    } else {
                        0
                    }),
                    flush_steps_left(op),
        {
            proof {
                if op is Offering && !base.meaning().is_full() {
                    let index = slot_of(base.tail as int, base.slots.len() as int);
                    lemma_put(base, index as usize, tasks[moved].data, (base.tail + 1) as u64);
                }
            }
            let ghost now = ring.memory();
            let reply = ring.perform(access);
            proof {
                if !(op is Offering) {
                    lemma_flags_apart(now, ring.memory());
                }
            }
            let ghost offered = op;
            let ghost waiting = self.pending();
            let FlushStep { wake, step } = self.flush_step(op, reply);
            proof {
                if offered is Offering {
                    assert(seq![tasks[moved]] + tasks.skip(moved + 1) =~= tasks.skip(moved));
                    if moved + 1 < tasks.len() {
                        assert(waiting[0] == tasks[moved + 1]);
                        assert(waiting.drop_first() =~= tasks.skip(moved + 2));
                    }
                }
                if offered is Offering && offered->Offering_op is Publish {
                    let taken = tasks.take(moved + 1);
                    assert(taken.drop_last() =~= tasks.take(moved));
                    assert(data_of(taken) =~= data_of(tasks.take(moved)).push(tasks[moved].data));
                    assert(ring0.items + data_of(taken) =~= (ring0.items + data_of(
                        tasks.take(moved),
                    )).push(tasks[moved].data));
                    base = ring.memory();
                    moved = moved + 1;
                }
            }
            if let Some(waiter) = wake {
                wake_waiter(&waiter);
                woken.push(waiter);
            }
            match step {
                Step::Do(next_access, next_op) => {
                    access = next_access;
                    op = next_op;
                },
                Step::Done(_) => return woken,
            }
        }
    }
}

/// What a push does: the item goes into the ring if it is not full, and if `rouse` holds the reader
/// is looked after; else the writer is marked as waiting, and the item waits behind all others.
pub open spec fn pushed<T>(
    ring: RingView<T>,
    pending: Seq<PendingTask<T>>,
    item: T,
    rouse: bool,
    queued: bool,
    ring_after: RingView<T>,
    pending_after: Seq<PendingTask<T>>,
) -> bool {
    &&& queued <==> !ring.is_full()
    &&& ring_after == (if !queued {
        ring.with_stuck(SET)
    } else if rouse {
        ring.pushed(item).roused()
    } else {
        ring.pushed(item)
    })
    &&& pending_after == (if queued {
        pending
    } else {
        pending.push(PendingTask { data: item, waiter: None })
    })
}

/// What a push that can be awaited does: the same, but an item that waits does so with the slot of
/// the handle, in which nobody has asked yet.
pub open spec fn pushed_with_awaiter<T>(
    ring: RingView<T>,
    pending: Seq<PendingTask<T>>,
    item: T,
    r: PushResult,
    ring_after: RingView<T>,
    pending_after: Seq<PendingTask<T>>,
) -> bool {
    match r {
        PushResult::Queued => {
            &&& !ring.is_full()
            &&& ring_after == ring.pushed(item).roused()
            &&& pending_after == pending
        },
        PushResult::Pending(handle) => {
            &&& ring.is_full()
            &&& initial_slot(*handle.slot()) is Empty
            &&& ring_after == ring.with_stuck(SET)
            &&& pending_after == pending.push(
                PendingTask { data: item, waiter: Some(handle.slot()) },
            )
        },
    }
}

/// What the end of a push does: an item that was handed back waits behind all others, and a round
/// is due at once if there was room again.
pub open spec fn settled<T>(
    pending: Seq<PendingTask<T>>,
    written: Result<(), Refused<T>>,
    s: Settled,
    pending_after: Seq<PendingTask<T>>,
) -> bool {
    match written {
        Ok(()) => s.queued && !s.flush_due && pending_after == pending,
        Err(refused) => {
            &&& !s.queued
            &&& s.flush_due == refused.room
            &&& pending_after == pending.push(PendingTask { data: refused.item, waiter: None })
        },
    }
}

/// What the end of a push that can be awaited does: the same, with the slot of the handle.
pub open spec fn settled_with_awaiter<T>(
    pending: Seq<PendingTask<T>>,
    written: Result<(), Refused<T>>,
    r: (PushResult, bool),
    pending_after: Seq<PendingTask<T>>,
) -> bool {
    match written {
        Ok(()) => r.0 is Queued && !r.1 && pending_after == pending,
        Err(refused) => match r.0 {
            PushResult::Queued => false,
            PushResult::Pending(handle) => {
                &&& r.1 == refused.room
                &&& initial_slot(*handle.slot()) is Empty
                &&& pending_after == pending.push(
                    PendingTask { data: refused.item, waiter: Some(handle.slot()) },
                )
            },
        },
    }
}

/// What a round over the waiting items does: as many of them as fit go into the ring, their slots
/// are woken, and the reader is looked after; the others go on waiting, with the writer marked.
pub open spec fn round_made<T>(
    ring: RingView<T>,
    pending: Seq<PendingTask<T>>,
    woken: Seq<Waiter>,
    ring_after: RingView<T>,
    pending_after: Seq<PendingTask<T>>,
) -> bool {
    let moved = flushable(ring, pending);
    &&& pending_after == pending.skip(moved)
    &&& woken == waiters_of(pending.take(moved))
    &&& forall|i: int| 0 <= i < woken.len() ==> ended(#[trigger] woken[i])
    &&& ring_after == flushed(ring, pending)
}

/// What the care for the reader does that is asked for by hand: the reader is marked working and
/// called, once, unless it works already.
pub open spec fn notified<T>(ring: RingView<T>, called: bool, ring_after: RingView<T>) -> bool {
    &&& called <==> ring.working != SET
    &&& ring_after == ring.roused()
}

/// The items of `tasks`, in order.
pub open spec fn data_of<T>(tasks: Seq<PendingTask<T>>) -> Seq<T> {
    Seq::new(tasks.len(), |i: int| tasks[i].data)
}

/// The slots of those of `tasks` that have one, in order.
pub open spec fn waiters_of<T>(tasks: Seq<PendingTask<T>>) -> Seq<Waiter>
    decreases tasks.len(),
{
    if tasks.len() == 0 {
        Seq::empty()
    } else {
        let rest = waiters_of(tasks.drop_last());
        match tasks.last().waiter {
            Some(w) => rest.push(w),
            None => rest,
        }
    }
}

/// How many of the waiting items fit into the ring.
pub open spec fn flushable<T>(ring: RingView<T>, pending: Seq<PendingTask<T>>) -> int {
    if ring.room() <= pending.len() {
        ring.room()
    } else {
        pending.len() as int
    }
}

/// The ring with as many of the waiting items in it as fit, and the reader looked after. If not
/// all fit, the writer is marked as waiting for room.
pub open spec fn flushed<T>(ring: RingView<T>, pending: Seq<PendingTask<T>>) -> RingView<T> {
    let moved = flushable(ring, pending);
    let filled = RingView { items: ring.items + data_of(pending.take(moved)), ..ring };
    if moved < pending.len() {
        filled.roused().with_stuck(SET)
    } else {
        filled.roused()
    }
}

/// Where a round over the waiting items `tasks` stands that found the ring as `ring0`, has it to
/// itself and has moved `moved` items, with which the memory was `base`.
spec fn flush_under_way<T>(
    ring0: RingView<T>,
    tasks: Seq<PendingTask<T>>,
    moved: int,
    base: Memory<T>,
    pending: Seq<PendingTask<T>>,
    access: Access<T>,
    op: FlushOp<T>,
    now: Memory<T>,
) -> bool {
    let filled = RingView { items: ring0.items + data_of(tasks.take(moved)), ..ring0 };
    let over = moved == flushable(ring0, tasks);
    match op {
        FlushOp::Offering { op, waiter } => {
            &&& base.wf()
            &&& base.meaning() == filled
            &&& moved < tasks.len()
            &&& pending == tasks.skip(moved + 1)
            &&& waiter == tasks[moved].waiter
            &&& push_under_way(base, tasks[moved].data, access, op, now)
        },
        FlushOp::Rousing(op) => {
            &&& over
            &&& pending == tasks.skip(moved)
            &&& rouse_under_way(filled, access, op, now)
        },
        FlushOp::Stick => {
            &&& over
            &&& moved < tasks.len()
            &&& pending == tasks.skip(moved)
            &&& access == Access::<T>::StoreStuck(SET)
            &&& now.wf()
            &&& now.meaning() == filled.roused()
        },
        FlushOp::Look => {
            &&& over
            &&& moved < tasks.len()
            &&& pending == tasks.skip(moved)
            &&& access == Access::<T>::Counters
            &&& now.wf()
            &&& now.meaning() == filled.roused().with_stuck(SET)
        },
    }
}

spec fn flush_steps_left<T>(op: FlushOp<T>) -> int {
    match op {
        FlushOp::Offering { op, .. } => push_steps_left(op),
        FlushOp::Rousing(op) => 2 + rouse_steps_left(op),
        FlushOp::Stick => 1,
        FlushOp::Look => 0,
    }
}

/// Where the care for the reader stands of a writer that found the ring as `before` and has it to
/// itself.
pub(crate) open spec fn rouse_under_way<T>(
    before: RingView<T>,
    access: Access<T>,
    op: RouseOp,
    now: Memory<T>,
) -> bool {
    &&& now.wf()
    &&& match op {
        RouseOp::Check => access == Access::<T>::LoadWorking && now.meaning() == before,
        RouseOp::Mark => {
            &&& before.working != SET
            &&& access == Access::<T>::StoreWorking(SET)
            &&& now.meaning() == before
        },
        RouseOp::Call => {
            &&& before.working != SET
            &&& access == Access::<T>::CallReader
            &&& now.meaning() == before.with_working(SET)
        },
    }
}

/// Where the writing of `item` stands that found the memory as `before` and has it to itself.
spec fn write_under_way<T>(
    before: Memory<T>,
    item: T,
    rouse: bool,
    access: Access<T>,
    op: WriteOp<T>,
    now: Memory<T>,
) -> bool {
    match op {
        WriteOp::Offering { op, buffer_len, rouse: r } => {
            &&& r == rouse
            &&& buffer_len == before.slots.len()
            &&& push_under_way(before, item, access, op, now)
        },
        WriteOp::Rousing(op) => {
            &&& rouse
            &&& !before.meaning().is_full()
            &&& rouse_under_way(before.meaning().pushed(item), access, op, now)
        },
        WriteOp::Stick { item: kept, buffer_len } => {
            &&& before.meaning().is_full()
            &&& kept == item
            &&& buffer_len == before.slots.len()
            &&& access == Access::<T>::StoreStuck(SET)
            &&& now == before
        },
        WriteOp::Look { item: kept, buffer_len } => {
            &&& before.meaning().is_full()
            &&& kept == item
            &&& buffer_len == before.slots.len()
            &&& access == Access::<T>::Counters
            &&& now.wf()
            &&& now.meaning() == before.meaning().with_stuck(SET)
        },
    }
}

spec fn rouse_steps_left(op: RouseOp) -> int {
    match op {
        RouseOp::Check => 2,
        RouseOp::Mark => 1,
        RouseOp::Call => 0,
    }
}

spec fn write_steps_left<T>(op: WriteOp<T>) -> int {
    match op {
        WriteOp::Offering { op, .. } => 3 + push_steps_left(op),
        WriteOp::Rousing(op) => rouse_steps_left(op),
        WriteOp::Stick { .. } => 1,
        WriteOp::Look { .. } => 0,
    }
}

} // verus!
