//! What a caller has of each function, said of every call that can be made and of all that can come
//! of it.

use crate::counters::{
    counters_empty, counters_full, is_set, occupied, pop_slot, push_slot, Slot,
};
use crate::eventfd::{
    after_write, call_failed, made_fd, made_pair, CallStep, IoFailure, WaitEvent, WaitOp,
};
use crate::handler::{Action, Event, Handler, Phase};
use crate::memory::{Access, Reply, Ring, Step};
use crate::queue::{Placement, Queue, QueueMeta};
use crate::read_queue::{ReadOp, ReadQueue};
use crate::script::{PopOp, PushOp, RouseOp, SleepOp};
use crate::waker::{held, wake_waiter, PushJoinHandle, PushResult, Waiter, WakerSlot};
use crate::write_queue::{
    FlushOp, FlushStep, PendingTask, Refused, Settled, WriteOp, WriteQueue,
};
use std::task::Waker;
use vstd::prelude::*;

verus! {

/// `push`: on any ring with room the item is behind all others, the reader works afterwards, and
/// one that did not has been called exactly once; on a full ring the item is the last of those that
/// wait, the ring holds what it held, and the writer is marked. Nothing else changes.
pub proof fn law_calls_of_push<T>()
    ensures
        forall|end: &mut WriteQueue<T>, ring: &mut Ring<T>, item: T, queued: bool|
            #[trigger]
            call_ensures(WriteQueue::<T>::push, (end, ring, item), queued) && (*ring)@.items.len()
                <= (*ring)@.capacity ==> {
                let before = (*ring)@;
                let after = final(ring)@;
                &&& final(ring).wf()
                &&& final(end).queue() == (*end).queue()
                &&& queued <==> before.items.len() < before.capacity
                &&& queued ==> {
                    &&& after.items == before.items.push(item)
                    &&& after.working == 1
                    &&& before.working != 1 ==> after.reader_called && after.calls_to_reader
                        == before.calls_to_reader + 1
                    &&& before.working == 1 ==> after.reader_called == before.reader_called
                        && after.calls_to_reader == before.calls_to_reader
                    &&& after.stuck == before.stuck
                    &&& final(end).pending() == (*end).pending()
                }
                &&& !queued ==> {
                    &&& after.items == before.items
                    &&& after.stuck == 1
                    &&& after.working == before.working
                    &&& after.reader_called == before.reader_called
                    &&& after.calls_to_reader == before.calls_to_reader
                    &&& final(end).pending() == (*end).pending().push(
                        PendingTask { data: item, waiter: None },
                    )
                }
                &&& after.head == before.head
                &&& after.capacity == before.capacity
                &&& after.writer_called == before.writer_called
                &&& after.calls_to_writer == before.calls_to_writer
            },
{
}

/// `push_without_notify`: the item is behind all others, or on a full ring the last of those that
/// wait, with the writer marked; nothing that concerns the reader changes.
pub proof fn law_calls_of_push_without_notify<T>()
    ensures
        forall|end: &mut WriteQueue<T>, ring: &mut Ring<T>, item: T, queued: bool|
            #[trigger]
            call_ensures(WriteQueue::<T>::push_without_notify, (end, ring, item), queued) && (
            *ring)@.items.len() <= (*ring)@.capacity ==> {
                let before = (*ring)@;
                let after = final(ring)@;
                &&& final(ring).wf()
                &&& final(end).queue() == (*end).queue()
                &&& queued <==> before.items.len() < before.capacity
                &&& queued ==> {
                    &&& after.items == before.items.push(item)
                    &&& after.stuck == before.stuck
                    &&& final(end).pending() == (*end).pending()
                }
                &&& !queued ==> {
                    &&& after.items == before.items
                    &&& after.stuck == 1
                    &&& final(end).pending() == (*end).pending().push(
                        PendingTask { data: item, waiter: None },
                    )
                }
                &&& after.working == before.working
                &&& after.reader_called == before.reader_called
                &&& after.calls_to_reader == before.calls_to_reader
                &&& after.head == before.head
                &&& after.capacity == before.capacity
                &&& after.writer_called == before.writer_called
                &&& after.calls_to_writer == before.calls_to_writer
            },
{
}

/// `push_with_awaiter`: as `push`, but an item that has to wait does so with the very slot that the
/// handle asks, in which nobody has asked yet.
pub proof fn law_calls_of_push_with_awaiter<T>()
    ensures
        forall|end: &mut WriteQueue<T>, ring: &mut Ring<T>, item: T, r: PushResult|
            #[trigger]
            call_ensures(WriteQueue::<T>::push_with_awaiter, (end, ring, item), r) && (
            *ring)@.items.len() <= (*ring)@.capacity ==> {
                let before = (*ring)@;
                let after = final(ring)@;
                &&& final(ring).wf()
                &&& final(end).queue() == (*end).queue()
                &&& r is Queued <==> before.items.len() < before.capacity
                &&& r is Queued ==> {
                    &&& after.items == before.items.push(item)
                    &&& after.working == 1
                    &&& before.working != 1 ==> after.reader_called && after.calls_to_reader
                        == before.calls_to_reader + 1
                    &&& before.working == 1 ==> after.reader_called == before.reader_called
                        && after.calls_to_reader == before.calls_to_reader
                    &&& after.stuck == before.stuck
                    &&& final(end).pending() == (*end).pending()
                }
                &&& r matches PushResult::Pending(handle) ==> {
                    &&& after.items == before.items
                    &&& after.stuck == 1
                    &&& after.working == before.working
                    &&& after.reader_called == before.reader_called
                    &&& after.calls_to_reader == before.calls_to_reader
                    &&& final(end).pending() == (*end).pending().push(
                        PendingTask { data: item, waiter: Some(handle.slot()) },
                    )
                }
                &&& after.head == before.head
                &&& after.capacity == before.capacity
                &&& after.writer_called == before.writer_called
                &&& after.calls_to_writer == before.calls_to_writer
            },
{
}

/// `notify_manually`: the reader works afterwards; it is called, exactly once, if it did not work
/// before, and that is what the result says. Nothing else changes.
pub proof fn law_calls_of_notify_manually<T>()
    ensures
        forall|end: &WriteQueue<T>, ring: &mut Ring<T>, called: bool|
            #[trigger]
            call_ensures(WriteQueue::<T>::notify_manually, (end, ring), called) ==> {
                let before = (*ring)@;
                let after = final(ring)@;
                &&& final(ring).wf()
                &&& called <==> before.working != 1
                &&& after.working == 1
                &&& called ==> after.reader_called && after.calls_to_reader
                    == before.calls_to_reader + 1
                &&& !called ==> after.reader_called == before.reader_called
                    && after.calls_to_reader == before.calls_to_reader
                &&& after.items == before.items
                &&& after.head == before.head
                &&& after.capacity == before.capacity
                &&& after.stuck == before.stuck
                &&& after.writer_called == before.writer_called
                &&& after.calls_to_writer == before.calls_to_writer
            },
{
}

/// `flush`: the items that have waited longest are in the ring, behind what was there and in their
/// order, as many as there was room for, and the others go on waiting. The reader works afterwards,
/// however many were moved, and one that did not has been called exactly once. If items are left,
/// the ring is full and the writer is marked.
pub proof fn law_calls_of_flush<T>()
    ensures
        forall|end: &mut WriteQueue<T>, ring: &mut Ring<T>, woken: Vec<Waiter>|
            #[trigger]
            call_ensures(WriteQueue::<T>::flush, (end, ring), woken) && (*ring)@.items.len() <= (
            *ring)@.capacity ==> {
                let before = (*ring)@;
                let after = final(ring)@;
                let moved = (*end).pending().len() - final(end).pending().len();
                &&& final(ring).wf()
                &&& final(end).queue() == (*end).queue()
                &&& 0 <= moved <= (*end).pending().len()
                &&& before.items.len() + moved <= before.capacity
                &&& moved < (*end).pending().len() ==> before.items.len() + moved
                    == before.capacity && after.stuck == 1
                &&& moved == (*end).pending().len() ==> after.stuck == before.stuck
                &&& final(end).pending() == (*end).pending().skip(moved)
                &&& after.items == before.items + (*end).pending().take(moved).map_values(
                    |t: PendingTask<T>| t.data,
                )
                &&& after.working == 1
                &&& before.working != 1 ==> after.reader_called && after.calls_to_reader
                    == before.calls_to_reader + 1
                &&& before.working == 1 ==> after.reader_called == before.reader_called
                    && after.calls_to_reader == before.calls_to_reader
                &&& after.head == before.head
                &&& after.capacity == before.capacity
                &&& after.writer_called == before.writer_called
                &&& after.calls_to_writer == before.calls_to_writer
            },
{
    assert forall|end: &mut WriteQueue<T>, ring: &mut Ring<T>, woken: Vec<Waiter>|
        #[trigger]
        call_ensures(WriteQueue::<T>::flush, (end, ring), woken) && (*ring)@.items.len() <= (
        *ring)@.capacity implies {
        let moved = (*end).pending().len() - final(end).pending().len();
        final(ring)@.items == (*ring)@.items + (*end).pending().take(moved).map_values(
            |t: PendingTask<T>| t.data,
        )
    } by {
        let moved = (*end).pending().len() - final(end).pending().len();
        assert(final(ring)@.items =~= (*ring)@.items + (*end).pending().take(moved).map_values(
            |t: PendingTask<T>| t.data,
        ));
    }
}

/// `flush` hands out the slots of the items that it has moved and that have one, in order, and in
/// each of them the wait has been ended by a holder of its lock, who woke whoever waited there.
pub proof fn law_calls_of_flush_wake<T>(
    end: WriteQueue<T>,
    end_after: WriteQueue<T>,
    woken: Vec<Waiter>,
    k: int,
)
    requires
        exists|e: &mut WriteQueue<T>, ring: &mut Ring<T>|
            {
                &&& #[trigger] call_ensures(WriteQueue::<T>::flush, (e, ring), woken)
                &&& *e == end
                &&& *final(e) == end_after
                &&& (*ring)@.items.len() <= (*ring)@.capacity
            },
    ensures
        woken@ == end.pending().take(end.pending().len() - end_after.pending().len()).filter(
            |t: PendingTask<T>| t.waiter is Some,
        ).map_values(|t: PendingTask<T>| t.waiter->0),
        0 <= k < woken@.len() ==> exists|before: WakerSlot, after: WakerSlot|
            held(*woken@[k], before, after) && after is Finished && (
            before matches WakerSlot::Waiting(w) ==> call_ensures(
                std::task::Waker::wake,
                (w,),
                (),
            )),
{
    let (e, ring) = choose|e: &mut WriteQueue<T>, ring: &mut Ring<T>|
        {
            &&& #[trigger] call_ensures(WriteQueue::<T>::flush, (e, ring), woken)
            &&& *e == end
            &&& *final(e) == end_after
            &&& (*ring)@.items.len() <= (*ring)@.capacity
        };
    crate::effects::law_round_wakes_the_moved(
        (*ring)@,
        end.pending(),
        woken@,
        final(ring)@,
        end_after.pending(),
    );
    if 0 <= k < woken@.len() {
        crate::effects::law_round_ends_the_waits(
            (*ring)@,
            end.pending(),
            woken@,
            final(ring)@,
            end_after.pending(),
            k,
        );
    }
}

/// `settle` and `settle_with_awaiter`: an item that was handed back is the last of those that wait,
/// without a slot or with the very slot of the handle, and a round is due exactly if there was
/// room again.
pub proof fn law_calls_of_settle<T>()
    ensures
        forall|end: &mut WriteQueue<T>, written: Result<(), Refused<T>>, s: Settled|
            #[trigger]
            call_ensures(WriteQueue::<T>::settle, (end, written), s) ==> {
                &&& final(end).queue() == (*end).queue()
                &&& s.queued <==> written is Ok
                &&& written is Ok ==> !s.flush_due && final(end).pending() == (*end).pending()
                &&& written matches Err(refused) ==> s.flush_due == refused.room && final(end).pending() == (*end).pending().push(
                    PendingTask { data: refused.item, waiter: None },
                )
            },
        forall|end: &mut WriteQueue<T>, written: Result<(), Refused<T>>, r: (PushResult, bool)|
            #[trigger]
            call_ensures(WriteQueue::<T>::settle_with_awaiter, (end, written), r) ==> {
                &&& final(end).queue() == (*end).queue()
                &&& r.0 is Queued <==> written is Ok
                &&& written is Ok ==> !r.1 && final(end).pending() == (*end).pending()
                &&& written matches Err(refused) ==> r.1 == refused.room && final(end).pending()
                    == (*end).pending().push(
                    PendingTask {
                        data: refused.item,
                        waiter: Some(r.0->Pending_0.slot()),
                    },
                )
            },
{
}

/// `ReadQueue::pop`: the oldest item comes out, if there is any, and the others stay in their
/// order; a writer that was marked as waiting no longer is, and has been called exactly once.
/// Nothing else changes.
pub proof fn law_calls_of_read_pop<T>()
    ensures
        forall|end: &ReadQueue<T>, ring: &mut Ring<T>, item: Option<T>|
            #[trigger]
            call_ensures(ReadQueue::<T>::pop, (end, ring), item) ==> {
                let before = (*ring)@;
                let after = final(ring)@;
                &&& final(ring).wf()
                &&& item is Some <==> before.items.len() > 0
                &&& item matches Some(x) ==> x == before.items[0] && after.items
                    == before.items.drop_first() && after.head == before.head + 1
                &&& item is None ==> after.items == before.items && after.head == before.head
                &&& before.stuck == 1 ==> after.stuck == 0 && after.writer_called
                    && after.calls_to_writer == before.calls_to_writer + 1
                &&& before.stuck != 1 ==> after.stuck == before.stuck && after.writer_called
                    == before.writer_called && after.calls_to_writer == before.calls_to_writer
                &&& after.capacity == before.capacity
                &&& after.working == before.working
                &&& after.reader_called == before.reader_called
                &&& after.calls_to_reader == before.calls_to_reader
            },
{
}

/// The bare queue: a push puts the item behind all others or hands it back on a full ring, a pop
/// takes out the oldest, and neither marks or calls anybody.
pub proof fn law_calls_of_bare_push_and_pop<T>()
    ensures
        forall|queue: &Queue<T>, ring: &mut Ring<T>, item: T, r: Result<(), T>|
            #[trigger]
            call_ensures(Queue::<T>::push, (queue, ring, item), r) && (*ring)@.items.len() <= (
            *ring)@.capacity ==> {
                let before = (*ring)@;
                let after = final(ring)@;
                &&& final(ring).wf()
                &&& r is Ok <==> before.items.len() < before.capacity
                &&& r is Ok ==> after.items == before.items.push(item)
                &&& r matches Err(back) ==> back == item && after.items == before.items
                &&& after.head == before.head
                &&& after.capacity == before.capacity
                &&& after.working == before.working
                &&& after.stuck == before.stuck
                &&& after.reader_called == before.reader_called
                &&& after.writer_called == before.writer_called
                &&& after.calls_to_reader == before.calls_to_reader
                &&& after.calls_to_writer == before.calls_to_writer
            },
        forall|queue: &Queue<T>, ring: &mut Ring<T>, item: Option<T>|
            #[trigger]
            call_ensures(Queue::<T>::pop, (queue, ring), item) ==> {
                let before = (*ring)@;
                let after = final(ring)@;
                &&& final(ring).wf()
                &&& item is Some <==> before.items.len() > 0
                &&& item matches Some(x) ==> x == before.items[0] && after.items
                    == before.items.drop_first() && after.head == before.head + 1
                &&& item is None ==> after.items == before.items && after.head == before.head
                &&& after.capacity == before.capacity
                &&& after.working == before.working
                &&& after.stuck == before.stuck
                &&& after.reader_called == before.reader_called
                &&& after.writer_called == before.writer_called
                &&& after.calls_to_reader == before.calls_to_reader
                &&& after.calls_to_writer == before.calls_to_writer
            },
{
}

/// The marks: each sets its own flag and touches nothing else, and each question is answered by the
/// flag it asks about.
pub proof fn law_calls_of_marks<T>()
    ensures
        forall|queue: &Queue<T>, ring: &mut Ring<T>|
            #[trigger]
            call_ensures(Queue::<T>::mark_working, (queue, ring), ()) ==> final(ring).wf() && final(ring)@.working == 1 && final(ring)@ == (crate::memory::RingView {
                working: final(ring)@.working,
                ..(*ring)@
            }),
        forall|queue: &Queue<T>, ring: &mut Ring<T>|
            #[trigger]
            call_ensures(Queue::<T>::mark_stuck, (queue, ring), ()) ==> final(ring).wf() && final(ring)@.stuck == 1 && final(ring)@ == (crate::memory::RingView {
                stuck: final(ring)@.stuck,
                ..(*ring)@
            }),
        forall|queue: &Queue<T>, ring: &mut Ring<T>|
            #[trigger]
            call_ensures(Queue::<T>::mark_unstuck, (queue, ring), ()) ==> final(ring).wf() && final(ring)@.stuck == 0 && final(ring)@ == (crate::memory::RingView {
                stuck: final(ring)@.stuck,
                ..(*ring)@
            }),
        forall|queue: &Queue<T>, ring: &mut Ring<T>, may_sleep: bool|
            #[trigger]
            call_ensures(Queue::<T>::mark_unworking, (queue, ring), may_sleep) ==> {
                &&& final(ring).wf()
                &&& may_sleep <==> (*ring)@.items.len() == 0
                &&& final(ring)@.working == (if may_sleep {
                    0u32
                } else {
                    1
                })
                &&& final(ring)@ == (crate::memory::RingView {
                    working: final(ring)@.working,
                    ..(*ring)@
                })
            },
        forall|queue: &Queue<T>, ring: &Ring<T>, up: bool|
            #[trigger]
            call_ensures(Queue::<T>::working, (queue, ring), up) ==> (up <==> ring@.working == 1),
        forall|queue: &Queue<T>, ring: &Ring<T>, up: bool|
            #[trigger]
            call_ensures(Queue::<T>::stuck, (queue, ring), up) ==> (up <==> ring@.stuck == 1),
{
}

/// What a handle tells of a ring is what is in it.
pub proof fn law_calls_of_questions<T>()
    ensures
        forall|queue: &Queue<T>, ring: &Ring<T>, n: usize|
            #[trigger]
            call_ensures(Queue::<T>::len, (queue, ring), n) ==> n == ring@.items.len(),
        forall|queue: &Queue<T>, ring: &Ring<T>, empty: bool|
            #[trigger]
            call_ensures(Queue::<T>::is_empty, (queue, ring), empty) ==> (empty
                <==> ring@.items.len() == 0),
        forall|queue: &Queue<T>, ring: &Ring<T>, full: bool|
            #[trigger]
            call_ensures(Queue::<T>::is_full, (queue, ring), full) ==> (full
                <==> ring@.items.len() == ring@.capacity),
        forall|end: &WriteQueue<T>, ring: &Ring<T>, empty: bool|
            #[trigger]
            call_ensures(WriteQueue::<T>::is_empty, (end, ring), empty) ==> (empty
                <==> ring@.items.len() == 0),
{
}

/// A new queue names the place where it was laid out, word for word, and its memory is freed by the
/// party that made it and by no other.
pub proof fn law_calls_of_handles<T>()
    ensures
        forall|
            size: usize,
            place: Placement,
            working: (i32, i32),
            unstuck: (i32, i32),
            r: (Queue<T>, QueueMeta),
        |
            #[trigger]
            call_ensures(Queue::<T>::new, (size, place, working, unstuck), r) ==> {
                let own = r.0.known();
                &&& r.0.owns_memory()
                &&& own.buffer_ptr == place.buffer_ptr
                &&& own.buffer_len == size
                &&& own.head_ptr == place.head_ptr
                &&& own.tail_ptr == place.tail_ptr
                &&& own.working_ptr == place.working_ptr
                &&& own.stuck_ptr == place.stuck_ptr
                &&& own.working_fd == working.0
                &&& own.unstuck_fd == unstuck.0
                &&& r.1 == (QueueMeta { working_fd: working.1, unstuck_fd: unstuck.1, ..own })
            },
        forall|meta: &QueueMeta, queue: Queue<T>|
            #[trigger]
            call_ensures(Queue::<T>::new_from_meta, (meta,), queue) ==> queue.known() == *meta
                && !queue.owns_memory(),
        forall|queue: &Queue<T>, owner: bool|
            #[trigger]
            call_ensures(Queue::<T>::is_memory_owner, (queue,), owner) ==> owner
                == queue.owns_memory(),
        forall|queue: &Queue<T>, meta: QueueMeta|
            #[trigger]
            call_ensures(Queue::<T>::meta, (queue,), meta) ==> meta == queue.known(),
        forall|queue: &Queue<T>, meta: Option<QueueMeta>|
            #[trigger]
            call_ensures(Queue::<T>::reclaims, (queue,), meta) ==> (queue.owns_memory() ==> meta
                == Some(queue.known())) && (!queue.owns_memory() ==> meta is None),
        forall|queue: Queue<T>, end: ReadQueue<T>|
            #[trigger]
            call_ensures(Queue::<T>::read, (queue,), end) ==> end.queue() == queue,
        forall|queue: Queue<T>, end: WriteQueue<T>|
            #[trigger]
            call_ensures(Queue::<T>::write, (queue,), end) ==> end.queue() == queue
                && end.pending().len() == 0,
        forall|end: &ReadQueue<T>, meta: QueueMeta|
            #[trigger]
            call_ensures(ReadQueue::<T>::meta, (end,), meta) ==> meta == end.queue().known(),
        forall|end: &WriteQueue<T>, meta: QueueMeta|
            #[trigger]
            call_ensures(WriteQueue::<T>::meta, (end,), meta) ==> meta == end.queue().known(),
        forall|end: &ReadQueue<T>, r: (Action<T>, Handler<T>)|
            #[trigger]
            call_ensures(ReadQueue::<T>::handler, (end,), r) ==> {
                &&& r.0 == Action::Access(Access::<T>::StoreWorking(1))
                &&& r.1.buffer_len == end.queue().known().buffer_len
                &&& r.1.phase == Phase::<T>::Rise
            },
{
}

/// Memory held as plain values: a new one is empty, an access does what it is for, and each party
/// hears each call once.
pub proof fn law_calls_of_memory<T>()
    ensures
        forall|size: usize, ring: Ring<T>|
            #[trigger]
            call_ensures(Ring::<T>::new, (size,), ring) ==> {
                &&& ring.wf()
                &&& ring@.items.len() == 0
                &&& ring@.capacity == size
                &&& ring@.head == 0
                &&& ring@.working == 0
                &&& ring@.stuck == 0
                &&& !ring@.reader_called
                &&& !ring@.writer_called
                &&& ring@.calls_to_reader == 0
                &&& ring@.calls_to_writer == 0
            },
        forall|ring: &mut Ring<T>, access: Access<T>, reply: Reply<T>|
            #[trigger]
            call_ensures(Ring::<T>::perform, (ring, access), reply) ==> final(ring).memory() == (
            *ring).memory().after(access) && reply == (*ring).memory().reply(access),
        forall|ring: &Ring<T>, r: (u64, u64)|
            #[trigger]
            call_ensures(Ring::<T>::counters, (ring,), r) ==> r == (
                ring.memory().head,
                ring.memory().tail,
            ),
        forall|ring: &Ring<T>, flag: u32|
            #[trigger]
            call_ensures(Ring::<T>::working_word, (ring,), flag) ==> flag == ring.memory().working,
        forall|ring: &Ring<T>, flag: u32|
            #[trigger]
            call_ensures(Ring::<T>::stuck_word, (ring,), flag) ==> flag == ring.memory().stuck,
        forall|ring: &mut Ring<T>, called: bool|
            #[trigger]
            call_ensures(Ring::<T>::reader_hears, (ring,), called) ==> called == (
            *ring).memory().reader_called && final(ring).memory() == (crate::memory::Memory {
                reader_called: false,
                ..(*ring).memory()
            }),
        forall|ring: &mut Ring<T>, called: bool|
            #[trigger]
            call_ensures(Ring::<T>::writer_hears, (ring,), called) ==> called == (
            *ring).memory().writer_called && final(ring).memory() == (crate::memory::Memory {
                writer_called: false,
                ..(*ring).memory()
            }),
{
}

/// The scripts: each begins with its first access, takes exactly the replies that can have come of
/// it, and goes on as it should.
pub proof fn law_calls_of_scripts<T>()
    ensures
        forall|item: T, len: usize, r: (Access<T>, PushOp<T>)|
            #[trigger]
            call_ensures(PushOp::<T>::start, (item, len), r) ==> r == (
                Access::<T>::Counters,
                PushOp::Offer { item, buffer_len: len },
            ),
        forall|op: PushOp<T>, reply: Reply<T>, s: Step<T, PushOp<T>, Result<(), T>>|
            #[trigger]
            call_ensures(PushOp::<T>::step, (op, reply), s) ==> s == op.next(reply),
        forall|op: &PushOp<T>, reply: &Reply<T>, ok: bool|
            #[trigger]
            call_ensures(PushOp::<T>::accepts, (op, reply), ok) ==> (ok <==> op.ready(*reply)),
        forall|len: usize, r: (Access<T>, PopOp<T>)|
            #[trigger]
            call_ensures(PopOp::<T>::start, (len,), r) ==> r == (
                Access::<T>::Counters,
                PopOp::<T>::Look { buffer_len: len },
            ),
        forall|op: PopOp<T>, reply: Reply<T>, s: Step<T, PopOp<T>, Option<T>>|
            #[trigger]
            call_ensures(PopOp::<T>::step, (op, reply), s) ==> s == op.next(reply),
        forall|op: &PopOp<T>, reply: &Reply<T>, ok: bool|
            #[trigger]
            call_ensures(PopOp::<T>::accepts, (op, reply), ok) ==> (ok <==> op.ready(*reply)),
        forall|r: (Access<T>, RouseOp)|
            #[trigger]
            call_ensures(RouseOp::start::<T>, (), r) ==> r == (
                Access::<T>::LoadWorking,
                RouseOp::Check,
            ),
        forall|op: RouseOp, reply: Reply<T>, s: Step<T, RouseOp, bool>|
            #[trigger]
            call_ensures(RouseOp::step::<T>, (op, reply), s) ==> s == op.next(reply),
        forall|op: &RouseOp, reply: &Reply<T>, ok: bool|
            #[trigger]
            call_ensures(RouseOp::accepts::<T>, (op, reply), ok) ==> (ok <==> op.ready(*reply)),
        forall|r: (Access<T>, SleepOp)|
            #[trigger]
            call_ensures(SleepOp::start::<T>, (), r) ==> r == (
                Access::<T>::StoreWorking(0),
                SleepOp::Lower,
            ),
        forall|op: SleepOp, reply: Reply<T>, s: Step<T, SleepOp, bool>|
            #[trigger]
            call_ensures(SleepOp::step::<T>, (op, reply), s) ==> s == op.next(reply),
        forall|op: &SleepOp, reply: &Reply<T>, ok: bool|
            #[trigger]
            call_ensures(SleepOp::accepts::<T>, (op, reply), ok) ==> (ok <==> op.ready(*reply)),
        forall|len: usize, r: (Access<T>, ReadOp<T>)|
            #[trigger]
            call_ensures(ReadOp::<T>::start, (len,), r) ==> r == (
                Access::<T>::Counters,
                ReadOp::Popping(PopOp::<T>::Look { buffer_len: len }),
            ),
        forall|op: ReadOp<T>, reply: Reply<T>, s: Step<T, ReadOp<T>, Option<T>>|
            #[trigger]
            call_ensures(ReadOp::<T>::step, (op, reply), s) ==> s == op.next(reply),
        forall|op: &ReadOp<T>, reply: &Reply<T>, ok: bool|
            #[trigger]
            call_ensures(ReadOp::<T>::accepts, (op, reply), ok) ==> (ok <==> op.ready(*reply)),
{
}

/// The same for the scripts of the writing end, and for the reader that serves a handler.
pub proof fn law_calls_of_end_scripts<T>()
    ensures
        forall|item: T, len: usize, rouse: bool, r: (Access<T>, WriteOp<T>)|
            #[trigger]
            call_ensures(WriteOp::<T>::start, (item, len, rouse), r) ==> r == (
                Access::<T>::Counters,
                WriteOp::Offering {
                    op: PushOp::Offer { item, buffer_len: len },
                    buffer_len: len,
                    rouse,
                },
            ),
        forall|op: WriteOp<T>, reply: Reply<T>, s: Step<T, WriteOp<T>, Result<(), Refused<T>>>|
            #[trigger]
            call_ensures(WriteOp::<T>::step, (op, reply), s) ==> s == op.next(reply),
        forall|op: &WriteOp<T>, reply: &Reply<T>, ok: bool|
            #[trigger]
            call_ensures(WriteOp::<T>::accepts, (op, reply), ok) ==> (ok <==> op.ready(*reply)),
        forall|end: &mut WriteQueue<T>, r: (Access<T>, FlushOp<T>)|
            #[trigger]
            call_ensures(WriteQueue::<T>::flush_start, (end,), r) ==> final(end).queue() == (
            *end).queue() && (final(end).pending(), r) == crate::write_queue::flush_from(
                (*end).pending(),
                (*end).queue().known().buffer_len,
            ),
        forall|end: &mut WriteQueue<T>, op: FlushOp<T>, reply: Reply<T>, s: FlushStep<T>|
            #[trigger]
            call_ensures(WriteQueue::<T>::flush_step, (end, op, reply), s) ==> final(end).queue()
                == (*end).queue() && (final(end).pending(), s) == crate::write_queue::flush_next(
                (*end).pending(),
                (*end).queue().known().buffer_len,
                op,
                reply,
            ),
        forall|op: &FlushOp<T>, reply: &Reply<T>, ok: bool|
            #[trigger]
            call_ensures(FlushOp::<T>::accepts, (op, reply), ok) ==> (ok <==> op.ready(*reply)),
        forall|h: Handler<T>, event: Event<T>, r: (Action<T>, Handler<T>)|
            #[trigger]
            call_ensures(Handler::<T>::step, (h, event), r) ==> r == h.next(event),
        forall|h: &Handler<T>, event: &Event<T>, ok: bool|
            #[trigger]
            call_ensures(Handler::<T>::accepts, (h, event), ok) ==> (ok <==> h.ready(*event)),
{
}

/// The counters of a ring.
pub proof fn law_calls_of_counters()
    ensures
        forall|flag: u32, up: bool|
            #[trigger]
            call_ensures(is_set, (flag,), up) ==> (up <==> flag == 1),
        forall|head: u64, tail: u64, n: u64|
            #[trigger]
            call_ensures(occupied, (head, tail), n) ==> n == tail - head,
        forall|head: u64, tail: u64, empty: bool|
            #[trigger]
            call_ensures(counters_empty, (head, tail), empty) ==> (empty <==> head == tail),
        forall|head: u64, tail: u64, len: usize, full: bool|
            #[trigger]
            call_ensures(counters_full, (head, tail, len), full) ==> (full <==> tail - head == len),
        forall|head: u64, tail: u64, len: usize, slot: Option<Slot>|
            #[trigger]
            call_ensures(push_slot, (head, tail, len), slot) ==> {
                &&& slot is None <==> tail - head == len
                &&& slot matches Some(s) ==> s.index == tail as int % len as int && s.next == tail
                    + 1
            },
        forall|head: u64, tail: u64, len: usize, slot: Option<Slot>|
            #[trigger]
            call_ensures(pop_slot, (head, tail, len), slot) ==> {
                &&& slot is None <==> head == tail
                &&& slot matches Some(s) ==> s.index == head as int % len as int && s.next == head
                    + 1
            },
        forall|meta: &QueueMeta, index: usize, item_size: usize, address: usize|
            #[trigger]
            call_ensures(QueueMeta::slot_address, (meta, index, item_size), address) ==> address
                == meta.buffer_ptr + index * item_size,
{
}

/// What is made of the results of system calls.
pub proof fn law_calls_of_results()
    ensures
        forall|written: isize, failure: IoFailure, s: CallStep|
            #[trigger]
            call_ensures(after_write, (written, failure), s) ==> {
                &&& s == CallStep::Sent <==> written != -1
                &&& s == CallStep::Retry <==> written == -1 && failure == IoFailure::Interrupted
            },
        forall|op: WaitOp, event: WaitEvent, next: Option<WaitOp>|
            #[trigger]
            call_ensures(WaitOp::step, (op, event), next) ==> next == (match event {
                WaitEvent::Readable => Some(WaitOp::Reading),
                WaitEvent::ReadFailed(IoFailure::Interrupted) => Some(WaitOp::Reading),
                WaitEvent::ReadFailed(IoFailure::WouldBlock) => Some(WaitOp::Readiness),
                _ => None,
            }),
        forall|ret: i32, failed: bool|
            #[trigger]
            call_ensures(call_failed, (ret,), failed) ==> (failed <==> ret == -1),
        forall|ret: i32, fds: [i32; 2], pair: Option<(i32, i32)>|
            #[trigger]
            call_ensures(made_pair, (ret, fds), pair) ==> {
                &&& ret == -1 ==> pair is None
                &&& ret != -1 ==> pair == Some((fds@[0], fds@[1]))
            },
        forall|ret: i32, fd: Option<i32>|
            #[trigger]
            call_ensures(made_fd, (ret,), fd) ==> {
                &&& ret == -1 ==> fd is None
                &&& ret != -1 ==> fd == Some(ret)
            },
{
}

/// A slot: to ask is answered ready exactly if the wait is over and else leaves a copy of the
/// waker; to end the wait hands out whoever waited, or wakes them.
pub proof fn law_calls_of_slots()
    ensures
        forall|slot: &mut WakerSlot, w: &Waker, ready: bool|
            #[trigger]
            call_ensures(WakerSlot::set_waker, (slot, w), ready) ==> {
                &&& ready <==> *slot is Finished
                &&& ready ==> *final(slot) is Finished
                &&& !ready ==> *final(slot) is Waiting && cloned(*w, (*final(slot))->Waiting_0)
            },
        forall|slot: &mut WakerSlot, w: Option<Waker>|
            #[trigger]
            call_ensures(WakerSlot::finish, (slot,), w) ==> {
                &&& *final(slot) is Finished
                &&& *slot is Waiting ==> w == Some((*slot)->Waiting_0)
                &&& !(*slot is Waiting) ==> w is None
            },
        forall|slot: &mut WakerSlot|
            #[trigger]
            call_ensures(WakerSlot::wake, (slot,), ()) ==> {
                &&& *final(slot) is Finished
                &&& *slot is Waiting ==> call_ensures(
                    std::task::Waker::wake,
                    ((*slot)->Waiting_0,),
                    (),
                )
            },
{
}

/// A shared slot: to wake it is to be the holder of its lock that leaves it finished and wakes
/// whoever waits there.
pub proof fn law_calls_of_wake_waiter(waiter: Waiter)
    requires
        call_ensures(wake_waiter, (&waiter,), ()),
    ensures
        exists|before: WakerSlot, after: WakerSlot|
            held(*waiter, before, after) && after is Finished && (
            before matches WakerSlot::Waiting(w) ==> call_ensures(
                std::task::Waker::wake,
                (w,),
                (),
            )),
{
    crate::effects::law_ended_wait_has_woken(waiter);
}

/// A handle: to ask it is to be the holder of the lock of its slot that finds the wait over, or
/// else leaves a copy of the waker.
pub proof fn law_calls_of_poll(handle: PushJoinHandle, w: Waker, ready: bool)
    requires
        call_ensures(PushJoinHandle::poll, (&handle, &w), ready),
    ensures
        exists|before: WakerSlot, after: WakerSlot|
            held(*handle.slot(), before, after) && (ready <==> before is Finished) && (ready
                ==> after is Finished) && (!ready ==> after is Waiting && cloned(
                w,
                after->Waiting_0,
            )),
{
    let (before, after) = choose|before: WakerSlot, after: WakerSlot|
        held(*handle.slot(), before, after) && crate::waker::polled(before, w, after, ready);
    assert(held(*handle.slot(), before, after));
}

/// The operations can be called on any ring in order of the right size, full or not, whatever its
/// flags are, as long as a counter that has to grow still can.
pub proof fn law_operations_can_be_called<T>()
    ensures
        forall|end: &mut WriteQueue<T>, ring: &mut Ring<T>, item: T|
            (*ring).wf() && (*ring)@.capacity == (*end).queue().known().buffer_len && (
            (*ring)@.items.len() == (*ring)@.capacity || (*ring)@.head + (*ring)@.items.len()
                < u64::MAX) ==> #[trigger] call_requires(WriteQueue::<T>::push, (end, ring, item)),
        forall|end: &mut WriteQueue<T>, ring: &mut Ring<T>, item: T|
            (*ring).wf() && (*ring)@.capacity == (*end).queue().known().buffer_len && (
            (*ring)@.items.len() == (*ring)@.capacity || (*ring)@.head + (*ring)@.items.len()
                < u64::MAX) ==> #[trigger] call_requires(
                WriteQueue::<T>::push_without_notify,
                (end, ring, item),
            ),
        forall|end: &mut WriteQueue<T>, ring: &mut Ring<T>, item: T|
            (*ring).wf() && (*ring)@.capacity == (*end).queue().known().buffer_len && (
            (*ring)@.items.len() == (*ring)@.capacity || (*ring)@.head + (*ring)@.items.len()
                < u64::MAX) ==> #[trigger] call_requires(
                WriteQueue::<T>::push_with_awaiter,
                (end, ring, item),
            ),
        forall|end: &WriteQueue<T>, ring: &mut Ring<T>|
            (*ring).wf() ==> #[trigger] call_requires(
                WriteQueue::<T>::notify_manually,
                (end, ring),
            ),
        forall|end: &mut WriteQueue<T>, ring: &mut Ring<T>|
            (*ring).wf() && (*ring)@.capacity == (*end).queue().known().buffer_len && (*ring)@.head
                + (*ring)@.capacity <= u64::MAX ==> #[trigger] call_requires(
                WriteQueue::<T>::flush,
                (end, ring),
            ),
        forall|end: &mut WriteQueue<T>, written: Result<(), Refused<T>>| #[trigger]
            call_requires(WriteQueue::<T>::settle, (end, written)),
        forall|end: &mut WriteQueue<T>, written: Result<(), Refused<T>>| #[trigger]
            call_requires(WriteQueue::<T>::settle_with_awaiter, (end, written)),
        forall|end: &ReadQueue<T>, ring: &mut Ring<T>|
            (*ring).wf() && (*ring)@.capacity == (*end).queue().known().buffer_len
                ==> #[trigger] call_requires(ReadQueue::<T>::pop, (end, ring)),
        forall|queue: &Queue<T>, ring: &mut Ring<T>, item: T|
            (*ring).wf() && (*ring)@.capacity == (*queue).known().buffer_len && (
            (*ring)@.items.len() == (*ring)@.capacity || (*ring)@.head + (*ring)@.items.len()
                < u64::MAX) ==> #[trigger] call_requires(Queue::<T>::push, (queue, ring, item)),
        forall|queue: &Queue<T>, ring: &mut Ring<T>|
            (*ring).wf() && (*ring)@.capacity == (*queue).known().buffer_len
                ==> #[trigger] call_requires(Queue::<T>::pop, (queue, ring)),
        forall|queue: &Queue<T>, ring: &mut Ring<T>|
            (*ring).wf() ==> #[trigger] call_requires(Queue::<T>::mark_unworking, (queue, ring)),
        forall|ring: &mut Ring<T>, access: Access<T>|
            (*ring).memory().permits(access) ==> #[trigger] call_requires(
                Ring::<T>::perform,
                (ring, access),
            ),
        forall|size: usize| #[trigger] call_requires(Ring::<T>::new, (size,)),
        forall|h: Handler<T>, event: Event<T>|
            h.ready(event) ==> #[trigger] call_requires(Handler::<T>::step, (h, event)),
        forall|op: PushOp<T>, reply: Reply<T>|
            op.ready(reply) ==> #[trigger] call_requires(PushOp::<T>::step, (op, reply)),
        forall|op: PopOp<T>, reply: Reply<T>|
            op.ready(reply) ==> #[trigger] call_requires(PopOp::<T>::step, (op, reply)),
        forall|op: ReadOp<T>, reply: Reply<T>|
            op.ready(reply) ==> #[trigger] call_requires(ReadOp::<T>::step, (op, reply)),
        forall|op: WriteOp<T>, reply: Reply<T>|
            op.ready(reply) ==> #[trigger] call_requires(WriteOp::<T>::step, (op, reply)),
        forall|end: &mut WriteQueue<T>, op: FlushOp<T>, reply: Reply<T>|
            op.ready(reply) ==> #[trigger] call_requires(
                WriteQueue::<T>::flush_step,
                (end, op, reply),
            ),
{
}

} // verus!
