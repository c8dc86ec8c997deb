//! What each operation on a queue is for, said of the ring and the waiting items before and after
//! it.

use crate::memory::{fresh, reader_heard, writer_heard, RingView};
use crate::queue::{dozed, put, reclaimed, taken, Placement, QueueMeta};
use crate::read_queue::read_out;
use crate::waker::{ended, held, polled, wait_ended, PushResult, Waiter, WakerSlot};
use crate::write_queue::{
    flushable, notified, pushed, pushed_with_awaiter, round_made, settled, settled_with_awaiter,
    waiters_of, PendingTask, Refused, Settled,
};
use std::task::Waker;
use vstd::prelude::*;

verus! {

/// A push that goes in puts its item behind all others, on any ring with room and on no other, and
/// leaves the reader working: one that did not work is marked and called exactly once, whatever the
/// ring holds already, and one that did is left alone. Nothing waits for it, and nothing else
/// changes.
pub proof fn law_push_that_goes_in_reaches_the_reader<T>(
    ring: RingView<T>,
    pending: Seq<PendingTask<T>>,
    item: T,
    queued: bool,
    ring_after: RingView<T>,
    pending_after: Seq<PendingTask<T>>,
)
    requires
        ring.items.len() <= ring.capacity,
        pushed(ring, pending, item, true, queued, ring_after, pending_after),
    ensures
        queued <==> ring.items.len() < ring.capacity,
        queued ==> {
            &&& ring_after.working == 1
            &&& ring.working != 1 ==> ring_after.reader_called && ring_after.calls_to_reader
                == ring.calls_to_reader + 1
            &&& ring.working == 1 ==> ring_after.reader_called == ring.reader_called
                && ring_after.calls_to_reader == ring.calls_to_reader
            &&& ring_after.items.len() == ring.items.len() + 1
            &&& ring_after.items[ring.items.len() as int] == item
            &&& forall|i: int|
                0 <= i < ring.items.len() ==> #[trigger] ring_after.items[i] == ring.items[i]
            &&& ring_after.head == ring.head
            &&& ring_after.capacity == ring.capacity
            &&& ring_after.stuck == ring.stuck
            &&& ring_after.writer_called == ring.writer_called
            &&& ring_after.calls_to_writer == ring.calls_to_writer
            &&& pending_after == pending
        },
{
}

/// A push that is refused, quiet or not, loses nothing: the ring holds what it held, the item is
/// the last of those that wait, behind all that waited before, and the writer is marked as waiting.
/// The reader is left alone.
pub proof fn law_push_that_is_refused_waits<T>(
    ring: RingView<T>,
    pending: Seq<PendingTask<T>>,
    item: T,
    rouse: bool,
    queued: bool,
    ring_after: RingView<T>,
    pending_after: Seq<PendingTask<T>>,
)
    requires
        ring.items.len() <= ring.capacity,
        pushed(ring, pending, item, rouse, queued, ring_after, pending_after),
    ensures
        !queued <==> ring.items.len() == ring.capacity,
        !queued ==> {
            &&& ring_after.items == ring.items
            &&& ring_after.head == ring.head
            &&& ring_after.capacity == ring.capacity
            &&& ring_after.stuck == 1
            &&& ring_after.writer_called == ring.writer_called
            &&& ring_after.calls_to_writer == ring.calls_to_writer
            &&& ring_after.working == ring.working
            &&& ring_after.reader_called == ring.reader_called
            &&& ring_after.calls_to_reader == ring.calls_to_reader
            &&& pending_after.len() == pending.len() + 1
            &&& pending_after[pending.len() as int].data == item
            &&& pending_after[pending.len() as int].waiter is None
            &&& forall|i: int|
                0 <= i < pending.len() ==> #[trigger] pending_after[i] == pending[i]
        },
{
}

/// A quiet push puts its item where a push would, and does nothing to the reader, on any ring.
pub proof fn law_quiet_push_leaves_the_reader_alone<T>(
    ring: RingView<T>,
    pending: Seq<PendingTask<T>>,
    item: T,
    queued: bool,
    ring_after: RingView<T>,
    pending_after: Seq<PendingTask<T>>,
)
    requires
        ring.items.len() <= ring.capacity,
        pushed(ring, pending, item, false, queued, ring_after, pending_after),
    ensures
        queued <==> ring.items.len() < ring.capacity,
        ring_after.working == ring.working,
        ring_after.reader_called == ring.reader_called,
        ring_after.calls_to_reader == ring.calls_to_reader,
        ring_after.head == ring.head,
        ring_after.capacity == ring.capacity,
        ring_after.writer_called == ring.writer_called,
        ring_after.calls_to_writer == ring.calls_to_writer,
        queued ==> {
            &&& ring_after.items == ring.items.push(item)
            &&& ring_after.stuck == ring.stuck
            &&& pending_after == pending
        },
        !queued ==> {
            &&& ring_after.items == ring.items
            &&& ring_after.stuck == 1
            &&& pending_after.len() == pending.len() + 1
            &&& pending_after.last().data == item
            &&& pending_after.drop_last() == pending
        },
{
    assert(!queued ==> pending_after.drop_last() =~= pending);
}

/// A refused push is the same whether it is quiet or not, and whether it can be awaited or not, but
/// for the slot that an awaited item waits with.
pub proof fn law_refused_pushes_are_alike<T>(
    ring: RingView<T>,
    pending: Seq<PendingTask<T>>,
    item: T,
    queued: bool,
    ring_pushed: RingView<T>,
    pending_pushed: Seq<PendingTask<T>>,
    queued_quietly: bool,
    ring_quiet: RingView<T>,
    pending_quiet: Seq<PendingTask<T>>,
    r: PushResult,
    ring_awaited: RingView<T>,
    pending_awaited: Seq<PendingTask<T>>,
)
    requires
        ring.items.len() == ring.capacity,
        pushed(ring, pending, item, true, queued, ring_pushed, pending_pushed),
        pushed(ring, pending, item, false, queued_quietly, ring_quiet, pending_quiet),
        pushed_with_awaiter(ring, pending, item, r, ring_awaited, pending_awaited),
    ensures
        !queued && !queued_quietly && r is Pending,
        ring_quiet == ring_pushed,
        ring_awaited == ring_pushed,
        pending_quiet == pending_pushed,
        pending_awaited.len() == pending_pushed.len(),
        forall|i: int|
            0 <= i < pending_awaited.len() ==> (#[trigger] pending_awaited[i]).data
                == pending_pushed[i].data,
        forall|i: int|
            0 <= i < pending.len() ==> #[trigger] pending_awaited[i] == pending_pushed[i],
{
}

/// No push loses or doubles an item: what is in the ring together with what waits is afterwards
/// what it was before and the pushed item, each as often as before and that one once more.
pub proof fn law_push_adds_one_item<T>(
    ring: RingView<T>,
    pending: Seq<PendingTask<T>>,
    item: T,
    rouse: bool,
    queued: bool,
    ring_after: RingView<T>,
    pending_after: Seq<PendingTask<T>>,
)
    requires
        pushed(ring, pending, item, rouse, queued, ring_after, pending_after),
    ensures
        (ring_after.items + pending_after.map_values(|t: PendingTask<T>| t.data)).to_multiset() == (
        ring.items + pending.map_values(|t: PendingTask<T>| t.data)).to_multiset().insert(item),
{
    let data = |t: PendingTask<T>| t.data;
    let waiting = pending.map_values(data);
    let line = ring.items + waiting;
    line.to_multiset_ensures();
    if queued {
        lemma_insert_within(ring.items, waiting, item);
        assert(ring_after.items + pending_after.map_values(data) =~= ring.items.push(item)
            + waiting);
    } else {
        assert(ring_after.items + pending_after.map_values(data) =~= line.push(item));
    }
}

proof fn lemma_insert_within<T>(a: Seq<T>, b: Seq<T>, x: T)
    ensures
        (a.push(x) + b).to_multiset() == (a + b).to_multiset().insert(x),
{
    broadcast use vstd::multiset::group_multiset_axioms;

    vstd::seq_lib::lemma_multiset_commutative(a.push(x), b);
    vstd::seq_lib::lemma_multiset_commutative(a, b);
    a.to_multiset_ensures();
    assert((a.push(x) + b).to_multiset() =~= (a + b).to_multiset().insert(x));
}

/// A push that can be awaited and goes in is a push that goes in: the item is behind all others,
/// and a reader that did not work is marked and called exactly once, whatever the ring holds.
pub proof fn law_awaited_push_that_goes_in_reaches_the_reader<T>(
    ring: RingView<T>,
    pending: Seq<PendingTask<T>>,
    item: T,
    r: PushResult,
    ring_after: RingView<T>,
    pending_after: Seq<PendingTask<T>>,
)
    requires
        ring.items.len() <= ring.capacity,
        pushed_with_awaiter(ring, pending, item, r, ring_after, pending_after),
    ensures
        r is Queued <==> ring.items.len() < ring.capacity,
        r is Queued ==> {
            &&& ring_after.working == 1
            &&& ring.working != 1 ==> ring_after.reader_called && ring_after.calls_to_reader
                == ring.calls_to_reader + 1
            &&& ring.working == 1 ==> ring_after.reader_called == ring.reader_called
                && ring_after.calls_to_reader == ring.calls_to_reader
            &&& ring_after.items == ring.items.push(item)
            &&& ring_after.head == ring.head
            &&& ring_after.capacity == ring.capacity
            &&& ring_after.stuck == ring.stuck
            &&& ring_after.writer_called == ring.writer_called
            &&& ring_after.calls_to_writer == ring.calls_to_writer
            &&& pending_after == pending
        },
{
}

/// A push that can be awaited and has to wait, whatever else waits, hands out a handle on the very
/// slot with which its item waits, last of all. The others wait with the slots they had.
pub proof fn law_handle_asks_the_slot_of_its_item<T>(
    ring: RingView<T>,
    pending: Seq<PendingTask<T>>,
    item: T,
    r: PushResult,
    ring_after: RingView<T>,
    pending_after: Seq<PendingTask<T>>,
)
    requires
        ring.items.len() <= ring.capacity,
        pushed_with_awaiter(ring, pending, item, r, ring_after, pending_after),
    ensures
        r is Pending <==> ring.items.len() == ring.capacity,
        r matches PushResult::Pending(handle) ==> {
            &&& pending_after.len() == pending.len() + 1
            &&& pending_after[pending.len() as int].data == item
            &&& pending_after[pending.len() as int].waiter == Some(handle.slot())
            &&& forall|i: int|
                0 <= i < pending.len() ==> #[trigger] pending_after[i] == pending[i]
            &&& ring_after.items == ring.items
            &&& ring_after.head == ring.head
            &&& ring_after.capacity == ring.capacity
            &&& ring_after.stuck == 1
            &&& ring_after.writer_called == ring.writer_called
            &&& ring_after.calls_to_writer == ring.calls_to_writer
            &&& ring_after.working == ring.working
            &&& ring_after.reader_called == ring.reader_called
            &&& ring_after.calls_to_reader == ring.calls_to_reader
        },
{
}

/// The handle of an item that had to wait and the round that moves the item speak of one slot: the
/// round that moves it wakes the slot that the handle asks, however many items wait before it.
pub proof fn law_round_wakes_the_handle_of_its_item<T>(
    ring: RingView<T>,
    pending: Seq<PendingTask<T>>,
    item: T,
    r: PushResult,
    ring_pushed: RingView<T>,
    pending_pushed: Seq<PendingTask<T>>,
    ring_then: RingView<T>,
    woken: Seq<Waiter>,
    ring_after: RingView<T>,
    pending_after: Seq<PendingTask<T>>,
)
    requires
        ring.items.len() <= ring.capacity,
        pushed_with_awaiter(ring, pending, item, r, ring_pushed, pending_pushed),
        ring_then.items.len() + pending_pushed.len() <= ring_then.capacity,
        round_made(ring_then, pending_pushed, woken, ring_after, pending_after),
    ensures
        r matches PushResult::Pending(handle) ==> {
            &&& ring_after.items.last() == item
            &&& woken.len() > 0
            &&& woken.last() == handle.slot()
            &&& exists|before: WakerSlot, after: WakerSlot|
                held(*handle.slot(), before, after) && after is Finished && (
                before matches WakerSlot::Waiting(w) ==> call_ensures(
                    std::task::Waker::wake,
                    (w,),
                    (),
                ))
        },
{
    if let PushResult::Pending(handle) = r {
        law_round_moves_items_in_order(
            ring_then,
            pending_pushed,
            woken,
            ring_after,
            pending_after,
        );
        let n = pending_pushed.len() as int;
        assert(pending_pushed.take(n) =~= pending_pushed);
        assert(pending_pushed.last().waiter == Some(handle.slot()));
        assert(waiters_of(pending_pushed).last() == handle.slot());
        assert(ended(woken[woken.len() - 1]));
        law_ended_wait_has_woken(handle.slot());
    }
}

/// To look after the reader by hand calls one that does not work, exactly once, and says so; one
/// that works is left alone. Nothing else changes.
pub proof fn law_notify_reaches_the_reader<T>(
    ring: RingView<T>,
    called: bool,
    ring_after: RingView<T>,
)
    requires
        notified(ring, called, ring_after),
    ensures
        called <==> ring.working != 1,
        ring_after.working == 1,
        called ==> ring_after.reader_called && ring_after.calls_to_reader == ring.calls_to_reader
            + 1,
        !called ==> ring_after.reader_called == ring.reader_called && ring_after.calls_to_reader
            == ring.calls_to_reader,
        ring_after.items == ring.items,
        ring_after.head == ring.head,
        ring_after.capacity == ring.capacity,
        ring_after.stuck == ring.stuck,
        ring_after.writer_called == ring.writer_called,
        ring_after.calls_to_writer == ring.calls_to_writer,
{
}

/// After a round over the waiting items, however many of them it moved, the reader works: one that
/// did not has been called exactly once, and one that did has been left alone. So no round ends
/// with items in the ring and a reader that neither works nor is called.
pub proof fn law_round_reaches_the_reader<T>(
    ring: RingView<T>,
    pending: Seq<PendingTask<T>>,
    woken: Seq<Waiter>,
    ring_after: RingView<T>,
    pending_after: Seq<PendingTask<T>>,
)
    requires
        ring.items.len() <= ring.capacity,
        round_made(ring, pending, woken, ring_after, pending_after),
    ensures
        ring_after.working == 1,
        ring.working != 1 ==> ring_after.reader_called && ring_after.calls_to_reader
            == ring.calls_to_reader + 1,
        ring.working == 1 ==> ring_after.reader_called == ring.reader_called
            && ring_after.calls_to_reader == ring.calls_to_reader,
{
}

/// A round over the waiting items moves the first of them into the ring, behind what is there and
/// in their order, as many as there is room for. If any are left the ring is full, and the writer
/// is marked as waiting; if none are, the mark stays as it was.
pub proof fn law_round_moves_items_in_order<T>(
    ring: RingView<T>,
    pending: Seq<PendingTask<T>>,
    woken: Seq<Waiter>,
    ring_after: RingView<T>,
    pending_after: Seq<PendingTask<T>>,
)
    requires
        ring.items.len() <= ring.capacity,
        round_made(ring, pending, woken, ring_after, pending_after),
    ensures
        ({
            let moved = pending.len() - pending_after.len();
            &&& 0 <= moved <= pending.len()
            &&& moved == pending.len() || ring.items.len() + moved == ring.capacity
            &&& ring.items.len() + moved <= ring.capacity
            &&& ring_after.items.len() == ring.items.len() + moved
            &&& forall|i: int|
                0 <= i < ring.items.len() ==> #[trigger] ring_after.items[i] == ring.items[i]
            &&& forall|i: int|
                0 <= i < moved ==> ring_after.items[ring.items.len() + i] == (#[trigger] pending[i]).data
            &&& forall|i: int|
                0 <= i < pending_after.len() ==> #[trigger] pending_after[i] == pending[moved + i]
            &&& ring_after.head == ring.head
            &&& ring_after.capacity == ring.capacity
            &&& ring_after.writer_called == ring.writer_called
            &&& ring_after.calls_to_writer == ring.calls_to_writer
            &&& pending_after.len() > 0 ==> ring_after.stuck == 1 && ring_after.items.len()
                == ring.capacity
            &&& pending_after.len() == 0 ==> ring_after.stuck == ring.stuck
        }),
{
}

/// The slots that a round wakes are those of the items that it moves and that have one, in order,
/// each once and no other.
pub proof fn law_round_wakes_the_moved<T>(
    ring: RingView<T>,
    pending: Seq<PendingTask<T>>,
    woken: Seq<Waiter>,
    ring_after: RingView<T>,
    pending_after: Seq<PendingTask<T>>,
)
    requires
        ring.items.len() <= ring.capacity,
        round_made(ring, pending, woken, ring_after, pending_after),
    ensures
        woken == pending.take(pending.len() - pending_after.len()).filter(
            |t: PendingTask<T>| t.waiter is Some,
        ).map_values(|t: PendingTask<T>| t.waiter->0),
{
    lemma_waiters(pending.take(flushable(ring, pending)));
}

/// In each slot that a round wakes the wait is over afterwards, and the waker that was found there
/// has been woken.
pub proof fn law_round_ends_the_waits<T>(
    ring: RingView<T>,
    pending: Seq<PendingTask<T>>,
    woken: Seq<Waiter>,
    ring_after: RingView<T>,
    pending_after: Seq<PendingTask<T>>,
    k: int,
)
    requires
        round_made(ring, pending, woken, ring_after, pending_after),
        0 <= k < woken.len(),
    ensures
        exists|before: WakerSlot, after: WakerSlot|
            held(*woken[k], before, after) && after is Finished && (
            before matches WakerSlot::Waiting(w) ==> call_ensures(
                std::task::Waker::wake,
                (w,),
                (),
            )),
{
    law_ended_wait_has_woken(woken[k]);
}

proof fn lemma_waiters<T>(tasks: Seq<PendingTask<T>>)
    ensures
        waiters_of(tasks) == tasks.filter(|t: PendingTask<T>| t.waiter is Some).map_values(
            |t: PendingTask<T>| t.waiter->0,
        ),
    decreases tasks.len(),
{
    let has = |t: PendingTask<T>| t.waiter is Some;
    let slot = |t: PendingTask<T>| t.waiter->0;
    reveal(Seq::filter);
    if tasks.len() > 0 {
        lemma_waiters(tasks.drop_last());
        let rest = tasks.drop_last().filter(has);
        assert(rest.push(tasks.last()).map_values(slot) =~= rest.map_values(slot).push(
            slot(tasks.last()),
        ));
    }
    assert(waiters_of(tasks) =~= tasks.filter(has).map_values(slot));
}

/// No round loses or doubles an item: the line of what is in the ring and what waits is the same
/// before and after it.
pub proof fn law_round_keeps_the_line<T>(
    ring: RingView<T>,
    pending: Seq<PendingTask<T>>,
    woken: Seq<Waiter>,
    ring_after: RingView<T>,
    pending_after: Seq<PendingTask<T>>,
)
    requires
        ring.items.len() <= ring.capacity,
        round_made(ring, pending, woken, ring_after, pending_after),
    ensures
        ring_after.items + pending_after.map_values(|t: PendingTask<T>| t.data) == ring.items
            + pending.map_values(|t: PendingTask<T>| t.data),
{
    law_round_moves_items_in_order(ring, pending, woken, ring_after, pending_after);
    let data = |t: PendingTask<T>| t.data;
    let line = ring.items + pending.map_values(data);
    let line_after = ring_after.items + pending_after.map_values(data);
    let moved = pending.len() - pending_after.len();
    assert(line.len() == line_after.len());
    assert forall|i: int| 0 <= i < line.len() implies line[i] == line_after[i] by {
        let k = i - ring.items.len();
        if 0 <= k < moved {
            assert(ring_after.items[ring.items.len() + k] == pending[k].data);
        } else if k >= moved {
            assert(pending_after[k - moved] == pending[moved + (k - moved)]);
        }
    }
    assert(line =~= line_after);
}

/// A pop of the reading end takes out the oldest item, if there is any, and leaves the others in
/// their order. If the writer waits for room, whether there was an item or not, it no longer is
/// marked as waiting afterwards and has been called exactly once; else it is left alone. The reader
/// is left alone.
pub proof fn law_pop_takes_the_oldest_and_reaches_the_writer<T>(
    ring: RingView<T>,
    item: Option<T>,
    ring_after: RingView<T>,
)
    requires
        read_out(ring, item, ring_after),
    ensures
        item is Some <==> ring.items.len() > 0,
        item matches Some(x) ==> {
            &&& x == ring.items[0]
            &&& ring_after.items.len() == ring.items.len() - 1
            &&& forall|i: int|
                0 <= i < ring_after.items.len() ==> #[trigger] ring_after.items[i] == ring.items[i
                    + 1]
            &&& ring_after.head == ring.head + 1
        },
        item is None ==> ring_after.items == ring.items && ring_after.head == ring.head,
        ring_after.capacity == ring.capacity,
        ring.stuck == 1 ==> {
            &&& ring_after.stuck == 0
            &&& ring_after.writer_called
            &&& ring_after.calls_to_writer == ring.calls_to_writer + 1
        },
        ring.stuck != 1 ==> {
            &&& ring_after.stuck == ring.stuck
            &&& ring_after.writer_called == ring.writer_called
            &&& ring_after.calls_to_writer == ring.calls_to_writer
        },
        ring_after.working == ring.working,
        ring_after.reader_called == ring.reader_called,
        ring_after.calls_to_reader == ring.calls_to_reader,
{
}

/// What goes in comes out: as many pops as there are items before it, and one more, and the item of
/// a push is handed out, whatever the flags are and however often the writer is called meanwhile.
pub proof fn law_pushed_item_comes_out_in_its_turn<T>(
    ring: RingView<T>,
    pending: Seq<PendingTask<T>>,
    item: T,
    rouse: bool,
    queued: bool,
    pending_after: Seq<PendingTask<T>>,
    rings: Seq<RingView<T>>,
    popped: Seq<Option<T>>,
)
    requires
        pushed(ring, pending, item, rouse, queued, rings[0], pending_after),
        queued,
        popped.len() == ring.items.len() + 1,
        rings.len() == popped.len() + 1,
        forall|i: int|
            #![trigger popped[i]]
            0 <= i < popped.len() ==> read_out(rings[i], popped[i], rings[i + 1]),
    ensures
        popped.last() == Some(item),
        forall|i: int|
            0 <= i < ring.items.len() ==> #[trigger] popped[i] == Some(ring.items[i]),
        rings.last().items.len() == 0,
{
    let items = ring.items.push(item);
    assert(rings[0].items =~= items);
    assert forall|i: int| 0 <= i < popped.len() implies #[trigger] popped[i] == Some(items[i]) by {
        lemma_pops(items, rings, popped, i);
    }
    lemma_pops(items, rings, popped, popped.len() as int);
}

proof fn lemma_pops<T>(items: Seq<T>, rings: Seq<RingView<T>>, popped: Seq<Option<T>>, n: int)
    requires
        0 <= n <= popped.len(),
        popped.len() == items.len(),
        rings.len() == popped.len() + 1,
        rings[0].items == items,
        forall|i: int|
            #![trigger popped[i]]
            0 <= i < popped.len() ==> read_out(rings[i], popped[i], rings[i + 1]),
    ensures
        rings[n].items == items.skip(n),
        n < popped.len() ==> popped[n] == Some(items[n]),
    decreases n,
{
    if n == 0 {
        assert(items.skip(0) =~= items);
        assert(popped.len() > 0 ==> read_out(rings[0], popped[0], rings[1]));
    } else {
        lemma_pops(items, rings, popped, n - 1);
        assert(read_out(rings[n - 1], popped[n - 1], rings[n - 1 + 1]));
        law_pop_takes_the_oldest_and_reaches_the_writer(rings[n - 1], popped[n - 1], rings[n]);
        assert(rings[n].items =~= items.skip(n));
        if n < popped.len() {
            assert(read_out(rings[n], popped[n], rings[n + 1]));
            law_pop_takes_the_oldest_and_reaches_the_writer(rings[n], popped[n], rings[n + 1]);
        }
    }
}

/// A push on the bare queue: the item is behind all others or comes back, and nobody is marked or
/// called.
pub proof fn law_put_adds_behind_or_hands_back<T>(
    ring: RingView<T>,
    item: T,
    r: Result<(), T>,
    ring_after: RingView<T>,
)
    requires
        ring.items.len() <= ring.capacity,
        put(ring, item, r, ring_after),
    ensures
        r is Ok <==> ring.items.len() < ring.capacity,
        r is Ok ==> ring_after.items.len() == ring.items.len() + 1 && ring_after.items.last()
            == item && ring_after.items.drop_last() == ring.items,
        r matches Err(back) ==> back == item && ring_after.items == ring.items,
        ring_after.head == ring.head,
        ring_after.capacity == ring.capacity,
        ring_after.working == ring.working,
        ring_after.stuck == ring.stuck,
        ring_after.reader_called == ring.reader_called,
        ring_after.writer_called == ring.writer_called,
        ring_after.calls_to_reader == ring.calls_to_reader,
        ring_after.calls_to_writer == ring.calls_to_writer,
{
    assert(r is Ok ==> ring_after.items.drop_last() =~= ring.items);
}

/// A pop on the bare queue: the oldest item comes out, the others stay in their order, and nobody
/// is marked or called.
pub proof fn law_take_hands_out_the_oldest<T>(
    ring: RingView<T>,
    item: Option<T>,
    ring_after: RingView<T>,
)
    requires
        taken(ring, item, ring_after),
    ensures
        item is Some <==> ring.items.len() > 0,
        item matches Some(x) ==> seq![x] + ring_after.items == ring.items && ring_after.head
            == ring.head + 1,
        item is None ==> ring_after.items == ring.items && ring_after.head == ring.head,
        ring_after.capacity == ring.capacity,
        ring_after.working == ring.working,
        ring_after.stuck == ring.stuck,
        ring_after.reader_called == ring.reader_called,
        ring_after.writer_called == ring.writer_called,
        ring_after.calls_to_reader == ring.calls_to_reader,
        ring_after.calls_to_writer == ring.calls_to_writer,
{
    if let Some(x) = item {
        assert(seq![x] + ring_after.items =~= ring.items);
    }
}

/// A reader that takes its flag down may sleep exactly if there is nothing to read, and then the
/// flag is down; else it is up. Nothing else changes.
pub proof fn law_reader_dozes_off_only_when_empty<T>(
    ring: RingView<T>,
    may_sleep: bool,
    ring_after: RingView<T>,
)
    requires
        dozed(ring, may_sleep, ring_after),
    ensures
        may_sleep <==> ring.items.len() == 0,
        may_sleep ==> ring_after.working == 0,
        !may_sleep ==> ring_after.working == 1,
        ring_after.items == ring.items,
        ring_after.head == ring.head,
        ring_after.capacity == ring.capacity,
        ring_after.stuck == ring.stuck,
        ring_after.reader_called == ring.reader_called,
        ring_after.writer_called == ring.writer_called,
        ring_after.calls_to_reader == ring.calls_to_reader,
        ring_after.calls_to_writer == ring.calls_to_writer,
{
}

/// To mark a flag changes that flag and nothing else.
pub proof fn law_marks_are_apart<T>(ring: RingView<T>, flag: u32)
    ensures
        ring.with_working(flag).working == flag,
        ring.with_stuck(flag).stuck == flag,
        ring.with_working(flag).stuck == ring.stuck,
        ring.with_stuck(flag).working == ring.working,
        ring.with_working(flag).items == ring.items,
        ring.with_stuck(flag).items == ring.items,
        ring.with_working(flag).head == ring.head,
        ring.with_stuck(flag).head == ring.head,
        ring.with_working(flag).capacity == ring.capacity,
        ring.with_stuck(flag).capacity == ring.capacity,
        ring.with_working(flag).reader_called == ring.reader_called,
        ring.with_stuck(flag).reader_called == ring.reader_called,
        ring.with_working(flag).writer_called == ring.writer_called,
        ring.with_stuck(flag).writer_called == ring.writer_called,
        ring.with_working(flag).calls_to_reader == ring.calls_to_reader,
        ring.with_stuck(flag).calls_to_reader == ring.calls_to_reader,
        ring.with_working(flag).calls_to_writer == ring.calls_to_writer,
        ring.with_stuck(flag).calls_to_writer == ring.calls_to_writer,
{
}

/// A ring is full when it holds as many items as it has slots.
pub proof fn law_full_means_no_room<T>(ring: RingView<T>)
    ensures
        ring.is_full() <==> ring.items.len() == ring.capacity,
        ring.room() == ring.capacity - ring.items.len(),
        ring.tail() == ring.head + ring.items.len(),
{
}

/// The end of a push: an item that was handed back is the last of those that wait, whatever else
/// waits, and a round is due exactly if there was room again; an item that went in waits nowhere.
pub proof fn law_settled_item_waits<T>(
    pending: Seq<PendingTask<T>>,
    written: Result<(), Refused<T>>,
    s: Settled,
    pending_after: Seq<PendingTask<T>>,
)
    requires
        settled(pending, written, s, pending_after),
    ensures
        s.queued <==> written is Ok,
        written is Ok ==> !s.flush_due && pending_after == pending,
        written matches Err(refused) ==> {
            &&& s.flush_due <==> refused.room
            &&& pending_after.len() == pending.len() + 1
            &&& pending_after.last().data == refused.item
            &&& pending_after.last().waiter is None
            &&& pending_after.drop_last() == pending
        },
{
    assert(written is Err ==> pending_after.drop_last() =~= pending);
}

/// The end of a push that can be awaited: an item that was handed back is the last of those that
/// wait, with the very slot that the handle asks.
pub proof fn law_settled_handle_asks_its_slot<T>(
    pending: Seq<PendingTask<T>>,
    written: Result<(), Refused<T>>,
    r: (PushResult, bool),
    pending_after: Seq<PendingTask<T>>,
)
    requires
        settled_with_awaiter(pending, written, r, pending_after),
    ensures
        r.0 is Queued <==> written is Ok,
        written is Ok ==> !r.1 && pending_after == pending,
        written matches Err(refused) ==> {
            &&& r.1 <==> refused.room
            &&& pending_after.len() == pending.len() + 1
            &&& pending_after.last().data == refused.item
            &&& pending_after.last().waiter == Some(r.0->Pending_0.slot())
            &&& pending_after.drop_last() == pending
        },
{
    assert(written is Err ==> pending_after.drop_last() =~= pending);
}

/// What each party is told of a queue is where it has been laid out, word for word.
pub proof fn law_parties_are_told_the_place(
    place: Placement,
    buffer_len: usize,
    working_fd: i32,
    unstuck_fd: i32,
)
    ensures
        ({
            let meta = place.meta(buffer_len, working_fd, unstuck_fd);
            &&& meta.buffer_ptr == place.buffer_ptr
            &&& meta.buffer_len == buffer_len
            &&& meta.head_ptr == place.head_ptr
            &&& meta.tail_ptr == place.tail_ptr
            &&& meta.working_ptr == place.working_ptr
            &&& meta.stuck_ptr == place.stuck_ptr
            &&& meta.working_fd == working_fd
            &&& meta.unstuck_fd == unstuck_fd
        }),
{
}

/// The party that owns the memory of a queue has all of it to free in the end, and the other party
/// nothing.
pub proof fn law_owner_frees_everything(known: QueueMeta)
    ensures
        reclaimed(true, known) == Some(known),
        reclaimed(false, known) == None::<QueueMeta>,
{
}

/// A new ring has as many slots as it was made with, no items, both flags down, and nobody is or
/// was called.
pub proof fn law_new_ring_is_empty<T>(size: nat, ring: RingView<T>)
    requires
        fresh(size, ring),
    ensures
        ring.items.len() == 0,
        ring.capacity == size,
        ring.head == 0,
        ring.working == 0,
        ring.stuck == 0,
        !ring.reader_called,
        !ring.writer_called,
        ring.calls_to_reader == 0,
        ring.calls_to_writer == 0,
{
}

/// A party that hears learns whether it was called since it last heard, and hears each call once;
/// nothing else changes.
pub proof fn law_calls_are_heard_once<T>(
    ring: RingView<T>,
    called: bool,
    ring_heard: RingView<T>,
    called_again: bool,
    ring_after: RingView<T>,
)
    ensures
        reader_heard(ring, called, ring_heard) && reader_heard(
            ring_heard,
            called_again,
            ring_after,
        ) ==> {
            &&& called == ring.reader_called
            &&& !called_again
            &&& ring_after == ring_heard
            &&& ring_heard == (RingView { reader_called: false, ..ring })
        },
        writer_heard(ring, called, ring_heard) && writer_heard(
            ring_heard,
            called_again,
            ring_after,
        ) ==> {
            &&& called == ring.writer_called
            &&& !called_again
            &&& ring_after == ring_heard
            &&& ring_heard == (RingView { writer_called: false, ..ring })
        },
{
}

/// The waker in a slot is the one that waits there.
pub proof fn law_slot_holds_who_waits(w: Waker)
    ensures
        WakerSlot::Waiting(w).waker() == Some(w),
        WakerSlot::Empty.waker() is None,
        WakerSlot::Finished.waker() is None,
{
}

/// To ask a slot answers ready exactly if the wait is over, and changes nothing then; else it
/// leaves a copy of the given waker and no other, whoever waited there before.
pub proof fn law_asking_leaves_the_waker(
    before: WakerSlot,
    w: Waker,
    after: WakerSlot,
    ready: bool,
)
    requires
        polled(before, w, after, ready),
    ensures
        ready <==> before == WakerSlot::Finished,
        ready ==> after == WakerSlot::Finished,
        !ready ==> exists|copy: Waker| after == WakerSlot::Waiting(copy) && #[trigger] cloned(
            w,
            copy,
        ),
{
    if !ready {
        assert(after == WakerSlot::Waiting(after->Waiting_0));
        assert(cloned(w, after->Waiting_0));
    }
}

/// To end a wait leaves the slot finished, and `Waker::wake` has been called on whoever waited
/// there.
pub proof fn law_ending_wakes_who_waits(before: WakerSlot, after: WakerSlot)
    requires
        wait_ended(before, after),
    ensures
        after == WakerSlot::Finished,
        before matches WakerSlot::Waiting(w) ==> call_ensures(std::task::Waker::wake, (w,), ()),
{
}

/// A wait in a shared slot that has been ended was ended by a holder of its lock, who left the slot
/// finished and called `Waker::wake` on whoever was found waiting.
pub proof fn law_ended_wait_has_woken(waiter: Waiter)
    requires
        ended(waiter),
    ensures
        exists|before: WakerSlot, after: WakerSlot|
            held(*waiter, before, after) && after is Finished && (
            before matches WakerSlot::Waiting(w) ==> call_ensures(
                std::task::Waker::wake,
                (w,),
                (),
            )),
{
    let (before, after) = choose|before: WakerSlot, after: WakerSlot|
        held(*waiter, before, after) && wait_ended(before, after);
    law_ending_wakes_who_waits(before, after);
    assert(held(*waiter, before, after));
}

} // verus!
