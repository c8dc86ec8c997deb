//! What holds of the operations taken together.

use crate::counters::{CLEAR, SET};
use crate::handler::{Action, Event, Handler, Phase, WARM_NANOS};
use crate::memory::{Access, Reply, RingView, Step};
use crate::queue::{Placement, Queue, QueueMeta};
use crate::read_queue::ReadOp;
use crate::script::{PopOp, PushOp, RouseOp, SleepOp};
use crate::waker::{polled, wait_ended, woken, PushResult, WakerSlot};
use crate::write_queue::{
    data_of, flush_next, flushable, flushed, notified, pushed, pushed_with_awaiter, FlushOp,
    PendingTask, WriteOp,
};
use std::task::Waker;
use vstd::prelude::*;

verus! {

/// One operation on a queue that a single party has to itself.
pub enum Use<T> {
    Push(T),
    Pop,
}

/// A ring, the items that a series of operations has put in and those it has taken out.
pub struct History<T> {
    pub ring: RingView<T>,
    pub put: Seq<T>,
    pub taken: Seq<T>,
}

impl<T> History<T> {
    /// The history after one more operation: a push that finds no room changes nothing, nor does a
    /// pop that finds no item.
    pub open spec fn with(self, u: Use<T>) -> Self {
        match u {
            Use::Push(item) => if self.ring.is_full() {
                self
            } else {
                History { ring: self.ring.pushed(item), put: self.put.push(item), ..self }
            },
            Use::Pop => if self.ring.items.len() == 0 {
                self
            } else {
                History {
                    ring: self.ring.popped(),
                    taken: self.taken.push(self.ring.items[0]),
                    ..self
                }
            },
        }
    }

    /// The history after a series of operations.
    pub open spec fn after(self, uses: Seq<Use<T>>) -> Self
        decreases uses.len(),
    {
        if uses.len() == 0 {
            self
        } else {
            self.after(uses.drop_last()).with(uses.last())
        }
    }
}

/// First in, first out: whatever is pushed and popped in whatever order, the items taken out,
/// followed by those still in the ring, are the items that were in it at first, followed by those
/// put in.
pub proof fn law_first_in_first_out<T>(ring: RingView<T>, uses: Seq<Use<T>>)
    requires
        ring.items.len() <= ring.capacity,
    ensures
        ({
            let start = History { ring, put: Seq::empty(), taken: Seq::empty() };
            let end = start.after(uses);
            &&& end.taken + end.ring.items == ring.items + end.put
            &&& end.ring.items.len() <= end.ring.capacity
            &&& end.ring.capacity == ring.capacity
        }),
    decreases uses.len(),
{
    let start = History { ring, put: Seq::empty(), taken: Seq::empty() };
    if uses.len() == 0 {
        assert(start.taken + start.ring.items =~= ring.items + start.put);
    } else {
        law_first_in_first_out(ring, uses.drop_last());
        let before = start.after(uses.drop_last());
        let end = start.after(uses);
        match uses.last() {
            Use::Push(item) => {
                if !before.ring.is_full() {
                    assert(end.taken + end.ring.items =~= (before.taken + before.ring.items).push(
                        item,
                    ));
                    assert(ring.items + end.put =~= (ring.items + before.put).push(item));
                }
            },
            Use::Pop => {
                if before.ring.items.len() > 0 {
                    assert(end.taken + end.ring.items =~= before.taken + before.ring.items);
                }
            },
        }
    }
}

/// The two handles of one queue name the same memory, and exactly one of them frees it.
pub proof fn law_one_memory_one_owner<T>(
    place: Placement,
    size: usize,
    working: (i32, i32),
    unstuck: (i32, i32),
    owner: Queue<T>,
    told: QueueMeta,
    peer: Queue<T>,
)
    requires
        owner.known() == place.meta(size, working.0, unstuck.0),
        owner.owns_memory(),
        told == place.meta(size, working.1, unstuck.1),
        peer.known() == told,
        !peer.owns_memory(),
    ensures
        peer.known() == (QueueMeta {
            working_fd: working.1,
            unstuck_fd: unstuck.1,
            ..owner.known()
        }),
        owner.owns_memory() != peer.owns_memory(),
{
}

/// The line of items that are in the ring and of those that wait for room stays as it is when
/// waiting items move into the ring, and if any are left waiting, the ring is full.
pub proof fn law_flush_keeps_the_line<T>(ring: RingView<T>, pending: Seq<PendingTask<T>>)
    requires
        ring.items.len() <= ring.capacity,
    ensures
        ({
            let left = pending.skip(flushable(ring, pending));
            &&& flushed(ring, pending).items + data_of(left) == ring.items + data_of(pending)
            &&& left.len() > 0 ==> flushed(ring, pending).is_full() && flushed(ring, pending).stuck
                == SET
        }),
{
    let left = pending.skip(flushable(ring, pending));
    assert(flushed(ring, pending).items + data_of(left) =~= ring.items + data_of(pending));
}

/// A push joins the end of that line, in the ring or waiting, if no item waits before it or the
/// ring is full.
pub proof fn law_push_joins_the_line<T>(
    ring: RingView<T>,
    pending: Seq<PendingTask<T>>,
    task: PendingTask<T>,
)
    requires
        pending.len() == 0 || ring.is_full(),
    ensures
        !ring.is_full() ==> ring.pushed(task.data).roused().items + data_of(pending) == (ring.items
            + data_of(pending)).push(task.data),
        ring.is_full() ==> ring.with_stuck(SET).items + data_of(pending.push(task)) == (ring.items
            + data_of(pending)).push(task.data),
{
    if ring.is_full() {
        assert(ring.items + data_of(pending.push(task)) =~= (ring.items + data_of(pending)).push(
            task.data,
        ));
    } else {
        assert(ring.pushed(task.data).roused().items + data_of(pending) =~= (ring.items + data_of(
            pending,
        )).push(task.data));
    }
}

/// An item that had to wait goes in when there is room: the next pop calls the writer, and the
/// round that the writer then makes moves the item that has waited longest.
pub proof fn law_waiting_item_follows_a_pop<T>(ring: RingView<T>, pending: Seq<PendingTask<T>>)
    requires
        ring.is_full(),
        ring.capacity > 0,
        ring.stuck == SET,
        pending.len() > 0,
    ensures
        ({
            let popped = ring.popped().released();
            &&& popped.writer_called
            &&& popped.stuck == CLEAR
            &&& flushable(popped, pending) >= 1
            &&& flushed(popped, pending).items.len() >= ring.capacity
            &&& flushed(popped, pending).items[ring.capacity - 1] == pending[0].data
        }),
{
}

/// The reader is called at most once until it goes to sleep again: to look after a reader that has
/// been looked after changes nothing.
pub proof fn law_reader_is_called_once<T>(ring: RingView<T>, item: T)
    ensures
        ring.roused().working == SET,
        ring.roused().roused() == ring.roused(),
        ring.roused().pushed(item).roused() == ring.roused().pushed(item),
        ring.roused().pushed(item).roused().calls_to_reader <= ring.calls_to_reader + 1,
{
}

/// A push that can be awaited is a push: from equal states both let the item in or both refuse it,
/// and leave the ring, its flags and calls, and the line of waiting items the same; they differ
/// only in that an item that has to wait does so with a slot.
pub proof fn law_awaited_push_is_a_push<T>(
    ring: RingView<T>,
    pending: Seq<PendingTask<T>>,
    item: T,
    queued: bool,
    ring_pushed: RingView<T>,
    pending_pushed: Seq<PendingTask<T>>,
    r: PushResult,
    ring_awaited: RingView<T>,
    pending_awaited: Seq<PendingTask<T>>,
)
    requires
        pushed(ring, pending, item, true, queued, ring_pushed, pending_pushed),
        pushed_with_awaiter(ring, pending, item, r, ring_awaited, pending_awaited),
    ensures
        queued <==> r is Queued,
        ring_pushed == ring_awaited,
        pending_pushed.len() == pending_awaited.len(),
        data_of(pending_pushed) == data_of(pending_awaited),
        queued ==> pending_pushed == pending_awaited,
        !queued ==> {
            &&& pending_pushed.drop_last() == pending_awaited.drop_last()
            &&& pending_pushed.last().waiter is None
            &&& pending_awaited.last().waiter is Some
        },
{
    assert(data_of(pending_pushed) =~= data_of(pending_awaited));
    if !queued {
        assert(pending_pushed.drop_last() =~= pending);
        assert(pending_awaited.drop_last() =~= pending);
    }
}

/// To push quietly and then to look after the reader by hand is to push, if there is room: the
/// ring, its flags, the calls and the waiting items are the same. To look after the reader once
/// more then calls nobody and changes nothing.
pub proof fn law_quiet_push_and_notify_is_a_push<T>(
    ring: RingView<T>,
    pending: Seq<PendingTask<T>>,
    item: T,
    queued: bool,
    ring_pushed: RingView<T>,
    pending_pushed: Seq<PendingTask<T>>,
    queued_quietly: bool,
    ring_quiet: RingView<T>,
    pending_quiet: Seq<PendingTask<T>>,
    called: bool,
    ring_notified: RingView<T>,
    called_again: bool,
    ring_again: RingView<T>,
)
    requires
        !ring.is_full(),
        pushed(ring, pending, item, true, queued, ring_pushed, pending_pushed),
        pushed(ring, pending, item, false, queued_quietly, ring_quiet, pending_quiet),
        notified(ring_quiet, called, ring_notified),
        notified(ring_notified, called_again, ring_again),
    ensures
        queued && queued_quietly,
        ring_notified == ring_pushed,
        pending_quiet == pending_pushed,
        called <==> ring.working != SET,
        !called_again,
        ring_again == ring_notified,
{
}

/// One call on a slot.
pub enum SlotUse {
    /// `set_waker` with this waker, which leaves the slot as `after` and answers `ready`.
    Ask { waker: Waker, after: WakerSlot, ready: bool },
    /// `finish`, which leaves the slot as `after` and hands out `handed`.
    Finish { after: WakerSlot, handed: Option<Waker> },
    /// `wake`, which leaves the slot as `after`.
    Wake { after: WakerSlot },
}

/// A slot and what a series of calls has done with it.
pub struct SlotHistory {
    pub slot: WakerSlot,
    /// Whether the wait has been ended.
    pub over: bool,
    /// The waker that was last given before that.
    pub given: Option<Waker>,
    /// The wakers that were taken out of the slot, from first to last.
    pub taken: Seq<Waker>,
}

impl SlotHistory {
    /// A slot in which nobody has asked yet.
    pub open spec fn fresh() -> Self {
        SlotHistory { slot: WakerSlot::Empty, over: false, given: None, taken: Seq::empty() }
    }

    /// Whether a call on the slot can come out like this.
    pub open spec fn allows(self, u: SlotUse) -> bool {
        match u {
            SlotUse::Ask { waker, after, ready } => polled(self.slot, waker, after, ready),
            SlotUse::Finish { after, handed } => after is Finished && handed == self.slot.waker(),
            SlotUse::Wake { after } => wait_ended(self.slot, after),
        }
    }

    /// The history after one more call.
    pub open spec fn with(self, u: SlotUse) -> Self {
        let taken = match self.slot.waker() {
            Some(w) => self.taken.push(w),
            None => self.taken,
        };
        match u {
            SlotUse::Ask { waker, after, ready } => SlotHistory {
                slot: after,
                given: if self.over {
                    self.given
                } else {
                    Some(waker)
                },
                ..self
            },
            SlotUse::Finish { after, handed } => SlotHistory {
                slot: after,
                over: true,
                taken,
                ..self
            },
            SlotUse::Wake { after } => SlotHistory { slot: after, over: true, taken, ..self },
        }
    }

    /// The history after a series of calls.
    pub open spec fn after(self, uses: Seq<SlotUse>) -> Self
        decreases uses.len(),
    {
        if uses.len() == 0 {
            self
        } else {
            self.after(uses.drop_last()).with(uses.last())
        }
    }

    /// Whether a series of calls can come out like this.
    pub open spec fn allows_all(self, uses: Seq<SlotUse>) -> bool
        decreases uses.len(),
    {
        uses.len() > 0 ==> {
            &&& self.allows_all(uses.drop_last())
            &&& self.after(uses.drop_last()).allows(uses.last())
        }
    }
}

/// Through any series of calls on a slot in which nobody had asked, every call of `set_waker` is
/// answered ready exactly if the wait has been ended before, for ever. And over the whole series at
/// most one waker is taken out of the slot: none before the wait is ended, and then a copy of the
/// one last given before, if one was given. If the wait is only ever ended by `wake`, that waker is
/// woken.
pub proof fn law_slot_answers_and_wakes_once(uses: Seq<SlotUse>)
    requires
        SlotHistory::fresh().allows_all(uses),
    ensures
        ({
            let end = SlotHistory::fresh().after(uses);
            &&& end.over <==> exists|i: int| 0 <= i < uses.len() && !((#[trigger] uses[i]) is Ask)
            &&& end.slot is Finished <==> end.over
            &&& forall|i: int|
                #![trigger uses[i]]
                0 <= i < uses.len() && uses[i] is Ask ==> (uses[i]->ready
                    <==> SlotHistory::fresh().after(uses.take(i)).over)
            &&& end.taken.len() == (if end.over && end.given is Some {
                1int
            } else {
                0
            })
            &&& end.taken.len() == 1 ==> cloned(end.given->0, end.taken[0])
            &&& end.taken.len() == 1 && (forall|i: int|
                0 <= i < uses.len() ==> !((#[trigger] uses[i]) is Finish)) ==> woken(end.taken[0])
        }),
{
    lemma_slot_history(uses);
}

/// The same, with what the slot holds in between.
proof fn lemma_slot_history(uses: Seq<SlotUse>)
    requires
        SlotHistory::fresh().allows_all(uses),
    ensures
        ({
            let end = SlotHistory::fresh().after(uses);
            &&& end.over <==> exists|i: int| 0 <= i < uses.len() && !((#[trigger] uses[i]) is Ask)
            &&& end.slot is Finished <==> end.over
            &&& !end.over ==> {
                &&& end.slot.waker() is Some <==> end.given is Some
                &&& end.given matches Some(w) ==> cloned(w, end.slot.waker()->0)
            }
            &&& forall|i: int|
                #![trigger uses[i]]
                0 <= i < uses.len() && uses[i] is Ask ==> (uses[i]->ready
                    <==> SlotHistory::fresh().after(uses.take(i)).over)
            &&& end.taken.len() == (if end.over && end.given is Some {
                1int
            } else {
                0
            })
            &&& end.taken.len() == 1 ==> cloned(end.given->0, end.taken[0])
            &&& end.taken.len() == 1 && (forall|i: int|
                0 <= i < uses.len() ==> !((#[trigger] uses[i]) is Finish)) ==> woken(end.taken[0])
        }),
    decreases uses.len(),
{
    if uses.len() > 0 {
        let start = SlotHistory::fresh();
        let first = uses.drop_last();
        let last = uses.len() - 1;
        lemma_slot_history(first);
        let before = start.after(first);
        let end = start.after(uses);
        assert forall|i: int|
            #![trigger uses[i]]
            0 <= i < uses.len() && uses[i] is Ask implies (uses[i]->ready <==> start.after(
            uses.take(i),
        ).over) by {
            if i < last {
                assert(first[i] == uses[i]);
                assert(first.take(i) =~= uses.take(i));
            } else {
                assert(uses.take(i) =~= first);
            }
        }
        if before.over {
            let k = choose|k: int| 0 <= k < first.len() && !((#[trigger] first[k]) is Ask);
            assert(!(uses[k] is Ask));
        }
        if end.over && !before.over {
            assert(!(uses[last] is Ask));
        }
        if exists|i: int| 0 <= i < uses.len() && !((#[trigger] uses[i]) is Ask) {
            let k = choose|k: int| 0 <= k < uses.len() && !((#[trigger] uses[k]) is Ask);
            assert(k < last ==> first[k] == uses[k]);
        }
        if forall|i: int| 0 <= i < uses.len() ==> !((#[trigger] uses[i]) is Finish) {
            assert forall|i: int| 0 <= i < first.len() implies !((#[trigger] first[i]) is Finish) by {
                assert(first[i] == uses[i]);
            }
            assert(!(uses[last] is Finish));
        }
    }
}

/// To ask after a parked item never ends the wait, and once the wait is over every answer is
/// ready.
pub proof fn law_wait_ends_only_by_wake(
    before: WakerSlot,
    w: Waker,
    after: WakerSlot,
    ready: bool,
)
    requires
        polled(before, w, after, ready),
    ensures
        ready <==> before is Finished,
        after is Finished <==> before is Finished,
        !ready ==> after.waker() is Some && cloned(w, after.waker()->0),
{
}

/// The reader goes to sleep only when it has taken its flag down and then seen that there is no
/// item.
pub proof fn law_reader_sleeps_only_when_empty<T>(h: Handler<T>, event: Event<T>)
    requires
        h.ready(event),
        h.next(event).0 is Wait,
    ensures
        h.phase == Phase::<T>::Settling(SleepOp::Look),
        event->Reply_0->head == event->Reply_0->tail,
{
}

/// The reader begins to go to sleep only when the time it was to stay warm is over, and every such
/// time is counted from when a look for items was over.
pub proof fn law_reader_stays_warm<T>(h: Handler<T>, event: Event<T>)
    requires
        h.ready(event),
    ensures
        h.next(event).1.phase is Settling && !(h.phase is Settling) ==> h.phase is Checking
            && event->Now_0 >= h.phase->Checking_deadline,
        h.next(event).1.phase is Checking ==> {
            let deadline = h.next(event).1.phase->Checking_deadline;
            ||| h.phase is Opening && deadline == event->Now_0 + WARM_NANOS
            ||| h.phase is Looking && deadline == h.phase->Looking_deadline
        },
{
}

/// Every item that the reader takes out goes to the handler next, and the reader then looks for
/// another.
pub proof fn law_every_item_is_handled<T>(h: Handler<T>, op: ReadOp<T>, reply: Reply<T>, item: T)
    requires
        h.phase == Phase::Draining(op) || (h.phase is Warm && h.phase->Warm_op == op),
        op.ready(reply),
        op.next(reply) == Step::<T, ReadOp<T>, Option<T>>::Done(Some(item)),
    ensures
        ({
            let (action, after) = h.next(Event::Reply(reply));
            &&& action == Action::Handle(item)
            &&& after.next(Event::Resumed) == (
                Action::Access(Access::<T>::Counters),
                h.to(Phase::Draining(h.fresh())),
            )
        }),
{
}

/// The reader stops only when it is asleep and nobody wants it to go on, and then for good.
pub proof fn law_reader_stops_only_on_exit<T>(h: Handler<T>, event: Event<T>)
    requires
        h.ready(event),
    ensures
        h.next(event).0 is Stop <==> h.phase is Waiting && event is Exit,
        h.next(event).1.phase is Stopped <==> h.phase is Waiting && event is Exit,
        h.phase is Waiting && event is Called ==> h.next(event).0 == Action::Access(
            Access::<T>::StoreWorking(SET),
        ),
{
}

/// One if the access is a call to the other party.
pub open spec fn call<T>(access: Access<T>) -> nat {
    if access is CallReader || access is CallWriter {
        1
    } else {
        0
    }
}

/// How many calls the care for the reader makes that has asked for `access` and is given these
/// replies.
pub open spec fn rouse_calls<T>(access: Access<T>, op: RouseOp, replies: Seq<Reply<T>>) -> nat
    decreases replies.len(),
{
    if replies.len() == 0 {
        0
    } else {
        call(access) + match op.next(replies[0]) {
            Step::Do(access, op) => rouse_calls(access, op, replies.drop_first()),
            Step::Done(called) => 0,
        }
    }
}

/// The same for a push.
pub open spec fn write_calls<T>(access: Access<T>, op: WriteOp<T>, replies: Seq<Reply<T>>) -> nat
    decreases replies.len(),
{
    if replies.len() == 0 {
        0
    } else {
        call(access) + match op.next(replies[0]) {
            Step::Do(access, op) => write_calls(access, op, replies.drop_first()),
            Step::Done(r) => 0,
        }
    }
}

/// The same for a pop.
pub open spec fn read_calls<T>(access: Access<T>, op: ReadOp<T>, replies: Seq<Reply<T>>) -> nat
    decreases replies.len(),
{
    if replies.len() == 0 {
        0
    } else {
        call(access) + match op.next(replies[0]) {
            Step::Do(access, op) => read_calls(access, op, replies.drop_first()),
            Step::Done(item) => 0,
        }
    }
}

/// The same for a round over the waiting items.
pub open spec fn flush_calls<T>(
    access: Access<T>,
    op: FlushOp<T>,
    pending: Seq<PendingTask<T>>,
    buffer_len: usize,
    replies: Seq<Reply<T>>,
) -> nat
    decreases replies.len(),
{
    if replies.len() == 0 {
        0
    } else {
        let (left, flush) = flush_next(pending, buffer_len, op, replies[0]);
        call(access) + match flush.step {
            Step::Do(access, op) => flush_calls(
                access,
                op,
                left,
                buffer_len,
                replies.drop_first(),
            ),
            Step::Done(again) => 0,
        }
    }
}

/// The other party is called at most once in the care for the reader, whatever the replies: not at
/// all if the reader is seen at work, and else exactly once by the time it is over, which takes
/// three replies.
pub proof fn law_reader_is_roused_by_one_call<T>(replies: Seq<Reply<T>>)
    requires
        replies.len() >= 3,
    ensures
        rouse_calls(Access::<T>::LoadWorking, RouseOp::Check, replies) == (if replies[0]->Flag_0
            == SET {
            0nat
        } else {
            1
        }),
{
    reveal_with_fuel(rouse_calls, 4);
}

/// A push calls the other party at most once, whatever the replies.
pub proof fn law_push_calls_once<T>(
    item: T,
    buffer_len: usize,
    rouse: bool,
    replies: Seq<Reply<T>>,
)
    ensures
        write_calls(
            Access::<T>::Counters,
            WriteOp::Offering { op: PushOp::Offer { item, buffer_len }, buffer_len, rouse },
            replies,
        ) <= (if rouse {
            1nat
        } else {
            0
        }),
{
    reveal_with_fuel(write_calls, 7);
}

/// A pop calls the other party at most once, whatever the replies.
pub proof fn law_pop_calls_once<T>(buffer_len: usize, replies: Seq<Reply<T>>)
    ensures
        read_calls(
            Access::<T>::Counters,
            ReadOp::Popping(PopOp::Look { buffer_len }),
            replies,
        ) <= 1,
{
    reveal_with_fuel(read_calls, 7);
}

/// A round over the waiting items calls the other party at most once, from any point of it on,
/// however many items wait and whatever the replies.
pub proof fn law_flush_calls_once<T>(
    access: Access<T>,
    op: FlushOp<T>,
    pending: Seq<PendingTask<T>>,
    buffer_len: usize,
    replies: Seq<Reply<T>>,
)
    requires
        access is CallReader || access is CallWriter ==> op == FlushOp::<T>::Rousing(RouseOp::Call),
    ensures
        flush_calls(access, op, pending, buffer_len, replies) <= 1,
        op is Stick || op is Look ==> flush_calls(access, op, pending, buffer_len, replies) == 0,
    decreases replies.len(),
{
    if replies.len() > 0 {
        let (left, flush) = flush_next(pending, buffer_len, op, replies[0]);
        if let Step::Do(next_access, next_op) = flush.step {
            law_flush_calls_once(next_access, next_op, left, buffer_len, replies.drop_first());
        }
    }
}

} // verus!
