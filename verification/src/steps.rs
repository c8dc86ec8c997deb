//! What each step of a script is for, said of the replies it gets and of what it asks for.

use crate::counters::{slot_view, spec_pop_slot, spec_push_slot, Slot, CLEAR, SET};
use crate::eventfd::{judged, made, CallStep, IoFailure, WaitEvent, WaitOp};
use crate::handler::{service_start, Action, Event, Handler, Phase, WARM_NANOS};
use crate::memory::{Access, Memory, Reply, Step};
use crate::read_queue::ReadOp;
use crate::script::{PopOp, PushOp, RouseOp, SleepOp};
use crate::waker::Waiter;
use crate::write_queue::{flush_from, flush_next, FlushOp, FlushStep, PendingTask, Refused, WriteOp};
use vstd::prelude::*;

verus! {

/// The two values of a flag, and how long a reader stays warm.
pub proof fn law_words_of_the_protocol()
    ensures
        CLEAR == 0,
        SET == 1,
        WARM_NANOS == 200 * 1000,
{
}

/// The item numbered `n` goes into the slot that it is taken out of, one of those there are, and
/// moves its counter on by one; a push is refused exactly if the ring is full, and a pop exactly if
/// it is empty.
pub proof fn law_items_come_out_of_the_slot_they_went_into(
    head: int,
    tail: int,
    n: int,
    len: int,
)
    requires
        0 <= head <= n <= tail <= head + len,
    ensures
        spec_push_slot(head, n, len) is None <==> n - head == len,
        spec_pop_slot(n, tail, len) is None <==> n == tail,
        n - head < len ==> {
            let (index, next) = spec_push_slot(head, n, len)->0;
            0 <= index < len && index == n % len && next == n + 1
        },
        n < tail ==> {
            let (index, next) = spec_pop_slot(n, tail, len)->0;
            0 <= index < len && index == n % len && next == n + 1
        },
{
    if len > 0 {
        vstd::arithmetic::div_mod::lemma_mod_bound(n, len);
    }
}

/// Whatever counters a push or a pop sees, it is refused exactly if they say full or empty, and
/// else goes to the slot of the counter that it moves on, by one.
pub proof fn law_slots_follow_the_counters(head: int, tail: int, len: int)
    ensures
        tail - head == len ==> spec_push_slot(head, tail, len) == None::<(int, int)>,
        tail - head != len ==> spec_push_slot(head, tail, len) == Some((tail % len, tail + 1)),
        head == tail ==> spec_pop_slot(head, tail, len) == None::<(int, int)>,
        head != tail ==> spec_pop_slot(head, tail, len) == Some((head % len, head + 1)),
{
}

/// A choice of slot stands for its two numbers.
pub proof fn law_slot_is_its_numbers(s: Slot)
    ensures
        slot_view(Some(s)) == Some((s.index as int, s.next as int)),
        slot_view(None) is None,
{
}

/// An access can be made unless it is to a slot that does not exist, is taken when it is to be
/// filled, or is free when it is to be emptied.
pub proof fn law_permitted_accesses<T>(m: Memory<T>, index: usize, item: T, n: u64, flag: u32)
    ensures
        m.permits(Access::Write { index, item }) <==> index < m.slots.len()
            && m.slots[index as int] == None::<T>,
        m.permits(Access::Read { index }) <==> index < m.slots.len() && m.slots[index as int]
            != None::<T>,
        m.permits(Access::Counters),
        m.permits(Access::StoreHead(n)),
        m.permits(Access::StoreTail(n)),
        m.permits(Access::LoadWorking),
        m.permits(Access::StoreWorking(flag)),
        m.permits(Access::LoadStuck),
        m.permits(Access::StoreStuck(flag)),
        m.permits(Access::CallReader),
        m.permits(Access::CallWriter),
{
}

/// An item that was put into a slot is what is taken out of it, and then the memory is as it was
/// before; the other slots, the counters and the flags have no part in this.
pub proof fn law_slot_gives_back_its_item<T>(m: Memory<T>, index: usize, item: T)
    requires
        index < m.slots.len(),
        m.slots[index as int] == None::<T>,
    ensures
        ({
            let filled = m.after(Access::Write { index, item });
            &&& m.reply(Access::Write { index, item }) == Reply::<T>::Done
            &&& filled.reply(Access::Read { index }) == Reply::Item(item)
            &&& filled.after(Access::Read { index }) == m
            &&& filled.slots[index as int] == Some(item)
            &&& filled.slots.len() == m.slots.len()
            &&& forall|i: int|
                0 <= i < m.slots.len() && i != index ==> #[trigger] filled.slots[i] == m.slots[i]
            &&& filled.head == m.head
            &&& filled.tail == m.tail
            &&& filled.working == m.working
            &&& filled.stuck == m.stuck
            &&& filled.reader_called == m.reader_called
            &&& filled.writer_called == m.writer_called
            &&& filled.calls_to_reader == m.calls_to_reader
            &&& filled.calls_to_writer == m.calls_to_writer
        }),
{
    let filled = m.after(Access::Write { index, item });
    assert(filled.after(Access::Read { index }).slots =~= m.slots);
}

/// To take an item out empties its slot and touches nothing else.
pub proof fn law_taking_empties_one_slot<T>(m: Memory<T>, index: usize)
    requires
        index < m.slots.len(),
        m.slots[index as int] != None::<T>,
    ensures
        ({
            let emptied = m.after(Access::Read { index });
            &&& m.slots[index as int] == Some(m.reply(Access::Read { index })->Item_0)
            &&& m.reply(Access::Read { index }) is Item
            &&& emptied.slots[index as int] == None::<T>
            &&& emptied.slots.len() == m.slots.len()
            &&& forall|i: int|
                0 <= i < m.slots.len() && i != index ==> #[trigger] emptied.slots[i] == m.slots[i]
            &&& emptied == (Memory { slots: emptied.slots, ..m })
        }),
{
}

/// A word that was stored is what is read, by either party, and the store touches nothing else.
pub proof fn law_stored_words_are_read<T>(m: Memory<T>, n: u64, flag: u32)
    ensures
        m.after(Access::StoreHead(n)) == (Memory { head: n, ..m }),
        m.after(Access::StoreTail(n)) == (Memory { tail: n, ..m }),
        m.after(Access::StoreWorking(flag)) == (Memory { working: flag, ..m }),
        m.after(Access::StoreStuck(flag)) == (Memory { stuck: flag, ..m }),
        m.reply(Access::StoreHead(n)) == Reply::<T>::Done,
        m.reply(Access::StoreTail(n)) == Reply::<T>::Done,
        m.reply(Access::StoreWorking(flag)) == Reply::<T>::Done,
        m.reply(Access::StoreStuck(flag)) == Reply::<T>::Done,
        m.after(Access::StoreHead(n)).reply(Access::Counters) == (Reply::<T>::Counters {
            head: n,
            tail: m.tail,
        }),
        m.after(Access::StoreTail(n)).reply(Access::Counters) == (Reply::<T>::Counters {
            head: m.head,
            tail: n,
        }),
        m.after(Access::StoreWorking(flag)).reply(Access::LoadWorking) == Reply::<T>::Flag(flag),
        m.after(Access::StoreStuck(flag)).reply(Access::LoadStuck) == Reply::<T>::Flag(flag),
        m.after(Access::StoreStuck(flag)).reply(Access::LoadWorking) == Reply::<T>::Flag(
            m.working,
        ),
        m.after(Access::StoreWorking(flag)).reply(Access::LoadStuck) == Reply::<T>::Flag(m.stuck),
{
}

/// To look changes nothing, and tells what is there.
pub proof fn law_looking_changes_nothing<T>(m: Memory<T>)
    ensures
        m.after(Access::Counters) == m,
        m.after(Access::LoadWorking) == m,
        m.after(Access::LoadStuck) == m,
        m.reply(Access::Counters) == (Reply::<T>::Counters { head: m.head, tail: m.tail }),
        m.reply(Access::LoadWorking) == Reply::<T>::Flag(m.working),
        m.reply(Access::LoadStuck) == Reply::<T>::Flag(m.stuck),
{
}

/// A call leaves the called party, and no other, with something to hear, is counted once, and
/// touches nothing else.
pub proof fn law_calls_are_heard<T>(m: Memory<T>)
    ensures
        m.after(Access::CallReader) == (Memory {
            reader_called: true,
            calls_to_reader: m.calls_to_reader + 1,
            ..m
        }),
        m.after(Access::CallWriter) == (Memory {
            writer_called: true,
            calls_to_writer: m.calls_to_writer + 1,
            ..m
        }),
        m.reply(Access::CallReader) == Reply::<T>::Done,
        m.reply(Access::CallWriter) == Reply::<T>::Done,
{
}

/// What memory in order means: the item `i` places behind the oldest is in the slot of its number,
/// there are as many items as the counters are apart, the slots of the next numbers are free, and
/// the words mean themselves.
pub proof fn law_meaning_of_the_memory<T>(m: Memory<T>, n: int)
    requires
        m.wf(),
    ensures
        m.head <= m.tail,
        m.tail - m.head <= m.slots.len(),
        m.meaning().items.len() == m.tail - m.head,
        forall|i: int|
            0 <= i < m.tail - m.head ==> m.slots[(m.head + i) % (m.slots.len() as int)] == Some(
                #[trigger] m.meaning().items[i],
            ),
        m.tail <= n < m.head + m.slots.len() ==> m.slots[n % (m.slots.len() as int)] == None::<T>,
        m.meaning().capacity == m.slots.len(),
        m.meaning().head == m.head,
        m.meaning().working == m.working,
        m.meaning().stuck == m.stuck,
        m.meaning().reader_called == m.reader_called,
        m.meaning().writer_called == m.writer_called,
        m.meaning().calls_to_reader == m.calls_to_reader,
        m.meaning().calls_to_writer == m.calls_to_writer,
{
    assert forall|i: int| 0 <= i < m.tail - m.head implies m.slots[(m.head + i) % (
    m.slots.len() as int)] == Some(#[trigger] m.meaning().items[i]) by {
        assert(m.holds(m.head + i));
    }
    assert(m.tail <= n < m.head + m.slots.len() ==> !m.holds(n));
}

/// Memory is in order whenever its counters are and exactly the slots of the items between them are
/// filled.
pub proof fn law_memory_in_order<T>(m: Memory<T>)
    requires
        m.head <= m.tail <= m.head + m.slots.len(),
        forall|n: int|
            #![trigger m.holds(n)]
            m.head <= n < m.tail ==> m.slots[n % (m.slots.len() as int)] is Some,
        forall|n: int|
            #![trigger m.holds(n)]
            m.tail <= n < m.head + m.slots.len() ==> m.slots[n % (m.slots.len() as int)] is None,
    ensures
        m.wf(),
{
}

/// A push that sees the counters takes any that are in order, except that it needs a slot to go to
/// and a `tail` that can grow. It hands the item back exactly if the ring is full, and else asks
/// for it to be put into the slot of `tail`.
pub proof fn law_push_goes_to_the_slot_of_tail<T>(
    item: T,
    buffer_len: usize,
    head: u64,
    tail: u64,
)
    requires
        head <= tail,
    ensures
        ({
            let op = PushOp::Offer { item, buffer_len };
            let reply = Reply::<T>::Counters { head, tail };
            &&& op.ready(reply) <==> tail - head == buffer_len || buffer_len > 0 && tail < u64::MAX
            &&& tail - head == buffer_len ==> op.next(reply) == Step::<
                T,
                PushOp<T>,
                Result<(), T>,
            >::Done(Err(item))
            &&& op.ready(reply) && tail - head != buffer_len ==> {
                &&& op.next(reply) is Do
                &&& op.next(reply)->Do_0 is Write
                &&& op.next(reply)->Do_0->Write_item == item
                &&& op.next(reply)->Do_0->Write_index == tail as int % buffer_len as int
                &&& op.next(reply)->Do_1 == (PushOp::<T>::Fill { next: (tail + 1) as u64 })
            }
        }),
{
    if buffer_len > 0 {
        vstd::arithmetic::div_mod::lemma_mod_bound(tail as int, buffer_len as int);
    }
}

/// A push that has put its item into the slot publishes it, and then is over.
pub proof fn law_push_publishes_what_it_put<T>(next: u64)
    ensures
        (PushOp::<T>::Fill { next }).ready(Reply::Done),
        PushOp::<T>::Publish.ready(Reply::Done),
        (PushOp::<T>::Fill { next }).next(Reply::Done) == Step::<T, PushOp<T>, Result<(), T>>::Do(
            Access::StoreTail(next),
            PushOp::Publish,
        ),
        PushOp::<T>::Publish.next(Reply::Done) == Step::<T, PushOp<T>, Result<(), T>>::Done(Ok(())),
{
}

/// A pop comes to nothing exactly if the counters are equal, and else asks for the item in the slot
/// of `head`, then for the next `head`, and ends with that very item.
pub proof fn law_pop_takes_from_the_slot_of_head<T>(
    buffer_len: usize,
    head: u64,
    tail: u64,
    next: u64,
    item: T,
)
    ensures
        ({
            let op = PopOp::<T>::Look { buffer_len };
            let reply = Reply::<T>::Counters { head, tail };
            &&& op.ready(reply) <==> head == tail || buffer_len > 0 && head < u64::MAX
            &&& head == tail ==> op.next(reply) == Step::<T, PopOp<T>, Option<T>>::Done(None)
            &&& op.ready(reply) && head != tail ==> {
                &&& op.next(reply) is Do
                &&& op.next(reply)->Do_0 is Read
                &&& op.next(reply)->Do_0->Read_index == head as int % buffer_len as int
                &&& op.next(reply)->Do_1 == (PopOp::<T>::Take { next: (head + 1) as u64 })
            }
        }),
        (PopOp::<T>::Take { next }).ready(Reply::Item(item)),
        (PopOp::<T>::Take { next }).next(Reply::Item(item)) == Step::<T, PopOp<T>, Option<T>>::Do(
            Access::StoreHead(next),
            PopOp::Retire { item },
        ),
        (PopOp::Retire { item }).ready(Reply::Done),
        (PopOp::Retire { item }).next(Reply::Done) == Step::<T, PopOp<T>, Option<T>>::Done(
            Some(item),
        ),
{
    if buffer_len > 0 {
        vstd::arithmetic::div_mod::lemma_mod_bound(head as int, buffer_len as int);
    }
}

/// The care for the reader: one that is seen at work is left alone; any other is marked, then
/// called, and that is what the result tells.
pub proof fn law_rouse_marks_then_calls<T>(flag: u32)
    ensures
        RouseOp::Check.ready(Reply::<T>::Flag(flag)),
        flag == 1 ==> RouseOp::Check.next(Reply::<T>::Flag(flag)) == Step::<
            T,
            RouseOp,
            bool,
        >::Done(false),
        flag != 1 ==> RouseOp::Check.next(Reply::<T>::Flag(flag)) == Step::<T, RouseOp, bool>::Do(
            Access::StoreWorking(1),
            RouseOp::Mark,
        ),
        RouseOp::Mark.ready(Reply::<T>::Done),
        RouseOp::Mark.next(Reply::<T>::Done) == Step::<T, RouseOp, bool>::Do(
            Access::CallReader,
            RouseOp::Call,
        ),
        RouseOp::Call.ready(Reply::<T>::Done),
        RouseOp::Call.next(Reply::<T>::Done) == Step::<T, RouseOp, bool>::Done(true),
{
}

/// A reader that has taken its flag down looks once more: it may sleep exactly if it sees no item,
/// and else puts the flag back up and must not.
pub proof fn law_doze_looks_once_more<T>(head: u64, tail: u64)
    ensures
        SleepOp::Lower.ready(Reply::<T>::Done),
        SleepOp::Lower.next(Reply::<T>::Done) == Step::<T, SleepOp, bool>::Do(
            Access::Counters,
            SleepOp::Look,
        ),
        SleepOp::Look.ready(Reply::<T>::Counters { head, tail }),
        head == tail ==> SleepOp::Look.next(Reply::<T>::Counters { head, tail }) == Step::<
            T,
            SleepOp,
            bool,
        >::Done(true),
        head != tail ==> SleepOp::Look.next(Reply::<T>::Counters { head, tail }) == Step::<
            T,
            SleepOp,
            bool,
        >::Do(Access::StoreWorking(1), SleepOp::Raise),
        SleepOp::Raise.ready(Reply::<T>::Done),
        SleepOp::Raise.next(Reply::<T>::Done) == Step::<T, SleepOp, bool>::Done(false),
{
}

/// A pop of the reading end, once the pop itself is over, looks whether the writer waits, whether
/// there was an item or not; if so it takes the mark down, then calls; and it ends with what the
/// pop came to.
pub proof fn law_read_releases_a_waiting_writer<T>(item: Option<T>, flag: u32)
    ensures
        (ReadOp::Peek { item }).ready(Reply::Flag(flag)),
        flag == 1 ==> (ReadOp::Peek { item }).next(Reply::Flag(flag)) == Step::<
            T,
            ReadOp<T>,
            Option<T>,
        >::Do(Access::StoreStuck(0), ReadOp::Free { item }),
        flag != 1 ==> (ReadOp::Peek { item }).next(Reply::Flag(flag)) == Step::<
            T,
            ReadOp<T>,
            Option<T>,
        >::Done(item),
        (ReadOp::Free { item }).ready(Reply::Done),
        (ReadOp::Free { item }).next(Reply::Done) == Step::<T, ReadOp<T>, Option<T>>::Do(
            Access::CallWriter,
            ReadOp::Call { item },
        ),
        (ReadOp::Call { item }).ready(Reply::Done),
        (ReadOp::Call { item }).next(Reply::Done) == Step::<T, ReadOp<T>, Option<T>>::Done(item),
{
}

/// A pop of the reading end begins with the pop, step by step, and keeps what it comes to.
pub proof fn law_read_begins_with_the_pop<T>(op: PopOp<T>, reply: Reply<T>)
    ensures
        ReadOp::Popping(op).ready(reply) <==> op.ready(reply),
        op.next(reply) matches Step::Do(access, then_op) ==> ReadOp::Popping(op).next(reply)
            == Step::<T, ReadOp<T>, Option<T>>::Do(access, ReadOp::Popping(then_op)),
        op.next(reply) matches Step::Done(item) ==> ReadOp::Popping(op).next(reply) == Step::<
            T,
            ReadOp<T>,
            Option<T>,
        >::Do(Access::LoadStuck, ReadOp::Peek { item }),
{
}

/// A push of the writing end begins with the push, step by step. Once the item is in, it sees to
/// the reader if it is to, and is over if it is not; an item that comes back makes it mark the
/// writer as waiting.
pub proof fn law_write_begins_with_the_push<T>(
    op: PushOp<T>,
    buffer_len: usize,
    rouse: bool,
    reply: Reply<T>,
)
    ensures
        ({
            let write = WriteOp::Offering { op, buffer_len, rouse };
            &&& write.ready(reply) <==> op.ready(reply)
            &&& op.next(reply) matches Step::Do(access, then_op) ==> write.next(reply) == Step::<
                T,
                WriteOp<T>,
                Result<(), Refused<T>>,
            >::Do(access, WriteOp::Offering { op: then_op, buffer_len, rouse })
            &&& op.next(reply) == Step::<T, PushOp<T>, Result<(), T>>::Done(Ok(())) && rouse
                ==> write.next(reply) == Step::<T, WriteOp<T>, Result<(), Refused<T>>>::Do(
                Access::LoadWorking,
                WriteOp::Rousing(RouseOp::Check),
            )
            &&& op.next(reply) == Step::<T, PushOp<T>, Result<(), T>>::Done(Ok(())) && !rouse
                ==> write.next(reply) == Step::<T, WriteOp<T>, Result<(), Refused<T>>>::Done(Ok(()))
            &&& op.next(reply) matches Step::Done(Err(item)) ==> write.next(reply) == Step::<
                T,
                WriteOp<T>,
                Result<(), Refused<T>>,
            >::Do(Access::StoreStuck(1), WriteOp::Stick { item, buffer_len })
        }),
{
}

/// A push of the writing end that sees to the reader does so step by step, and has gone in however
/// that ends.
pub proof fn law_write_sees_to_the_reader<T>(op: RouseOp, reply: Reply<T>)
    ensures
        WriteOp::<T>::Rousing(op).ready(reply) <==> op.ready(reply),
        op.next(reply) matches Step::Do(access, then_op) ==> WriteOp::<T>::Rousing(op).next(reply)
            == Step::<T, WriteOp<T>, Result<(), Refused<T>>>::Do(
            access,
            WriteOp::Rousing(then_op),
        ),
        op.next(reply) is Done ==> WriteOp::<T>::Rousing(op).next(reply) == Step::<
            T,
            WriteOp<T>,
            Result<(), Refused<T>>,
        >::Done(Ok(())),
{
}

/// A push whose item came back looks at the counters once the writer is marked, whatever the item
/// and the size, and then hands the item over and says whether there was room.
pub proof fn law_refused_write_looks_again<T>(item: T, buffer_len: usize, head: u64, tail: u64)
    requires
        head <= tail,
    ensures
        (WriteOp::Stick { item, buffer_len }).ready(Reply::Done),
        (WriteOp::Stick { item, buffer_len }).next(Reply::Done) == Step::<
            T,
            WriteOp<T>,
            Result<(), Refused<T>>,
        >::Do(Access::Counters, WriteOp::Look { item, buffer_len }),
        (WriteOp::Look { item, buffer_len }).ready(Reply::Counters { head, tail }),
        (WriteOp::Look { item, buffer_len }).next(Reply::Counters { head, tail }) == Step::<
            T,
            WriteOp<T>,
            Result<(), Refused<T>>,
        >::Done(Err(Refused { item, room: tail - head != buffer_len })),
{
}

/// A round over the waiting items begins with the one that has waited longest and leaves the others
/// in their order; with none, it begins with the care for the reader.
pub proof fn law_round_begins_with_the_first<T>(pending: Seq<PendingTask<T>>, buffer_len: usize)
    ensures
        pending.len() > 0 ==> {
            let (left, (access, op)) = flush_from(pending, buffer_len);
            &&& seq![pending[0]] + left == pending
            &&& access == Access::<T>::Counters
            &&& op == (FlushOp::Offering {
                op: PushOp::Offer { item: pending[0].data, buffer_len },
                waiter: pending[0].waiter,
            })
        },
        pending.len() == 0 ==> {
            let (left, (access, op)) = flush_from(pending, buffer_len);
            &&& left.len() == 0
            &&& access == Access::<T>::LoadWorking
            &&& op == FlushOp::<T>::Rousing(RouseOp::Check)
        },
{
    if pending.len() > 0 {
        assert(seq![pending[0]] + flush_from(pending, buffer_len).0 =~= pending);
    }
}

/// A round goes on with the push of its item step by step, and wakes nobody meanwhile. When the
/// item is in, its slot and no other is to be woken, and the round begins anew with what is left.
/// When it comes back, it waits again before all others, with its slot, nobody is to be woken, and
/// the round goes on to the care for the reader.
pub proof fn law_round_offers_its_item<T>(
    pending: Seq<PendingTask<T>>,
    buffer_len: usize,
    op: PushOp<T>,
    waiter: Option<Waiter>,
    reply: Reply<T>,
)
    ensures
        ({
            let round = FlushOp::Offering { op, waiter };
            let (left, flush) = flush_next(pending, buffer_len, round, reply);
            &&& round.ready(reply) <==> op.ready(reply)
            &&& op.next(reply) matches Step::Do(access, then_op) ==> {
                &&& left == pending
                &&& flush.wake is None
                &&& flush.step == Step::<T, FlushOp<T>, bool>::Do(
                    access,
                    FlushOp::Offering { op: then_op, waiter },
                )
            }
            &&& op.next(reply) == Step::<T, PushOp<T>, Result<(), T>>::Done(Ok(())) ==> {
                let (after, (access, then_op)) = flush_from(pending, buffer_len);
                &&& left == after
                &&& flush.wake == waiter
                &&& flush.step == Step::<T, FlushOp<T>, bool>::Do(access, then_op)
            }
            &&& op.next(reply) matches Step::Done(Err(data)) ==> {
                &&& left.len() == pending.len() + 1
                &&& left[0] == (PendingTask { data, waiter })
                &&& left.drop_first() == pending
                &&& flush.wake is None
                &&& flush.step == Step::<T, FlushOp<T>, bool>::Do(
                    Access::LoadWorking,
                    FlushOp::Rousing(RouseOp::Check),
                )
            }
        }),
{
    let (left, flush) = flush_next(pending, buffer_len, FlushOp::Offering { op, waiter }, reply);
    if let Step::Done(Err(data)) = op.next(reply) {
        assert(left.drop_first() =~= pending);
    }
}

/// A round that sees to the reader does so step by step. After that it is over if no item waits;
/// if any does, it marks the writer as waiting, looks at the counters, and is due again exactly if
/// there is room. None of this moves an item or wakes anybody.
pub proof fn law_round_looks_again_if_items_are_left<T>(
    pending: Seq<PendingTask<T>>,
    buffer_len: usize,
    op: RouseOp,
    reply: Reply<T>,
    head: u64,
    tail: u64,
)
    requires
        head <= tail,
    ensures
        FlushOp::<T>::Rousing(op).ready(reply) <==> op.ready(reply),
        ({
            let (left, flush) = flush_next(pending, buffer_len, FlushOp::Rousing(op), reply);
            &&& left == pending
            &&& flush.wake is None
            &&& op.next(reply) matches Step::Do(access, then_op) ==> flush.step == Step::<
                T,
                FlushOp<T>,
                bool,
            >::Do(access, FlushOp::Rousing(then_op))
            &&& op.next(reply) is Done && pending.len() == 0 ==> flush.step == Step::<
                T,
                FlushOp<T>,
                bool,
            >::Done(false)
            &&& op.next(reply) is Done && pending.len() > 0 ==> flush.step == Step::<
                T,
                FlushOp<T>,
                bool,
            >::Do(Access::StoreStuck(1), FlushOp::Stick)
        }),
        FlushOp::<T>::Stick.ready(Reply::Done),
        flush_next(pending, buffer_len, FlushOp::Stick, Reply::<T>::Done) == (
            pending,
            FlushStep { wake: None, step: Step::Do(Access::<T>::Counters, FlushOp::Look) },
        ),
        FlushOp::<T>::Look.ready(Reply::Counters { head, tail }),
        flush_next(pending, buffer_len, FlushOp::Look, Reply::<T>::Counters { head, tail }) == (
            pending,
            FlushStep { wake: None, step: Step::<T, FlushOp<T>, bool>::Done(tail - head != buffer_len) },
        ),
{
}

/// The service of a handler begins with the reader saying that it works, and then it looks for an
/// item in the whole ring.
pub proof fn law_service_begins_by_saying_so<T>(buffer_len: usize)
    ensures
        service_start::<T>(buffer_len).0 == Action::Access(Access::<T>::StoreWorking(1)),
        service_start::<T>(buffer_len).1.ready(Event::Reply(Reply::Done)),
        service_start::<T>(buffer_len).1.next(Event::Reply(Reply::Done)) == (
            Action::Access(Access::<T>::Counters),
            Handler {
                buffer_len,
                phase: Phase::Draining(ReadOp::Popping(PopOp::<T>::Look { buffer_len })),
            },
        ),
{
}

/// A reader that checks the time at or after its deadline begins to go to sleep: it asks for its
/// flag to go down. Before the deadline it yields, and keeps the deadline.
pub proof fn law_reader_sleeps_when_its_time_is_over<T>(h: Handler<T>, deadline: u64, now: u64)
    requires
        h.phase == (Phase::<T>::Checking { deadline }),
    ensures
        h.ready(Event::Now(now)),
        now >= deadline ==> {
            &&& h.next(Event::Now(now)).0 == Action::Access(Access::<T>::StoreWorking(0))
            &&& h.next(Event::Now(now)).1.phase == Phase::<T>::Settling(SleepOp::Lower)
        },
        now < deadline ==> {
            &&& h.next(Event::Now(now)).0 == Action::<T>::Yield
            &&& h.next(Event::Now(now)).1.phase == (Phase::<T>::Yielded { deadline })
        },
        h.next(Event::Now(now)).1.buffer_len == h.buffer_len,
{
}

/// A reader that found nothing more to drain opens its warm time, which lasts for two hundred
/// microseconds from the time it is told.
pub proof fn law_reader_opens_its_warm_time<T>(h: Handler<T>, now: u64)
    requires
        h.phase is Opening,
    ensures
        h.ready(Event::Now(now)) <==> now + 200_000 <= u64::MAX,
        now + 200_000 <= u64::MAX ==> {
            &&& h.next(Event::Now(now)).0 == Action::<T>::Clock
            &&& h.next(Event::Now(now)).1.phase == (Phase::<T>::Checking {
                deadline: (now + 200_000) as u64,
            })
        },
        h.next(Event::Now(now)).1.buffer_len == h.buffer_len,
{
}

/// A reader that begins, has been called, has handled an item or has let other tasks run, looks for
/// an item next, in the whole ring, and in its warm time keeps the deadline.
pub proof fn law_reader_looks_for_the_next_item<T>(h: Handler<T>, deadline: u64)
    ensures
        ({
            let look = ReadOp::Popping(PopOp::<T>::Look { buffer_len: h.buffer_len });
            &&& h.phase is Rise ==> h.ready(Event::Reply(Reply::Done)) && h.next(
                Event::Reply(Reply::Done),
            ) == (
                Action::Access(Access::<T>::Counters),
                Handler { buffer_len: h.buffer_len, phase: Phase::Draining(look) },
            )
            &&& h.phase is Handled ==> h.ready(Event::Resumed) && h.next(Event::Resumed) == (
                Action::Access(Access::<T>::Counters),
                Handler { buffer_len: h.buffer_len, phase: Phase::Draining(look) },
            )
            &&& h.phase == (Phase::<T>::Yielded { deadline }) ==> h.ready(Event::Resumed)
                && h.next(Event::Resumed) == (
                Action::Access(Access::<T>::Counters),
                Handler { buffer_len: h.buffer_len, phase: Phase::Warm { op: look, deadline } },
            )
            &&& h.phase is Waiting ==> h.ready(Event::Called) && h.next(Event::Called) == (
                Action::Access(Access::<T>::StoreWorking(1)),
                Handler { buffer_len: h.buffer_len, phase: Phase::<T>::Rise },
            )
        }),
{
}

/// A reader in the middle of a pop goes on with it step by step. An item that comes of it goes to
/// the handler, whether the reader drains or stays warm. If none does, a draining reader opens its
/// warm time, and a warm one looks whether an item has come since, and keeps the deadline.
pub proof fn law_reader_goes_on_with_its_pop<T>(
    h: Handler<T>,
    op: ReadOp<T>,
    deadline: u64,
    reply: Reply<T>,
)
    requires
        h.phase == Phase::Draining(op) || h.phase == (Phase::Warm { op, deadline }),
    ensures
        ({
            let warm = h.phase is Warm;
            let (action, after) = h.next(Event::Reply(reply));
            &&& h.ready(Event::Reply(reply)) <==> op.ready(reply)
            &&& after.buffer_len == h.buffer_len
            &&& op.next(reply) matches Step::Do(access, then_op) ==> {
                &&& action == Action::Access(access)
                &&& warm ==> after.phase == (Phase::Warm { op: then_op, deadline })
                &&& !warm ==> after.phase == Phase::Draining(then_op)
            }
            &&& op.next(reply) matches Step::Done(Some(item)) ==> {
                &&& action == Action::Handle(item)
                &&& after.phase == Phase::<T>::Handled
            }
            &&& op.next(reply) == Step::<T, ReadOp<T>, Option<T>>::Done(None) ==> {
                &&& warm ==> action == Action::Access(Access::<T>::Counters) && after.phase == (
                Phase::<T>::Looking { deadline })
                &&& !warm ==> action == Action::<T>::Clock && after.phase == Phase::<T>::Opening
            }
        }),
{
}

/// A warm reader that looks whether an item has come since opens its warm time anew exactly if one
/// has, and else checks the time against the deadline it had.
pub proof fn law_reader_stays_warm_for_what_comes<T>(
    h: Handler<T>,
    deadline: u64,
    head: u64,
    tail: u64,
)
    requires
        h.phase == (Phase::<T>::Looking { deadline }),
    ensures
        ({
            let event = Event::Reply(Reply::<T>::Counters { head, tail });
            &&& h.ready(event)
            &&& h.next(event).0 == Action::<T>::Clock
            &&& head == tail ==> h.next(event).1.phase == (Phase::<T>::Checking { deadline })
            &&& head != tail ==> h.next(event).1.phase == Phase::<T>::Opening
            &&& h.next(event).1.buffer_len == h.buffer_len
        }),
{
}

/// A reader that goes to sleep does so step by step, waits if it may sleep, and else goes back to
/// draining.
pub proof fn law_reader_settles_or_drains<T>(h: Handler<T>, op: SleepOp, reply: Reply<T>)
    requires
        h.phase == Phase::<T>::Settling(op),
    ensures
        ({
            let (action, after) = h.next(Event::Reply(reply));
            &&& h.ready(Event::Reply(reply)) <==> op.ready(reply)
            &&& after.buffer_len == h.buffer_len
            &&& op.next(reply) matches Step::Do(access, then_op) ==> {
                &&& action == Action::Access(access)
                &&& after.phase == Phase::<T>::Settling(then_op)
            }
            &&& op.next(reply) == Step::<T, SleepOp, bool>::Done(true) ==> {
                &&& action == Action::<T>::Wait
                &&& after.phase == Phase::<T>::Waiting
            }
            &&& op.next(reply) == Step::<T, SleepOp, bool>::Done(false) ==> {
                &&& action == Action::Access(Access::<T>::Counters)
                &&& after.phase == Phase::Draining(
                    ReadOp::Popping(PopOp::<T>::Look { buffer_len: h.buffer_len }),
                )
            }
        }),
{
}

/// A reader that waits stops when nobody wants it to go on, and answers to nothing more.
pub proof fn law_waiting_reader_stops_on_exit<T>(h: Handler<T>, event: Event<T>)
    ensures
        h.phase is Waiting ==> h.ready(Event::Exit) && h.next(Event::Exit).0 == Action::<T>::Stop
            && h.next(Event::Exit).1.phase == Phase::<T>::Stopped,
        h.phase is Stopped ==> !h.ready(event),
        h.ready(Event::Exit) <==> h.phase is Waiting,
{
}

/// A call is made once the byte has been written, is tried again exactly when a signal came in
/// between, and has failed for any other reason.
pub proof fn law_calls_are_retried_only_after_signals(written: int, failure: IoFailure)
    ensures
        written != -1 ==> judged(written, failure) == CallStep::Sent,
        written == -1 && failure == IoFailure::Interrupted ==> judged(written, failure)
            == CallStep::Retry,
        written == -1 && failure != IoFailure::Interrupted ==> judged(written, failure)
            == CallStep::Failed,
{
}

/// A call that was to make something has made it unless its result is -1.
pub proof fn law_what_was_made_is_handed_out<A>(ret: int, value: A)
    ensures
        ret == -1 ==> made(ret, value) == None::<A>,
        ret != -1 ==> made(ret, value) == Some(value),
{
}

/// The wait for a call reads when the socket is said to be readable, reads again after a signal,
/// waits again when there was nothing to read, and is over in every other case.
pub proof fn law_wait_is_over_once_something_was_read(op: WaitOp, n: usize)
    ensures
        op.next(WaitEvent::Readable) == Some(WaitOp::Reading),
        op.next(WaitEvent::Broken) == None::<WaitOp>,
        op.next(WaitEvent::Read(n)) == None::<WaitOp>,
        op.next(WaitEvent::ReadFailed(IoFailure::Interrupted)) == Some(WaitOp::Reading),
        op.next(WaitEvent::ReadFailed(IoFailure::WouldBlock)) == Some(WaitOp::Readiness),
        op.next(WaitEvent::ReadFailed(IoFailure::Other)) == None::<WaitOp>,
        WaitOp::Readiness.ready(WaitEvent::Readable),
        WaitOp::Readiness.ready(WaitEvent::Broken),
        WaitOp::Reading.ready(WaitEvent::Read(n)),
        WaitOp::Reading.ready(WaitEvent::ReadFailed(IoFailure::Interrupted)),
        WaitOp::Reading.ready(WaitEvent::ReadFailed(IoFailure::WouldBlock)),
        WaitOp::Reading.ready(WaitEvent::ReadFailed(IoFailure::Other)),
{
}

} // verus!
