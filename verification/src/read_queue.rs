//! The reading end of a queue.

use crate::counters::{is_set, slot_of, CLEAR, SET};
use crate::memory::{lemma_flags_apart, lemma_take, Access, Memory, Reply, Ring, RingView, Step};
use crate::queue::{pop_steps_left, pop_under_way, Queue, QueueMeta};
use crate::script::PopOp;
use vstd::prelude::*;

verus! {

/// Takes the oldest item out of a queue and, if the writer waits for room, calls it.
pub enum ReadOp<T> {
    /// Takes the item out.
    Popping(PopOp<T>),
    /// Has asked whether the writer waits.
    Peek { item: Option<T> },
    /// Has asked for the writer to be marked as not waiting.
    Free { item: Option<T> },
    /// Has asked for the writer to be called.
    Call { item: Option<T> },
}

impl<T> ReadOp<T> {
    /// Whether `reply` can have come of the access that was asked for.
    pub open spec fn ready(self, reply: Reply<T>) -> bool {
        match self {
            ReadOp::Popping(op) => op.ready(reply),
            ReadOp::Peek { item } => reply is Flag,
            _ => reply is Done,
        }
    }

    /// What follows on `reply`.
    pub open spec fn next(self, reply: Reply<T>) -> Step<T, ReadOp<T>, Option<T>> {
        match self {
            ReadOp::Popping(op) => match op.next(reply) {
                Step::Do(access, op) => Step::Do(access, ReadOp::Popping(op)),
                Step::Done(item) => Step::Do(Access::LoadStuck, ReadOp::Peek { item }),
            },
            ReadOp::Peek { item } => if reply->Flag_0 == SET {
                Step::Do(Access::StoreStuck(CLEAR), ReadOp::Free { item })
            } else {
                Step::Done(item)
            },
            ReadOp::Free { item } => Step::Do(Access::CallWriter, ReadOp::Call { item }),
            ReadOp::Call { item } => Step::Done(item),
        }
    }

    /// Begins to take the oldest item out of a queue of `buffer_len` slots.
    pub fn start(buffer_len: usize) -> (r: (Access<T>, Self))
        ensures
            r == (Access::<T>::Counters, ReadOp::Popping(PopOp::<T>::Look { buffer_len })),
    {
        let (access, op) = PopOp::start(buffer_len);
        (access, ReadOp::Popping(op))
    }

    /// Whether `reply` can have come of the access that was asked for.
    pub fn accepts(&self, reply: &Reply<T>) -> (ok: bool)
        ensures
            ok <==> self.ready(*reply),
    {
        match self {
            ReadOp::Popping(op) => op.accepts(reply),
            ReadOp::Peek { .. } => matches!(reply, Reply::Flag(_)),
            _ => matches!(reply, Reply::Done),
        }
    }

    /// Goes on after `reply`.
    pub fn step(self, reply: Reply<T>) -> (s: Step<T, ReadOp<T>, Option<T>>)
        requires
            self.ready(reply),
        ensures
            s == self.next(reply),
    {
        match (self, reply) {
            (ReadOp::Popping(op), reply) => match op.step(reply) {
                Step::Do(access, op) => Step::Do(access, ReadOp::Popping(op)),
                Step::Done(item) => Step::Do(Access::LoadStuck, ReadOp::Peek { item }),
            },
            (ReadOp::Peek { item }, Reply::Flag(flag)) => if is_set(flag) {
                Step::Do(Access::StoreStuck(CLEAR), ReadOp::Free { item })
            } else {
                Step::Done(item)
            },
            (ReadOp::Free { item }, _) => Step::Do(Access::CallWriter, ReadOp::Call { item }),
            (ReadOp::Peek { item }, _) => Step::Done(item),
            (ReadOp::Call { item }, _) => Step::Done(item),
        }
    }
}

/// The reading end of a queue.
pub struct ReadQueue<T> {
    queue: Queue<T>,
}

impl<T> Queue<T> {
    /// Makes this the reading end.
    pub fn read(self) -> (r: ReadQueue<T>)
        ensures
            r.queue() == self,
    {
        ReadQueue { queue: self }
    }
}

impl<T> ReadQueue<T> {
    /// The handle that this end reads through.
    pub closed spec fn queue(self) -> Queue<T> {
        self.queue
    }

    /// What this party knows of the queue.
    pub fn meta(&self) -> (meta: QueueMeta)
        ensures
            meta == self.queue().known(),
    {
        self.queue.meta()
    }

    /// Takes the oldest item out. If the writer waits for room, it is marked as not waiting and
    /// called.
    pub fn pop(&self, ring: &mut Ring<T>) -> (item: Option<T>)
        requires
            old(ring).wf(),
            self.queue().spans(*old(ring)),
        ensures
            final(ring).wf(),
            match item {
                Some(x) => {
                    &&& old(ring)@.items.len() > 0
                    &&& x == old(ring)@.items[0]
                    &&& final(ring)@ == old(ring)@.popped().released()
                },
                None => {
                    &&& old(ring)@.items.len() == 0
                    &&& final(ring)@ == old(ring)@.released()
                },
            },
            read_out(old(ring)@, item, final(ring)@),
            final(ring)@.stuck != SET,
            old(ring)@.stuck == SET ==> final(ring)@.writer_called && final(ring)@.calls_to_writer
                == old(ring)@.calls_to_writer + 1,
            old(ring)@.stuck != SET ==> final(ring)@.writer_called == old(ring)@.writer_called
                && final(ring)@.calls_to_writer == old(ring)@.calls_to_writer,
    {
        let ghost before = ring.memory();
        let (mut access, mut op) = ReadOp::start(self.meta().buffer_len);
        loop
            invariant
                before == old(ring).memory(),
                before.wf(),
                before.slots.len() == self.queue().known().buffer_len,
                read_under_way(before, access, op, ring.memory()),
            decreases read_steps_left(op),
        {
            proof {
                if before.head < before.tail {
                    let index = slot_of(before.head as int, before.slots.len() as int);
                    lemma_take(before, index as usize, (before.head + 1) as u64);
                }
            }
            let ghost now = ring.memory();
            let reply = ring.perform(access);
            proof {
                if !(op is Popping) {
                    lemma_flags_apart(now, ring.memory());
                }
            }
            match op.step(reply) {
                Step::Do(next_access, next_op) => {
                    access = next_access;
                    op = next_op;
                },
                Step::Done(item) => return item,
            }
        }
    }
}

/// What a pop of the reading end does to a ring: the oldest item comes out, if there is one, and a
/// writer that waits for room is marked as not waiting and called.
pub open spec fn read_out<T>(
    ring: RingView<T>,
    item: Option<T>,
    ring_after: RingView<T>,
) -> bool {
    match item {
        Some(x) => {
            &&& ring.items.len() > 0
            &&& x == ring.items[0]
            &&& ring_after == ring.popped().released()
        },
        None => ring.items.len() == 0 && ring_after == ring.released(),
    }
}

/// What a pop that came to `item` did to a ring that was `before`.
spec fn pop_done<T>(before: RingView<T>, item: Option<T>) -> RingView<T> {
    match item {
        Some(_) => before.popped(),
        None => before,
    }
}

/// Where a read stands that found the memory as `before` and has it to itself.
spec fn read_under_way<T>(
    before: Memory<T>,
    access: Access<T>,
    op: ReadOp<T>,
    now: Memory<T>,
) -> bool {
    let right = |item: Option<T>|
        item == (if before.head < before.tail {
            Some(before.meaning().items[0])
        } else {
            None
        });
    match op {
        ReadOp::Popping(op) => pop_under_way(before, access, op, now),
        ReadOp::Peek { item } => {
            &&& right(item)
            &&& access == Access::<T>::LoadStuck
            &&& now.wf()
            &&& now.meaning() == pop_done(before.meaning(), item)
        },
        ReadOp::Free { item } => {
            &&& right(item)
            &&& before.stuck == SET
            &&& access == Access::<T>::StoreStuck(CLEAR)
            &&& now.wf()
            &&& now.meaning() == pop_done(before.meaning(), item)
        },
        ReadOp::Call { item } => {
            &&& right(item)
            &&& before.stuck == SET
            &&& access == Access::<T>::CallWriter
            &&& now.wf()
            &&& now.meaning() == pop_done(before.meaning(), item).with_stuck(CLEAR)
        },
    }
}

spec fn read_steps_left<T>(op: ReadOp<T>) -> int {
    match op {
        ReadOp::Popping(op) => 3 + pop_steps_left(op),
        ReadOp::Peek { .. } => 2,
        ReadOp::Free { .. } => 1,
        ReadOp::Call { .. } => 0,
    }
}

} // verus!
