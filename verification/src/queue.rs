//! The shared memory of a queue and a handle on it.

use crate::counters::{counters_empty, counters_full, is_set, occupied, slot_of, CLEAR, SET};
use crate::memory::{
    lemma_flags_apart, lemma_put, lemma_take, Access, Memory, Ring, RingView, Step,
};
use crate::script::{PopOp, PushOp, SleepOp};
use std::marker::PhantomData;
use vstd::prelude::*;

verus! {

/// What a party must know to reach a queue: where its words lie and which descriptors wake it.
#[derive(Debug, Clone, Copy, PartialEq, Eq, Structural)]
pub struct QueueMeta {
    pub buffer_ptr: usize,
    pub buffer_len: usize,
    pub head_ptr: usize,
    pub tail_ptr: usize,
    pub working_ptr: usize,
    pub stuck_ptr: usize,
    pub working_fd: i32,
    pub unstuck_fd: i32,
}

/// The addresses at which the memory of a queue has been laid out.
#[derive(Debug, Clone, Copy, PartialEq, Eq, Structural)]
pub struct Placement {
    pub buffer_ptr: usize,
    pub head_ptr: usize,
    pub tail_ptr: usize,
    pub working_ptr: usize,
    pub stuck_ptr: usize,
}

impl Placement {
    /// Completes the addresses to what a party with these descriptors must know.
    pub open spec fn meta(self, buffer_len: usize, working_fd: i32, unstuck_fd: i32) -> QueueMeta {
        QueueMeta {
            buffer_ptr: self.buffer_ptr,
            buffer_len,
            head_ptr: self.head_ptr,
            tail_ptr: self.tail_ptr,
            working_ptr: self.working_ptr,
            stuck_ptr: self.stuck_ptr,
            working_fd,
            unstuck_fd,
        }
    }
}

/// A handle on a queue: where its memory is, and whether this party must free it.
pub struct Queue<T> {
    meta: QueueMeta,
    do_drop: bool,
    _items: PhantomData<T>,
}

impl<T> Queue<T> {
    /// What this party knows of the queue.
    pub closed spec fn known(self) -> QueueMeta {
        self.meta
    }

    /// Whether this party frees the memory in the end.
    pub closed spec fn owns_memory(self) -> bool {
        self.do_drop
    }

    /// Whether `ring` has the size that this handle was made for.
    pub open spec fn spans(self, ring: Ring<T>) -> bool {
        ring@.capacity == self.known().buffer_len
    }

    /// A handle on a queue of `size` slots that has just been laid out at `place`, and what the
    /// other party must be told to reach it. Of each pair of descriptors, the first stays here
    /// and the second goes to the other party.
    pub fn new(size: usize, place: Placement, working: (i32, i32), unstuck: (i32, i32)) -> (r: (
        Self,
        QueueMeta,
    ))
        ensures
            r.0.known() == place.meta(size, working.0, unstuck.0),
            r.0.owns_memory(),
            r.1 == place.meta(size, working.1, unstuck.1),
            r.0.known().buffer_len == size,
            r.1.buffer_len == size,
            r.0.known().working_fd == working.0,
            r.0.known().unstuck_fd == unstuck.0,
            r.1.working_fd == working.1,
            r.1.unstuck_fd == unstuck.1,
    {
        let queue = Queue {
            meta: QueueMeta {
                buffer_ptr: place.buffer_ptr,
                buffer_len: size,
                head_ptr: place.head_ptr,
                tail_ptr: place.tail_ptr,
                working_ptr: place.working_ptr,
                stuck_ptr: place.stuck_ptr,
                working_fd: working.0,
                unstuck_fd: unstuck.0,
            },
            do_drop: true,
            _items: PhantomData,
        };
        let meta = QueueMeta {
            buffer_ptr: queue.meta.buffer_ptr,
            buffer_len: queue.meta.buffer_len,
            head_ptr: queue.meta.head_ptr,
            tail_ptr: queue.meta.tail_ptr,
            working_ptr: queue.meta.working_ptr,
            stuck_ptr: queue.meta.stuck_ptr,
            working_fd: working.1,
            unstuck_fd: unstuck.1,
        };
        (queue, meta)
    }

    /// A handle on a queue that the other party laid out and keeps.
    pub fn new_from_meta(meta: &QueueMeta) -> (queue: Self)
        ensures
            queue.known() == *meta,
            !queue.owns_memory(),
    {
        Queue { meta: *meta, do_drop: false, _items: PhantomData }
    }

    /// Whether this party frees the memory in the end.
    pub fn is_memory_owner(&self) -> (owner: bool)
        ensures
            owner == self.owns_memory(),
    {
        self.do_drop
    }

    /// What this party knows of the queue.
    pub fn meta(&self) -> (meta: QueueMeta)
        ensures
            meta == self.known(),
    {
        self.meta
    }

    /// What must be freed and closed when this handle goes away: everything it names if it owns
    /// the memory, else nothing.
    pub fn reclaims(&self) -> (meta: Option<QueueMeta>)
        ensures
            meta == (if self.owns_memory() { Some(self.known()) } else { None }),
            meta == reclaimed(self.owns_memory(), self.known()),
    {
        if self.do_drop {
            Some(self.meta)
        } else {
            None
        }
    }

    /// The number of items in the queue.
    pub fn len(&self, ring: &Ring<T>) -> (n: usize)
        requires
            ring.wf(),
        ensures
            n == ring@.items.len(),
    {
        let (head, tail) = ring.counters();
        proof {
            ring.lemma_bounds();
        }
        occupied(head, tail) as usize
    }

    /// Whether the queue holds no item.
    pub fn is_empty(&self, ring: &Ring<T>) -> (empty: bool)
        requires
            ring.wf(),
        ensures
            empty <==> ring@.items.len() == 0,
    {
        let (head, tail) = ring.counters();
        counters_empty(head, tail)
    }

    /// Whether every slot of the queue is taken.
    pub fn is_full(&self, ring: &Ring<T>) -> (full: bool)
        requires
            ring.wf(),
            self.spans(*ring),
        ensures
            full <==> ring@.is_full(),
    {
        let (head, tail) = ring.counters();
        counters_full(head, tail, self.meta.buffer_len)
    }

    /// Puts `item` behind all others, or hands it back if every slot is taken.
    pub fn push(&self, ring: &mut Ring<T>, item: T) -> (r: Result<(), T>)
        requires
            old(ring).wf(),
            self.spans(*old(ring)),
            old(ring)@.is_full() || old(ring)@.tail() < u64::MAX,
        ensures
            final(ring).wf(),
            match r {
                Ok(()) => !old(ring)@.is_full() && final(ring)@ == old(ring)@.pushed(item),
                Err(back) => old(ring)@.is_full() && back == item && final(ring)@ == old(ring)@,
            },
            put(old(ring)@, item, r, final(ring)@),
    {
        let ghost before = ring.memory();
        let (mut access, mut op) = PushOp::start(item, self.meta.buffer_len);
        loop
            invariant
                before == old(ring).memory(),
                before.wf(),
                before.meaning().is_full() || before.tail < u64::MAX,
                before.slots.len() == self.known().buffer_len,
                push_under_way(before, item, access, op, ring.memory()),
            decreases push_steps_left(op),
        {
            proof {
                if let PushOp::Fill { next } = op {
                    lemma_put(before, access->Write_index, item, next);
                }
            }
            let reply = ring.perform(access);
            match op.step(reply) {
                Step::Do(next_access, next_op) => {
                    access = next_access;
                    op = next_op;
                },
                Step::Done(r) => {
                    proof {
                        if !before.meaning().is_full() {
                            let index = slot_of(before.tail as int, before.slots.len() as int);
                            lemma_put(before, index as usize, item, (before.tail + 1) as u64);
                        }
                    }
                    return r;
                },
            }
        }
    }

    /// Takes the oldest item out.
    pub fn pop(&self, ring: &mut Ring<T>) -> (item: Option<T>)
        requires
            old(ring).wf(),
            self.spans(*old(ring)),
        ensures
            final(ring).wf(),
            match item {
                Some(x) => {
                    &&& old(ring)@.items.len() > 0
                    &&& x == old(ring)@.items[0]
                    &&& final(ring)@ == old(ring)@.popped()
                },
                None => old(ring)@.items.len() == 0 && final(ring)@ == old(ring)@,
            },
            taken(old(ring)@, item, final(ring)@),
    {
        let ghost before = ring.memory();
        let (mut access, mut op) = PopOp::start(self.meta.buffer_len);
        loop
            invariant
                before == old(ring).memory(),
                before.wf(),
                before.slots.len() == self.known().buffer_len,
                pop_under_way(before, access, op, ring.memory()),
            decreases pop_steps_left(op),
        {
            proof {
                if before.head < before.tail {
                    let index = slot_of(before.head as int, before.slots.len() as int);
                    lemma_take(before, index as usize, (before.head + 1) as u64);
                }
            }
            let reply = ring.perform(access);
            match op.step(reply) {
                Step::Do(next_access, next_op) => {
                    access = next_access;
                    op = next_op;
                },
                Step::Done(item) => return item,
            }
        }
    }

    /// Takes the reader's flag down before the reader goes to sleep. If there is an item to read
    /// after all, the flag goes back up and the reader must stay awake.
    pub fn mark_unworking(&self, ring: &mut Ring<T>) -> (may_sleep: bool)
        requires
            old(ring).wf(),
        ensures
            final(ring).wf(),
            may_sleep <==> old(ring)@.items.len() == 0,
            final(ring)@ == old(ring)@.with_working(
                if may_sleep {
                    CLEAR
                } else {
                    SET
                },
            ),
            dozed(old(ring)@, may_sleep, final(ring)@),
    {
        let ghost before = ring.memory();
        let (mut access, mut op): (Access<T>, SleepOp) = SleepOp::start();
        loop
            invariant
                before == old(ring).memory(),
                before.wf(),
                sleep_under_way(before, access, op, ring.memory()),
            decreases sleep_steps_left(op),
        {
            let reply = ring.perform(access);
            match op.step(reply) {
                Step::Do(next_access, next_op) => {
                    access = next_access;
                    op = next_op;
                },
                Step::Done(may_sleep) => {
                    proof {
                        lemma_flags_apart(before, ring.memory());
                    }
                    return may_sleep;
                },
            }
        }
    }

    /// Says that the reader works, or is being called.
    pub fn mark_working(&self, ring: &mut Ring<T>)
        requires
            old(ring).wf(),
        ensures
            final(ring).wf(),
            final(ring)@ == old(ring)@.with_working(SET),
    {
        ring.perform(Access::StoreWorking(SET));
        proof {
            lemma_flags_apart(old(ring).memory(), ring.memory());
        }
    }

    /// Whether the reader works, or is being called.
    pub fn working(&self, ring: &Ring<T>) -> (up: bool)
        ensures
            up <==> ring@.working == SET,
    {
        is_set(ring.working_word())
    }

    /// Says that the writer no longer waits for room.
    pub fn mark_unstuck(&self, ring: &mut Ring<T>)
        requires
            old(ring).wf(),
        ensures
            final(ring).wf(),
            final(ring)@ == old(ring)@.with_stuck(CLEAR),
    {
        ring.perform(Access::StoreStuck(CLEAR));
        proof {
            lemma_flags_apart(old(ring).memory(), ring.memory());
        }
    }

    /// Says that the writer waits for room.
    pub fn mark_stuck(&self, ring: &mut Ring<T>)
        requires
            old(ring).wf(),
        ensures
            final(ring).wf(),
            final(ring)@ == old(ring)@.with_stuck(SET),
    {
        ring.perform(Access::StoreStuck(SET));
        proof {
            lemma_flags_apart(old(ring).memory(), ring.memory());
        }
    }

    /// Whether the writer waits for room.
    pub fn stuck(&self, ring: &Ring<T>) -> (up: bool)
        ensures
            up <==> ring@.stuck == SET,
    {
        is_set(ring.stuck_word())
    }
}

/// What a party has to free and close in the end that knows a queue as `known`.
pub open spec fn reclaimed(owner: bool, known: QueueMeta) -> Option<QueueMeta> {
    if owner {
        Some(known)
    } else {
        None
    }
}

/// What a push does to a ring: the item goes in behind all others unless every slot is taken, and
/// is handed back if it does not.
pub open spec fn put<T>(
    ring: RingView<T>,
    item: T,
    r: Result<(), T>,
    ring_after: RingView<T>,
) -> bool {
    match r {
        Ok(()) => ring.items.len() < ring.capacity && ring_after == ring.pushed(item),
        Err(back) => ring.items.len() == ring.capacity && back == item && ring_after == ring,
    }
}

/// What a pop does to a ring: the oldest item comes out, if there is one.
pub open spec fn taken<T>(
    ring: RingView<T>,
    item: Option<T>,
    ring_after: RingView<T>,
) -> bool {
    match item {
        Some(x) => ring.items.len() > 0 && x == ring.items[0] && ring_after == ring.popped(),
        None => ring.items.len() == 0 && ring_after == ring,
    }
}

/// What a reader does to a ring that takes its flag down: the flag is down if there is no item to
/// read, and else up.
pub open spec fn dozed<T>(ring: RingView<T>, may_sleep: bool, ring_after: RingView<T>) -> bool {
    &&& may_sleep <==> ring.items.len() == 0
    &&& ring_after == ring.with_working(
        if may_sleep {
            CLEAR
        } else {
            SET
        },
    )
}

/// Where a push of `item` stands that found the memory as `before` and has it to itself.
pub(crate) open spec fn push_under_way<T>(
    before: Memory<T>,
    item: T,
    access: Access<T>,
    op: PushOp<T>,
    now: Memory<T>,
) -> bool {
    let len = before.slots.len() as int;
    let index = slot_of(before.tail as int, len);
    let next = (before.tail + 1) as u64;
    match op {
        PushOp::Offer { item: held, buffer_len } => {
            &&& held == item
            &&& buffer_len == len
            &&& access == Access::<T>::Counters
            &&& now == before
        },
        PushOp::Fill { next: n } => {
            &&& !before.meaning().is_full()
            &&& n == next
            &&& access == Access::Write { index: index as usize, item }
            &&& now == before
        },
        PushOp::Publish => {
            &&& !before.meaning().is_full()
            &&& access == Access::<T>::StoreTail(next)
            &&& now == before.after(Access::Write { index: index as usize, item })
        },
    }
}

/// Where a pop stands that found the memory as `before` and has it to itself.
pub(crate) open spec fn pop_under_way<T>(
    before: Memory<T>,
    access: Access<T>,
    op: PopOp<T>,
    now: Memory<T>,
) -> bool {
    let len = before.slots.len() as int;
    let read = Access::<T>::Read { index: slot_of(before.head as int, len) as usize };
    let next = (before.head + 1) as u64;
    match op {
        PopOp::Look { buffer_len } => {
            &&& buffer_len == len
            &&& access == Access::<T>::Counters
            &&& now == before
        },
        PopOp::Take { next: n } => {
            &&& before.head < before.tail
            &&& n == next
            &&& access == read
            &&& now == before
        },
        PopOp::Retire { item } => {
            &&& before.head < before.tail
            &&& item == before.meaning().items[0]
            &&& access == Access::<T>::StoreHead(next)
            &&& now == before.after(read)
        },
    }
}

/// Where a reader stands that is about to sleep, found the memory as `before` and has it to
/// itself.
pub(crate) open spec fn sleep_under_way<T>(
    before: Memory<T>,
    access: Access<T>,
    op: SleepOp,
    now: Memory<T>,
) -> bool {
    match op {
        SleepOp::Lower => access == Access::<T>::StoreWorking(CLEAR) && now == before,
        SleepOp::Look => access == Access::<T>::Counters && now == before.after(
            Access::StoreWorking(CLEAR),
        ),
        SleepOp::Raise => {
            &&& before.head < before.tail
            &&& access == Access::<T>::StoreWorking(SET)
            &&& now == before.after(Access::StoreWorking(CLEAR))
        },
    }
}

pub(crate) open spec fn pop_steps_left<T>(op: PopOp<T>) -> int {
    match op {
        PopOp::Look { .. } => 2,
        PopOp::Take { .. } => 1,
        PopOp::Retire { .. } => 0,
    }
}

pub(crate) open spec fn sleep_steps_left(op: SleepOp) -> int {
    match op {
        SleepOp::Lower => 2,
        SleepOp::Look => 1,
        SleepOp::Raise => 0,
    }
}

pub(crate) open spec fn push_steps_left<T>(op: PushOp<T>) -> int {
    match op {
        PushOp::Offer { .. } => 2,
        PushOp::Fill { .. } => 1,
        PushOp::Publish => 0,
    }
}

} // verus!
