//! The scripts that the operations on a queue are made of.
//!
//! A script is a value that remembers which access it has asked for. `start` gives the first
//! access, `step` takes what came of an access and gives the next one or the result. Between two
//! accesses the other party may make accesses of its own.

use crate::counters::{
    counters_empty, is_set, pop_slot, push_slot, spec_pop_slot, spec_push_slot, CLEAR, SET,
};
use crate::memory::{Access, Reply, Step};
use vstd::prelude::*;

verus! {

/// Puts one item into a queue, or hands it back if the queue is full.
pub enum PushOp<T> {
    /// Has asked for the counters.
    Offer { item: T, buffer_len: usize },
    /// Has asked for the item to be put into its slot, which `next` will publish.
    Fill { next: u64 },
    /// Has asked for the new `tail`.
    Publish,
}

impl<T> PushOp<T> {
    /// Whether `reply` can have come of the access that was asked for. Counters must be in order;
    /// and if there is room, there must be a slot and a `tail` that can grow.
    pub open spec fn ready(self, reply: Reply<T>) -> bool {
        match self {
            PushOp::Offer { item, buffer_len } => match reply {
                Reply::Counters { head, tail } => {
                    &&& head <= tail
                    &&& tail - head != buffer_len ==> buffer_len > 0 && tail < u64::MAX
                },
                _ => false,
            },
            _ => reply is Done,
        }
    }

    /// What follows on `reply`.
    pub open spec fn next(self, reply: Reply<T>) -> Step<T, PushOp<T>, Result<(), T>> {
        match self {
            PushOp::Offer { item, buffer_len } => match spec_push_slot(
                reply->head as int,
                reply->tail as int,
                buffer_len as int,
            ) {
                None => Step::Done(Err(item)),
                Some((index, next)) => Step::Do(
                    Access::Write { index: index as usize, item },
                    PushOp::Fill { next: next as u64 },
                ),
            },
            PushOp::Fill { next } => Step::Do(Access::StoreTail(next), PushOp::Publish),
            PushOp::Publish => Step::Done(Ok(())),
        }
    }

    /// Begins to put `item` into a queue of `buffer_len` slots.
    pub fn start(item: T, buffer_len: usize) -> (r: (Access<T>, Self))
        ensures
            r == (Access::<T>::Counters, PushOp::Offer { item, buffer_len }),
    {
        (Access::Counters, PushOp::Offer { item, buffer_len })
    }

    /// Whether `reply` can have come of the access that was asked for.
    pub fn accepts(&self, reply: &Reply<T>) -> (ok: bool)
        ensures
            ok <==> self.ready(*reply),
    {
        match self {
            PushOp::Offer { item: _, buffer_len } => match reply {
                Reply::Counters { head, tail } => *head <= *tail && (*tail - *head
                    == *buffer_len as u64 || (*buffer_len > 0 && *tail < u64::MAX)),
                _ => false,
            },
            _ => matches!(reply, Reply::Done),
        }
    }

    /// Goes on after `reply`.
    pub fn step(self, reply: Reply<T>) -> (s: Step<T, PushOp<T>, Result<(), T>>)
        requires
            self.ready(reply),
        ensures
            s == self.next(reply),
    {
        match (self, reply) {
            (PushOp::Offer { item, buffer_len }, Reply::Counters { head, tail }) => match push_slot(
                head,
                tail,
                buffer_len,
            ) {
                None => Step::Done(Err(item)),
                Some(slot) => Step::Do(
                    Access::Write { index: slot.index, item },
                    PushOp::Fill { next: slot.next },
                ),
            },
            (PushOp::Fill { next }, _) => Step::Do(Access::StoreTail(next), PushOp::Publish),
            (PushOp::Offer { item, .. }, _) => Step::Done(Err(item)),
            (PushOp::Publish, _) => Step::Done(Ok(())),
        }
    }
}

/// Takes the oldest item out of a queue.
pub enum PopOp<T> {
    /// Has asked for the counters.
    Look { buffer_len: usize },
    /// Has asked for the item in its slot, which `next` will free.
    Take { next: u64 },
    /// Has asked for the new `head`.
    Retire { item: T },
}

impl<T> PopOp<T> {
    /// Whether `reply` can have come of the access that was asked for. If there is an item, there
    /// must be a slot and a `head` that can grow.
    pub open spec fn ready(self, reply: Reply<T>) -> bool {
        match self {
            PopOp::Look { buffer_len } => match reply {
                Reply::Counters { head, tail } => head != tail ==> buffer_len > 0 && head
                    < u64::MAX,
                _ => false,
            },
            PopOp::Take { next } => reply is Item,
            PopOp::Retire { item } => reply is Done,
        }
    }

    /// What follows on `reply`.
    pub open spec fn next(self, reply: Reply<T>) -> Step<T, PopOp<T>, Option<T>> {
        match self {
            PopOp::Look { buffer_len } => match spec_pop_slot(
                reply->head as int,
                reply->tail as int,
                buffer_len as int,
            ) {
                None => Step::Done(None),
                Some((index, next)) => Step::Do(
                    Access::Read { index: index as usize },
                    PopOp::Take { next: next as u64 },
                ),
            },
            PopOp::Take { next } => Step::Do(
                Access::StoreHead(next),
                PopOp::Retire { item: reply->Item_0 },
            ),
            PopOp::Retire { item } => Step::Done(Some(item)),
        }
    }

    /// Begins to take the oldest item out of a queue of `buffer_len` slots.
    pub fn start(buffer_len: usize) -> (r: (Access<T>, Self))
        ensures
            r == (Access::<T>::Counters, PopOp::<T>::Look { buffer_len }),
    {
        (Access::Counters, PopOp::Look { buffer_len })
    }

    /// Whether `reply` can have come of the access that was asked for.
    pub fn accepts(&self, reply: &Reply<T>) -> (ok: bool)
        ensures
            ok <==> self.ready(*reply),
    {
        match (self, reply) {
            (PopOp::Look { buffer_len }, Reply::Counters { head, tail }) => *head == *tail || (
            *buffer_len > 0 && *head < u64::MAX),
            (PopOp::Take { .. }, Reply::Item(_)) => true,
            (PopOp::Retire { .. }, Reply::Done) => true,
            _ => false,
        }
    }

    /// Goes on after `reply`.
    pub fn step(self, reply: Reply<T>) -> (s: Step<T, PopOp<T>, Option<T>>)
        requires
            self.ready(reply),
        ensures
            s == self.next(reply),
    {
        match (self, reply) {
            (PopOp::Look { buffer_len }, Reply::Counters { head, tail }) => match pop_slot(
                head,
                tail,
                buffer_len,
            ) {
                None => Step::Done(None),
                Some(slot) => Step::Do(
                    Access::Read { index: slot.index },
                    PopOp::Take { next: slot.next },
                ),
            },
            (PopOp::Take { next }, Reply::Item(item)) => Step::Do(
                Access::StoreHead(next),
                PopOp::Retire { item },
            ),
            (PopOp::Retire { item }, _) => Step::Done(Some(item)),
            _ => Step::Done(None),
        }
    }
}

/// Makes sure that the reader works or has been called. The result says whether it was called.
pub enum RouseOp {
    /// Has asked whether the reader works.
    Check,
    /// Has asked for the reader to be marked working.
    Mark,
    /// Has asked for the reader to be called.
    Call,
}

impl RouseOp {
    /// Whether `reply` can have come of the access that was asked for.
    pub open spec fn ready<T>(self, reply: Reply<T>) -> bool {
        match self {
            RouseOp::Check => reply is Flag,
            _ => reply is Done,
        }
    }

    /// What follows on `reply`.
    pub open spec fn next<T>(self, reply: Reply<T>) -> Step<T, RouseOp, bool> {
        match self {
            RouseOp::Check => if reply->Flag_0 == SET {
                Step::Done(false)
            } else {
                Step::Do(Access::StoreWorking(SET), RouseOp::Mark)
            },
            RouseOp::Mark => Step::Do(Access::CallReader, RouseOp::Call),
            RouseOp::Call => Step::Done(true),
        }
    }

    /// Begins to make sure that the reader works.
    pub fn start<T>() -> (r: (Access<T>, Self))
        ensures
            r == (Access::<T>::LoadWorking, RouseOp::Check),
    {
        (Access::LoadWorking, RouseOp::Check)
    }

    /// Whether `reply` can have come of the access that was asked for.
    pub fn accepts<T>(&self, reply: &Reply<T>) -> (ok: bool)
        ensures
            ok <==> self.ready(*reply),
    {
        match self {
            RouseOp::Check => matches!(reply, Reply::Flag(_)),
            _ => matches!(reply, Reply::Done),
        }
    }

    /// Goes on after `reply`.
    pub fn step<T>(self, reply: Reply<T>) -> (s: Step<T, RouseOp, bool>)
        requires
            self.ready(reply),
        ensures
            s == self.next(reply),
    {
        match (self, reply) {
            (RouseOp::Check, Reply::Flag(flag)) => if is_set(flag) {
                Step::Done(false)
            } else {
                Step::Do(Access::StoreWorking(SET), RouseOp::Mark)
            },
            (RouseOp::Mark, _) => Step::Do(Access::CallReader, RouseOp::Call),
            _ => Step::Done(true),
        }
    }
}

/// Takes the reader's flag down before the reader goes to sleep, and looks once more. The result
/// says whether the reader may sleep; if not, the flag is up again.
pub enum SleepOp {
    /// Has asked for the flag to go down.
    Lower,
    /// Has asked for the counters.
    Look,
    /// Has asked for the flag to go back up.
    Raise,
}

impl SleepOp {
    /// Whether `reply` can have come of the access that was asked for.
    pub open spec fn ready<T>(self, reply: Reply<T>) -> bool {
        match self {
            SleepOp::Look => reply is Counters,
            _ => reply is Done,
        }
    }

    /// What follows on `reply`.
    pub open spec fn next<T>(self, reply: Reply<T>) -> Step<T, SleepOp, bool> {
        match self {
            SleepOp::Lower => Step::Do(Access::Counters, SleepOp::Look),
            SleepOp::Look => if reply->head == reply->tail {
                Step::Done(true)
            } else {
                Step::Do(Access::StoreWorking(SET), SleepOp::Raise)
            },
            SleepOp::Raise => Step::Done(false),
        }
    }

    /// Begins to take the flag down.
    pub fn start<T>() -> (r: (Access<T>, Self))
        ensures
            r == (Access::<T>::StoreWorking(CLEAR), SleepOp::Lower),
    {
        (Access::StoreWorking(CLEAR), SleepOp::Lower)
    }

    /// Whether `reply` can have come of the access that was asked for.
    pub fn accepts<T>(&self, reply: &Reply<T>) -> (ok: bool)
        ensures
            ok <==> self.ready(*reply),
    {
        match self {
            SleepOp::Look => matches!(reply, Reply::Counters { .. }),
            _ => matches!(reply, Reply::Done),
        }
    }

    /// Goes on after `reply`.
    pub fn step<T>(self, reply: Reply<T>) -> (s: Step<T, SleepOp, bool>)
        requires
            self.ready(reply),
        ensures
            s == self.next(reply),
    {
        match (self, reply) {
            (SleepOp::Lower, _) => Step::Do(Access::Counters, SleepOp::Look),
            (SleepOp::Look, Reply::Counters { head, tail }) => if counters_empty(head, tail) {
                Step::Done(true)
            } else {
                Step::Do(Access::StoreWorking(SET), SleepOp::Raise)
            },
            _ => Step::Done(false),
        }
    }
}

} // verus!
