//! The reader that hands every item to a handler, and sleeps when there is nothing to do.
//!
//! The reader takes out items as long as there are any. Then it stays warm for a while: it yields
//! and looks again, and each item that shows up keeps it going. Only when nothing has come for the
//! whole while does it take its flag down and wait to be called.

use crate::counters::{counters_empty, CLEAR, SET};
use crate::memory::{Access, Reply, Step};
use crate::read_queue::{ReadOp, ReadQueue};
use crate::script::{PopOp, SleepOp};
use vstd::prelude::*;

verus! {

/// How long the reader stays warm, in nanoseconds.
pub const WARM_NANOS: u64 = 200_000;

/// What the reader asks for.
pub enum Action<T> {
    /// An access to the shared memory.
    Access(Access<T>),
    /// Hand this item to the handler.
    Handle(T),
    /// Read the clock.
    Clock,
    /// Let other tasks run.
    Yield,
    /// Wait until the reader is called or nobody wants it to go on.
    Wait,
    /// Nothing more.
    Stop,
}

/// What came of it.
pub enum Event<T> {
    /// The access gave this.
    Reply(Reply<T>),
    /// The handler has returned, or the other tasks have run.
    Resumed,
    /// The clock shows this many nanoseconds.
    Now(u64),
    /// The reader has been called.
    Called,
    /// Nobody wants the reader to go on.
    Exit,
}

/// What the reader is about.
pub enum Phase<T> {
    /// Has asked for its flag to go up.
    Rise,
    /// Takes out an item.
    Draining(ReadOp<T>),
    /// Has handed an item to the handler.
    Handled,
    /// Has asked for the time, to stay warm from then on.
    Opening,
    /// Has asked for the time, to see whether it has stayed warm for long enough.
    Checking { deadline: u64 },
    /// Has let other tasks run.
    Yielded { deadline: u64 },
    /// Takes out an item that may have come meanwhile.
    Warm { op: ReadOp<T>, deadline: u64 },
    /// Has found no item and looks whether one has come since.
    Looking { deadline: u64 },
    /// Takes its flag down.
    Settling(SleepOp),
    /// Waits to be called.
    Waiting,
    /// Has come to its end.
    Stopped,
}

/// The reader of a queue of `buffer_len` slots.
pub struct Handler<T> {
    pub buffer_len: usize,
    pub phase: Phase<T>,
}

/// The first access of a pop.
pub open spec fn pop_start<T>() -> Action<T> {
    Action::Access(Access::Counters)
}

impl<T> Handler<T> {
    /// The reader in another phase.
    pub open spec fn to(self, phase: Phase<T>) -> Self {
        Handler { phase, ..self }
    }

    /// A fresh pop.
    pub open spec fn fresh(self) -> ReadOp<T> {
        ReadOp::Popping(PopOp::Look { buffer_len: self.buffer_len })
    }

    /// Whether `event` can have come of what was asked for. The time must leave room for the
    /// while during which the reader stays warm.
    pub open spec fn ready(self, event: Event<T>) -> bool {
        match self.phase {
            Phase::Rise => event is Reply && event->Reply_0 is Done,
            Phase::Draining(op) => event is Reply && op.ready(event->Reply_0),
            Phase::Warm { op, deadline } => event is Reply && op.ready(event->Reply_0),
            Phase::Looking { deadline } => event is Reply && event->Reply_0 is Counters,
            Phase::Settling(op) => event is Reply && op.ready(event->Reply_0),
            Phase::Handled => event is Resumed,
            Phase::Yielded { deadline } => event is Resumed,
            Phase::Opening => event is Now && event->Now_0 + WARM_NANOS <= u64::MAX,
            Phase::Checking { deadline } => event is Now,
            Phase::Waiting => event is Called || event is Exit,
            Phase::Stopped => false,
        }
    }

    /// What follows on `event`.
    pub open spec fn next(self, event: Event<T>) -> (Action<T>, Handler<T>) {
        match self.phase {
            Phase::Rise => (pop_start(), self.to(Phase::Draining(self.fresh()))),
            Phase::Draining(op) => match op.next(event->Reply_0) {
                Step::Do(access, op) => (Action::Access(access), self.to(Phase::Draining(op))),
                Step::Done(Some(item)) => (Action::Handle(item), self.to(Phase::Handled)),
                Step::Done(None) => (Action::Clock, self.to(Phase::Opening)),
            },
            Phase::Handled => (pop_start(), self.to(Phase::Draining(self.fresh()))),
            Phase::Opening => (
                Action::Clock,
                self.to(Phase::Checking { deadline: (event->Now_0 + WARM_NANOS) as u64 }),
            ),
            Phase::Checking { deadline } => if event->Now_0 >= deadline {
                (
                    Action::Access(Access::StoreWorking(CLEAR)),
                    self.to(Phase::Settling(SleepOp::Lower)),
                )
            } else {
                (Action::Yield, self.to(Phase::Yielded { deadline }))
            },
            Phase::Yielded { deadline } => (
                pop_start(),
                self.to(Phase::Warm { op: self.fresh(), deadline }),
            ),
            Phase::Warm { op, deadline } => match op.next(event->Reply_0) {
                Step::Do(access, op) => (
                    Action::Access(access),
                    self.to(Phase::Warm { op, deadline }),
                ),
                Step::Done(Some(item)) => (Action::Handle(item), self.to(Phase::Handled)),
                Step::Done(None) => (
                    Action::Access(Access::Counters),
                    self.to(Phase::Looking { deadline }),
                ),
            },
            Phase::Looking { deadline } => if event->Reply_0->head == event->Reply_0->tail {
                (Action::Clock, self.to(Phase::Checking { deadline }))
            } else {
                (Action::Clock, self.to(Phase::Opening))
            },
            Phase::Settling(op) => match op.next(event->Reply_0) {
                Step::Do(access, op) => (Action::Access(access), self.to(Phase::Settling(op))),
                Step::Done(may_sleep) => if may_sleep {
                    (Action::Wait, self.to(Phase::Waiting))
                } else {
                    (pop_start(), self.to(Phase::Draining(self.fresh())))
                },
            },
            Phase::Waiting => if event is Called {
                (Action::Access(Access::StoreWorking(SET)), self.to(Phase::Rise))
            } else {
                (Action::Stop, self.to(Phase::Stopped))
            },
            Phase::Stopped => (Action::Stop, self),
        }
    }

    /// Whether `event` can have come of what was asked for.
    pub fn accepts(&self, event: &Event<T>) -> (ok: bool)
        ensures
            ok <==> self.ready(*event),
    {
        match (&self.phase, event) {
            (Phase::Rise, Event::Reply(Reply::Done)) => true,
            (Phase::Draining(op), Event::Reply(reply)) => op.accepts(reply),
            (Phase::Warm { op, .. }, Event::Reply(reply)) => op.accepts(reply),
            (Phase::Looking { .. }, Event::Reply(Reply::Counters { .. })) => true,
            (Phase::Settling(op), Event::Reply(reply)) => op.accepts(reply),
            (Phase::Handled, Event::Resumed) => true,
            (Phase::Yielded { .. }, Event::Resumed) => true,
            (Phase::Opening, Event::Now(now)) => *now <= u64::MAX - WARM_NANOS,
            (Phase::Checking { .. }, Event::Now(_)) => true,
            (Phase::Waiting, Event::Called) => true,
            (Phase::Waiting, Event::Exit) => true,
            _ => false,
        }
    }

    /// Begins another round of taking out items.
    fn drain(buffer_len: usize) -> (r: (Action<T>, Self))
        ensures
            r.0 == pop_start::<T>(),
            r.1.buffer_len == buffer_len,
            r.1.phase == Phase::Draining(r.1.fresh()),
    {
        let (access, op) = ReadOp::start(buffer_len);
        (Action::Access(access), Handler { buffer_len, phase: Phase::Draining(op) })
    }

    /// Goes on after `event`.
    pub fn step(self, event: Event<T>) -> (r: (Action<T>, Handler<T>))
        requires
            self.ready(event),
        ensures
            r == self.next(event),
    {
        let Handler { buffer_len, phase } = self;
        let (action, phase) = match (phase, event) {
            (Phase::Rise, _) => return Self::drain(buffer_len),
            (Phase::Handled, _) => return Self::drain(buffer_len),
            (Phase::Draining(op), Event::Reply(reply)) => match op.step(reply) {
                Step::Do(access, op) => (Action::Access(access), Phase::Draining(op)),
                Step::Done(Some(item)) => (Action::Handle(item), Phase::Handled),
                Step::Done(None) => (Action::Clock, Phase::Opening),
            },
            (Phase::Opening, Event::Now(now)) => (
                Action::Clock,
                Phase::Checking { deadline: now + WARM_NANOS },
            ),
            (Phase::Checking { deadline }, Event::Now(now)) => if now >= deadline {
                let (access, op) = SleepOp::start();
                (Action::Access(access), Phase::Settling(op))
            } else {
                (Action::Yield, Phase::Yielded { deadline })
            },
            (Phase::Yielded { deadline }, _) => {
                let (access, op) = ReadOp::start(buffer_len);
                (Action::Access(access), Phase::Warm { op, deadline })
            },
            (Phase::Warm { op, deadline }, Event::Reply(reply)) => match op.step(reply) {
                Step::Do(access, op) => (Action::Access(access), Phase::Warm { op, deadline }),
                Step::Done(Some(item)) => (Action::Handle(item), Phase::Handled),
                Step::Done(None) => (Action::Access(Access::Counters), Phase::Looking { deadline }),
            },
            (Phase::Looking { deadline }, Event::Reply(Reply::Counters { head, tail })) => {
                if counters_empty(head, tail) {
                    (Action::Clock, Phase::Checking { deadline })
                } else {
                    (Action::Clock, Phase::Opening)
                }
            },
            (Phase::Settling(op), Event::Reply(reply)) => match op.step(reply) {
                Step::Do(access, op) => (Action::Access(access), Phase::Settling(op)),
                Step::Done(may_sleep) => if may_sleep {
                    (Action::Wait, Phase::Waiting)
                } else {
                    return Self::drain(buffer_len);
                },
            },
            (Phase::Waiting, Event::Called) => (
                Action::Access(Access::StoreWorking(SET)),
                Phase::Rise,
            ),
            _ => (Action::Stop, Phase::Stopped),
        };
        (action, Handler { buffer_len, phase })
    }
}

/// How the service of a handler begins, on a queue of `buffer_len` slots.
pub open spec fn service_start<T>(buffer_len: usize) -> (Action<T>, Handler<T>) {
    (Action::Access(Access::StoreWorking(SET)), Handler { buffer_len, phase: Phase::Rise })
}

impl<T> ReadQueue<T> {
    /// Begins to read for a handler: the reader first says that it works.
    pub fn handler(&self) -> (r: (Action<T>, Handler<T>))
        ensures
            r.0 == Action::Access(Access::<T>::StoreWorking(SET)),
            r.1 == (Handler::<T> {
                buffer_len: self.queue().known().buffer_len,
                phase: Phase::Rise,
            }),
            r == service_start::<T>(self.queue().known().buffer_len),
    {
        (
            Action::Access(Access::StoreWorking(SET)),
            Handler { buffer_len: self.meta().buffer_len, phase: Phase::Rise },
        )
    }
}

} // verus!
