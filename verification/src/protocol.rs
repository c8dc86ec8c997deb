//! The two parties at work at the same time.
//!
//! A [`World`] is the shared memory together with a writing party and a reading party, each in the
//! middle of a script. Every [`Move`] is a single access of one of them, or something that happens
//! to one of them between two accesses; moves of the two parties follow each other in any order.
//! The accesses to the memory are taken to happen one after the other, so nothing is said of
//! accesses that a machine lets overtake each other. A party may also believe that it has been
//! called when it has not.

use crate::counters::{lemma_slots_differ, slot_of, CLEAR, SET};
use crate::handler::{Action, Event, Handler, Phase};
use crate::memory::{Access, Memory, Step};
use crate::read_queue::ReadOp;
use crate::script::{PopOp, PushOp, RouseOp, SleepOp};
use crate::waker::{polled, wait_ended, woken, Waiter, WakerSlot};
use crate::write_queue::{
    data_of, flush_from, flush_next, waiters_of, FlushOp, PendingTask, WriteOp,
};
use std::task::Waker;
use vstd::prelude::*;

verus! {

/// What the writing party is in the middle of, with the access that it has asked for.
pub enum Writer<T> {
    Idle,
    /// A push.
    Writing(Access<T>, WriteOp<T>),
    /// The care for the reader, asked for by hand.
    Rousing(Access<T>, RouseOp),
    /// A round over the waiting items.
    Flushing(Access<T>, FlushOp<T>),
}

/// What the reading party is in the middle of.
pub enum Reader<T> {
    Resting,
    /// A pop, asked for by hand, with the access that it has asked for.
    Popping(Access<T>, ReadOp<T>),
    /// The service of a handler, with what it has asked for.
    Serving(Action<T>, Handler<T>),
}

/// An item that had to wait for room, with the slot that its sender asks.
pub struct Ticket<T> {
    pub task: PendingTask<T>,
    /// What is in the slot.
    pub slot: WakerSlot,
    /// The waker of whoever asked last and was told to wait.
    pub asked: Option<Waker>,
    /// The wakers that were woken through the slot, from first to last.
    pub woken: Seq<Waker>,
    /// How many items had been put into the ring before this one, once it is in it.
    pub place: Option<nat>,
}

/// Two parties and what they share.
pub struct World<T> {
    pub memory: Memory<T>,
    pub writer: Writer<T>,
    /// The items that wait for room.
    pub pending: Seq<PendingTask<T>>,
    /// Whether a round over the waiting items is due.
    pub flush_due: bool,
    /// How many calls to the reader the writing party has put off.
    pub calls_due: nat,
    pub reader: Reader<T>,
    /// What `head` was at the beginning.
    pub first: nat,
    /// The items that were in the ring at the beginning, and then those that the writing party was
    /// asked to push, from first to last.
    pub offered: Seq<T>,
    /// Whether any of them ever had to wait for room.
    pub parked: bool,
    /// The items that were in the ring at the beginning, and then those put into slots, from first
    /// to last.
    pub sent: Seq<T>,
    /// The items that the reading party has handed on, from first to last.
    pub received: Seq<T>,
    /// Whether an item was put in quietly and nobody has looked after the reader since.
    pub quiet: bool,
    /// All items that ever had to wait for room, from first to last.
    pub tickets: Seq<Ticket<T>>,
    /// How many of them have been moved into the ring.
    pub moved: nat,
    /// Whether the slot of the item that was moved last is still to be woken.
    pub wake_due: bool,
    /// The slots that were to be woken, from first to last.
    pub wakes: Seq<Waiter>,
}

/// One thing that can happen.
pub enum Move<T> {
    /// The writing party begins to push an item.
    Push { item: T, rouse: bool },
    /// The writing party begins to look after the reader.
    Nudge,
    /// The writing party begins a round over the waiting items.
    Flush,
    /// The writing party makes its access. An item that is handed back waits with this slot.
    WriterAccess { waiter: Option<Waiter> },
    /// The writing party wakes the slot of the item that it has moved, and leaves it as `after`:
    /// what `wake_waiter` ensures of the slot that it finds.
    Wake { after: WakerSlot },
    /// The writing party puts off the call to the reader that it has come to, and is free for
    /// something else.
    PutOff,
    /// A call to the reader that was put off is made.
    Call,
    /// The writing party hears a call, or believes that it does.
    WriterHears,
    /// The sender of an item that had to wait asks after it, and leaves the slot as `after`: what
    /// `PushJoinHandle::poll` ensures of the slot that it finds.
    Poll { ticket: int, waker: Waker, after: WakerSlot, ready: bool },
    /// The reading party begins to pop an item by hand.
    Pop,
    /// The reading party begins to serve a handler.
    Serve,
    /// The reading party makes its access.
    ReaderAccess,
    /// What the reading party has asked for, and is no access, comes about.
    ReaderEvent(Event<T>),
}

impl<T> Writer<T> {
    /// The access that the writing party has asked for.
    pub open spec fn asked(self) -> Access<T> {
        match self {
            Writer::Idle => Access::Counters,
            Writer::Writing(access, _) => access,
            Writer::Rousing(access, _) => access,
            Writer::Flushing(access, _) => access,
        }
    }

    /// Whether the writing party is looking after the reader, or will do so in what it is at.
    pub open spec fn attends(self) -> bool {
        match self {
            Writer::Idle => false,
            Writer::Writing(_, op) => op is Rousing,
            Writer::Rousing(_, _) => true,
            Writer::Flushing(_, op) => op is Offering || op is Rousing,
        }
    }

    /// Whether the writing party has marked the reader working and is about to call it.
    pub open spec fn calls(self) -> bool {
        match self {
            Writer::Idle => false,
            Writer::Writing(_, op) => op == WriteOp::<T>::Rousing(RouseOp::Call),
            Writer::Rousing(_, op) => op is Call,
            Writer::Flushing(_, op) => op == FlushOp::<T>::Rousing(RouseOp::Call),
        }
    }

    /// The push that the writing party is in the middle of, with its access.
    pub open spec fn pushing(self) -> Option<(Access<T>, PushOp<T>)> {
        match self {
            Writer::Writing(access, WriteOp::Offering { op, buffer_len, rouse }) => Some(
                (access, op),
            ),
            Writer::Flushing(access, FlushOp::Offering { op, waiter }) => Some((access, op)),
            _ => None,
        }
    }

    /// The item that the writing party is about to put into a slot, or to let wait.
    pub open spec fn at_hand(self) -> Seq<T> {
        match self.pushing() {
            Some((_, PushOp::Offer { item, buffer_len })) => seq![item],
            Some((access, PushOp::Fill { next })) => seq![access->Write_item],
            _ => match self {
                Writer::Writing(_, WriteOp::Stick { item, buffer_len }) => seq![item],
                Writer::Writing(_, WriteOp::Look { item, buffer_len }) => seq![item],
                _ => Seq::empty(),
            },
        }
    }

    /// Whether the writing party has an item in hand that had to wait.
    pub open spec fn offers(self) -> bool {
        self matches Writer::Flushing(_, op) && op is Offering
    }
}

impl<T> Reader<T> {
    /// The access that the reading party has asked for.
    pub open spec fn asked(self) -> Option<Access<T>> {
        match self {
            Reader::Resting => None,
            Reader::Popping(access, _) => Some(access),
            Reader::Serving(action, _) => match action {
                Action::Access(access) => Some(access),
                _ => None,
            },
        }
    }

    /// The pop that the reading party is in the middle of.
    pub open spec fn popping(self) -> Option<ReadOp<T>> {
        match self {
            Reader::Resting => None,
            Reader::Popping(_, op) => Some(op),
            Reader::Serving(_, handler) => match handler.phase {
                Phase::Draining(op) => Some(op),
                Phase::Warm { op, deadline } => Some(op),
                _ => None,
            },
        }
    }

    /// Whether the reading party sleeps.
    pub open spec fn sleeps(self) -> bool {
        self matches Reader::Serving(action, _) && action is Wait
    }

    /// Whether the reading party has marked the writer as not waiting and is about to call it.
    pub open spec fn calls(self) -> bool {
        self.popping() matches Some(op) && op is Call
    }

    /// Whether the reading party, in the pop it is at, has yet to look whether the writer waits and
    /// no longer has to find an item for that, or has looked and seen that it does.
    pub open spec fn looks(self) -> bool {
        self.popping() matches Some(op) && (op is Peek || op is Free)
    }

    /// The item that has left the ring and has not been handed on yet.
    pub open spec fn in_hand(self) -> Seq<T> {
        let item = match self.popping() {
            Some(ReadOp::Peek { item }) => item,
            Some(ReadOp::Free { item }) => item,
            Some(ReadOp::Call { item }) => item,
            _ => match self {
                Reader::Serving(Action::Handle(item), _) => Some(item),
                _ => None,
            },
        };
        match item {
            Some(x) => seq![x],
            None => Seq::empty(),
        }
    }
}

impl<T> World<T> {
    pub open spec fn len(self) -> int {
        self.memory.slots.len() as int
    }

    /// The access that the reading party has asked for.
    pub open spec fn wanted(self) -> Access<T> {
        self.reader.asked()->0
    }

    /// Whether `m` can happen. The accesses that the parties ask for can always be made, see
    /// `law_accesses_are_safe`; what is asked here is only that the counters and the clock do not
    /// run out.
    pub open spec fn enabled(self, m: Move<T>) -> bool {
        match m {
            Move::Push { item, rouse } => self.writer is Idle,
            Move::Nudge => self.writer is Idle,
            Move::Flush => self.writer is Idle && self.flush_due,
            Move::WriterAccess { waiter } => {
                &&& !self.wake_due
                &&& match self.writer {
                    Writer::Idle => false,
                    Writer::Writing(access, op) => op.ready(self.memory.reply(access)),
                    Writer::Rousing(access, op) => op.ready(self.memory.reply(access)),
                    Writer::Flushing(access, op) => op.ready(self.memory.reply(access)),
                }
            },
            Move::Wake { after } => self.wake_due && wait_ended(
                self.tickets[self.moved - 1].slot,
                after,
            ),
            Move::PutOff => !(self.writer is Flushing) && self.writer.calls(),
            Move::Call => self.calls_due > 0,
            Move::WriterHears => true,
            Move::Poll { ticket, waker, after, ready } => {
                &&& 0 <= ticket < self.tickets.len()
                &&& self.tickets[ticket].task.waiter is Some
                &&& polled(self.tickets[ticket].slot, waker, after, ready)
            },
            Move::Pop => self.reader is Resting,
            Move::Serve => self.reader is Resting,
            Move::ReaderAccess => match self.reader {
                Reader::Resting => false,
                Reader::Popping(access, op) => op.ready(self.memory.reply(access)),
                Reader::Serving(action, handler) => action is Access && handler.ready(
                    Event::Reply(self.memory.reply(action->Access_0)),
                ),
            },
            Move::ReaderEvent(event) => match self.reader {
                Reader::Serving(action, handler) => !(action is Access) && handler.ready(event),
                _ => false,
            },
        }
    }

    /// The world after an access of the writing party has come to the memory and been counted.
    pub open spec fn written(self, access: Access<T>) -> Self {
        World {
            memory: self.memory.after(access),
            sent: if access is Write {
                self.sent.push(access->Write_item)
            } else {
                self.sent
            },
            ..self
        }
    }

    /// The world after the writing party has made its access in a push.
    pub open spec fn after_push_access(
        self,
        access: Access<T>,
        op: WriteOp<T>,
        waiter: Option<Waiter>,
    ) -> Self {
        let done = World {
            quiet: match op {
                WriteOp::Offering { op: PushOp::Publish, buffer_len, rouse } => self.quiet
                    || !rouse,
                WriteOp::Rousing(RouseOp::Check) => false,
                _ => self.quiet,
            },
            ..self.written(access)
        };
        match op.next(self.memory.reply(access)) {
            Step::Do(access, op) => World { writer: Writer::Writing(access, op), ..done },
            Step::Done(Ok(())) => World { writer: Writer::Idle, ..done },
            Step::Done(Err(refused)) => {
                let task = PendingTask { data: refused.item, waiter };
                World {
                    writer: Writer::Idle,
                    pending: self.pending.push(task),
                    parked: true,
                    flush_due: self.flush_due || refused.room,
                    tickets: self.tickets.push(
                        Ticket {
                            task,
                            slot: WakerSlot::Empty,
                            asked: None,
                            woken: Seq::empty(),
                            place: None,
                        },
                    ),
                    ..done
                }
            },
        }
    }

    /// The world after the writing party has made its access in the care for the reader.
    pub open spec fn after_rouse_access(self, access: Access<T>, op: RouseOp) -> Self {
        let done = World { quiet: self.quiet && !(op is Check), ..self.written(access) };
        match op.next(self.memory.reply(access)) {
            Step::Do(access, op) => World { writer: Writer::Rousing(access, op), ..done },
            Step::Done(called) => World { writer: Writer::Idle, ..done },
        }
    }

    /// The world after the writing party has made its access in a round over the waiting items.
    pub open spec fn after_flush_access(self, access: Access<T>, op: FlushOp<T>) -> Self {
        let (pending, flush) = flush_next(
            self.pending,
            self.len() as usize,
            op,
            self.memory.reply(access),
        );
        let came = op is Offering && op->Offering_op is Publish;
        let done = World {
            pending,
            quiet: self.quiet && op != FlushOp::<T>::Rousing(RouseOp::Check),
            tickets: if came {
                self.tickets.update(
                    self.moved as int,
                    Ticket {
                        place: Some((self.sent.len() - 1) as nat),
                        ..self.tickets[self.moved as int]
                    },
                )
            } else {
                self.tickets
            },
            moved: if came {
                self.moved + 1
            } else {
                self.moved
            },
            wake_due: flush.wake is Some,
            wakes: match flush.wake {
                Some(waiter) => self.wakes.push(waiter),
                None => self.wakes,
            },
            ..self.written(access)
        };
        match flush.step {
            Step::Do(access, op) => World { writer: Writer::Flushing(access, op), ..done },
            Step::Done(again) => World {
                writer: Writer::Idle,
                flush_due: self.flush_due || again,
                ..done
            },
        }
    }

    /// The world after the writing party has made its access.
    pub open spec fn after_writer_access(self, waiter: Option<Waiter>) -> Self {
        match self.writer {
            Writer::Idle => self,
            Writer::Writing(access, op) => self.after_push_access(access, op, waiter),
            Writer::Rousing(access, op) => self.after_rouse_access(access, op),
            Writer::Flushing(access, op) => self.after_flush_access(access, op),
        }
    }

    /// The world after the reading party has made its access.
    pub open spec fn after_reader_access(self) -> Self {
        match self.reader {
            Reader::Resting => self,
            Reader::Popping(access, op) => {
                let done = World { memory: self.memory.after(access), ..self };
                match op.next(self.memory.reply(access)) {
                    Step::Do(access, op) => World { reader: Reader::Popping(access, op), ..done },
                    Step::Done(Some(item)) => World {
                        reader: Reader::Resting,
                        received: self.received.push(item),
                        ..done
                    },
                    Step::Done(None) => World { reader: Reader::Resting, ..done },
                }
            },
            Reader::Serving(action, handler) => {
                let access = action->Access_0;
                let (action, handler) = handler.next(Event::Reply(self.memory.reply(access)));
                World {
                    memory: self.memory.after(access),
                    reader: Reader::Serving(action, handler),
                    ..self
                }
            },
        }
    }

    /// The world after what the reading party has asked for has come about.
    pub open spec fn after_reader_event(self, event: Event<T>) -> Self {
        match self.reader {
            Reader::Serving(action, handler) => {
                let (next_action, next_handler) = handler.next(event);
                World {
                    memory: if event is Called {
                        Memory { reader_called: false, ..self.memory }
                    } else {
                        self.memory
                    },
                    reader: Reader::Serving(next_action, next_handler),
                    received: match action {
                        Action::Handle(item) => self.received.push(item),
                        _ => self.received,
                    },
                    ..self
                }
            },
            _ => self,
        }
    }

    /// The world after the slot of the item that was moved last has been woken.
    pub open spec fn after_wake(self, after: WakerSlot) -> Self {
        let k = self.moved - 1;
        let ticket = self.tickets[k];
        World {
            wake_due: false,
            tickets: self.tickets.update(
                k,
                Ticket {
                    slot: after,
                    woken: match ticket.slot.waker() {
                        Some(w) => ticket.woken.push(w),
                        None => ticket.woken,
                    },
                    ..ticket
                },
            ),
            ..self
        }
    }

    /// The world after a sender has asked after its item.
    pub open spec fn after_poll(
        self,
        ticket: int,
        waker: Waker,
        after: WakerSlot,
        ready: bool,
    ) -> Self {
        World {
            tickets: self.tickets.update(
                ticket,
                Ticket {
                    slot: after,
                    asked: if ready {
                        self.tickets[ticket].asked
                    } else {
                        Some(waker)
                    },
                    ..self.tickets[ticket]
                },
            ),
            ..self
        }
    }

    /// The world after `m`.
    pub open spec fn after(self, m: Move<T>) -> Self {
        match m {
            Move::Push { item, rouse } => {
                let buffer_len = self.len() as usize;
                World {
                    writer: Writer::Writing(
                        Access::Counters,
                        WriteOp::Offering {
                            op: PushOp::Offer { item, buffer_len },
                            buffer_len,
                            rouse,
                        },
                    ),
                    offered: self.offered.push(item),
                    ..self
                }
            },
            Move::Nudge => World {
                writer: Writer::Rousing(Access::LoadWorking, RouseOp::Check),
                ..self
            },
            Move::Flush => {
                let (pending, (access, op)) = flush_from(self.pending, self.len() as usize);
                World {
                    writer: Writer::Flushing(access, op),
                    pending,
                    flush_due: false,
                    ..self
                }
            },
            Move::WriterAccess { waiter } => self.after_writer_access(waiter),
            Move::Wake { after } => self.after_wake(after),
            Move::PutOff => World {
                writer: Writer::Idle,
                calls_due: self.calls_due + 1,
                ..self
            },
            Move::Call => World {
                memory: self.memory.after(Access::CallReader),
                calls_due: (self.calls_due - 1) as nat,
                ..self
            },
            Move::WriterHears => World {
                memory: Memory { writer_called: false, ..self.memory },
                flush_due: true,
                ..self
            },
            Move::Poll { ticket, waker, after, ready } => self.after_poll(
                ticket,
                waker,
                after,
                ready,
            ),
            Move::Pop => World {
                reader: Reader::Popping(
                    Access::Counters,
                    ReadOp::Popping(PopOp::Look { buffer_len: self.len() as usize }),
                ),
                ..self
            },
            Move::Serve => World {
                reader: Reader::Serving(
                    Action::Access(Access::StoreWorking(SET)),
                    Handler { buffer_len: self.len() as usize, phase: Phase::Rise },
                ),
                ..self
            },
            Move::ReaderAccess => self.after_reader_access(),
            Move::ReaderEvent(event) => self.after_reader_event(event),
        }
    }

    /// A beginning: memory in order, with any items in it and any flags, and two parties that are
    /// not at anything yet.
    pub open spec fn initial(self) -> bool {
        &&& self.memory.wf()
        &&& self.len() <= usize::MAX
        &&& self.writer is Idle
        &&& self.pending == Seq::<PendingTask<T>>::empty()
        &&& self.calls_due == 0
        &&& self.reader is Resting
        &&& self.first == self.memory.head
        &&& self.offered == self.memory.meaning().items
        &&& !self.parked
        &&& self.sent == self.memory.meaning().items
        &&& self.received == Seq::<T>::empty()
        &&& !self.quiet
        &&& self.tickets == Seq::<Ticket<T>>::empty()
        &&& self.moved == 0
        &&& !self.wake_due
        &&& self.wakes == Seq::<Waiter>::empty()
    }

    /// All that was ever put into a slot or is still to be, in the order in which it was or will
    /// be if nothing else is pushed.
    pub open spec fn line(self) -> Seq<T> {
        self.sent + self.writer.at_hand() + data_of(self.pending)
    }

    /// The items that ever had to wait for room, from first to last.
    pub open spec fn tasks(self) -> Seq<PendingTask<T>> {
        Seq::new(self.tickets.len(), |i: int| self.tickets[i].task)
    }

    /// Whether `moves` can happen one after the other.
    pub open spec fn allows(self, moves: Seq<Move<T>>) -> bool
        decreases moves.len(),
    {
        moves.len() > 0 ==> {
            &&& self.allows(moves.drop_last())
            &&& self.run(moves.drop_last()).enabled(moves.last())
        }
    }

    /// The world after `moves`.
    pub open spec fn run(self, moves: Seq<Move<T>>) -> Self
        decreases moves.len(),
    {
        if moves.len() == 0 {
            self
        } else {
            self.run(moves.drop_last()).after(moves.last())
        }
    }

    /// The push that the writing party is in the middle of, with its access.
    pub(crate) open spec fn pushing(self) -> Option<(Access<T>, PushOp<T>)> {
        self.writer.pushing()
    }

    /// Whether an item is in its slot that `tail` does not count yet.
    pub(crate) open spec fn publishing(self) -> bool {
        self.pushing() matches Some((_, op)) && op is Publish
    }

    /// Whether an item has left its slot that `head` still counts.
    pub(crate) open spec fn retiring(self) -> bool {
        self.reader.popping() matches Some(ReadOp::Popping(op)) && op is Retire
    }

    /// The slots hold what has been sent, from `head` to `tail`, except for an item on its way in
    /// or out.
    pub(crate) open spec fn slots_ok(self) -> bool {
        slots_hold(self.memory, self.first as int, self.sent, self.publishing(), self.retiring())
    }

    /// The writing party has asked for the access that its script stands at.
    pub(crate) open spec fn writer_ok(self) -> bool {
        match self.writer {
            Writer::Idle => true,
            Writer::Writing(access, op) => match op {
                WriteOp::Offering { op, buffer_len, rouse } => buffer_len == self.len()
                    && self.push_ok(access, op),
                WriteOp::Rousing(op) => rouse_ok(access, op),
                WriteOp::Stick { item, buffer_len } => buffer_len == self.len() && access
                    == Access::<T>::StoreStuck(SET),
                WriteOp::Look { item, buffer_len } => buffer_len == self.len() && access
                    == Access::<T>::Counters,
            },
            Writer::Rousing(access, op) => rouse_ok(access, op),
            Writer::Flushing(access, op) => match op {
                FlushOp::Offering { op, waiter } => self.push_ok(access, op),
                FlushOp::Rousing(op) => rouse_ok(access, op),
                FlushOp::Stick => access == Access::<T>::StoreStuck(SET) && self.pending.len() > 0,
                FlushOp::Look => access == Access::<T>::Counters && self.pending.len() > 0,
            },
        }
    }

    /// The same for a push.
    pub(crate) open spec fn push_ok(self, access: Access<T>, op: PushOp<T>) -> bool {
        let m = self.memory;
        match op {
            PushOp::Offer { item, buffer_len } => {
                &&& buffer_len == self.len()
                &&& access == Access::<T>::Counters
            },
            PushOp::Fill { next } => {
                &&& next == m.tail + 1
                &&& m.tail - m.head < self.len()
                &&& access is Write
                &&& access->Write_index == slot_of(m.tail as int, self.len())
            },
            PushOp::Publish => {
                &&& m.tail < u64::MAX
                &&& access == Access::<T>::StoreTail((m.tail + 1) as u64)
            },
        }
    }

    /// The reading party has asked for what its script stands at.
    pub(crate) open spec fn reader_ok(self) -> bool {
        match self.reader {
            Reader::Resting => true,
            Reader::Popping(access, op) => self.read_ok(access, op),
            Reader::Serving(action, handler) => {
                &&& handler.buffer_len == self.len()
                &&& match handler.phase {
                    Phase::Rise => action == Action::Access(Access::<T>::StoreWorking(SET)),
                    Phase::Draining(op) => action is Access && self.read_ok(action->Access_0, op),
                    Phase::Warm { op, deadline } => action is Access && self.read_ok(
                        action->Access_0,
                        op,
                    ),
                    Phase::Handled => action is Handle,
                    Phase::Opening | Phase::Checking { .. } => action is Clock,
                    Phase::Yielded { .. } => action is Yield,
                    Phase::Looking { .. } => action == Action::Access(Access::<T>::Counters),
                    Phase::Settling(op) => action is Access && sleep_ok(action->Access_0, op),
                    Phase::Waiting => action is Wait,
                    Phase::Stopped => action is Stop,
                }
            },
        }
    }

    /// The same for a pop.
    pub(crate) open spec fn read_ok(self, access: Access<T>, op: ReadOp<T>) -> bool {
        let m = self.memory;
        match op {
            ReadOp::Popping(PopOp::Look { buffer_len }) => {
                &&& buffer_len == self.len()
                &&& access == Access::<T>::Counters
            },
            ReadOp::Popping(PopOp::Take { next }) => {
                &&& m.head < m.tail
                &&& next == m.head + 1
                &&& access is Read
                &&& access->Read_index == slot_of(m.head as int, self.len())
            },
            ReadOp::Popping(PopOp::Retire { item }) => {
                &&& item == self.sent[m.head - self.first]
                &&& access == Access::<T>::StoreHead((m.head + 1) as u64)
            },
            ReadOp::Peek { item } => access == Access::<T>::LoadStuck,
            ReadOp::Free { item } => access == Access::<T>::StoreStuck(CLEAR),
            ReadOp::Call { item } => access == Access::<T>::CallWriter,
        }
    }

    /// What has been handed on, and the item on its way there, are the items that have left the
    /// ring, in the order in which they were sent.
    pub(crate) open spec fn received_ok(self) -> bool {
        self.received + self.reader.in_hand() == self.sent.take(self.memory.head - self.first)
    }

    /// A reader that has taken its flag down finds it down, or is called, or is about to be.
    pub(crate) open spec fn flag_ok(self) -> bool {
        (self.reader matches Reader::Serving(_, handler) && (handler.phase is Waiting
            || handler.phase == Phase::<T>::Settling(SleepOp::Look))) ==> {
            ||| self.memory.working != SET
            ||| self.memory.reader_called
            ||| self.writer.calls()
            ||| self.calls_due > 0
        }
    }

    /// A reader that sleeps while there are items is called, or is about to be looked after, or
    /// the items came quietly.
    pub(crate) open spec fn wake_ok(self) -> bool {
        (self.reader.sleeps() && self.memory.head < self.memory.tail) ==> {
            ||| self.memory.reader_called
            ||| self.writer.attends()
            ||| self.calls_due > 0
            ||| self.quiet
        }
    }

    /// Whether the writer is marked as waiting, or is called, or has been.
    pub(crate) open spec fn may_hear(self) -> bool {
        ||| self.memory.stuck == SET
        ||| self.memory.writer_called
        ||| self.reader.calls()
        ||| self.flush_due
    }

    /// Whether the writing party will come to make a round over the waiting items, as long as the
    /// reading party goes on taking out items: such a round is due, or the writer has been called
    /// or is about to be, or it is marked as waiting and the reading party has yet to look at that
    /// mark.
    pub open spec fn will_hear(self) -> bool {
        ||| self.flush_due
        ||| self.memory.writer_called
        ||| self.reader.calls()
        ||| self.memory.stuck == SET && (self.memory.head < self.memory.tail || self.reader.looks())
    }

    /// Items do not wait in vain.
    pub(crate) open spec fn stuck_ok(self) -> bool {
        match self.writer {
            Writer::Flushing(_, op) => op is Look ==> self.may_hear(),
            _ => {
                &&& self.len() > 0 && self.pending.len() > 0 ==> self.will_hear()
                &&& (self.writer matches Writer::Writing(_, op) && op is Look) ==> self.may_hear()
            },
        }
    }

    /// Every item that was to be pushed is in line exactly once; and if none ever had to wait, the
    /// line is in the order of the pushes.
    #[verifier::opaque]
    pub(crate) open spec fn account_ok(self) -> bool {
        &&& self.line().to_multiset() == self.offered.to_multiset()
        &&& !self.parked ==> {
            &&& self.pending.len() == 0
            &&& !self.writer.offers()
            &&& self.line() == self.offered
        }
    }

    /// How many of the items that had to wait are in the ring or in the writing party's hand.
    pub(crate) open spec fn begun(self) -> int {
        self.moved + (if self.writer.offers() {
            1int
        } else {
            0
        })
    }

    /// The items that had to wait, in order, are those that have been moved into the ring, the one
    /// in the writing party's hand, and those that still wait.
    pub(crate) open spec fn order_ok(self) -> bool {
        &&& self.tickets.len() == self.begun() + self.pending.len()
        &&& forall|i: int|
            #![trigger self.pending[i]]
            0 <= i < self.pending.len() ==> self.pending[i] == self.tickets[self.begun() + i].task
        &&& self.writer matches Writer::Flushing(access, FlushOp::Offering { op, waiter }) ==> {
            &&& waiter == self.tickets[self.moved as int].task.waiter
            &&& self.tickets[self.moved as int].task.data == match op {
                PushOp::Offer { item, buffer_len } => item,
                PushOp::Fill { next } => access->Write_item,
                PushOp::Publish => self.sent.last(),
            }
        }
    }

    /// Those that have been moved are in the ring, or were, in their order.
    #[verifier::opaque]
    pub(crate) open spec fn places_ok(self) -> bool {
        &&& forall|i: int|
            #![trigger self.tickets[i]]
            0 <= i < self.moved ==> {
                &&& self.tickets[i].place is Some
                &&& self.first + self.tickets[i].place->0 < self.memory.tail
                &&& self.sent[self.tickets[i].place->0 as int] == self.tickets[i].task.data
            }
        &&& forall|i: int, j: int|
            #![trigger self.tickets[i], self.tickets[j]]
            0 <= i < j < self.moved ==> self.tickets[i].place->0 < self.tickets[j].place->0
        &&& forall|i: int|
            #![trigger self.tickets[i]]
            self.moved <= i < self.tickets.len() ==> self.tickets[i].place is None
    }

    /// Whether the slot of the item that had to wait as the `i`th has been dealt with.
    pub(crate) open spec fn woken(self, i: int) -> bool {
        i < self.moved && !(self.wake_due && i == self.moved - 1)
    }

    /// The slots of the items that had to wait tell the truth.
    #[verifier::opaque]
    pub(crate) open spec fn tickets_ok(self) -> bool {
        &&& forall|i: int|
            #![trigger self.tickets[i]]
            0 <= i < self.tickets.len() ==> self.tickets[i].settled(self.woken(i))
        &&& self.wake_due ==> self.moved > 0 && self.tickets[self.moved - 1].task.waiter is Some
            && self.writer is Flushing
        &&& self.wakes == waiters_of(self.tasks().take(self.moved as int))
    }

    /// What holds in every world.
    pub(crate) open spec fn inv(self) -> bool {
        &&& self.sound()
        &&& self.account_ok()
        &&& self.order_ok()
        &&& self.places_ok()
        &&& self.tickets_ok()
    }

    /// What holds in every world but for what has been counted.
    pub(crate) open spec fn sound(self) -> bool {
        &&& self.slots_ok()
        &&& self.writer_ok()
        &&& self.reader_ok()
        &&& self.received_ok()
        &&& self.flag_ok()
        &&& self.wake_ok()
        &&& self.stuck_ok()
    }
}

impl<T> Ticket<T> {
    /// The slot of an item with a slot is what it should be: once the wait is `over` it is
    /// finished, and a copy of the waker of whoever asked last was woken, once; before that, such
    /// a copy is in it, and nobody was woken.
    pub open spec fn settled(self, over: bool) -> bool {
        if self.task.waiter is Some && over {
            &&& self.slot is Finished
            &&& match self.asked {
                Some(w) => self.woken.len() == 1 && cloned(w, self.woken[0]) && woken(
                    self.woken[0],
                ),
                None => self.woken.len() == 0,
            }
        } else {
            &&& self.woken.len() == 0
            &&& match self.asked {
                Some(w) => self.slot is Waiting && cloned(w, self.slot->Waiting_0),
                None => self.slot is Empty,
            }
        }
    }
}

/// The slots of `m` hold `sent`, the first of which is numbered `first`, from `head` to `tail`,
/// except for the item after the last that counts, which is on its way in if `publishing`, and the
/// item at `head`, which is on its way out if `retiring`.
pub(crate) open spec fn slots_hold<T>(
    m: Memory<T>,
    first: int,
    sent: Seq<T>,
    publishing: bool,
    retiring: bool,
) -> bool {
    &&& m.in_order()
    &&& m.slots.len() <= usize::MAX
    &&& first <= m.head
    &&& first + sent.len() == m.tail + (if publishing {
        1int
    } else {
        0
    })
    &&& publishing ==> m.tail - m.head < m.slots.len()
    &&& retiring ==> m.head < m.tail
    &&& filled(m, first, sent, retiring)
}

/// The slots from `head` on hold what they should, and the others nothing.
#[verifier::opaque]
pub(crate) open spec fn filled<T>(m: Memory<T>, first: int, sent: Seq<T>, retiring: bool) -> bool {
    &&& retiring ==> !m.holds(m.head as int)
    &&& forall|n: int|
        #![trigger m.holds(n)]
        m.head <= n < first + sent.len() && !(retiring && n == m.head) ==> m.holds(n) && m.item(n)
            == sent[n - first]
    &&& forall|n: int|
        first + sent.len() <= n < m.head + m.slots.len() ==> !#[trigger] m.holds(n)
}

/// The care for the reader has asked for the access that it stands at.
pub(crate) open spec fn rouse_ok<T>(access: Access<T>, op: RouseOp) -> bool {
    match op {
        RouseOp::Check => access == Access::<T>::LoadWorking,
        RouseOp::Mark => access == Access::<T>::StoreWorking(SET),
        RouseOp::Call => access == Access::<T>::CallReader,
    }
}

/// A reader that takes its flag down has asked for the access that it stands at.
pub(crate) open spec fn sleep_ok<T>(access: Access<T>, op: SleepOp) -> bool {
    match op {
        SleepOp::Lower => access == Access::<T>::StoreWorking(CLEAR),
        SleepOp::Look => access == Access::<T>::Counters,
        SleepOp::Raise => access == Access::<T>::StoreWorking(SET),
    }
}

proof fn lemma_initial<T>(w: World<T>)
    requires
        w.initial(),
    ensures
        w.inv(),
{
    reveal(filled);
    reveal(World::account_ok);
    reveal(World::places_ok);
    reveal(World::tickets_ok);
    assert forall|n: int| w.memory.head <= n < w.memory.tail implies #[trigger] w.memory.holds(n)
        && w.memory.item(n) == w.sent[n - w.first] by {}
    assert(w.received + w.reader.in_hand() =~= w.sent.take(0));
    assert(w.line() =~= w.sent);
    assert(w.wakes =~= waiters_of(w.tasks().take(0)));
}

/// The slots stay right as long as neither they nor the counters change.
proof fn lemma_slots_kept<T>(
    m: Memory<T>,
    v: Memory<T>,
    first: int,
    sent: Seq<T>,
    publishing: bool,
    retiring: bool,
)
    requires
        slots_hold(m, first, sent, publishing, retiring),
        v.slots == m.slots,
        v.head == m.head,
        v.tail == m.tail,
    ensures
        slots_hold(v, first, sent, publishing, retiring),
{
    reveal(filled);
    assert forall|n: int|
        #![trigger v.holds(n)]
        v.head <= n < first + sent.len() && !(retiring && n == v.head) implies v.holds(n) && v.item(
        n,
    ) == sent[n - first] by {
        assert(m.holds(n));
    }
    assert forall|n: int| first + sent.len() <= n < v.head + v.slots.len() implies !#[trigger] v.holds(
        n,
    ) by {
        assert(!m.holds(n));
    }
    assert(retiring ==> !m.holds(m.head as int));
    assert(retiring ==> !v.holds(v.head as int));
}

/// The same for two worlds.
proof fn lemma_world_kept<T>(w: World<T>, v: World<T>)
    requires
        w.slots_ok(),
        v.memory.slots == w.memory.slots,
        v.memory.head == w.memory.head,
        v.memory.tail == w.memory.tail,
        v.sent == w.sent,
        v.first == w.first,
        v.publishing() == w.publishing(),
        v.retiring() == w.retiring(),
    ensures
        v.slots_ok(),
{
    lemma_slots_kept(
        w.memory,
        v.memory,
        w.first as int,
        w.sent,
        w.publishing(),
        w.retiring(),
    );
}

proof fn lemma_reader_event<T>(w: World<T>, event: Event<T>)
    requires
        w.sound(),
        w.enabled(Move::ReaderEvent(event)),
    ensures
        w.after(Move::ReaderEvent(event)).sound(),
{
    let v = w.after(Move::ReaderEvent(event));
    assert(v.received + v.reader.in_hand() =~= w.received + w.reader.in_hand());
    lemma_world_kept(w, v);
}

proof fn lemma_party_begins<T>(w: World<T>, m: Move<T>)
    requires
        w.sound(),
        w.enabled(m),
        m is Push || m is Nudge || m is Flush || m is WriterHears || m is Wake || m is PutOff
            || m is Call || m is Poll || m is Pop || m is Serve,
    ensures
        w.after(m).sound(),
{
    let v = w.after(m);
    lemma_world_kept(w, v);
    assert(v.received + v.reader.in_hand() =~= w.received + w.reader.in_hand());
}

/// The slots stay right when the item at `head` leaves its slot.
proof fn lemma_slots_taken<T>(
    m: Memory<T>,
    v: Memory<T>,
    first: int,
    sent: Seq<T>,
    publishing: bool,
)
    requires
        slots_hold(m, first, sent, publishing, false),
        m.head < m.tail,
        0 <= first,
        v.slots == m.slots.update(slot_of(m.head as int, m.slots.len() as int), None),
        v.head == m.head,
        v.tail == m.tail,
    ensures
        slots_hold(v, first, sent, publishing, true),
        m.item(m.head as int) == sent[m.head - first],
{
    reveal(filled);
    let len = m.slots.len() as int;
    assert(m.holds(m.head as int));
    assert(0 <= slot_of(m.head as int, len) < len);
    assert forall|n: int| m.head < n < m.head + len implies #[trigger] v.holds(n) == m.holds(n)
        && v.item(n) == m.item(n) by {
        lemma_slots_differ(m.head as int, n, len);
    }
    assert forall|n: int| m.head < n < first + sent.len() implies #[trigger] v.holds(n) && v.item(n)
        == sent[n - first] by {
        assert(m.holds(n));
    }
    assert forall|n: int| first + sent.len() <= n < m.head + len implies !#[trigger] v.holds(n) by {
        assert(!m.holds(n));
    }
}

/// The slot of the item that is as many places behind the one numbered `n` as there are slots is
/// the same.
proof fn lemma_slot_again<T>(m: Memory<T>, n: int)
    requires
        m.slots.len() > 0,
    ensures
        m.holds(n + m.slots.len()) == m.holds(n),
{
    vstd::arithmetic::div_mod::lemma_mod_add_multiples_vanish(n, m.slots.len() as int);
}

/// The slots stay right when `head` moves on past a slot that has been emptied.
proof fn lemma_slots_retired<T>(
    m: Memory<T>,
    v: Memory<T>,
    first: int,
    sent: Seq<T>,
    publishing: bool,
)
    requires
        slots_hold(m, first, sent, publishing, true),
        v.slots == m.slots,
        v.head == m.head + 1,
        v.tail == m.tail,
    ensures
        slots_hold(v, first, sent, publishing, false),
{
    assert(filled(v, first, sent, false)) by {
        reveal(filled);
        lemma_slot_again(m, m.head as int);
        assert forall|n: int| #[trigger] v.holds(n) == m.holds(n) && v.item(n) == m.item(n) by {}
        assert forall|n: int|
            first + sent.len() <= n < v.head + v.slots.len() implies !#[trigger] v.holds(n) by {
            assert(v.holds(n) == m.holds(n));
            if n < m.head + m.slots.len() {
                assert(!m.holds(n));
            } else {
                assert(n == m.head + m.slots.len());
            }
        }
    }
}

/// The reading party takes an item out of its slot.
proof fn lemma_reader_takes<T>(w: World<T>)
    requires
        w.sound(),
        w.enabled(Move::ReaderAccess),
        w.wanted() is Read,
    ensures
        w.after(Move::ReaderAccess).sound(),
{
    let v = w.after(Move::ReaderAccess);
    assert(v.retiring());
    lemma_slots_taken(w.memory, v.memory, w.first as int, w.sent, w.publishing());
    assert(v.received + v.reader.in_hand() =~= w.received + w.reader.in_hand());
    assert(v.reader_ok());
}

/// The reading party publishes a new `head`.
proof fn lemma_reader_retires<T>(w: World<T>)
    requires
        w.sound(),
        w.enabled(Move::ReaderAccess),
        w.wanted() is StoreHead,
    ensures
        w.after(Move::ReaderAccess).sound(),
{
    let v = w.after(Move::ReaderAccess);
    lemma_slots_retired(w.memory, v.memory, w.first as int, w.sent, w.publishing());
    assert(w.received + w.reader.in_hand() =~= w.received);
    assert(v.received + v.reader.in_hand() =~= v.sent.take(v.memory.head - v.first));
}

/// The reading party makes an access to a flag, or one that changes nothing, in a pop by hand.
proof fn lemma_popper_looks<T>(w: World<T>)
    requires
        w.sound(),
        w.enabled(Move::ReaderAccess),
        !(w.wanted() is Read),
        !(w.wanted() is StoreHead),
        w.reader is Popping,
    ensures
        w.after(Move::ReaderAccess).sound(),
{
    let v = w.after(Move::ReaderAccess);
    lemma_world_kept(w, v);
    assert(v.received + v.reader.in_hand() =~= w.received + w.reader.in_hand());
}

/// The reading party makes an access to a flag, or one that changes nothing, in a pop of its
/// service.
proof fn lemma_server_looks<T>(w: World<T>)
    requires
        w.sound(),
        w.enabled(Move::ReaderAccess),
        !(w.wanted() is Read),
        !(w.wanted() is StoreHead),
        w.reader is Serving,
        w.reader.popping() is Some,
    ensures
        w.after(Move::ReaderAccess).sound(),
{
    let v = w.after(Move::ReaderAccess);
    lemma_world_kept(w, v);
    assert(v.received + v.reader.in_hand() =~= w.received + w.reader.in_hand());
}

/// The reading party makes an access in its service that belongs to no pop.
proof fn lemma_server_settles<T>(w: World<T>)
    requires
        w.sound(),
        w.enabled(Move::ReaderAccess),
        w.reader is Serving,
        w.reader.popping() is None,
    ensures
        w.after(Move::ReaderAccess).sound(),
{
    let v = w.after(Move::ReaderAccess);
    lemma_world_kept(w, v);
    assert(v.received + v.reader.in_hand() =~= w.received + w.reader.in_hand());
}

/// The slots stay right when an item is put into the slot of `tail`.
proof fn lemma_slots_filled<T>(
    m: Memory<T>,
    v: Memory<T>,
    first: int,
    sent: Seq<T>,
    retiring: bool,
    item: T,
)
    requires
        slots_hold(m, first, sent, false, retiring),
        m.tail - m.head < m.slots.len(),
        v.slots == m.slots.update(slot_of(m.tail as int, m.slots.len() as int), Some(item)),
        v.head == m.head,
        v.tail == m.tail,
    ensures
        slots_hold(v, first, sent.push(item), true, retiring),
{
    reveal(filled);
    let len = m.slots.len() as int;
    let tail = m.tail as int;
    let more = sent.push(item);
    assert(0 <= slot_of(tail, len) < len);
    assert(!m.holds(tail));
    assert forall|n: int| m.head <= n < m.head + len && n != tail implies #[trigger] v.holds(n)
        == m.holds(n) && v.item(n) == m.item(n) by {
        if n < tail {
            lemma_slots_differ(n, tail, len);
        } else {
            lemma_slots_differ(tail, n, len);
        }
    }
    if retiring {
        assert(!m.holds(m.head as int));
        assert(!v.holds(m.head as int));
    }
    assert forall|n: int|
        m.head <= n < first + more.len() && !(retiring && n == m.head) implies #[trigger] v.holds(n)
        && v.item(n) == more[n - first] by {
        assert(n < tail ==> m.holds(n));
    }
    assert forall|n: int| first + more.len() <= n < m.head + len implies !#[trigger] v.holds(n) by {
        assert(!m.holds(n));
    }
}

/// The writing party puts an item into its slot.
proof fn lemma_writer_fills<T>(w: World<T>, waiter: Option<Waiter>)
    requires
        w.sound(),
        w.enabled(Move::WriterAccess { waiter }),
        w.pushing() matches Some((_, op)) && op is Fill,
    ensures
        w.after(Move::WriterAccess { waiter }).sound(),
{
    let v = w.after(Move::WriterAccess { waiter });
    assert(v.publishing());
    lemma_slots_filled(
        w.memory,
        v.memory,
        w.first as int,
        w.sent,
        w.retiring(),
        w.writer.asked()->Write_item,
    );
    assert(v.sent.take(w.memory.head - w.first) =~= w.sent.take(w.memory.head - w.first));
}

/// The slots stay right when an item that is in its slot comes to count.
proof fn lemma_slots_published<T>(
    m: Memory<T>,
    v: Memory<T>,
    first: int,
    sent: Seq<T>,
    retiring: bool,
)
    requires
        slots_hold(m, first, sent, true, retiring),
        v.slots == m.slots,
        v.head == m.head,
        v.tail == m.tail + 1,
    ensures
        slots_hold(v, first, sent, false, retiring),
{
    reveal(filled);
    assert forall|n: int|
        #![trigger v.holds(n)]
        v.head <= n < first + sent.len() && !(retiring && n == v.head) implies v.holds(n) && v.item(
        n,
    ) == sent[n - first] by {
        assert(m.holds(n));
    }
    assert forall|n: int| first + sent.len() <= n < v.head + v.slots.len() implies !#[trigger] v.holds(
        n,
    ) by {
        assert(!m.holds(n));
    }
    assert(retiring ==> !m.holds(m.head as int));
    assert(retiring ==> !v.holds(v.head as int));
}

/// The writing party publishes a new `tail`.
proof fn lemma_writer_publishes<T>(w: World<T>, waiter: Option<Waiter>)
    requires
        w.sound(),
        w.enabled(Move::WriterAccess { waiter }),
        w.pushing() matches Some((_, op)) && op is Publish,
    ensures
        w.after(Move::WriterAccess { waiter }).sound(),
{
    let v = w.after(Move::WriterAccess { waiter });
    assert(!v.publishing());
    assert(v.reader == w.reader);
    lemma_slots_published(w.memory, v.memory, w.first as int, w.sent, w.retiring());
    assert(v.reader_ok());
}

/// The writing party makes an access to a flag, or one that changes nothing, in a push.
proof fn lemma_pusher_looks<T>(w: World<T>, waiter: Option<Waiter>)
    requires
        w.sound(),
        w.enabled(Move::WriterAccess { waiter }),
        w.writer is Writing,
        w.pushing() matches Some((_, op)) ==> op is Offer,
    ensures
        w.after(Move::WriterAccess { waiter }).sound(),
{
    let v = w.after(Move::WriterAccess { waiter });
    assert(!w.publishing());
    assert(!v.publishing());
    assert(v.reader == w.reader);
    lemma_world_kept(w, v);
    assert(v.reader_ok());
}

/// The writing party makes an access to a flag in the care for the reader.
proof fn lemma_rouser_looks<T>(w: World<T>, waiter: Option<Waiter>)
    requires
        w.sound(),
        w.enabled(Move::WriterAccess { waiter }),
        w.writer is Rousing,
    ensures
        w.after(Move::WriterAccess { waiter }).sound(),
{
    let v = w.after(Move::WriterAccess { waiter });
    assert(!v.publishing());
    lemma_world_kept(w, v);
}

/// The writing party makes an access to a flag, or one that changes nothing, in a round over the
/// waiting items.
proof fn lemma_flusher_looks<T>(w: World<T>, waiter: Option<Waiter>)
    requires
        w.sound(),
        w.enabled(Move::WriterAccess { waiter }),
        w.writer is Flushing,
        w.pushing() matches Some((_, op)) ==> op is Offer,
    ensures
        w.after(Move::WriterAccess { waiter }).sound(),
{
    let v = w.after(Move::WriterAccess { waiter });
    assert(!w.publishing());
    assert(!v.publishing());
    assert(v.reader == w.reader);
    lemma_world_kept(w, v);
    assert(v.reader_ok());
}

/// An item that joins the middle of a line counts once.
proof fn lemma_join<T>(a: Seq<T>, x: T, b: Seq<T>)
    ensures
        (a + seq![x] + b).to_multiset() == (a + b).to_multiset().insert(x),
{
    broadcast use vstd::multiset::group_multiset_axioms;

    vstd::seq_lib::lemma_multiset_commutative(a + seq![x], b);
    vstd::seq_lib::lemma_multiset_commutative(a, b);
    a.to_multiset_ensures();
    assert(a + seq![x] =~= a.push(x));
    assert((a + seq![x] + b).to_multiset() =~= (a + b).to_multiset().insert(x));
}

/// Where an item stands in a line does not change what is in it.
proof fn lemma_fall_back<T>(a: Seq<T>, x: T, b: Seq<T>)
    ensures
        (a + seq![x] + b).to_multiset() == (a + Seq::empty() + b.push(x)).to_multiset(),
{
    lemma_join(a, x, b);
    (a + b).to_multiset_ensures();
    assert(a + Seq::empty() + b.push(x) =~= (a + b).push(x));
}

proof fn lemma_account_push<T>(w: World<T>, item: T, rouse: bool)
    requires
        w.account_ok(),
        w.writer is Idle,
    ensures
        w.after(Move::Push { item, rouse }).account_ok(),
{
    reveal(World::account_ok);
    let v = w.after(Move::Push { item, rouse });
    lemma_join(w.sent, item, data_of(w.pending));
    assert(w.line() =~= w.sent + data_of(w.pending));
    w.offered.to_multiset_ensures();
    if !w.parked {
        assert(v.line() =~= w.line().push(item));
    }
}

/// An item that is let wait counts as before.
proof fn lemma_account_park<T>(w: World<T>, v: World<T>, task: PendingTask<T>)
    requires
        w.account_ok(),
        w.writer.at_hand() == seq![task.data],
        v.writer is Idle,
        v.sent == w.sent,
        v.pending == w.pending.push(task),
        v.offered == w.offered,
        v.parked,
    ensures
        v.account_ok(),
{
    reveal(World::account_ok);
    lemma_fall_back(w.sent, task.data, data_of(w.pending));
    assert(data_of(v.pending) =~= data_of(w.pending).push(task.data));
}

/// The account stays right as long as the line stays as it is.
proof fn lemma_account_line<T>(w: World<T>, v: World<T>)
    requires
        w.account_ok(),
        v.line() == w.line(),
        v.offered == w.offered,
        v.parked == w.parked,
        !w.parked ==> !v.writer.offers(),
        v.pending.len() <= w.pending.len() || w.writer.offers(),
    ensures
        v.account_ok(),
{
    reveal(World::account_ok);
}

proof fn lemma_account_writer<T>(w: World<T>, waiter: Option<Waiter>, v: World<T>)
    requires
        w.sound(),
        w.account_ok(),
        w.enabled(Move::WriterAccess { waiter }),
        v == w.after_writer_access(waiter),
    ensures
        v.account_ok(),
{
    if let Writer::Writing(_, WriteOp::Look { item, buffer_len }) = w.writer {
        lemma_account_park(w, v, PendingTask { data: item, waiter });
    } else {
        assert(v.line() =~= w.line());
        assert(!w.parked ==> w.pending.len() == 0 && !w.writer.offers()) by {
            reveal(World::account_ok);
        }
        lemma_account_line(w, v);
    }
}

proof fn lemma_account<T>(w: World<T>, m: Move<T>)
    requires
        w.inv(),
        w.enabled(m),
    ensures
        w.after(m).account_ok(),
{
    let v = w.after(m);
    match m {
        Move::Push { item, rouse } => lemma_account_push(w, item, rouse),
        Move::WriterAccess { waiter } => lemma_account_writer(w, waiter, v),
        Move::Flush => {
            assert(v.line() =~= w.line());
            assert(!w.parked ==> w.pending.len() == 0) by {
                reveal(World::account_ok);
            }
            lemma_account_line(w, v);
        },
        _ => {
            assert(v.writer.at_hand() == w.writer.at_hand());
            assert(!w.parked ==> !w.writer.offers()) by {
                reveal(World::account_ok);
            }
            lemma_account_line(w, v);
        },
    }
}

/// The order stays right as long as nothing in it changes.
proof fn lemma_order_kept<T>(w: World<T>, v: World<T>)
    requires
        w.order_ok(),
        v.writer == w.writer || !w.writer.offers() && !v.writer.offers(),
        v.pending == w.pending,
        v.moved == w.moved,
        v.sent == w.sent || !w.writer.offers(),
        v.tickets.len() == w.tickets.len(),
        forall|i: int|
            #![trigger v.tickets[i]]
            0 <= i < w.tickets.len() ==> v.tickets[i].task == w.tickets[i].task,
    ensures
        v.order_ok(),
{
    assert forall|i: int| #![trigger v.pending[i]] 0 <= i < v.pending.len() implies v.pending[i]
        == v.tickets[v.begun() + i].task by {
        assert(w.pending[i] == w.tickets[w.begun() + i].task);
    }
}

proof fn lemma_order_writer<T>(w: World<T>, waiter: Option<Waiter>, v: World<T>)
    requires
        w.sound(),
        w.order_ok(),
        w.enabled(Move::WriterAccess { waiter }),
        v == w.after_writer_access(waiter),
    ensures
        v.order_ok(),
{
    match w.writer {
        Writer::Idle => {},
        Writer::Writing(_, op) => {
            if op is Look {
            } else {
                lemma_order_kept(w, v);
            }
        },
        Writer::Rousing(_, _) => lemma_order_kept(w, v),
        Writer::Flushing(_, op) => {
            if op is Offering {
                assert forall|i: int| #![trigger v.pending[i]] 0 <= i < v.pending.len() implies v.pending[i]
                    == v.tickets[v.begun() + i].task by {
                    assert(0 <= i < w.pending.len() ==> w.pending[i] == w.tickets[w.begun()
                        + i].task);
                    assert(0 <= i - 1 < w.pending.len() ==> w.pending[i - 1] == w.tickets[w.begun()
                        + i - 1].task);
                    assert(0 <= i + 1 < w.pending.len() ==> w.pending[i + 1] == w.tickets[w.begun()
                        + i + 1].task);
                }
                assert(w.pending.len() > 0 ==> w.pending[0] == w.tickets[w.begun()].task);
            } else {
                lemma_order_kept(w, v);
            }
        },
    }
}

proof fn lemma_order<T>(w: World<T>, m: Move<T>)
    requires
        w.inv(),
        w.enabled(m),
    ensures
        w.after(m).order_ok(),
{
    let v = w.after(m);
    match m {
        Move::WriterAccess { waiter } => lemma_order_writer(w, waiter, v),
        Move::Flush => {
            assert forall|i: int| #![trigger v.pending[i]] 0 <= i < v.pending.len() implies v.pending[i]
                == v.tickets[v.begun() + i].task by {
                assert(w.pending[i + 1] == w.tickets[w.begun() + i + 1].task);
            }
            assert(w.pending.len() > 0 ==> w.pending[0] == w.tickets[w.begun()].task);
        },
        _ => {
            assert(w.wake_due ==> w.moved > 0) by {
                reveal(World::tickets_ok);
            }
            lemma_tickets_go_on(w, m, v);
            lemma_order_kept(w, v);
        },
    }
}

/// The items that have been moved stay where they are.
proof fn lemma_places_kept<T>(w: World<T>, v: World<T>)
    requires
        w.slots_ok(),
        w.places_ok(),
        w.moved <= w.tickets.len(),
        v.first == w.first,
        w.memory.tail <= v.memory.tail,
        w.sent.is_prefix_of(v.sent),
        v.moved == w.moved,
        w.tickets.len() <= v.tickets.len(),
        forall|i: int|
            #![trigger v.tickets[i]]
            0 <= i < w.tickets.len() ==> v.tickets[i].task == w.tickets[i].task
                && v.tickets[i].place == w.tickets[i].place,
        forall|i: int|
            #![trigger v.tickets[i]]
            w.tickets.len() <= i < v.tickets.len() ==> v.tickets[i].place is None,
    ensures
        v.places_ok(),
{
    reveal(World::places_ok);
    assert forall|i: int| #![trigger v.tickets[i]] 0 <= i < v.moved implies {
        &&& v.tickets[i].place is Some
        &&& v.first + v.tickets[i].place->0 < v.memory.tail
        &&& v.sent[v.tickets[i].place->0 as int] == v.tickets[i].task.data
    } by {
        assert(w.tickets[i].place is Some);
    }
    assert forall|i: int, j: int|
        #![trigger v.tickets[i], v.tickets[j]]
        0 <= i < j < v.moved implies v.tickets[i].place->0 < v.tickets[j].place->0 by {
        assert(w.tickets[i].place->0 < w.tickets[j].place->0);
    }
    assert forall|i: int|
        #![trigger v.tickets[i]]
        v.moved <= i < v.tickets.len() implies v.tickets[i].place is None by {
        if i < w.tickets.len() {
            assert(w.tickets[i].place is None);
        }
    }
}

/// An item that comes to count as moved is behind those moved before.
proof fn lemma_places_come<T>(w: World<T>, v: World<T>)
    requires
        w.slots_ok(),
        w.places_ok(),
        w.publishing(),
        w.moved < w.tickets.len(),
        w.tickets[w.moved as int].task.data == w.sent.last(),
        v.first == w.first,
        v.memory.tail == w.memory.tail + 1,
        v.sent == w.sent,
        v.moved == w.moved + 1,
        v.tickets == w.tickets.update(
            w.moved as int,
            Ticket { place: Some((w.sent.len() - 1) as nat), ..w.tickets[w.moved as int] },
        ),
    ensures
        v.places_ok(),
{
    reveal(World::places_ok);
    assert forall|i: int| #![trigger v.tickets[i]] 0 <= i < v.moved implies {
        &&& v.tickets[i].place is Some
        &&& v.first + v.tickets[i].place->0 < v.memory.tail
        &&& v.sent[v.tickets[i].place->0 as int] == v.tickets[i].task.data
    } by {
        assert(i < w.moved ==> w.tickets[i].place is Some);
    }
    assert forall|i: int, j: int|
        #![trigger v.tickets[i], v.tickets[j]]
        0 <= i < j < v.moved implies v.tickets[i].place->0 < v.tickets[j].place->0 by {
        assert(w.first + w.tickets[i].place->0 < w.memory.tail);
        if j < w.moved {
            assert(w.tickets[i].place->0 < w.tickets[j].place->0);
        }
    }
}

/// Whether the move lets an item that had to wait come to count.
spec fn lands<T>(w: World<T>, m: Move<T>) -> bool {
    &&& m is WriterAccess
    &&& w.writer matches Writer::Flushing(_, FlushOp::Offering { op, waiter })
    &&& op is Publish
}

/// How the account of the items that had to wait goes on.
proof fn lemma_tickets_go_on<T>(w: World<T>, m: Move<T>, v: World<T>)
    requires
        v == w.after(m),
        w.enabled(m),
        w.order_ok(),
        w.wake_due ==> w.moved > 0,
    ensures
        v.first == w.first,
        w.tickets.len() <= v.tickets.len(),
        forall|i: int|
            #![trigger v.tickets[i]]
            0 <= i < w.tickets.len() ==> v.tickets[i].task == w.tickets[i].task && (v.tickets[i].place
                == w.tickets[i].place || lands(w, m) && i == w.moved),
        forall|i: int|
            #![trigger v.tickets[i]]
            w.tickets.len() <= i < v.tickets.len() ==> v.tickets[i].place is None
                && v.tickets[i].settled(false),
        lands(w, m) ==> v.moved == w.moved + 1 && v.tickets == w.tickets.update(
            w.moved as int,
            Ticket { place: Some((w.sent.len() - 1) as nat), ..w.tickets[w.moved as int] },
        ),
        !lands(w, m) ==> v.moved == w.moved && v.wakes == w.wakes,
        !lands(w, m) && !(m is Wake) ==> v.wake_due == w.wake_due,
        !lands(w, m) && !(m is Wake) && !(m is Poll) ==> w.tickets.is_prefix_of(v.tickets),
{
    match m {
        Move::WriterAccess { waiter } => match w.writer {
            Writer::Idle => {},
            Writer::Writing(_, op) => {
                if !(op is Look) {
                    assert(v.tickets == w.tickets);
                }
            },
            Writer::Rousing(_, _) => assert(v.tickets == w.tickets),
            Writer::Flushing(_, _) => {
                if !lands(w, m) {
                    assert(v.tickets == w.tickets);
                }
            },
        },
        Move::Wake { after } => {},
        Move::Poll { ticket, waker, after, ready } => {},
        _ => {
            assert(v.tickets == w.tickets);
        },
    }
}

/// Nothing that was sent or handed on is taken back.
pub(crate) proof fn lemma_sent_kept<T>(w: World<T>, m: Move<T>, v: World<T>)
    requires
        v == w.after(m),
        w.sound(),
        w.enabled(m),
    ensures
        w.sent.is_prefix_of(v.sent),
        w.received.is_prefix_of(v.received),
        v.len() == w.len(),
        w.memory.tail <= v.memory.tail,
{
    match m {
        Move::WriterAccess { waiter } => match w.writer {
            Writer::Idle => {},
            Writer::Writing(_, _) => {},
            Writer::Rousing(_, _) => {},
            Writer::Flushing(_, _) => {},
        },
        Move::ReaderAccess => match w.reader {
            Reader::Resting => {},
            Reader::Popping(_, _) => {},
            Reader::Serving(_, _) => {},
        },
        _ => {},
    }
}

proof fn lemma_places<T>(w: World<T>, m: Move<T>, v: World<T>)
    requires
        v == w.after(m),
        w.inv(),
        w.enabled(m),
    ensures
        v.places_ok(),
{
    assert(w.wake_due ==> w.moved > 0) by {
        reveal(World::tickets_ok);
    }
    lemma_sent_kept(w, m, v);
    lemma_tickets_go_on(w, m, v);
    if lands(w, m) {
        lemma_places_come(w, v);
    } else {
        lemma_places_kept(w, v);
    }
}

/// The slots stay right of items that have been dealt with as before.
proof fn lemma_tickets_kept<T>(w: World<T>, v: World<T>)
    requires
        w.tickets_ok(),
        w.moved <= w.tickets.len(),
        v.moved == w.moved,
        v.wake_due == w.wake_due,
        v.wake_due ==> v.writer is Flushing,
        v.wakes == w.wakes,
        w.tickets.is_prefix_of(v.tickets),
        forall|i: int|
            #![trigger v.tickets[i]]
            w.tickets.len() <= i < v.tickets.len() ==> v.tickets[i].settled(false),
    ensures
        v.tickets_ok(),
{
    reveal(World::tickets_ok);
    assert forall|i: int| #![trigger v.tickets[i]] 0 <= i < v.tickets.len() implies v.tickets[i].settled(
        v.woken(i),
    ) by {
        if i < w.tickets.len() {
            assert(w.tickets[i].settled(w.woken(i)));
        }
    }
    assert(v.tasks().take(v.moved as int) =~= w.tasks().take(w.moved as int));
}

/// The slots stay right when an item that had to wait comes to count.
proof fn lemma_tickets_come<T>(w: World<T>, v: World<T>)
    requires
        w.tickets_ok(),
        !w.wake_due,
        w.moved < w.tickets.len(),
        v.writer is Flushing,
        v.moved == w.moved + 1,
        v.wake_due == (w.tickets[w.moved as int].task.waiter is Some),
        v.wakes == (match w.tickets[w.moved as int].task.waiter {
            Some(waiter) => w.wakes.push(waiter),
            None => w.wakes,
        }),
        v.tickets.len() == w.tickets.len(),
        forall|i: int|
            #![trigger v.tickets[i]]
            0 <= i < v.tickets.len() ==> v.tickets[i] == (Ticket {
                place: v.tickets[i].place,
                ..w.tickets[i]
            }),
    ensures
        v.tickets_ok(),
{
    reveal(World::tickets_ok);
    assert forall|i: int| #![trigger v.tickets[i]] 0 <= i < v.tickets.len() implies v.tickets[i].settled(
        v.woken(i),
    ) by {
        assert(w.tickets[i].settled(w.woken(i)));
    }
    assert(v.tasks().take(v.moved as int).drop_last() =~= w.tasks().take(w.moved as int));
}

/// The slots stay right when one of them is woken.
proof fn lemma_tickets_woken<T>(w: World<T>, after: WakerSlot)
    requires
        w.tickets_ok(),
        w.moved <= w.tickets.len(),
        w.enabled(Move::Wake { after }),
    ensures
        w.after_wake(after).tickets_ok(),
{
    reveal(World::tickets_ok);
    let v = w.after_wake(after);
    assert forall|i: int| #![trigger v.tickets[i]] 0 <= i < v.tickets.len() implies v.tickets[i].settled(
        v.woken(i),
    ) by {
        assert(w.tickets[i].settled(w.woken(i)));
    }
    assert(v.tasks().take(v.moved as int) =~= w.tasks().take(w.moved as int));
}

/// The slots stay right when a sender asks.
proof fn lemma_tickets_polled<T>(w: World<T>, k: int, waker: Waker, after: WakerSlot, ready: bool)
    requires
        w.tickets_ok(),
        w.moved <= w.tickets.len(),
        w.enabled(Move::Poll { ticket: k, waker, after, ready }),
    ensures
        w.after_poll(k, waker, after, ready).tickets_ok(),
{
    reveal(World::tickets_ok);
    let v = w.after_poll(k, waker, after, ready);
    assert forall|i: int| #![trigger v.tickets[i]] 0 <= i < v.tickets.len() implies v.tickets[i].settled(
        v.woken(i),
    ) by {
        assert(w.tickets[i].settled(w.woken(i)));
    }
    assert(v.tasks().take(v.moved as int) =~= w.tasks().take(w.moved as int));
}

proof fn lemma_tickets<T>(w: World<T>, m: Move<T>, v: World<T>)
    requires
        v == w.after(m),
        w.inv(),
        w.enabled(m),
    ensures
        v.tickets_ok(),
{
    reveal(World::tickets_ok);
    lemma_tickets_go_on(w, m, v);
    match m {
        Move::Wake { after } => lemma_tickets_woken(w, after),
        Move::Poll { ticket, waker, after, ready } => lemma_tickets_polled(
            w,
            ticket,
            waker,
            after,
            ready,
        ),
        _ => {
            if lands(w, m) {
                lemma_tickets_come(w, v);
            } else {
                lemma_tickets_kept(w, v);
            }
        },
    }
}

pub(crate) proof fn lemma_move<T>(w: World<T>, m: Move<T>)
    requires
        w.inv(),
        w.enabled(m),
    ensures
        w.after(m).inv(),
{
    lemma_account(w, m);
    lemma_order(w, m);
    lemma_places(w, m, w.after(m));
    lemma_tickets(w, m, w.after(m));
    match m {
        Move::ReaderAccess => {
            if w.wanted() is Read {
                lemma_reader_takes(w);
            } else if w.wanted() is StoreHead {
                lemma_reader_retires(w);
            } else if w.reader is Popping {
                lemma_popper_looks(w);
            } else if w.reader.popping() is Some {
                lemma_server_looks(w);
            } else {
                lemma_server_settles(w);
            }
        },
        Move::ReaderEvent(event) => lemma_reader_event(w, event),
        Move::WriterAccess { waiter } => {
            if let Some((_, op)) = w.pushing() {
                match op {
                    PushOp::Fill { next } => lemma_writer_fills(w, waiter),
                    PushOp::Publish => lemma_writer_publishes(w, waiter),
                    PushOp::Offer { item, buffer_len } => {
                        if w.writer is Writing {
                            lemma_pusher_looks(w, waiter);
                        } else {
                            lemma_flusher_looks(w, waiter);
                        }
                    },
                }
            } else {
                match w.writer {
                    Writer::Idle => {},
                    Writer::Writing(_, _) => lemma_pusher_looks(w, waiter),
                    Writer::Rousing(_, _) => lemma_rouser_looks(w, waiter),
                    Writer::Flushing(_, _) => lemma_flusher_looks(w, waiter),
                }
            }
        },
        _ => lemma_party_begins(w, m),
    }
}

pub(crate) proof fn lemma_run<T>(start: World<T>, moves: Seq<Move<T>>)
    requires
        start.initial(),
        start.allows(moves),
    ensures
        start.run(moves).inv(),
    decreases moves.len(),
{
    if moves.len() == 0 {
        lemma_initial(start);
    } else {
        lemma_run(start, moves.drop_last());
        lemma_move(start.run(moves.drop_last()), moves.last());
    }
}

proof fn lemma_reader_can_go_on<T>(w: World<T>)
    requires
        w.sound(),
        w.reader.asked() is Some,
    ensures
        w.memory.permits(w.wanted()),
        w.enabled(Move::ReaderAccess),
{
    reveal(filled);
    let m = w.memory;
    if let Some(ReadOp::Popping(PopOp::Take { next })) = w.reader.popping() {
        assert(m.holds(m.head as int));
        assert(0 <= slot_of(m.head as int, w.len()) < w.len());
    }
}

proof fn lemma_writer_can_go_on<T>(w: World<T>, waiter: Option<Waiter>)
    requires
        w.sound(),
        !(w.writer is Idle),
    ensures
        w.memory.permits(w.writer.asked()),
        w.memory.tail < u64::MAX && !w.wake_due ==> w.enabled(Move::WriterAccess { waiter }),
{
    reveal(filled);
    let m = w.memory;
    if let Some((_, PushOp::Fill { next })) = w.pushing() {
        assert(!m.holds(m.tail as int));
        assert(0 <= slot_of(m.tail as int, w.len()) < w.len());
    }
}

/// However the moves of the two parties follow each other, the access that a party has asked for
/// can be made: an item is put only into a slot that is free, and taken only out of a slot that
/// holds one. And the party can go on after it, except that a push cannot once `tail` has reached
/// the largest number there is.
pub proof fn law_accesses_are_safe<T>(
    start: World<T>,
    moves: Seq<Move<T>>,
    waiter: Option<Waiter>,
)
    requires
        start.initial(),
        start.allows(moves),
    ensures
        ({
            let w = start.run(moves);
            &&& w.reader.asked() is Some ==> w.memory.permits(w.wanted()) && w.enabled(
                Move::ReaderAccess,
            )
            &&& w.memory.permits(w.writer.asked())
            &&& !(w.writer is Idle) && !w.wake_due && w.memory.tail < u64::MAX ==> w.enabled(
                Move::WriterAccess { waiter },
            )
        }),
{
    lemma_run(start, moves);
    let w = start.run(moves);
    if w.reader.asked() is Some {
        lemma_reader_can_go_on(w);
    }
    if !(w.writer is Idle) {
        lemma_writer_can_go_on(w, waiter);
    }
}

/// However the moves follow each other, the counters stay in order and no further apart than there
/// are slots.
pub proof fn law_counters_stay_in_order<T>(start: World<T>, moves: Seq<Move<T>>)
    requires
        start.initial(),
        start.allows(moves),
    ensures
        ({
            let m = start.run(moves).memory;
            m.head <= m.tail <= m.head + m.slots.len() && m.slots.len() == start.memory.slots.len()
        }),
    decreases moves.len(),
{
    lemma_run(start, moves);
    if moves.len() > 0 {
        let w = start.run(moves.drop_last());
        law_counters_stay_in_order(start, moves.drop_last());
        lemma_run(start, moves.drop_last());
        lemma_sent_kept(w, moves.last(), start.run(moves));
    }
}

/// The reading party, by hand or for a handler, hands on the items in the order in which they were
/// put into the ring, none left out and none twice, beginning with those that were in it at first.
/// If no item ever had to wait for room, that is the order of the pushes.
pub proof fn law_items_arrive_in_order<T>(start: World<T>, moves: Seq<Move<T>>)
    requires
        start.initial(),
        start.allows(moves),
    ensures
        ({
            let w = start.run(moves);
            &&& w.received.is_prefix_of(w.sent)
            &&& !w.parked ==> w.received.is_prefix_of(w.offered)
        }),
{
    reveal(World::account_ok);
    lemma_run(start, moves);
    let w = start.run(moves);
    assert((w.received + w.reader.in_hand()).len() == w.memory.head - w.first);
    assert forall|i: int| 0 <= i < w.received.len() implies w.received[i] == w.sent[i] by {
        assert((w.received + w.reader.in_hand())[i] == w.received[i]);
        assert(w.sent.take(w.memory.head - w.first)[i] == w.sent[i]);
    }
    if !w.parked {
        assert forall|i: int| 0 <= i < w.sent.len() implies w.sent[i] == w.offered[i] by {
            assert(w.line()[i] == w.sent[i]);
        }
    }
}

/// Every item that was in the ring at first or was to be pushed has been handed on, or is on its
/// way there, or waits for room: each exactly once.
pub proof fn law_no_item_is_lost_or_doubled<T>(start: World<T>, moves: Seq<Move<T>>)
    requires
        start.initial(),
        start.allows(moves),
    ensures
        ({
            let w = start.run(moves);
            let on_the_way = w.sent.skip(w.received.len() as int);
            w.offered.to_multiset() == (w.received + on_the_way + w.writer.at_hand() + data_of(
                w.pending,
            )).to_multiset()
        }),
{
    reveal(World::account_ok);
    lemma_run(start, moves);
    law_items_arrive_in_order(start, moves);
    let w = start.run(moves);
    assert(w.received + w.sent.skip(w.received.len() as int) =~= w.sent);
}

/// A reader that sleeps while there are items in the ring has been called, or is looked after by
/// what the writing party is at, or a call to it was put off and is still to be made, or an item
/// came quietly and nobody has looked after the reader since.
pub proof fn law_sleeping_reader_is_called<T>(start: World<T>, moves: Seq<Move<T>>)
    requires
        start.initial(),
        start.allows(moves),
    ensures
        ({
            let w = start.run(moves);
            w.reader.sleeps() && w.memory.head < w.memory.tail ==> {
                ||| w.memory.reader_called
                ||| w.writer.attends()
                ||| w.calls_due > 0
                ||| w.quiet
            }
        }),
{
    lemma_run(start, moves);
}

/// When the two parties have come to rest, with the reader asleep, nobody called, no call put off
/// and no item put in quietly, the handler has got every item that was put into the ring; and if no item ever had
/// to wait, every item that was to be pushed, in the order of the pushes.
pub proof fn law_at_rest_all_is_received<T>(start: World<T>, moves: Seq<Move<T>>)
    requires
        start.initial(),
        start.allows(moves),
        start.run(moves).writer is Idle,
        start.run(moves).calls_due == 0,
        start.run(moves).reader.sleeps(),
        !start.run(moves).memory.reader_called,
        !start.run(moves).quiet,
    ensures
        ({
            let w = start.run(moves);
            &&& w.received == w.sent
            &&& w.memory.head == w.memory.tail
            &&& !w.parked ==> w.received == w.offered
        }),
{
    reveal(World::account_ok);
    lemma_run(start, moves);
    let w = start.run(moves);
    assert(w.received + w.reader.in_hand() =~= w.received);
    assert(w.sent.take(w.memory.head - w.first) =~= w.sent);
    assert(w.pending.len() == 0 ==> w.line() =~= w.sent);
}

/// No item is left waiting: when the two parties have come to rest, with the reader asleep, nobody
/// called, no call put off, no round over the waiting items due and no item put in quietly, no item
/// waits for room,
/// and the handler has got every item that was in the ring at first or was to be pushed. This
/// holds of every ring that has a slot at all.
pub proof fn law_no_item_waits_at_rest<T>(start: World<T>, moves: Seq<Move<T>>)
    requires
        start.initial(),
        start.allows(moves),
        start.run(moves).len() > 0,
        start.run(moves).writer is Idle,
        start.run(moves).calls_due == 0,
        !start.run(moves).flush_due,
        !start.run(moves).memory.writer_called,
        start.run(moves).reader.sleeps(),
        !start.run(moves).memory.reader_called,
        !start.run(moves).quiet,
    ensures
        start.run(moves).pending.len() == 0,
        start.run(moves).received.to_multiset() == start.run(moves).offered.to_multiset(),
{
    reveal(World::account_ok);
    lemma_run(start, moves);
    law_at_rest_all_is_received(start, moves);
    let w = start.run(moves);
    assert(w.line() =~= w.sent);
}

/// Items do not wait for room in vain: whenever the writing party is not in the middle of a round
/// over the waiting items and any item waits, in a ring that has a slot at all, then such a round
/// is due, or the writer has been called or is about to be, or it is marked as waiting and the
/// reading party has yet to look at that mark: there are items for it to take out, or it is past
/// taking one out and about to look.
pub proof fn law_waiting_items_are_not_forgotten<T>(start: World<T>, moves: Seq<Move<T>>)
    requires
        start.initial(),
        start.allows(moves),
    ensures
        ({
            let w = start.run(moves);
            !(w.writer is Flushing) && w.len() > 0 && w.pending.len() > 0 ==> w.will_hear()
        }),
{
    lemma_run(start, moves);
}

/// The world after some of the moves and the world after all of them: nothing that was sent or
/// handed on is taken back, and an item that had to wait keeps its place once it has one.
pub proof fn law_nothing_is_taken_back<T>(start: World<T>, moves: Seq<Move<T>>, n: int)
    requires
        start.initial(),
        start.allows(moves),
        0 <= n <= moves.len(),
    ensures
        start.allows(moves.take(n)),
        ({
            let w = start.run(moves.take(n));
            let v = start.run(moves);
            &&& v.first == w.first
            &&& w.sent.is_prefix_of(v.sent)
            &&& w.received.is_prefix_of(v.received)
            &&& w.tickets.len() <= v.tickets.len()
            &&& forall|i: int|
                #![trigger v.tickets[i]]
                0 <= i < w.tickets.len() ==> v.tickets[i].task == w.tickets[i].task && (
                w.tickets[i].place is Some ==> v.tickets[i].place == w.tickets[i].place)
        }),
    decreases moves.len(),
{
    if n == moves.len() {
        assert(moves.take(n) =~= moves);
    } else {
        let before = moves.drop_last();
        assert(before.take(n) =~= moves.take(n));
        law_nothing_is_taken_back(start, before, n);
        lemma_run(start, before);
        let u = start.run(before);
        let v = start.run(moves);
        assert(u.wake_due ==> u.moved > 0) by {
            reveal(World::tickets_ok);
        }
        lemma_sent_kept(u, moves.last(), v);
        lemma_tickets_go_on(u, moves.last(), v);
        assert forall|i: int| #![trigger v.tickets[i]] 0 <= i < u.tickets.len() implies v.tickets[i].task
            == u.tickets[i].task && (u.tickets[i].place is Some ==> v.tickets[i].place
            == u.tickets[i].place) by {
            reveal(World::places_ok);
        }
    }
}

/// What is in the ring while nothing is being taken out of it.
proof fn lemma_ring_items<T>(w: World<T>)
    requires
        w.slots_ok(),
        !w.retiring(),
    ensures
        forall|i: int|
            #![trigger w.memory.meaning().items[i]]
            0 <= i < w.memory.tail - w.memory.head ==> w.memory.meaning().items[i] == w.sent[
                w.memory.head - w.first + i],
{
    reveal(filled);
    assert forall|i: int|
        #![trigger w.memory.meaning().items[i]]
        0 <= i < w.memory.tail - w.memory.head implies w.memory.meaning().items[i] == w.sent[
        w.memory.head - w.first + i] by {
        assert(w.memory.holds(w.memory.head + i));
    }
}

/// What a handler gets from the moment its service begins, at whatever point of whatever run, is
/// what was in the ring at that moment followed by what was put in since, in that order, as far as
/// it has got.
pub proof fn law_service_begins_with_what_is_there<T>(start: World<T>, moves: Seq<Move<T>>, n: int)
    requires
        start.initial(),
        start.allows(moves),
        0 <= n < moves.len(),
        moves[n] is Serve,
    ensures
        ({
            let w = start.run(moves.take(n));
            let v = start.run(moves);
            let got = w.received.len() as int;
            &&& w.received.is_prefix_of(v.received)
            &&& w.memory.meaning().items.is_prefix_of(v.sent.skip(got))
            &&& v.received.skip(got).is_prefix_of(v.sent.skip(got))
        }),
{
    let w = start.run(moves.take(n));
    let v = start.run(moves);
    law_nothing_is_taken_back(start, moves, n);
    law_nothing_is_taken_back(start, moves, n + 1);
    assert(moves.take(n + 1).drop_last() =~= moves.take(n));
    lemma_run(start, moves.take(n));
    law_items_arrive_in_order(start, moves);
    assert(w.enabled(Move::Serve));
    lemma_resting(w);
    lemma_later(w, v);
}

/// While the reading party rests, what it has handed on is all that has left the ring.
proof fn lemma_resting<T>(w: World<T>)
    requires
        w.sound(),
        w.reader is Resting,
    ensures
        w.first + w.received.len() == w.memory.head,
        w.first + w.sent.len() >= w.memory.tail,
        forall|i: int|
            #![trigger w.memory.meaning().items[i]]
            0 <= i < w.memory.meaning().items.len() ==> w.memory.meaning().items[i] == w.sent[
                w.received.len() + i],
        w.memory.meaning().items.len() == w.memory.tail - w.memory.head,
{
    assert((w.received + w.reader.in_hand()).len() == w.received.len());
    lemma_ring_items(w);
}

/// What is in the ring comes first of what is handed on later.
proof fn lemma_later<T>(w: World<T>, v: World<T>)
    requires
        w.first + w.received.len() == w.memory.head,
        w.first + w.sent.len() >= w.memory.tail,
        w.memory.meaning().items.len() == w.memory.tail - w.memory.head,
        forall|i: int|
            #![trigger w.memory.meaning().items[i]]
            0 <= i < w.memory.meaning().items.len() ==> w.memory.meaning().items[i] == w.sent[
                w.received.len() + i],
        w.sent.is_prefix_of(v.sent),
        w.received.is_prefix_of(v.received),
        v.received.is_prefix_of(v.sent),
    ensures
        w.memory.meaning().items.is_prefix_of(v.sent.skip(w.received.len() as int)),
        v.received.skip(w.received.len() as int).is_prefix_of(
            v.sent.skip(w.received.len() as int),
        ),
{
    let items = w.memory.meaning().items;
    let rest = v.sent.skip(w.received.len() as int);
    assert(items.len() <= rest.len());
    assert forall|i: int| 0 <= i < items.len() implies items[i] == rest[i] by {
        assert(items[i] == w.sent[w.received.len() + i]);
    }
    assert(items =~= rest.take(items.len() as int));
}

/// The slots that are to be woken are those of the items that had to wait and have been moved into
/// the ring, in the order in which they came to wait, each once.
pub proof fn law_slots_are_woken_in_order<T>(start: World<T>, moves: Seq<Move<T>>)
    requires
        start.initial(),
        start.allows(moves),
    ensures
        ({
            let w = start.run(moves);
            &&& w.moved <= w.tickets.len()
            &&& w.wakes == waiters_of(w.tasks().take(w.moved as int))
            &&& forall|i: int|
                #![trigger w.tickets[i]]
                0 <= i < w.tickets.len() ==> (w.tickets[i].place is Some <==> i < w.moved)
            &&& forall|i: int, j: int|
                #![trigger w.tickets[i], w.tickets[j]]
                0 <= i < j < w.moved ==> w.tickets[i].place->0 < w.tickets[j].place->0
        }),
{
    reveal(World::tickets_ok);
    reveal(World::places_ok);
    lemma_run(start, moves);
}

/// A sender that asks after its item while no round over the waiting items is under way is told
/// that it has gone through exactly if it has been moved into the ring, where it stands or stood
/// in its place.
pub proof fn law_senders_are_told_the_truth<T>(
    start: World<T>,
    moves: Seq<Move<T>>,
    k: int,
    waker: Waker,
    after: WakerSlot,
    ready: bool,
)
    requires
        start.initial(),
        start.allows(moves),
        start.run(moves).enabled(Move::Poll { ticket: k, waker, after, ready }),
        !(start.run(moves).writer is Flushing),
    ensures
        ({
            let w = start.run(moves);
            let ticket = w.tickets[k];
            &&& ready <==> ticket.place is Some
            &&& ready ==> ticket.place->0 < w.sent.len() && w.sent[ticket.place->0 as int]
                == ticket.task.data
        }),
{
    reveal(World::tickets_ok);
    reveal(World::places_ok);
    lemma_run(start, moves);
    let w = start.run(moves);
    assert(w.tickets[k].settled(w.woken(k)));
}

/// While no round over the waiting items is under way, every item that had to wait and has been
/// moved into the ring has seen its sender woken: a copy of the waker that the sender left when it
/// last asked, once, and nobody if the sender never asked. Of an item that still waits nobody has
/// been woken, and that copy is still in the slot.
///
/// That a waker was woken means here what it means where `wake_waiter` ensures it: `Waker::wake`
/// was called on it. The moves that wake and ask are what `wake_waiter` and `PushJoinHandle::poll`
/// ensure of the slot that they find under its lock.
pub proof fn law_senders_are_woken_once<T>(start: World<T>, moves: Seq<Move<T>>, k: int)
    requires
        start.initial(),
        start.allows(moves),
        !(start.run(moves).writer is Flushing),
        0 <= k < start.run(moves).tickets.len(),
        start.run(moves).tickets[k].task.waiter is Some,
    ensures
        ({
            let ticket = start.run(moves).tickets[k];
            if ticket.place is Some {
                &&& ticket.slot is Finished
                &&& match ticket.asked {
                    Some(w) => ticket.woken.len() == 1 && cloned(w, ticket.woken[0]) && woken(
                        ticket.woken[0],
                    ),
                    None => ticket.woken.len() == 0,
                }
            } else {
                &&& ticket.woken.len() == 0
                &&& match ticket.asked {
                    Some(w) => ticket.slot is Waiting && cloned(w, ticket.slot->Waiting_0),
                    None => ticket.slot is Empty,
                }
            }
        }),
{
    reveal(World::tickets_ok);
    reveal(World::places_ok);
    lemma_run(start, moves);
    let w = start.run(moves);
    assert(w.tickets[k].settled(w.woken(k)));
}

} // verus!
