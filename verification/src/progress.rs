//! Items that wait for room get through in the end.
//!
//! The parties are those of [`protocol`](crate::protocol), from a point on at which nothing more is
//! pushed and each party goes on some time with what it has to do. The reading party may pop by
//! hand or serve a handler.

use crate::counters::SET;
use crate::handler::Phase;
use crate::protocol::{lemma_move, lemma_run, lemma_sent_kept, Move, Reader, World, Writer};
use crate::read_queue::ReadOp;
use crate::script::{PopOp, PushOp, RouseOp, SleepOp};
use crate::write_queue::{FlushOp, WriteOp};
use vstd::prelude::*;

verus! {

impl<T> Move<T> {
    /// A move of the reading party, other than to end its service.
    pub open spec fn of_reader(self) -> bool {
        match self {
            Move::Pop | Move::Serve | Move::ReaderAccess => true,
            Move::ReaderEvent(event) => !(event is Exit),
            _ => false,
        }
    }

    /// A move of the writing party, other than to begin something new.
    pub open spec fn of_writer(self) -> bool {
        match self {
            Move::Flush | Move::WriterAccess { .. } | Move::Wake { .. } => true,
            Move::PutOff | Move::Call | Move::WriterHears => true,
            _ => false,
        }
    }
}

impl<T> Reader<T> {
    /// Whether the reading party has ended its service.
    pub open spec fn stopped(self) -> bool {
        self matches Reader::Serving(_, handler) && handler.phase is Stopped
    }
}

impl<T> World<T> {
    /// Whether the reading party has something to do: it always has, but in its sleep.
    pub open spec fn reader_due(self) -> bool {
        !self.reader.sleeps() || self.memory.reader_called
    }

    /// Whether the writing party has something to do.
    pub open spec fn writer_due(self) -> bool {
        ||| !(self.writer is Idle)
        ||| self.calls_due > 0
        ||| self.flush_due
        ||| self.memory.writer_called
    }

    /// What can happen while nothing more is pushed and the reading party is wanted: the parties
    /// go on, senders ask, and the writing party hears only calls that were made.
    pub open spec fn drains(self, m: Move<T>) -> bool {
        &&& self.enabled(m)
        &&& m.of_reader() || m.of_writer() || m is Poll
        &&& m is WriterHears ==> self.memory.writer_called
    }

    /// How many items have yet to be handed on.
    pub(crate) open spec fn missing(self) -> int {
        self.offered.len() - self.received.len()
    }

    /// How many items have yet to come to count.
    pub(crate) open spec fn outside(self) -> int {
        self.writer.at_hand().len() + self.pending.len() + (if self.publishing() {
            1int
        } else {
            0
        })
    }

    /// Whether there is an item for the reading party to take out or hand on.
    pub(crate) open spec fn stocked(self) -> bool {
        self.memory.head < self.memory.tail || self.reader.in_hand().len() > 0
    }

    /// How things stand: there is an item for the reading party and it is awake or called, or
    /// there is one and it is asleep, or there is none.
    pub(crate) open spec fn standing(self) -> int {
        if !self.stocked() {
            2
        } else if !self.reader_due() {
            1
        } else {
            0
        }
    }

    /// Whether it is the reading party that has to move for things to go on.
    pub(crate) open spec fn reader_turn(self) -> bool {
        self.standing() == 0 || self.standing() == 2 && !self.writer_due()
    }

    /// How far the reading party is from handing on an item that is there.
    pub(crate) open spec fn reader_distance(self) -> int {
        match self.reader {
            Reader::Resting => 8,
            Reader::Popping(_, op) => read_distance(op, 8),
            Reader::Serving(_, handler) => match handler.phase {
                Phase::Handled => 0,
                Phase::Draining(op) => read_distance(op, 11),
                Phase::Rise => 7,
                Phase::Yielded { .. } => 7,
                Phase::Settling(SleepOp::Raise) => 7,
                Phase::Settling(SleepOp::Look) => 8,
                Phase::Settling(SleepOp::Lower) => 9,
                Phase::Waiting => 8,
                Phase::Checking { .. } => 10,
                Phase::Opening => 11,
                Phase::Looking { .. } => 12,
                Phase::Warm { op, deadline } => read_distance(op, 12),
                Phase::Stopped => 0,
            },
        }
    }

    /// How far the writing party is from putting an item into a ring with room.
    pub(crate) open spec fn writer_distance(self) -> int {
        match self.writer {
            Writer::Idle => 4,
            Writer::Writing(_, WriteOp::Offering { op, buffer_len, rouse }) => push_distance(op),
            Writer::Writing(_, WriteOp::Rousing(op)) => 5 + rouse_distance(op),
            Writer::Writing(_, WriteOp::Stick { item, buffer_len }) => 6,
            Writer::Writing(_, WriteOp::Look { item, buffer_len }) => 5,
            Writer::Rousing(_, op) => 5 + rouse_distance(op),
            Writer::Flushing(_, FlushOp::Offering { op, waiter }) => push_distance(op),
            Writer::Flushing(_, FlushOp::Rousing(op)) => 7 + rouse_distance(op),
            Writer::Flushing(_, FlushOp::Stick) => 6,
            Writer::Flushing(_, FlushOp::Look) => 5,
        }
    }

    /// How far the writing party is from having heard all calls that it will hear if nothing is
    /// put into the ring.
    pub(crate) open spec fn call_distance(self) -> int {
        let marked = self.memory.stuck == SET;
        one(self.memory.writer_called) + one(self.wake_due) + match self.reader.popping() {
            Some(ReadOp::Call { item }) => if marked {
                7int
            } else {
                2
            },
            Some(ReadOp::Free { item }) => 3,
            Some(ReadOp::Peek { item }) => if marked {
                4
            } else {
                0
            },
            _ => if marked {
                5
            } else {
                0
            },
        }
    }

    /// How far the writing party is from putting an item into the ring or from hearing why it
    /// should.
    pub(crate) open spec fn put_distance(self) -> int {
        10 * self.writer_distance() + self.call_distance()
    }

    /// How far the writing party is from having nothing to do, if nothing can be put into the
    /// ring.
    pub(crate) open spec fn rest_distance(self) -> int {
        100 * one(self.memory.writer_called) + 50 * one(self.flush_due) + 2 * (match self.writer {
            Writer::Idle => 0int,
            Writer::Writing(_, WriteOp::Offering { op, buffer_len, rouse }) => 3,
            Writer::Writing(_, WriteOp::Rousing(op)) => 1 + rouse_distance(op),
            Writer::Writing(_, WriteOp::Stick { item, buffer_len }) => 2,
            Writer::Writing(_, WriteOp::Look { item, buffer_len }) => 1,
            Writer::Rousing(_, op) => 1 + rouse_distance(op),
            Writer::Flushing(_, FlushOp::Offering { op, waiter }) => 6,
            Writer::Flushing(_, FlushOp::Rousing(op)) => 3 + rouse_distance(op),
            Writer::Flushing(_, FlushOp::Stick) => 2,
            Writer::Flushing(_, FlushOp::Look) => 1,
        }) + one(self.wake_due)
    }

    /// Whether an item can be put into the ring.
    pub(crate) open spec fn puts(self) -> bool {
        self.memory.tail - self.memory.head < self.len() && self.outside() > 0
    }

    /// How far the parties are from having handed on everything, in four numbers, the first of
    /// which weighs most.
    pub(crate) open spec fn distance(self) -> (int, int, int, int) {
        let first = 3 * self.missing() + self.standing();
        if self.standing() == 0 {
            (first, self.reader_distance(), 0, 0)
        } else if self.standing() == 1 {
            let third = if self.puts() {
                self.put_distance()
            } else {
                self.rest_distance()
            };
            (first, self.outside(), third, self.calls_due as int)
        } else {
            (first, self.put_distance(), 0, self.calls_due as int)
        }
    }

    /// What holds from the point on at which nothing more is pushed.
    pub(crate) open spec fn draining(self) -> bool {
        &&& self.inv()
        &&& self.len() > 0
        &&& !self.reader.stopped()
    }
}

/// Whether `a` weighs less than `b`.
pub(crate) open spec fn less(a: (int, int, int, int), b: (int, int, int, int)) -> bool {
    ||| a.0 < b.0
    ||| a.0 == b.0 && a.1 < b.1
    ||| a.0 == b.0 && a.1 == b.1 && a.2 < b.2
    ||| a.0 == b.0 && a.1 == b.1 && a.2 == b.2 && a.3 < b.3
}

/// Whether none of the four numbers is below zero.
pub(crate) open spec fn positive(a: (int, int, int, int)) -> bool {
    a.0 >= 0 && a.1 >= 0 && a.2 >= 0 && a.3 >= 0
}

pub(crate) open spec fn one(b: bool) -> int {
    if b {
        1
    } else {
        0
    }
}

/// How far a pop is from handing on an item that is there, with `next` for what follows on it if
/// it has found none.
pub(crate) open spec fn read_distance<T>(op: ReadOp<T>, next: int) -> int {
    match op {
        ReadOp::Popping(PopOp::Look { buffer_len }) => 6,
        ReadOp::Popping(PopOp::Take { next }) => 5,
        ReadOp::Popping(PopOp::Retire { item }) => 4,
        ReadOp::Peek { item } => if item is Some {
            3
        } else {
            next + 3
        },
        ReadOp::Free { item } => if item is Some {
            2
        } else {
            next + 2
        },
        ReadOp::Call { item } => if item is Some {
            1
        } else {
            next + 1
        },
    }
}

pub(crate) open spec fn push_distance<T>(op: PushOp<T>) -> int {
    match op {
        PushOp::Offer { item, buffer_len } => 3,
        PushOp::Fill { next } => 2,
        PushOp::Publish => 1,
    }
}

pub(crate) open spec fn rouse_distance(op: RouseOp) -> int {
    match op {
        RouseOp::Check => 2,
        RouseOp::Mark => 1,
        RouseOp::Call => 0,
    }
}

/// Where the items are that have yet to be handed on.
proof fn lemma_missing<T>(w: World<T>)
    requires
        w.inv(),
    ensures
        w.missing() == w.sent.len() - w.received.len() + w.writer.at_hand().len() + w.pending.len(),
        w.received.len() + w.reader.in_hand().len() == w.memory.head - w.first,
        w.missing() >= 0,
{
    reveal(World::account_ok);
    w.line().to_multiset_ensures();
    w.offered.to_multiset_ensures();
    assert(w.line().len() == w.offered.len());
    assert((w.received + w.reader.in_hand()).len() == w.memory.head - w.first);
}

/// A move of the reading party brings the parties nearer to their goal if it is its turn, and takes
/// nothing away from it if it is not.
proof fn lemma_reader_step<T>(w: World<T>, m: Move<T>, v: World<T>)
    requires
        w.draining(),
        w.missing() > 0,
        w.drains(m),
        m.of_reader(),
        v == w.after(m),
        v.inv(),
    ensures
        w.reader_turn() ==> less(v.distance(), w.distance()),
        !w.reader_turn() ==> less(v.distance(), w.distance()) || v.distance() == w.distance()
            && !v.reader_turn(),
{
    lemma_missing(w);
    lemma_missing(v);
}

/// Where the items are that have yet to be handed on, and what the writing party stands at, by
/// itself.
spec fn placed<T>(w: World<T>) -> bool {
    &&& w.memory.in_order()
    &&& w.len() <= usize::MAX
    &&& w.first <= w.memory.head
    &&& w.first + w.sent.len() == w.memory.tail + one(w.publishing())
    &&& w.missing() == w.sent.len() - w.received.len() + w.writer.at_hand().len() + w.pending.len()
    &&& w.received.len() + w.reader.in_hand().len() == w.memory.head - w.first
    &&& w.writer_ok()
    &&& w.stuck_ok()
    &&& w.publishing() ==> w.memory.tail - w.memory.head < w.len()
    &&& w.wake_due ==> w.writer is Flushing
}

/// A move of the writing party does nothing to the reading party but to call it.
proof fn lemma_writer_aside<T>(w: World<T>, m: Move<T>, v: World<T>)
    requires
        placed(w),
        w.drains(m),
        m.of_writer(),
        v == w.after(m),
    ensures
        v.reader == w.reader,
        v.received == w.received,
        v.offered == w.offered,
        v.memory.head == w.memory.head,
        v.memory.tail >= w.memory.tail,
        w.memory.reader_called ==> v.memory.reader_called,
        v.len() == w.len(),
{
}

/// A move of the writing party brings it nearer to putting an item into a ring with room.
proof fn lemma_writer_puts<T>(w: World<T>, m: Move<T>, v: World<T>)
    requires
        placed(w),
        placed(v),
        w.memory.tail - w.memory.head < w.len(),
        w.outside() > 0,
        w.drains(m),
        m.of_writer(),
        v == w.after(m),
    ensures
        ({
            ||| v.memory.tail > w.memory.tail && v.outside() < w.outside()
            ||| v.memory.tail == w.memory.tail && v.outside() == w.outside() && v.put_distance()
                < w.put_distance()
            ||| v.memory.tail == w.memory.tail && v.outside() == w.outside() && v.put_distance()
                == w.put_distance() && v.calls_due < w.calls_due
        }),
{
    match w.writer {
        Writer::Idle => {},
        Writer::Writing(_, _) => {},
        Writer::Rousing(_, _) => {},
        Writer::Flushing(_, _) => {},
    }
}

/// A move of the writing party brings it nearer to having nothing to do, if it can put nothing
/// into the ring.
proof fn lemma_writer_rests<T>(w: World<T>, m: Move<T>, v: World<T>)
    requires
        placed(w),
        placed(v),
        w.memory.tail - w.memory.head == w.len() || w.outside() == 0,
        w.drains(m),
        m.of_writer(),
        v == w.after(m),
    ensures
        v.memory.tail == w.memory.tail,
        v.outside() == w.outside(),
        v.rest_distance() < w.rest_distance() || v.rest_distance() == w.rest_distance()
            && v.calls_due < w.calls_due,
{
    match w.writer {
        Writer::Idle => {},
        Writer::Writing(_, _) => {},
        Writer::Rousing(_, _) => {},
        Writer::Flushing(_, _) => {},
    }
}

/// A move of the writing party brings the parties nearer to their goal if it is its turn, and takes
/// nothing away from it if it is not.
proof fn lemma_writer_step<T>(w: World<T>, m: Move<T>, v: World<T>)
    requires
        w.draining(),
        w.missing() > 0,
        w.drains(m),
        m.of_writer(),
        v == w.after(m),
        v.inv(),
    ensures
        !w.reader_turn() ==> less(v.distance(), w.distance()),
        w.reader_turn() ==> less(v.distance(), w.distance()) || v.distance() == w.distance()
            && v.reader_turn(),
{
    assert(placed(w) && placed(v)) by {
        reveal(World::tickets_ok);
        lemma_missing(w);
        lemma_missing(v);
    }
    lemma_writer_aside(w, m, v);
    if w.standing() != 0 {
        if w.memory.tail - w.memory.head < w.len() && w.outside() > 0 {
            lemma_writer_puts(w, m, v);
        } else {
            lemma_writer_rests(w, m, v);
        }
    }
}

/// The point at which nothing more is pushed is not left.
proof fn lemma_kept<T>(w: World<T>, m: Move<T>, v: World<T>)
    requires
        w.draining(),
        w.drains(m),
        v == w.after(m),
        v.inv(),
    ensures
        v.draining(),
{
    lemma_sent_kept(w, m, v);
}

/// How far the parties are tells how many items are missing.
proof fn lemma_distance<T>(w: World<T>)
    requires
        w.inv(),
    ensures
        positive(w.distance()),
        3 * w.missing() <= w.distance().0 < 3 * w.missing() + 3,
{
    lemma_missing(w);
}

/// Whichever party has to move has something to do.
proof fn lemma_due<T>(w: World<T>)
    requires
        w.draining(),
        w.missing() > 0,
        w.reader is Serving ==> !w.quiet,
    ensures
        w.reader_turn() ==> w.reader_due(),
        !w.reader_turn() ==> w.writer_due(),
{
    lemma_missing(w);
}

/// A sender that asks changes nothing of this.
proof fn lemma_poll_step<T>(w: World<T>, m: Move<T>, v: World<T>)
    requires
        w.draining(),
        w.drains(m),
        m is Poll,
        v == w.after(m),
        v.inv(),
    ensures
        v.distance() == w.distance(),
        v.reader_turn() == w.reader_turn(),
{
}

/// The moves of a run without end from a point on at which nothing more is pushed, and the worlds
/// between them.
pub struct Drain<T> {
    pub worlds: spec_fn(nat) -> World<T>,
    pub moves: spec_fn(nat) -> Move<T>,
}

impl<T> Drain<T> {
    /// The `n`th move can happen and leads from its world to the next.
    pub open spec fn follows(self, n: nat) -> bool {
        &&& (self.worlds)(n).drains((self.moves)(n))
        &&& (self.worlds)(n + 1) == (self.worlds)(n).after((self.moves)(n))
    }

    /// The reading party moves again, some time from the `n`th move on.
    pub open spec fn reader_moves(self, n: nat) -> bool {
        exists|k: nat| n <= k && #[trigger] (self.moves)(k).of_reader()
    }

    /// The writing party moves again, some time from the `n`th move on.
    pub open spec fn writer_moves(self, n: nat) -> bool {
        exists|k: nat| n <= k && #[trigger] (self.moves)(k).of_writer()
    }

    /// The moves follow each other; whenever a party has something to do, it makes another move
    /// some time; and no reader that serves a handler is left with items that were put in quietly.
    pub open spec fn fair(self) -> bool {
        &&& forall|n: nat| #[trigger] self.follows(n)
        &&& forall|n: nat|
            (self.worlds)(n).reader_due() ==> #[trigger] self.reader_moves(n)
        &&& forall|n: nat|
            (self.worlds)(n).writer_due() ==> #[trigger] self.writer_moves(n)
        &&& forall|n: nat|
            (#[trigger] (self.worlds)(n)).reader is Serving ==> !(self.worlds)(n).quiet
    }

    /// The party that has to move at the `n`th move makes the `k`th.
    spec fn helps(self, n: nat, k: nat) -> bool {
        if (self.worlds)(n).reader_turn() {
            (self.moves)(k).of_reader()
        } else {
            (self.moves)(k).of_writer()
        }
    }
}

/// Every world of the run is in order.
proof fn lemma_drain<T>(d: Drain<T>, n: nat)
    requires
        d.fair(),
        (d.worlds)(0).draining(),
    ensures
        (d.worlds)(n).draining(),
    decreases n,
{
    if n > 0 {
        let k = (n - 1) as nat;
        lemma_drain(d, k);
        lemma_step(d, k);
    }
}

/// One move of the run.
proof fn lemma_step<T>(d: Drain<T>, n: nat)
    requires
        d.fair(),
        (d.worlds)(n).draining(),
    ensures
        (d.worlds)(n + 1).draining(),
        (d.worlds)(n).missing() > 0 ==> {
            let w = (d.worlds)(n);
            let v = (d.worlds)(n + 1);
            &&& d.helps(n, n) ==> less(v.distance(), w.distance())
            &&& less(v.distance(), w.distance()) || v.distance() == w.distance()
                && v.reader_turn() == w.reader_turn()
        },
{
    let w = (d.worlds)(n);
    let m = (d.moves)(n);
    let v = (d.worlds)(n + 1);
    assert(d.follows(n));
    lemma_move(w, m);
    lemma_kept(w, m, v);
    if w.missing() > 0 {
        if m.of_reader() {
            lemma_reader_step(w, m, v);
        } else if m.of_writer() {
            lemma_writer_step(w, m, v);
        } else {
            lemma_poll_step(w, m, v);
        }
    }
}

/// The party that has to move comes to do so, and something has been won by then.
proof fn lemma_until<T>(d: Drain<T>, n: nat, k: nat) -> (j: nat)
    requires
        d.fair(),
        (d.worlds)(n).draining(),
        (d.worlds)(n).missing() > 0,
        n <= k,
        d.helps(n, k),
    ensures
        (d.worlds)(j).draining(),
        less((d.worlds)(j).distance(), (d.worlds)(n).distance()),
    decreases k - n,
{
    lemma_step(d, n);
    if less((d.worlds)(n + 1).distance(), (d.worlds)(n).distance()) {
        n + 1
    } else {
        lemma_distance((d.worlds)(n));
        lemma_distance((d.worlds)(n + 1));
        lemma_until(d, n + 1, k)
    }
}

/// In the end nothing is missing.
proof fn lemma_in_the_end<T>(d: Drain<T>, n: nat) -> (j: nat)
    requires
        d.fair(),
        (d.worlds)(n).draining(),
    ensures
        (d.worlds)(j).draining(),
        (d.worlds)(j).missing() == 0,
    decreases
            (d.worlds)(n).distance().0,
            (d.worlds)(n).distance().1,
            (d.worlds)(n).distance().2,
            (d.worlds)(n).distance().3,
{
    let w = (d.worlds)(n);
    lemma_missing(w);
    lemma_distance(w);
    if w.missing() == 0 {
        n
    } else {
        lemma_due(w);
        assert(w.reader_due() ==> d.reader_moves(n));
        assert(w.writer_due() ==> d.writer_moves(n));
        let k = choose|k: nat| n <= k && d.helps(n, k);
        if w.reader_turn() {
            let r = choose|r: nat| n <= r && #[trigger] (d.moves)(r).of_reader();
            assert(d.helps(n, r));
        } else {
            let r = choose|r: nat| n <= r && #[trigger] (d.moves)(r).of_writer();
            assert(d.helps(n, r));
        }
        let j = lemma_until(d, n, k);
        lemma_distance((d.worlds)(j));
        lemma_missing((d.worlds)(j));
        lemma_in_the_end(d, j)
    }
}

/// Items that wait for room get through. Take any point that the two parties can come to in a ring
/// that has a slot at all, with a reading party that pops by hand or serves a handler. If from
/// there on nothing more is pushed, each party, whenever it has something to do, makes another move
/// some time, and a reading party that serves a handler is not left with items that were put in
/// quietly, then there comes a point at which no item waits any more and every item that was in the
/// ring at first or was ever to be pushed has been handed on, each exactly once.
pub proof fn law_waiting_items_get_through<T>(start: World<T>, moves: Seq<Move<T>>, d: Drain<T>)
    requires
        start.initial(),
        start.allows(moves),
        start.run(moves).len() > 0,
        !start.run(moves).reader.stopped(),
        (d.worlds)(0) == start.run(moves),
        d.fair(),
    ensures
        exists|n: nat|
            {
                let w = #[trigger] (d.worlds)(n);
                &&& w.pending.len() == 0
                &&& w.received == w.sent
                &&& w.received.to_multiset() == w.offered.to_multiset()
            },
{
    reveal(World::account_ok);
    lemma_run(start, moves);
    let n = lemma_in_the_end(d, 0);
    let w = (d.worlds)(n);
    lemma_missing(w);
    assert(w.received + w.reader.in_hand() =~= w.received);
    assert(w.sent.take(w.memory.head - w.first) =~= w.sent);
    assert(w.line() =~= w.sent);
}

} // verus!
