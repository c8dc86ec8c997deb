//! A reader with nothing to do comes to rest.

use crate::handler::{Action, Event, Handler, Phase};
use crate::memory::Reply;
use crate::read_queue::ReadOp;
use crate::script::{PopOp, SleepOp};
use vstd::prelude::*;

verus! {

/// A reader that serves a handler: what it is about, what it asks for and what comes of it, one
/// after the other, for as long as it does not sleep.
pub struct Service<T> {
    pub readers: spec_fn(nat) -> Handler<T>,
    pub actions: spec_fn(nat) -> Action<T>,
    pub events: spec_fn(nat) -> Event<T>,
}

impl<T> Service<T> {
    /// Unless the reader sleeps, the `n`th event can have come of what was asked for, and the reader
    /// goes on from it.
    pub open spec fn follows(self, n: nat) -> bool {
        !((self.readers)(n).phase is Waiting) ==> {
            &&& (self.readers)(n).ready((self.events)(n))
            &&& ((self.actions)(n + 1), (self.readers)(n + 1)) == (self.readers)(n).next(
                (self.events)(n),
            )
        }
    }

    /// The reader sees no item at the `n`th event.
    pub open spec fn empty(self, n: nat) -> bool {
        (self.events)(n) matches Event::Reply(Reply::Counters { head, tail }) ==> head == tail
    }

    /// From the `m`th event on the clock shows `bound` or more, whenever it is read.
    pub open spec fn passed(self, bound: u64, m: nat) -> bool {
        forall|k: nat|
            #![trigger (self.events)(k)]
            m <= k ==> ((self.events)(k) matches Event::Now(now) ==> now >= bound)
    }

    /// The clock comes to show `bound` or more.
    pub open spec fn passes(self, bound: u64) -> bool {
        exists|m: nat| #[trigger] self.passed(bound, m)
    }

    /// The reader goes on until it sleeps, no item comes, and the clock passes every bound.
    pub open spec fn idles(self) -> bool {
        &&& forall|n: nat| #[trigger] self.follows(n)
        &&& forall|n: nat| #[trigger] self.empty(n)
        &&& forall|bound: u64| #[trigger] self.passes(bound)
    }
}

/// Whether the reader stays warm until `deadline` and has no item in hand.
spec fn warm<T>(phase: Phase<T>, deadline: u64) -> bool {
    match phase {
        Phase::Checking { deadline: d } => d == deadline,
        Phase::Yielded { deadline: d } => d == deadline,
        Phase::Looking { deadline: d } => d == deadline,
        Phase::Warm { op, deadline: d } => d == deadline && vain(op),
        _ => false,
    }
}

/// Whether a pop has found no item, or is yet to look for one.
spec fn vain<T>(op: ReadOp<T>) -> bool {
    match op {
        ReadOp::Popping(PopOp::Look { .. }) => true,
        ReadOp::Popping(_) => false,
        ReadOp::Peek { item } => item is None,
        ReadOp::Free { item } => item is None,
        ReadOp::Call { item } => item is None,
    }
}

/// Whether the reader is going to sleep.
spec fn settling<T>(phase: Phase<T>) -> bool {
    phase == Phase::<T>::Settling(SleepOp::Lower) || phase == Phase::<T>::Settling(SleepOp::Look)
}

/// How far a reader is from its sleep whose time is over.
spec fn to_sleep<T>(phase: Phase<T>) -> int {
    match phase {
        Phase::Yielded { .. } => 9,
        Phase::Warm { op, .. } => 4 + pop_left(op),
        Phase::Looking { .. } => 4,
        Phase::Checking { .. } => 3,
        Phase::Settling(SleepOp::Lower) => 2,
        Phase::Settling(_) => 1,
        _ => 0,
    }
}

spec fn pop_left<T>(op: ReadOp<T>) -> int {
    match op {
        ReadOp::Popping(PopOp::Take { .. }) => 6,
        ReadOp::Popping(PopOp::Retire { .. }) => 5,
        ReadOp::Popping(PopOp::Look { .. }) => 4,
        ReadOp::Peek { .. } => 3,
        ReadOp::Free { .. } => 2,
        ReadOp::Call { .. } => 1,
    }
}

/// How far a reader is from its warm time.
spec fn to_warm<T>(phase: Phase<T>) -> int {
    match phase {
        Phase::Opening => 1,
        Phase::Draining(op) => if vain(op) {
            1 + pop_left(op)
        } else {
            7 + pop_left(op)
        },
        Phase::Warm { op, .. } => 7 + pop_left(op),
        Phase::Rise | Phase::Handled | Phase::Settling(_) => 6,
        _ => 0,
    }
}

/// Whether the reader has come to its warm time, to its sleep or on the way to it.
spec fn close<T>(phase: Phase<T>) -> bool {
    phase is Waiting || settling(phase) || exists|d: u64| #[trigger] warm(phase, d)
}

/// A reader that sees no item gets nearer to its warm time.
proof fn lemma_nearer<T>(s: Service<T>, n: nat)
    requires
        s.idles(),
        !close((s.readers)(n).phase),
        !((s.readers)(n).phase is Stopped),
    ensures
        to_warm((s.readers)(n + 1).phase) < to_warm((s.readers)(n).phase) || close(
            (s.readers)(n + 1).phase,
        ),
        !((s.readers)(n + 1).phase is Stopped),
        to_warm((s.readers)(n).phase) > 0,
{
    assert(s.follows(n));
    assert(s.empty(n));
    let h = (s.readers)(n);
    let next = (s.readers)(n + 1).phase;
    match h.phase {
        Phase::Checking { deadline } => assert(warm(h.phase, deadline)),
        Phase::Yielded { deadline } => assert(warm(h.phase, deadline)),
        Phase::Looking { deadline } => assert(warm(h.phase, deadline)),
        Phase::Warm { op, deadline } => {
            if vain(op) {
                assert(warm(h.phase, deadline));
            }
        },
        Phase::Opening => {
            assert(warm(next, next->Checking_deadline));
        },
        _ => {},
    }
}

/// A reader that sees no item comes to its warm time, to its sleep or on the way to it.
proof fn lemma_comes_close<T>(s: Service<T>, n: nat) -> (j: nat)
    requires
        s.idles(),
        !((s.readers)(n).phase is Stopped),
    ensures
        n <= j,
        close((s.readers)(j).phase),
    decreases to_warm((s.readers)(n).phase),
{
    if close((s.readers)(n).phase) {
        n
    } else {
        lemma_nearer(s, n);
        if close((s.readers)(n + 1).phase) {
            n + 1
        } else {
            lemma_nearer(s, n + 1);
            lemma_comes_close(s, n + 1)
        }
    }
}

/// A warm reader that sees no item stays warm until the same deadline, or goes to sleep; and once
/// the deadline is over, gets nearer to its sleep.
proof fn lemma_stays<T>(s: Service<T>, n: nat, deadline: u64)
    requires
        s.idles(),
        warm((s.readers)(n).phase, deadline) || settling((s.readers)(n).phase),
    ensures
        ({
            let next = (s.readers)(n + 1).phase;
            &&& warm(next, deadline) || settling(next) || next is Waiting
            &&& s.passed(deadline, n) ==> to_sleep(next) < to_sleep((s.readers)(n).phase)
        }),
{
    assert(s.follows(n));
    assert(s.empty(n));
}

/// So it is still warm later on, or has come to its sleep.
proof fn lemma_still<T>(s: Service<T>, n: nat, deadline: u64, m: nat) -> (j: nat)
    requires
        s.idles(),
        n <= m,
        warm((s.readers)(n).phase, deadline) || settling((s.readers)(n).phase)
            || (s.readers)(n).phase is Waiting,
    ensures
        n <= j,
        (s.readers)(j).phase is Waiting || j == m && (warm((s.readers)(j).phase, deadline)
            || settling((s.readers)(j).phase)),
    decreases m - n,
{
    if (s.readers)(n).phase is Waiting || n == m {
        n
    } else {
        lemma_stays(s, n, deadline);
        lemma_still(s, n + 1, deadline, m)
    }
}

/// Once its time is over it comes to its sleep.
proof fn lemma_sleeps<T>(s: Service<T>, n: nat, deadline: u64) -> (j: nat)
    requires
        s.idles(),
        s.passed(deadline, n),
        warm((s.readers)(n).phase, deadline) || settling((s.readers)(n).phase)
            || (s.readers)(n).phase is Waiting,
    ensures
        n <= j,
        (s.readers)(j).phase is Waiting,
    decreases to_sleep((s.readers)(n).phase),
{
    if (s.readers)(n).phase is Waiting {
        n
    } else {
        lemma_stays(s, n, deadline);
        lemma_sleeps(s, n + 1, deadline)
    }
}

/// A reader with nothing to do comes to rest. If no item comes and the clock passes every bound,
/// then from any point of its service, short of its end, the reader comes to a point at which it
/// sleeps: it has asked to wait, and if then nobody wants it to go on, it stops.
pub proof fn law_idle_reader_comes_to_rest<T>(s: Service<T>, n: nat)
    requires
        s.idles(),
        !((s.readers)(n).phase is Stopped),
        !((s.readers)(n).phase is Waiting),
    ensures
        exists|j: nat|
            {
                let reader = #[trigger] (s.readers)(j);
                &&& n < j
                &&& reader.phase == Phase::<T>::Waiting
                &&& (s.actions)(j) == Action::<T>::Wait
                &&& reader.ready(Event::Exit)
                &&& reader.next(Event::Exit).0 == Action::<T>::Stop
            },
{
    let i = lemma_comes_close(s, n);
    let deadline = choose|d: u64| #[trigger] warm((s.readers)(i).phase, d);
    assert(s.passes(deadline));
    let m = choose|m: nat| #[trigger] s.passed(deadline, m);
    let late: nat = if i <= m {
        m
    } else {
        i
    };
    assert(s.passed(deadline, late));
    let k = lemma_still(s, i, deadline, late);
    let j = if (s.readers)(k).phase is Waiting {
        k
    } else {
        lemma_sleeps(s, k, deadline)
    };
    lemma_falls_asleep(s, n, j);
}

/// A reader that sleeps at one point and did not at an earlier one has asked to wait in between.
proof fn lemma_falls_asleep<T>(s: Service<T>, n: nat, j: nat)
    requires
        s.idles(),
        n <= j,
        !((s.readers)(n).phase is Waiting),
        (s.readers)(j).phase is Waiting,
    ensures
        exists|k: nat|
            {
                let reader = #[trigger] (s.readers)(k);
                &&& n < k
                &&& reader.phase == Phase::<T>::Waiting
                &&& (s.actions)(k) == Action::<T>::Wait
                &&& reader.ready(Event::Exit)
                &&& reader.next(Event::Exit).0 == Action::<T>::Stop
            },
    decreases j - n,
{
    assert(s.follows(n));
    if (s.readers)(n + 1).phase is Waiting {
        let k: nat = n + 1;
        assert((s.readers)(k).phase is Waiting);
    } else {
        lemma_falls_asleep(s, n + 1, j);
    }
}

} // verus!
