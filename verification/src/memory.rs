//! The memory that the two parties of a queue share, and the accesses they make to it.
//!
//! The memory of a queue may lie anywhere, in reach of a party that is not even written in the
//! same language. So the operations of this library do not touch it. They are scripts: each says
//! which single access to make next, and is told what came of it. [`Ring`] is memory that makes
//! these accesses on plain values.

use crate::counters::{lemma_slots_differ, slot_of, CLEAR, SET};
use vstd::prelude::*;

verus! {

/// One access to what two parties share.
pub enum Access<T> {
    /// Read `tail`, then `head`.
    Counters,
    /// Put an item into a slot.
    Write { index: usize, item: T },
    /// Take the item out of a slot.
    Read { index: usize },
    /// Publish a new `head`.
    StoreHead(u64),
    /// Publish a new `tail`.
    StoreTail(u64),
    /// Read the word that says whether the reader works.
    LoadWorking,
    /// Write that word.
    StoreWorking(u32),
    /// Read the word that says whether the writer waits for room.
    LoadStuck,
    /// Write that word.
    StoreStuck(u32),
    /// Call the reader, which may be asleep.
    CallReader,
    /// Call the writer, which may wait for room.
    CallWriter,
}

/// What came of an access.
pub enum Reply<T> {
    /// It has been made.
    Done,
    /// The two counters.
    Counters { head: u64, tail: u64 },
    /// The item that was in the slot.
    Item(T),
    /// The value of the word.
    Flag(u32),
}

/// What a script asks for: one more access, or nothing, since it has come to its result.
pub enum Step<T, S, R> {
    Do(Access<T>, S),
    Done(R),
}

/// What the memory of a queue means: the items in it from oldest to newest, how many fit, how
/// many were ever taken out, the two flag words, whether a party has been called and has not yet
/// heard it, and how often each party was ever called.
#[verifier::ext_equal]
pub struct RingView<T> {
    pub items: Seq<T>,
    pub capacity: nat,
    pub head: nat,
    pub working: u32,
    pub stuck: u32,
    pub reader_called: bool,
    pub writer_called: bool,
    pub calls_to_reader: nat,
    pub calls_to_writer: nat,
}

impl<T> RingView<T> {
    /// How many items were ever put in.
    pub open spec fn tail(self) -> nat {
        self.head + self.items.len()
    }

    pub open spec fn is_full(self) -> bool {
        self.items.len() == self.capacity
    }

    /// How many more items fit.
    pub open spec fn room(self) -> int {
        self.capacity - self.items.len()
    }

    /// The ring with `item` added behind all others.
    pub open spec fn pushed(self, item: T) -> Self {
        RingView { items: self.items.push(item), ..self }
    }

    /// The ring without its oldest item.
    pub open spec fn popped(self) -> Self {
        RingView { items: self.items.drop_first(), head: self.head + 1, ..self }
    }

    pub open spec fn with_working(self, flag: u32) -> Self {
        RingView { working: flag, ..self }
    }

    pub open spec fn with_stuck(self, flag: u32) -> Self {
        RingView { stuck: flag, ..self }
    }

    /// The ring after the reader, unless it works already, has been marked working and called,
    /// once.
    pub open spec fn roused(self) -> Self {
        if self.working == SET {
            self
        } else {
            RingView {
                working: SET,
                reader_called: true,
                calls_to_reader: self.calls_to_reader + 1,
                ..self
            }
        }
    }

    /// The ring after the writer, if it waits for room, has been marked as not waiting and called,
    /// once.
    pub open spec fn released(self) -> Self {
        if self.stuck == SET {
            RingView {
                stuck: CLEAR,
                writer_called: true,
                calls_to_writer: self.calls_to_writer + 1,
                ..self
            }
        } else {
            self
        }
    }
}

/// The contents of the memory of a queue, word by word.
#[verifier::ext_equal]
pub struct Memory<T> {
    pub slots: Seq<Option<T>>,
    pub head: u64,
    pub tail: u64,
    pub working: u32,
    pub stuck: u32,
    pub reader_called: bool,
    pub writer_called: bool,
    pub calls_to_reader: nat,
    pub calls_to_writer: nat,
}

impl<T> Memory<T> {
    /// Whether the slot of the item numbered `n` holds an item.
    pub open spec fn holds(self, n: int) -> bool {
        self.slots[slot_of(n, self.slots.len() as int)] is Some
    }

    /// The item numbered `n`.
    pub open spec fn item(self, n: int) -> T {
        self.slots[slot_of(n, self.slots.len() as int)]->0
    }

    /// The counters are in order and no further apart than there are slots.
    pub open spec fn in_order(self) -> bool {
        self.head <= self.tail <= self.head + self.slots.len()
    }

    /// The counters are in order, and exactly the slots of the items between them are filled.
    pub open spec fn wf(self) -> bool {
        &&& self.in_order()
        &&& forall|n: int| self.head <= n < self.tail ==> #[trigger] self.holds(n)
        &&& forall|n: int|
            self.tail <= n < self.head + self.slots.len() ==> !#[trigger] self.holds(n)
    }

    /// What the contents mean.
    pub open spec fn meaning(self) -> RingView<T> {
        RingView {
            items: Seq::new((self.tail - self.head) as nat, |i: int| self.item(self.head + i)),
            capacity: self.slots.len(),
            head: self.head as nat,
            working: self.working,
            stuck: self.stuck,
            reader_called: self.reader_called,
            writer_called: self.writer_called,
            calls_to_reader: self.calls_to_reader,
            calls_to_writer: self.calls_to_writer,
        }
    }

    /// Whether an access can be made: an item is put only into a slot that exists and is free,
    /// and is taken only out of a slot that holds one.
    pub open spec fn permits(self, access: Access<T>) -> bool {
        match access {
            Access::Write { index, item } => index < self.slots.len()
                && self.slots[index as int] is None,
            Access::Read { index } => index < self.slots.len()
                && self.slots[index as int] is Some,
            _ => true,
        }
    }

    /// The contents after an access.
    pub open spec fn after(self, access: Access<T>) -> Self {
        match access {
            Access::Write { index, item } => Memory {
                slots: self.slots.update(index as int, Some(item)),
                ..self
            },
            Access::Read { index } => Memory {
                slots: self.slots.update(index as int, None),
                ..self
            },
            Access::StoreHead(n) => Memory { head: n, ..self },
            Access::StoreTail(n) => Memory { tail: n, ..self },
            Access::StoreWorking(flag) => Memory { working: flag, ..self },
            Access::StoreStuck(flag) => Memory { stuck: flag, ..self },
            Access::CallReader => Memory {
                reader_called: true,
                calls_to_reader: self.calls_to_reader + 1,
                ..self
            },
            Access::CallWriter => Memory {
                writer_called: true,
                calls_to_writer: self.calls_to_writer + 1,
                ..self
            },
            Access::Counters | Access::LoadWorking | Access::LoadStuck => self,
        }
    }

    /// What comes of an access.
    pub open spec fn reply(self, access: Access<T>) -> Reply<T> {
        match access {
            Access::Counters => Reply::Counters { head: self.head, tail: self.tail },
            Access::Read { index } => Reply::Item(self.slots[index as int]->0),
            Access::LoadWorking => Reply::Flag(self.working),
            Access::LoadStuck => Reply::Flag(self.stuck),
            _ => Reply::Done,
        }
    }
}

/// What the ring holds rests on the slots and the counters alone.
pub proof fn lemma_flags_apart<T>(m: Memory<T>, n: Memory<T>)
    requires
        m.slots == n.slots,
        m.head == n.head,
        m.tail == n.tail,
    ensures
        m.meaning().items == n.meaning().items,
        m.wf() ==> n.wf(),
{
    assert(m.meaning().items =~= n.meaning().items);
    if m.wf() {
        assert forall|i: int| n.head <= i < n.tail implies #[trigger] n.holds(i) by {
            assert(m.holds(i));
        }
        assert forall|i: int| n.tail <= i < n.head + n.slots.len() implies !#[trigger] n.holds(
            i,
        ) by {
            assert(!m.holds(i));
        }
    }
}

/// An item fits into the slot of the next `tail`, and is the newest once `tail` has moved on.
pub proof fn lemma_put<T>(m: Memory<T>, index: usize, item: T, next: u64)
    requires
        m.wf(),
        m.tail - m.head < m.slots.len(),
        index == slot_of(m.tail as int, m.slots.len() as int),
        next == m.tail + 1,
    ensures
        m.permits(Access::Write { index, item }),
        ({
            let done = m.after(Access::Write { index, item }).after(Access::StoreTail(next));
            done.wf() && done.meaning() == m.meaning().pushed(item)
        }),
{
    let len = m.slots.len() as int;
    let done = m.after(Access::Write { index, item }).after(Access::StoreTail(next));
    assert(!m.holds(m.tail as int));
    assert forall|n: int| m.head <= n < m.head + len && n != m.tail implies #[trigger] done.slots[slot_of(
        n,
        len,
    )] == m.slots[slot_of(n, len)] by {
        if n < m.tail {
            lemma_slots_differ(n, m.tail as int, len);
        } else {
            lemma_slots_differ(m.tail as int, n, len);
        }
    }
    assert forall|n: int| done.head <= n < done.tail implies #[trigger] done.holds(n) by {
        assert(n < m.tail ==> m.holds(n));
    }
    assert forall|n: int| done.tail <= n < done.head + len implies !#[trigger] done.holds(n) by {
        assert(!m.holds(n));
    }
    assert(done.meaning().items =~= m.meaning().items.push(item));
}

/// The oldest item is in the slot of `head`, and has left the ring once `head` has moved on.
pub proof fn lemma_take<T>(m: Memory<T>, index: usize, next: u64)
    requires
        m.wf(),
        m.head < m.tail,
        index == slot_of(m.head as int, m.slots.len() as int),
        next == m.head + 1,
    ensures
        m.permits(Access::Read { index }),
        m.reply(Access::Read { index }) == Reply::Item(m.meaning().items[0]),
        ({
            let done = m.after(Access::Read { index }).after(Access::StoreHead(next));
            done.wf() && done.meaning() == m.meaning().popped()
        }),
{
    let len = m.slots.len() as int;
    let done = m.after(Access::Read { index }).after(Access::StoreHead(next));
    assert(m.holds(m.head as int));
    assert forall|n: int| m.head < n < m.head + len implies #[trigger] done.slots[slot_of(n, len)]
        == m.slots[slot_of(n, len)] by {
        lemma_slots_differ(m.head as int, n, len);
    }
    assert(slot_of(m.head + len, len) == index) by {
        vstd::arithmetic::div_mod::lemma_mod_add_multiples_vanish(m.head as int, len);
    }
    assert forall|n: int| done.head <= n < done.tail implies #[trigger] done.holds(n) by {
        assert(m.holds(n));
    }
    assert forall|n: int| done.tail <= n < done.head + len implies !#[trigger] done.holds(n) by {
        assert(n < m.head + len ==> !m.holds(n));
    }
    assert(done.meaning().items =~= m.meaning().items.drop_first());
}

/// Whether a ring of `size` slots is as new.
pub open spec fn fresh<T>(size: nat, ring: RingView<T>) -> bool {
    ring == (RingView::<T> {
        items: Seq::empty(),
        capacity: size,
        head: 0,
        working: CLEAR,
        stuck: CLEAR,
        reader_called: false,
        writer_called: false,
        calls_to_reader: 0,
        calls_to_writer: 0,
    })
}

/// What it does to a ring when the reader hears.
pub open spec fn reader_heard<T>(
    ring: RingView<T>,
    called: bool,
    ring_after: RingView<T>,
) -> bool {
    called == ring.reader_called && ring_after == (RingView { reader_called: false, ..ring })
}

/// What it does to a ring when the writer hears.
pub open spec fn writer_heard<T>(
    ring: RingView<T>,
    called: bool,
    ring_after: RingView<T>,
) -> bool {
    called == ring.writer_called && ring_after == (RingView { writer_called: false, ..ring })
}

/// Memory of a queue, held as plain values.
pub struct Ring<T> {
    buffer: Vec<Option<T>>,
    head: u64,
    tail: u64,
    working: u32,
    stuck: u32,
    reader_called: bool,
    writer_called: bool,
    calls_to_reader: Ghost<nat>,
    calls_to_writer: Ghost<nat>,
}

impl<T> View for Ring<T> {
    type V = RingView<T>;

    open spec fn view(&self) -> RingView<T> {
        self.memory().meaning()
    }
}

impl<T> Ring<T> {
    /// The contents, word by word.
    pub closed spec fn memory(self) -> Memory<T> {
        Memory {
            slots: self.buffer@,
            head: self.head,
            tail: self.tail,
            working: self.working,
            stuck: self.stuck,
            reader_called: self.reader_called,
            writer_called: self.writer_called,
            calls_to_reader: self.calls_to_reader@,
            calls_to_writer: self.calls_to_writer@,
        }
    }

    /// The counters are in order, and exactly the slots of the items between them are filled.
    pub open spec fn wf(self) -> bool {
        self.memory().wf()
    }

    /// The ring never holds more items than there are slots, and what it counts fits in a word.
    pub proof fn lemma_bounds(self)
        requires
            self.wf(),
        ensures
            self@.items.len() <= self@.capacity <= usize::MAX,
            self@.tail() <= u64::MAX,
    {
        assert(self.buffer.len() == self.buffer@.len());
    }

    /// Memory for a queue of `size` slots, with nothing in it, both flags down and nobody called.
    pub fn new(size: usize) -> (ring: Self)
        ensures
            ring.wf(),
            ring@ == (RingView::<T> {
                items: Seq::empty(),
                capacity: size as nat,
                head: 0,
                working: CLEAR,
                stuck: CLEAR,
                reader_called: false,
                writer_called: false,
                calls_to_reader: 0,
                calls_to_writer: 0,
            }),
            fresh(size as nat, ring@),
    {
        let mut buffer: Vec<Option<T>> = Vec::with_capacity(size);
        while buffer.len() < size
            invariant
                buffer@.len() <= size,
                forall|i: int| 0 <= i < buffer@.len() ==> (#[trigger] buffer@[i]) is None,
            decreases size - buffer@.len(),
        {
            buffer.push(None);
        }
        let ring = Ring {
            buffer,
            head: 0,
            tail: 0,
            working: CLEAR,
            stuck: CLEAR,
            reader_called: false,
            writer_called: false,
            calls_to_reader: Ghost(0),
            calls_to_writer: Ghost(0),
        };
        proof {
            assert forall|n: int| 0 <= n < size implies !#[trigger] ring.memory().holds(n) by {
                assert(0 <= slot_of(n, size as int) < size);
            }
        }
        ring
    }

    /// Makes one access.
    pub fn perform(&mut self, access: Access<T>) -> (reply: Reply<T>)
        requires
            old(self).memory().permits(access),
        ensures
            final(self).memory() == old(self).memory().after(access),
            reply == old(self).memory().reply(access),
    {
        match access {
            Access::Counters => return Reply::Counters { head: self.head, tail: self.tail },
            Access::Write { index, item } => self.buffer.set(index, Some(item)),
            Access::Read { index } => {
                if let Some(item) = self.buffer[index].take() {
                    return Reply::Item(item);
                }
            },
            Access::StoreHead(n) => self.head = n,
            Access::StoreTail(n) => self.tail = n,
            Access::LoadWorking => return Reply::Flag(self.working),
            Access::StoreWorking(flag) => self.working = flag,
            Access::LoadStuck => return Reply::Flag(self.stuck),
            Access::StoreStuck(flag) => self.stuck = flag,
            Access::CallReader => {
                self.reader_called = true;
                self.calls_to_reader = Ghost(self.calls_to_reader@ + 1);
            },
            Access::CallWriter => {
                self.writer_called = true;
                self.calls_to_writer = Ghost(self.calls_to_writer@ + 1);
            },
        }
        Reply::Done
    }

    /// The two counters, `head` first.
    pub fn counters(&self) -> (r: (u64, u64))
        ensures
            r.0 == self.memory().head,
            r.1 == self.memory().tail,
    {
        (self.head, self.tail)
    }

    /// The word that says whether the reader works.
    pub fn working_word(&self) -> (flag: u32)
        ensures
            flag == self@.working,
    {
        self.working
    }

    /// The word that says whether the writer waits for room.
    pub fn stuck_word(&self) -> (flag: u32)
        ensures
            flag == self@.stuck,
    {
        self.stuck
    }

    /// Whether the reader has been called since it last heard, and lets it hear.
    pub fn reader_hears(&mut self) -> (called: bool)
        ensures
            called == old(self)@.reader_called,
            final(self).memory() == (Memory { reader_called: false, ..old(self).memory() }),
            reader_heard(old(self)@, called, final(self)@),
    {
        let called = self.reader_called;
        self.reader_called = false;
        proof {
            lemma_flags_apart(old(self).memory(), self.memory());
        }
        called
    }

    /// Whether the writer has been called since it last heard, and lets it hear.
    pub fn writer_hears(&mut self) -> (called: bool)
        ensures
            called == old(self)@.writer_called,
            final(self).memory() == (Memory { writer_called: false, ..old(self).memory() }),
            writer_heard(old(self)@, called, final(self)@),
    {
        let called = self.writer_called;
        self.writer_called = false;
        proof {
            lemma_flags_apart(old(self).memory(), self.memory());
        }
        called
    }
}

} // verus!
