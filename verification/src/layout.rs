//! Where the words and slots of a queue lie, and what keeps two queues apart.

use crate::memory::Access;
use crate::queue::{Placement, Queue, QueueMeta};
use vstd::prelude::*;

verus! {

/// The size of a counter, in bytes.
pub const COUNTER_BYTES: usize = 8;

/// The size of a flag word, in bytes.
pub const FLAG_BYTES: usize = 4;

/// The `len` addresses from `start` on.
pub open spec fn bytes(start: int, len: int) -> Set<int> {
    Set::new(|a: int| start <= a < start + len)
}

/// What a memory of bytes holds at the `len` addresses from `start` on.
pub open spec fn held_at(memory: spec_fn(int) -> u8, start: int, len: int) -> Seq<u8> {
    Seq::new(len as nat, |i: int| memory(start + i))
}

/// The words and slots of a queue, byte by byte.
#[verifier::ext_equal]
pub struct Contents {
    pub head: Seq<u8>,
    pub tail: Seq<u8>,
    pub working: Seq<u8>,
    pub stuck: Seq<u8>,
    pub slots: Seq<u8>,
}

/// The descriptors of both parties of a queue.
pub open spec fn descriptors(working: (i32, i32), unstuck: (i32, i32)) -> Set<i32> {
    set![working.0, working.1, unstuck.0, unstuck.1]
}

/// Whether a memory of bytes goes through `accesses` one by one, in the states `memories`, each
/// access changing it at most where it goes.
pub open spec fn goes_through<T>(
    meta: QueueMeta,
    item_size: int,
    accesses: Seq<Access<T>>,
    memories: Seq<spec_fn(int) -> u8>,
) -> bool {
    &&& memories.len() == accesses.len() + 1
    &&& forall|i: int| 0 <= i < accesses.len() ==> meta.has(#[trigger] accesses[i])
    &&& forall|i: int, a: int|
        #![trigger meta.touched(accesses[i], item_size).contains(a)]
        0 <= i < accesses.len() && !meta.touched(accesses[i], item_size).contains(a)
            ==> memories[i + 1](a) == memories[i](a)
}

impl QueueMeta {
    /// The words and slots of the queue, byte by byte.
    pub open spec fn contents(self, memory: spec_fn(int) -> u8, item_size: int) -> Contents {
        Contents {
            head: held_at(memory, self.head_ptr as int, COUNTER_BYTES as int),
            tail: held_at(memory, self.tail_ptr as int, COUNTER_BYTES as int),
            working: held_at(memory, self.working_ptr as int, FLAG_BYTES as int),
            stuck: held_at(memory, self.stuck_ptr as int, FLAG_BYTES as int),
            slots: held_at(memory, self.buffer_ptr as int, self.buffer_len * item_size),
        }
    }

    /// Whether the slots, for items of `item_size` bytes, end within what can be addressed.
    pub open spec fn fits(self, item_size: int) -> bool {
        self.buffer_ptr + self.buffer_len * item_size <= usize::MAX
    }

    /// The addresses of all words and slots.
    pub open spec fn region(self, item_size: int) -> Set<int> {
        bytes(self.buffer_ptr as int, self.buffer_len * item_size).union(
            bytes(self.head_ptr as int, COUNTER_BYTES as int),
        ).union(bytes(self.tail_ptr as int, COUNTER_BYTES as int)).union(
            bytes(self.working_ptr as int, FLAG_BYTES as int),
        ).union(bytes(self.stuck_ptr as int, FLAG_BYTES as int))
    }

    /// The addresses that an access reads or writes.
    pub open spec fn touched<T>(self, access: Access<T>, item_size: int) -> Set<int> {
        match access {
            Access::Counters => bytes(self.head_ptr as int, COUNTER_BYTES as int).union(
                bytes(self.tail_ptr as int, COUNTER_BYTES as int),
            ),
            Access::Write { index, item } => bytes(self.buffer_ptr + index * item_size, item_size),
            Access::Read { index } => bytes(self.buffer_ptr + index * item_size, item_size),
            Access::StoreHead(_) => bytes(self.head_ptr as int, COUNTER_BYTES as int),
            Access::StoreTail(_) => bytes(self.tail_ptr as int, COUNTER_BYTES as int),
            Access::LoadWorking | Access::StoreWorking(_) => bytes(
                self.working_ptr as int,
                FLAG_BYTES as int,
            ),
            Access::LoadStuck | Access::StoreStuck(_) => bytes(
                self.stuck_ptr as int,
                FLAG_BYTES as int,
            ),
            Access::CallReader | Access::CallWriter => Set::empty(),
        }
    }

    /// The descriptor that an access calls through.
    pub open spec fn called<T>(self, access: Access<T>) -> Option<i32> {
        match access {
            Access::CallReader => Some(self.working_fd),
            Access::CallWriter => Some(self.unstuck_fd),
            _ => None,
        }
    }

    /// Whether an access goes to a slot that exists, or to none.
    pub open spec fn has<T>(self, access: Access<T>) -> bool {
        match access {
            Access::Write { index, item } => index < self.buffer_len,
            Access::Read { index } => index < self.buffer_len,
            _ => true,
        }
    }

    /// The address of the slot numbered `index`, in a queue of items of `item_size` bytes.
    pub open spec fn slot_at(self, index: int, item_size: int) -> int {
        self.buffer_ptr + index * item_size
    }

    /// The address of a slot, in a queue of items of `item_size` bytes.
    pub fn slot_address(&self, index: usize, item_size: usize) -> (address: usize)
        requires
            index < self.buffer_len,
            self.fits(item_size as int),
        ensures
            address == self.buffer_ptr + index * item_size,
            address == self.slot_at(index as int, item_size as int),
    {
        assert(index * item_size <= self.buffer_len * item_size) by (nonlinear_arith)
            requires
                index < self.buffer_len,
        ;
        self.buffer_ptr + index * item_size
    }
}

/// The slots lie one behind the other, from the first address of the buffer on, each as long as an
/// item, without gap or overlap, up to the end of the buffer.
pub proof fn law_slots_lie_one_behind_the_other(meta: QueueMeta, item_size: int, i: int, j: int)
    requires
        item_size >= 0,
        0 <= i < j < meta.buffer_len,
    ensures
        meta.slot_at(0, item_size) == meta.buffer_ptr,
        meta.slot_at(i + 1, item_size) == meta.slot_at(i, item_size) + item_size,
        meta.slot_at(i, item_size) + item_size <= meta.slot_at(j, item_size),
        meta.slot_at(j, item_size) + item_size <= meta.buffer_ptr + meta.buffer_len * item_size,
{
    assert((i + 1) * item_size == i * item_size + item_size) by (nonlinear_arith);
    assert(i * item_size + item_size <= j * item_size) by (nonlinear_arith)
        requires
            item_size >= 0,
            i < j,
    ;
    assert(j * item_size + item_size <= meta.buffer_len * item_size) by (nonlinear_arith)
        requires
            item_size >= 0,
            j < meta.buffer_len,
    ;
}

/// Every access stays within the words and slots of its queue.
pub proof fn law_accesses_stay_within<T>(meta: QueueMeta, item_size: int, access: Access<T>)
    requires
        item_size >= 0,
        meta.has(access),
    ensures
        meta.touched(access, item_size).subset_of(meta.region(item_size)),
{
    match access {
        Access::Write { index, .. } | Access::Read { index } => {
            assert(0 <= index * item_size && index * item_size + item_size <= meta.buffer_len
                * item_size) by (nonlinear_arith)
                requires
                    item_size >= 0,
                    index < meta.buffer_len,
            ;
        },
        _ => {},
    }
}

/// Two queues whose memory has been laid out apart and whose descriptors are all different have
/// nothing in common: no access that a party of the one makes, whichever party it is, touches a
/// word or slot of the other, nor calls through a descriptor of the other.
pub proof fn law_two_queues_are_apart<T, U>(
    place: Placement,
    size: usize,
    item_size: int,
    fds: (i32, i32),
    access: Access<T>,
    other_place: Placement,
    other_size: usize,
    other_item_size: int,
    other_fds: (i32, i32),
    other_access: Access<U>,
)
    requires
        item_size >= 0,
        other_item_size >= 0,
        place.meta(size, fds.0, fds.1).region(item_size).disjoint(
            other_place.meta(other_size, other_fds.0, other_fds.1).region(other_item_size),
        ),
        fds.0 != other_fds.0,
        fds.0 != other_fds.1,
        fds.1 != other_fds.0,
        fds.1 != other_fds.1,
        place.meta(size, fds.0, fds.1).has(access),
        other_place.meta(other_size, other_fds.0, other_fds.1).has(other_access),
    ensures
        ({
            let meta = place.meta(size, fds.0, fds.1);
            let other = other_place.meta(other_size, other_fds.0, other_fds.1);
            &&& meta.touched(access, item_size).disjoint(
                other.touched(other_access, other_item_size),
            )
            &&& meta.called(access) is Some ==> meta.called(access) != other.called(other_access)
        }),
{
    let meta = place.meta(size, fds.0, fds.1);
    let other = other_place.meta(other_size, other_fds.0, other_fds.1);
    law_accesses_stay_within(meta, item_size, access);
    law_accesses_stay_within(other, other_item_size, other_access);
}

/// What is done to one queue leaves another one as it is: after any series of accesses to the one,
/// every byte of the other, laid out apart from it, is what it was.
proof fn lemma_bytes_kept<T>(
    meta: QueueMeta,
    item_size: int,
    accesses: Seq<Access<T>>,
    memories: Seq<spec_fn(int) -> u8>,
    other: QueueMeta,
    other_item_size: int,
    n: int,
    a: int,
)
    requires
        item_size >= 0,
        goes_through(meta, item_size, accesses, memories),
        meta.region(item_size).disjoint(other.region(other_item_size)),
        0 <= n <= accesses.len(),
        other.region(other_item_size).contains(a),
    ensures
        memories[n](a) == memories[0](a),
    decreases n,
{
    if n > 0 {
        lemma_bytes_kept(meta, item_size, accesses, memories, other, other_item_size, n - 1, a);
        law_accesses_stay_within(meta, item_size, accesses[n - 1]);
        assert(!meta.region(item_size).contains(a));
        assert(!meta.touched(accesses[n - 1], item_size).contains(a));
        assert(memories[n - 1 + 1](a) == memories[n - 1](a));
    }
}

/// Two queues are independent. Take two queues as `Queue::new` makes them, laid out apart and with
/// descriptors that are all different. Then no series of accesses by the parties of the one, for
/// both of which an access goes to the same place, changes a counter, a flag or a slot of the
/// other, and no call by a party of the one goes through a descriptor of the other.
pub proof fn law_two_queues_are_independent<T, U>(
    queue: Queue<T>,
    told: QueueMeta,
    place: Placement,
    size: usize,
    working: (i32, i32),
    unstuck: (i32, i32),
    item_size: int,
    other: Queue<U>,
    other_told: QueueMeta,
    other_place: Placement,
    other_size: usize,
    other_working: (i32, i32),
    other_unstuck: (i32, i32),
    other_item_size: int,
    accesses: Seq<Access<T>>,
    memories: Seq<spec_fn(int) -> u8>,
)
    requires
        queue.known() == place.meta(size, working.0, unstuck.0),
        told == place.meta(size, working.1, unstuck.1),
        other.known() == other_place.meta(other_size, other_working.0, other_unstuck.0),
        other_told == other_place.meta(other_size, other_working.1, other_unstuck.1),
        item_size >= 0,
        other_item_size >= 0,
        queue.known().region(item_size).disjoint(other.known().region(other_item_size)),
        descriptors(working, unstuck).disjoint(descriptors(other_working, other_unstuck)),
        goes_through(queue.known(), item_size, accesses, memories),
    ensures
        other.known().contents(memories.last(), other_item_size) == other.known().contents(
            memories.first(),
            other_item_size,
        ),
        other_told.contents(memories.last(), other_item_size) == other_told.contents(
            memories.first(),
            other_item_size,
        ),
        forall|access: Access<T>|
            #![trigger queue.known().called(access)]
            #![trigger told.called(access)]
            {
                &&& queue.known().called(access) matches Some(fd) ==> !descriptors(
                    other_working,
                    other_unstuck,
                ).contains(fd)
                &&& told.called(access) matches Some(fd) ==> !descriptors(
                    other_working,
                    other_unstuck,
                ).contains(fd)
            },
{
    let peer = other.known();
    assert forall|a: int| #[trigger] peer.region(other_item_size).contains(a) implies memories.last()(
        a,
    ) == memories.first()(a) by {
        lemma_bytes_kept(
            queue.known(),
            item_size,
            accesses,
            memories,
            peer,
            other_item_size,
            accesses.len() as int,
            a,
        );
    }
    lemma_contents_kept(peer, other_item_size, memories.first(), memories.last());
    assert forall|a: int| #[trigger] other_told.region(
        other_item_size,
    ).contains(a) implies memories.last()(a) == memories.first()(a) by {
        assert(peer.region(other_item_size).contains(a));
    }
    lemma_contents_kept(other_told, other_item_size, memories.first(), memories.last());
    let fds = descriptors(working, unstuck);
    assert(fds.contains(working.0) && fds.contains(working.1));
    assert(fds.contains(unstuck.0) && fds.contains(unstuck.1));
}

/// The words and slots of a queue rest on the bytes at their addresses alone.
proof fn lemma_contents_kept(
    meta: QueueMeta,
    item_size: int,
    before: spec_fn(int) -> u8,
    after: spec_fn(int) -> u8,
)
    requires
        item_size >= 0,
        forall|a: int| #[trigger] meta.region(item_size).contains(a) ==> after(a) == before(a),
    ensures
        meta.contents(after, item_size) == meta.contents(before, item_size),
{
    let was = meta.contents(before, item_size);
    let now = meta.contents(after, item_size);
    assert(meta.buffer_len * item_size >= 0) by (nonlinear_arith)
        requires
            item_size >= 0,
    ;
    assert forall|i: int| 0 <= i < COUNTER_BYTES implies now.head[i] == was.head[i] && now.tail[i]
        == was.tail[i] by {
        assert(meta.region(item_size).contains(meta.head_ptr + i));
        assert(meta.region(item_size).contains(meta.tail_ptr + i));
    }
    assert forall|i: int| 0 <= i < FLAG_BYTES implies now.working[i] == was.working[i]
        && now.stuck[i] == was.stuck[i] by {
        assert(meta.region(item_size).contains(meta.working_ptr + i));
        assert(meta.region(item_size).contains(meta.stuck_ptr + i));
    }
    assert forall|i: int| 0 <= i < meta.buffer_len * item_size implies now.slots[i]
        == was.slots[i] by {
        assert(meta.region(item_size).contains(meta.buffer_ptr + i));
    }
    assert(now =~= was);
}

} // verus!
