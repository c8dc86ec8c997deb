use mem_ring::{
    counters_empty, counters_full, is_set, occupied, pop_slot, push_slot, Access, Placement, Queue,
    QueueMeta, Reply, Ring, Slot, CLEAR, SET,
};

fn place() -> Placement {
    Placement { buffer_ptr: 4096, head_ptr: 64, tail_ptr: 72, working_ptr: 80, stuck_ptr: 84 }
}

fn queue(size: usize) -> (Queue<u32>, QueueMeta, Ring<u32>) {
    let (queue, meta) = Queue::new(size, place(), (10, 11), (20, 21));
    (queue, meta, Ring::new(size))
}

#[test]
fn new_queue_and_its_meta() {
    let (queue, meta, _) = queue(1024);
    assert!(queue.is_memory_owner());
    let own = queue.meta();
    assert_eq!(own.buffer_ptr, 4096);
    assert_eq!(own.buffer_len, 1024);
    assert_eq!((own.head_ptr, own.tail_ptr), (64, 72));
    assert_eq!((own.working_ptr, own.stuck_ptr), (80, 84));
    assert_eq!((own.working_fd, own.unstuck_fd), (10, 20));
    assert_eq!(meta, QueueMeta { working_fd: 11, unstuck_fd: 21, ..own });
}

#[test]
fn peer_takes_over_the_meta_but_not_the_memory() {
    let (owner, meta, _) = queue(7);
    let peer: Queue<u32> = Queue::new_from_meta(&meta);
    assert_eq!(peer.meta(), meta);
    assert!(!peer.is_memory_owner());
    assert_eq!(peer.reclaims(), None);
    assert_eq!(owner.reclaims(), Some(owner.meta()));
}

#[test]
fn slots_lie_behind_each_other() {
    let (queue, meta, _) = queue(3);
    let own = queue.meta();
    assert_eq!(own.slot_address(0, 4), 4096);
    assert_eq!(own.slot_address(1, 4), 4100);
    assert_eq!(own.slot_address(2, 4), 4104);
    assert_eq!(own.slot_address(2, 24), 4144);
    assert_eq!(own.slot_address(2, 0), 4096);
    assert_eq!(meta.slot_address(2, 4), own.slot_address(2, 4));
}

#[test]
fn two_rings_do_not_meet() {
    let (one, _, mut ring) = queue(2);
    let elsewhere = Placement {
        buffer_ptr: 8192,
        head_ptr: 128,
        tail_ptr: 136,
        working_ptr: 144,
        stuck_ptr: 148,
    };
    let (other, _) = Queue::new(2, elsewhere, (30, 31), (40, 41));
    let mut other_ring: Ring<u32> = Ring::new(2);
    assert!(one.meta().slot_address(1, 4) + 4 <= other.meta().slot_address(0, 4));
    assert_eq!(one.push(&mut ring, 1), Ok(()));
    one.mark_working(&mut ring);
    one.mark_stuck(&mut ring);
    assert!(other.is_empty(&other_ring));
    assert!(!other.working(&other_ring));
    assert!(!other.stuck(&other_ring));
    assert_eq!(other.push(&mut other_ring, 2), Ok(()));
    assert_eq!(one.pop(&mut ring), Some(1));
    assert_eq!(other.pop(&mut other_ring), Some(2));
}

#[test]
fn fresh_ring_is_empty() {
    let (queue, _, ring) = queue(3);
    assert_eq!(queue.len(&ring), 0);
    assert!(queue.is_empty(&ring));
    assert!(!queue.is_full(&ring));
    assert!(!queue.working(&ring));
    assert!(!queue.stuck(&ring));
    assert_eq!(ring.counters(), (0, 0));
}

#[test]
fn first_in_first_out() {
    let (queue, _, mut ring) = queue(3);
    for item in [5, 6, 7] {
        assert_eq!(queue.push(&mut ring, item), Ok(()));
    }
    assert!(queue.is_full(&ring));
    assert_eq!(queue.push(&mut ring, 8), Err(8));
    assert_eq!(queue.len(&ring), 3);
    assert_eq!(queue.pop(&mut ring), Some(5));
    assert_eq!(queue.push(&mut ring, 9), Ok(()));
    assert_eq!(queue.pop(&mut ring), Some(6));
    assert_eq!(queue.pop(&mut ring), Some(7));
    assert_eq!(queue.pop(&mut ring), Some(9));
    assert_eq!(queue.pop(&mut ring), None);
    assert_eq!(ring.counters(), (4, 4));
}

#[test]
fn many_rounds_around_the_buffer() {
    let (queue, _, mut ring) = queue(5);
    let mut next_in: u32 = 0;
    let mut next_out: u32 = 0;
    for round in 0..100u32 {
        for _ in 0..(round % 6) {
            if queue.push(&mut ring, next_in).is_ok() {
                next_in += 1;
            }
        }
        for _ in 0..(round % 4) {
            if let Some(item) = queue.pop(&mut ring) {
                assert_eq!(item, next_out);
                next_out += 1;
            }
        }
        assert_eq!(queue.len(&ring) as u32, next_in - next_out);
    }
    assert!(next_in > 50);
}

#[test]
fn queue_without_slots_is_full_and_empty() {
    let (queue, _, mut ring) = queue(0);
    assert!(queue.is_full(&ring));
    assert!(queue.is_empty(&ring));
    assert_eq!(queue.push(&mut ring, 1), Err(1));
    assert_eq!(queue.pop(&mut ring), None);
}

#[test]
fn flags_go_up_and_down() {
    let (queue, _, mut ring) = queue(1);
    queue.mark_working(&mut ring);
    assert!(queue.working(&ring));
    queue.mark_stuck(&mut ring);
    assert!(queue.stuck(&ring));
    queue.mark_unstuck(&mut ring);
    assert!(!queue.stuck(&ring));
    assert!(queue.working(&ring));
}

#[test]
fn mark_unworking_only_on_an_empty_queue() {
    let (queue, _, mut ring) = queue(1);
    queue.mark_working(&mut ring);
    assert!(queue.mark_unworking(&mut ring));
    assert!(!queue.working(&ring));
    assert_eq!(queue.push(&mut ring, 1), Ok(()));
    assert!(!queue.mark_unworking(&mut ring));
    assert!(queue.working(&ring));
}

#[test]
fn counter_arithmetic() {
    assert_eq!(occupied(3, 10), 7);
    assert!(counters_empty(4, 4));
    assert!(!counters_empty(4, 5));
    assert!(counters_full(1, 5, 4));
    assert!(!counters_full(1, 4, 4));
    assert_eq!(push_slot(1, 5, 4), None);
    assert_eq!(push_slot(2, 5, 4), Some(Slot { index: 1, next: 6 }));
    assert_eq!(pop_slot(5, 5, 4), None);
    assert_eq!(pop_slot(7, 9, 4), Some(Slot { index: 3, next: 8 }));
    assert_eq!(push_slot(u64::MAX, u64::MAX, 0), None);
    assert_eq!((CLEAR, SET), (0, 1));
    assert!(is_set(1));
    assert!(!is_set(0));
    assert!(!is_set(2));
}

#[test]
fn accesses_one_by_one() {
    let mut ring: Ring<u32> = Ring::new(2);
    assert!(matches!(ring.perform(Access::Write { index: 1, item: 9 }), Reply::Done));
    assert!(matches!(ring.perform(Access::Read { index: 1 }), Reply::Item(9)));
    assert!(matches!(ring.perform(Access::StoreTail(4)), Reply::Done));
    assert!(matches!(ring.perform(Access::StoreHead(3)), Reply::Done));
    assert!(matches!(ring.perform(Access::Counters), Reply::Counters { head: 3, tail: 4 }));
    assert!(matches!(ring.perform(Access::LoadWorking), Reply::Flag(0)));
    assert!(matches!(ring.perform(Access::StoreWorking(1)), Reply::Done));
    assert!(matches!(ring.perform(Access::LoadWorking), Reply::Flag(1)));
    assert!(matches!(ring.perform(Access::StoreStuck(1)), Reply::Done));
    assert!(matches!(ring.perform(Access::LoadStuck), Reply::Flag(1)));
    assert!(!ring.reader_hears());
    assert!(matches!(ring.perform(Access::CallReader), Reply::Done));
    assert!(ring.reader_hears());
    assert!(!ring.reader_hears());
    assert!(matches!(ring.perform(Access::CallWriter), Reply::Done));
    assert!(ring.writer_hears());
    assert!(!ring.writer_hears());
}
