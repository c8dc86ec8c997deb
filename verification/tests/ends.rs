use std::sync::atomic::{AtomicUsize, Ordering};
use std::sync::Arc;
use std::task::{Wake, Waker};

use mem_ring::{
    wake_waiter, Access, FlushOp, FlushStep, Placement, PushJoinHandle, PushOp, PushResult, Queue,
    ReadQueue, Refused, Reply, Ring, RouseOp, Settled, SleepOp, Step, WakerSlot, WriteOp, WriteQueue,
};

struct Counter {
    woken: AtomicUsize,
}

impl Wake for Counter {
    fn wake(self: Arc<Self>) {
        self.woken.fetch_add(1, Ordering::SeqCst);
    }
}

fn counter() -> (Arc<Counter>, Waker) {
    let counter = Arc::new(Counter { woken: AtomicUsize::new(0) });
    (counter.clone(), Waker::from(counter))
}

fn count(counter: &Arc<Counter>) -> usize {
    counter.woken.load(Ordering::SeqCst)
}

fn ends(size: usize) -> (WriteQueue<u32>, ReadQueue<u32>, Ring<u32>) {
    let place =
        Placement { buffer_ptr: 8, head_ptr: 1, tail_ptr: 2, working_ptr: 3, stuck_ptr: 4 };
    let (reader, meta) = Queue::new(size, place, (10, 11), (20, 21));
    let writer = Queue::new_from_meta(&meta);
    (writer.write(), reader.read(), Ring::new(size))
}

fn pending(result: PushResult) -> PushJoinHandle {
    match result {
        PushResult::Pending(handle) => handle,
        PushResult::Queued => panic!("the item went in"),
    }
}

#[test]
fn ends_know_their_meta() {
    let (writer, reader, _) = ends(4);
    assert_eq!((reader.meta().working_fd, reader.meta().unstuck_fd), (10, 20));
    assert_eq!((writer.meta().working_fd, writer.meta().unstuck_fd), (11, 21));
    assert_eq!(writer.meta().buffer_len, 4);
}

#[test]
fn push_calls_a_sleeping_reader_once() {
    let (mut writer, _, mut ring) = ends(4);
    assert!(writer.is_empty(&ring));
    assert!(writer.push(&mut ring, 1));
    assert!(!writer.is_empty(&ring));
    assert!(ring.reader_hears());
    assert_eq!(ring.working_word(), 1);
    assert!(writer.push(&mut ring, 2));
    assert!(!ring.reader_hears());
}

#[test]
fn quiet_push_leaves_the_reader_alone() {
    let (mut writer, reader, mut ring) = ends(1);
    assert!(writer.push_without_notify(&mut ring, 1));
    assert_eq!(ring.working_word(), 0);
    assert!(!ring.reader_hears());
    assert!(!writer.push_without_notify(&mut ring, 2));
    assert_eq!(ring.stuck_word(), 1);
    assert!(writer.notify_manually(&mut ring));
    assert!(ring.reader_hears());
    assert!(!writer.notify_manually(&mut ring));
    assert!(!ring.reader_hears());
    assert_eq!(reader.pop(&mut ring), Some(1));
}

#[test]
fn refused_push_waits_and_follows_a_pop() {
    let (mut writer, reader, mut ring) = ends(1);
    assert!(writer.push(&mut ring, 1));
    assert!(!writer.push(&mut ring, 2));
    assert!(!writer.push(&mut ring, 3));
    assert_eq!(ring.stuck_word(), 1);
    assert_eq!(reader.pop(&mut ring), Some(1));
    assert!(ring.writer_hears());
    assert_eq!(ring.stuck_word(), 0);
    assert!(writer.flush(&mut ring).is_empty());
    assert_eq!(ring.stuck_word(), 1);
    assert_eq!(reader.pop(&mut ring), Some(2));
    assert!(ring.writer_hears());
    assert!(writer.flush(&mut ring).is_empty());
    assert_eq!(ring.stuck_word(), 0);
    assert_eq!(reader.pop(&mut ring), Some(3));
    assert!(!ring.writer_hears());
    assert_eq!(reader.pop(&mut ring), None);
}

#[test]
fn pop_on_an_empty_queue_releases_the_writer() {
    let (_, reader, mut ring) = ends(1);
    ring.perform(Access::StoreStuck(1));
    assert_eq!(reader.pop(&mut ring), None);
    assert!(ring.writer_hears());
    assert_eq!(ring.stuck_word(), 0);
}

#[test]
fn push_overtakes_what_waits_when_there_is_room() {
    let (mut writer, reader, mut ring) = ends(1);
    assert!(writer.push(&mut ring, 1));
    assert!(!writer.push(&mut ring, 2));
    assert_eq!(reader.pop(&mut ring), Some(1));
    assert!(writer.push(&mut ring, 3));
    assert_eq!(reader.pop(&mut ring), Some(3));
    assert_eq!(writer.flush(&mut ring).len(), 0);
    assert_eq!(reader.pop(&mut ring), Some(2));
}

#[test]
fn flush_moves_in_order_and_wakes_in_order() {
    let (mut writer, reader, mut ring) = ends(2);
    assert!(writer.push(&mut ring, 1));
    assert!(writer.push(&mut ring, 2));
    let three = pending(writer.push_with_awaiter(&mut ring, 3));
    assert!(!writer.push(&mut ring, 4));
    let five = pending(writer.push_with_awaiter(&mut ring, 5));
    let (count3, waker3) = counter();
    let (count5, waker5) = counter();
    assert!(!three.poll(&waker3));
    assert!(!five.poll(&waker5));

    assert_eq!(reader.pop(&mut ring), Some(1));
    assert_eq!(reader.pop(&mut ring), Some(2));
    let woken = writer.flush(&mut ring);
    assert_eq!(woken.len(), 1);
    assert_eq!((count(&count3), count(&count5)), (1, 0));
    assert!(three.poll(&waker3));
    assert!(!five.poll(&waker5));
    assert_eq!(ring.stuck_word(), 1);

    assert_eq!(reader.pop(&mut ring), Some(3));
    let woken = writer.flush(&mut ring);
    assert_eq!(woken.len(), 1);
    assert_eq!((count(&count3), count(&count5)), (1, 1));
    assert!(five.poll(&waker5));
    assert_eq!(reader.pop(&mut ring), Some(4));
    assert_eq!(reader.pop(&mut ring), Some(5));
}

#[test]
fn awaited_push_that_goes_in() {
    let (mut writer, reader, mut ring) = ends(1);
    assert!(matches!(writer.push_with_awaiter(&mut ring, 8), PushResult::Queued));
    assert!(ring.reader_hears());
    assert_eq!(reader.pop(&mut ring), Some(8));
}

#[test]
fn only_the_last_asker_is_woken() {
    let (mut writer, reader, mut ring) = ends(1);
    assert!(writer.push(&mut ring, 1));
    let handle = pending(writer.push_with_awaiter(&mut ring, 2));
    let (first, first_waker) = counter();
    let (second, second_waker) = counter();
    assert!(!handle.poll(&first_waker));
    assert!(!handle.poll(&second_waker));
    assert_eq!(reader.pop(&mut ring), Some(1));
    for waiter in writer.flush(&mut ring) {
        wake_waiter(&waiter);
    }
    assert_eq!((count(&first), count(&second)), (0, 1));
    assert!(handle.poll(&first_waker));
}

#[test]
fn slot_answers_ready_exactly_after_wake() {
    let (woken, waker) = counter();
    let mut slot = WakerSlot::Empty;
    assert!(!slot.set_waker(&waker));
    assert!(matches!(slot, WakerSlot::Waiting(_)));
    slot.wake();
    assert_eq!(count(&woken), 1);
    assert!(matches!(slot, WakerSlot::Finished));
    assert!(slot.set_waker(&waker));
    assert!(slot.set_waker(&waker));
    slot.wake();
    assert_eq!(count(&woken), 1);

    let mut nobody = WakerSlot::Empty;
    assert!(nobody.finish().is_none());
    assert!(matches!(nobody, WakerSlot::Finished));

    let mut somebody = WakerSlot::Empty;
    assert!(!somebody.set_waker(&waker));
    assert!(somebody.finish().unwrap().will_wake(&waker));
}

#[test]
fn flush_with_nothing_waiting_rouses_the_reader() {
    let (mut writer, _, mut ring) = ends(1);
    assert_eq!(writer.flush(&mut ring).len(), 0);
    assert!(ring.reader_hears());
    assert_eq!(ring.working_word(), 1);
    assert_eq!(ring.stuck_word(), 0);
}

#[test]
fn flush_is_due_again_if_room_was_made_meanwhile() {
    let (mut writer, reader, mut ring) = ends(1);
    assert!(writer.push(&mut ring, 1));
    assert!(!writer.push(&mut ring, 2));
    let (mut access, mut op) = writer.flush_start();
    let mut again = None;
    while again.is_none() {
        if matches!(op, FlushOp::Look) {
            assert_eq!(reader.pop(&mut ring), Some(1));
        }
        let reply = ring.perform(access);
        assert!(op.accepts(&reply));
        let FlushStep { wake, step } = writer.flush_step(op, reply);
        assert!(wake.is_none());
        match step {
            Step::Do(next_access, next_op) => {
                access = next_access;
                op = next_op;
            }
            Step::Done(due) => {
                again = Some(due);
                break;
            }
        }
    }
    assert_eq!(again, Some(true));
    assert_eq!(writer.flush(&mut ring).len(), 0);
    assert_eq!(reader.pop(&mut ring), Some(2));
}

#[test]
fn push_publishes_before_it_looks_after_the_reader() {
    let (access, op) = WriteOp::start(7u32, 4, true);
    assert!(matches!(access, Access::Counters));
    let step = op.step(Reply::Counters { head: 5, tail: 6 });
    let Step::Do(access, op) = step else { panic!("no room") };
    assert!(matches!(access, Access::Write { index: 2, item: 7 }));
    let Step::Do(access, op) = op.step(Reply::Done) else { panic!("not published") };
    assert!(matches!(access, Access::StoreTail(7)));
    let Step::Do(access, op) = op.step(Reply::Done) else { panic!("not looked after") };
    assert!(matches!(access, Access::LoadWorking));
    let Step::Do(access, op) = op.step(Reply::Flag(0)) else { panic!("not marked") };
    assert!(matches!(access, Access::StoreWorking(1)));
    let Step::Do(access, op) = op.step(Reply::Done) else { panic!("not called") };
    assert!(matches!(access, Access::CallReader));
    assert!(matches!(op.step(Reply::Done), Step::Done(Ok(()))));
}

#[test]
fn push_marks_itself_stuck_when_refused() {
    let (_, op) = WriteOp::start(7u32, 4, true);
    let Step::Do(access, op) = op.step(Reply::Counters { head: 5, tail: 9 }) else {
        panic!("not refused")
    };
    assert!(matches!(access, Access::StoreStuck(1)));
    let Step::Do(access, op) = op.step(Reply::Done) else { panic!("no second look") };
    assert!(matches!(access, Access::Counters));
    assert!(!op.accepts(&Reply::Done));
    assert!(!op.accepts(&Reply::Counters { head: 6, tail: 5 }));
    let full = Reply::Counters { head: 5, tail: 9 };
    assert!(op.accepts(&full));
    assert!(matches!(op.step(full), Step::Done(Err(Refused { item: 7, room: false }))));
    let op = WriteOp::Look { item: 7u32, buffer_len: 4 };
    let room = Reply::Counters { head: 6, tail: 9 };
    assert!(matches!(op.step(room), Step::Done(Err(Refused { item: 7, room: true }))));
}

#[test]
fn settled_push_says_whether_a_round_is_due() {
    let (mut writer, reader, mut ring) = ends(2);
    assert_eq!(writer.settle(Ok(())), Settled { queued: true, flush_due: false });
    let refused = Err(Refused { item: 1, room: false });
    assert_eq!(writer.settle(refused), Settled { queued: false, flush_due: false });
    let refused = Err(Refused { item: 2, room: true });
    let (result, flush_due) = writer.settle_with_awaiter(refused);
    let handle = pending(result);
    assert!(flush_due);
    assert!(!handle.poll(&counter().1));
    let (result, flush_due) = writer.settle_with_awaiter(Ok(()));
    assert!(matches!(result, PushResult::Queued));
    assert!(!flush_due);
    assert_eq!(writer.flush(&mut ring).len(), 1);
    assert!(handle.poll(&counter().1));
    assert_eq!(reader.pop(&mut ring), Some(1));
    assert_eq!(reader.pop(&mut ring), Some(2));
}

#[test]
fn sender_that_never_asked_finds_its_item_gone_through() {
    let (mut writer, reader, mut ring) = ends(1);
    assert!(writer.push(&mut ring, 1));
    let handle = pending(writer.push_with_awaiter(&mut ring, 2));
    let other = pending(writer.push_with_awaiter(&mut ring, 3));
    assert_eq!(reader.pop(&mut ring), Some(1));
    assert_eq!(writer.flush(&mut ring).len(), 1);
    let (woken, waker) = counter();
    assert!(handle.poll(&waker));
    assert!(!other.poll(&waker));
    assert_eq!(count(&woken), 0);
    assert_eq!(reader.pop(&mut ring), Some(2));
    assert_eq!(writer.flush(&mut ring).len(), 1);
    assert_eq!(count(&woken), 1);
    assert!(handle.poll(&waker));
    assert!(other.poll(&waker));
}

#[test]
fn awaited_push_does_what_a_push_does() {
    for filled in 0..3 {
        let (mut writer, reader, mut ring) = ends(2);
        let (mut awaiting, awaited_reader, mut awaited_ring) = ends(2);
        for item in 0..filled {
            writer.push_without_notify(&mut ring, item);
            awaiting.push_without_notify(&mut awaited_ring, item);
        }
        let queued = writer.push(&mut ring, 9);
        let result = awaiting.push_with_awaiter(&mut awaited_ring, 9);
        assert_eq!(queued, filled < 2);
        assert_eq!(queued, matches!(result, PushResult::Queued));
        assert_eq!(ring.counters(), awaited_ring.counters());
        assert_eq!(ring.working_word(), awaited_ring.working_word());
        assert_eq!(ring.stuck_word(), awaited_ring.stuck_word());
        assert_eq!(ring.reader_hears(), awaited_ring.reader_hears());
        for _ in 0..3 {
            assert_eq!(reader.pop(&mut ring), awaited_reader.pop(&mut awaited_ring));
            writer.flush(&mut ring);
            awaiting.flush(&mut awaited_ring);
        }
    }
}

#[test]
fn quiet_push_and_notify_is_a_push() {
    for working in 0..2 {
        let (mut writer, reader, mut ring) = ends(2);
        let (mut quiet, quiet_reader, mut quiet_ring) = ends(2);
        ring.perform(Access::StoreWorking(working));
        quiet_ring.perform(Access::StoreWorking(working));
        assert!(writer.push(&mut ring, 5));
        assert!(quiet.push_without_notify(&mut quiet_ring, 5));
        assert_eq!(quiet.notify_manually(&mut quiet_ring), working == 0);
        assert_eq!(ring.counters(), quiet_ring.counters());
        assert_eq!(ring.working_word(), quiet_ring.working_word());
        assert_eq!(ring.stuck_word(), quiet_ring.stuck_word());
        assert_eq!(ring.reader_hears(), quiet_ring.reader_hears());
        assert!(!quiet.notify_manually(&mut quiet_ring));
        assert!(!quiet_ring.reader_hears());
        assert_eq!(reader.pop(&mut ring), quiet_reader.pop(&mut quiet_ring));
    }
}

#[test]
fn slot_wakes_the_last_asker_once_and_then_answers_ready() {
    let (early, early_waker) = counter();
    let (last, last_waker) = counter();
    let (late, late_waker) = counter();
    let mut slot = WakerSlot::Empty;
    assert!(!slot.set_waker(&early_waker));
    assert!(!slot.set_waker(&last_waker));
    slot.wake();
    assert!(slot.set_waker(&late_waker));
    slot.wake();
    assert!(slot.finish().is_none());
    assert!(slot.set_waker(&early_waker));
    assert_eq!((count(&early), count(&last), count(&late)), (0, 1, 0));
}

#[test]
fn flush_calls_the_reader_once_for_all_items() {
    let (mut writer, reader, mut ring) = ends(3);
    for item in 0..3 {
        assert!(writer.push(&mut ring, item));
    }
    for item in 3..6 {
        assert!(!writer.push(&mut ring, item));
    }
    for item in 0..3 {
        assert_eq!(reader.pop(&mut ring), Some(item));
    }
    ring.perform(Access::StoreWorking(0));
    let mut calls = 0;
    let (mut access, mut op) = writer.flush_start();
    loop {
        if matches!(access, Access::CallReader) {
            calls += 1;
        }
        let reply = ring.perform(access);
        match writer.flush_step(op, reply).step {
            Step::Do(next_access, next_op) => {
                access = next_access;
                op = next_op;
            }
            Step::Done(again) => {
                assert!(!again);
                break;
            }
        }
    }
    assert_eq!(calls, 1);
    for item in 3..6 {
        assert_eq!(reader.pop(&mut ring), Some(item));
    }
}

#[test]
fn scripts_tell_broken_replies() {
    let (_, push) = PushOp::start(1u32, 4);
    assert!(push.accepts(&Reply::Counters { head: 1, tail: 2 }));
    assert!(push.accepts(&Reply::Counters { head: 1, tail: 5 }));
    assert!(!push.accepts(&Reply::Counters { head: 2, tail: 1 }));
    assert!(!push.accepts(&Reply::Counters { head: u64::MAX - 1, tail: u64::MAX }));
    assert!(push.accepts(&Reply::Counters { head: u64::MAX - 4, tail: u64::MAX }));
    assert!(!push.accepts(&Reply::Done));
    let (_, push) = PushOp::start(1u32, 0);
    assert!(push.accepts(&Reply::Counters { head: 3, tail: 3 }));
    assert!(!push.accepts(&Reply::Counters { head: 3, tail: 4 }));
    assert!(RouseOp::Check.accepts(&Reply::<u32>::Flag(0)));
    assert!(!RouseOp::Check.accepts(&Reply::<u32>::Done));
    assert!(SleepOp::Look.accepts(&Reply::<u32>::Counters { head: 0, tail: 0 }));
    assert!(!SleepOp::Lower.accepts(&Reply::<u32>::Counters { head: 0, tail: 0 }));
}
