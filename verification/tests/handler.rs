use mem_ring::{
    after_write, call_failed, made_fd, made_pair, Access, Action, CallStep, Event, Handler,
    IoFailure, Phase, Placement, Queue, ReadQueue, Refused, Reply, Ring, Settled, Step, WaitEvent,
    WaitOp, WriteOp, WriteQueue, WARM_NANOS,
};

/// A reader that keeps what it is handed, on a clock that a yield moves on.
struct Reader {
    next: Option<(Action<u8>, Handler<u8>)>,
    now: u64,
    got: Vec<u8>,
}

impl Reader {
    fn new(end: &ReadQueue<u8>) -> Self {
        Reader { next: Some(end.handler()), now: 0, got: Vec::new() }
    }

    /// Makes one move. A reader that waits hears a call if there is one.
    fn go(&mut self, ring: &mut Ring<u8>) {
        let (action, handler) = self.next.take().unwrap();
        let event = match action {
            Action::Access(access) => Event::Reply(ring.perform(access)),
            Action::Handle(item) => {
                self.got.push(item);
                Event::Resumed
            }
            Action::Clock => Event::Now(self.now),
            Action::Yield => {
                self.now += 50_000;
                Event::Resumed
            }
            Action::Wait => {
                if !ring.reader_hears() {
                    self.next = Some((Action::Wait, handler));
                    return;
                }
                Event::Called
            }
            Action::Stop => panic!("the reader has stopped"),
        };
        assert!(handler.accepts(&event));
        self.next = Some(handler.step(event));
    }

    fn asleep(&self) -> bool {
        matches!(self.next, Some((Action::Wait, _)))
    }

    fn settle(&mut self, ring: &mut Ring<u8>) {
        for _ in 0..10_000 {
            self.go(ring);
            if self.asleep() && !ring.reader_hears() {
                return;
            }
            if self.asleep() {
                ring.perform(Access::CallReader);
            }
        }
        panic!("the reader does not come to rest");
    }
}

fn ends(size: usize) -> (WriteQueue<u8>, ReadQueue<u8>, Ring<u8>) {
    let place =
        Placement { buffer_ptr: 8, head_ptr: 1, tail_ptr: 2, working_ptr: 3, stuck_ptr: 4 };
    let (q_read, meta) = Queue::<u8>::new(size, place, (10, 11), (20, 21));
    let q_write = Queue::<u8>::new_from_meta(&meta);
    (q_write.write(), q_read.read(), Ring::new(size))
}

#[test]
fn demo_wake() {
    let (mut q_write, q_read, mut ring) = ends(1024);
    let mut reader = Reader::new(&q_read);
    reader.settle(&mut ring);
    assert!(q_write.push(&mut ring, 1));
    reader.settle(&mut ring);
    assert_eq!(reader.got, vec![1]);
    assert!(reader.asleep());
    assert!(q_write.push(&mut ring, 2));
    reader.settle(&mut ring);
    assert_eq!(reader.got, vec![1, 2]);
}

#[test]
fn demo_stuck() {
    let (mut q_write, q_read, mut ring) = ends(1);
    let mut reader = Reader::new(&q_read);
    println!("pushed {}", q_write.push(&mut ring, 1));
    println!("pushed {}", q_write.push(&mut ring, 2));
    println!("pushed {}", q_write.push(&mut ring, 3));
    println!("pushed {}", q_write.push(&mut ring, 4));
    assert_eq!(ring.stuck_word(), 1);
    for _ in 0..10 {
        reader.settle(&mut ring);
        if ring.writer_hears() {
            q_write.flush(&mut ring);
        }
    }
    assert_eq!(reader.got, vec![1, 2, 3, 4]);
}

#[test]
fn reader_stays_warm_before_it_sleeps() {
    let (_, q_read, mut ring) = ends(2);
    let mut reader = Reader::new(&q_read);
    reader.settle(&mut ring);
    assert_eq!(reader.now, WARM_NANOS);
    assert_eq!(WARM_NANOS, 200_000);
    assert_eq!(ring.working_word(), 0);
}

#[test]
fn reader_stays_awake_for_an_item_that_comes_late() {
    let (mut q_write, q_read, mut ring) = ends(2);
    let mut reader = Reader::new(&q_read);
    while !matches!(reader.next, Some((Action::Access(Access::StoreWorking(0)), _))) {
        reader.go(&mut ring);
    }
    assert!(q_write.push_without_notify(&mut ring, 9));
    reader.settle(&mut ring);
    assert_eq!(reader.got, vec![9]);
}

#[test]
fn reader_goes_on_from_an_item_in_the_warm_time() {
    let (mut q_write, q_read, mut ring) = ends(2);
    let mut reader = Reader::new(&q_read);
    while !matches!(reader.next, Some((Action::Yield, _))) {
        reader.go(&mut ring);
    }
    assert!(q_write.push(&mut ring, 3));
    assert!(!ring.reader_hears());
    reader.settle(&mut ring);
    assert_eq!(reader.got, vec![3]);
}

#[test]
fn reader_stops_on_exit_only() {
    let waiting: Handler<u8> = Handler { buffer_len: 1, phase: Phase::Waiting };
    let (action, stopped) = waiting.step(Event::Exit);
    assert!(matches!(action, Action::Stop));
    assert!(!stopped.accepts(&Event::Called));
    let waiting: Handler<u8> = Handler { buffer_len: 1, phase: Phase::Waiting };
    let (action, _) = waiting.step(Event::Called);
    assert!(matches!(action, Action::Access(Access::StoreWorking(1))));
    let busy: Handler<u8> = Handler { buffer_len: 1, phase: Phase::Handled };
    assert!(!busy.accepts(&Event::Exit));
    let opening: Handler<u8> = Handler { buffer_len: 1, phase: Phase::Opening };
    assert!(!opening.accepts(&Event::Now(u64::MAX)));
    assert!(opening.accepts(&Event::Now(u64::MAX - WARM_NANOS)));
}

#[test]
fn late_look_extends_the_warm_time() {
    let looking: Handler<u8> = Handler { buffer_len: 4, phase: Phase::Looking { deadline: 5 } };
    let event = Event::Reply(Reply::Counters { head: 1, tail: 2 });
    assert!(matches!(looking.step(event), (Action::Clock, Handler { phase: Phase::Opening, .. })));
    let looking: Handler<u8> = Handler { buffer_len: 4, phase: Phase::Looking { deadline: 5 } };
    let event = Event::Reply(Reply::Counters { head: 2, tail: 2 });
    let (action, handler) = looking.step(event);
    assert!(matches!(action, Action::Clock));
    assert!(matches!(handler.phase, Phase::Checking { deadline: 5 }));
}

/// Lets the accesses of pushes and of the reader follow each other as `schedule` says.
fn interleave(size: usize, items: u8, mut schedule: u64) {
    let (mut q_write, q_read, mut ring) = ends(size);
    let mut reader = Reader::new(&q_read);
    let mut offered: u8 = 0;
    let mut parked = false;
    let mut flush_due = false;
    let mut writing: Option<(Access<u8>, WriteOp<u8>)> = None;
    while offered < items || writing.is_some() {
        if schedule & 1 == 1 {
            reader.go(&mut ring);
        } else if let Some((access, op)) = writing.take() {
            match op.step(ring.perform(access)) {
                Step::Do(access, op) => writing = Some((access, op)),
                Step::Done(written) => {
                    let settled = q_write.settle(written);
                    parked |= !settled.queued;
                    flush_due |= settled.flush_due;
                }
            }
        } else {
            writing = Some(WriteOp::start(offered, size, true));
            offered += 1;
        }
        schedule = schedule.rotate_right(1);
    }
    for _ in 0..4 * items as usize {
        if ring.writer_hears() || flush_due {
            flush_due = false;
            q_write.flush(&mut ring);
        }
        reader.settle(&mut ring);
    }
    if !parked {
        assert_eq!(reader.got, (0..items).collect::<Vec<u8>>());
    }
    reader.got.sort();
    assert_eq!(reader.got, (0..items).collect::<Vec<u8>>());
}

#[test]
fn no_schedule_loses_or_doubles_an_item() {
    for seed in 1..400u64 {
        let schedule = seed.wrapping_mul(0x9e37_79b9_7f4a_7c15) ^ (seed << 32);
        interleave(1, 6, schedule);
        interleave(3, 9, schedule);
    }
    interleave(4, 20, 0xaaaa_aaaa_aaaa_aaaa);
    interleave(20, 20, 0);
}

#[test]
fn room_that_is_made_before_the_writer_says_that_it_waits() {
    let (mut q_write, q_read, mut ring) = ends(1);
    let mut reader = Reader::new(&q_read);
    assert!(q_write.push(&mut ring, 1));
    let (access, op) = WriteOp::start(2, 1, true);
    let Step::Do(access, op) = op.step(ring.perform(access)) else { panic!("not refused") };
    assert!(matches!(access, Access::StoreStuck(1)));

    reader.settle(&mut ring);
    assert_eq!(reader.got, vec![1]);
    assert!(reader.asleep());
    assert!(!ring.writer_hears());

    let Step::Do(access, op) = op.step(ring.perform(access)) else { panic!("no second look") };
    assert!(matches!(access, Access::Counters));
    let Step::Done(written) = op.step(ring.perform(access)) else { panic!("not over") };
    assert!(matches!(written, Err(Refused { item: 2, room: true })));
    let settled = q_write.settle(written);
    assert_eq!(settled, Settled { queued: false, flush_due: true });

    q_write.flush(&mut ring);
    reader.settle(&mut ring);
    assert_eq!(reader.got, vec![1, 2]);
}

#[test]
fn call_that_is_put_off_behind_another_push() {
    let (mut q_write, q_read, mut ring) = ends(4);
    let mut reader = Reader::new(&q_read);
    reader.settle(&mut ring);
    let (mut access, mut op) = WriteOp::start(1, 4, true);
    while !matches!(access, Access::CallReader) {
        let Step::Do(next_access, next_op) = op.step(ring.perform(access)) else {
            panic!("the reader is not called")
        };
        access = next_access;
        op = next_op;
    }
    assert!(q_write.push(&mut ring, 2));
    assert!(!ring.reader_hears());
    assert!(reader.asleep());
    assert!(matches!(op.step(ring.perform(access)), Step::Done(Ok(()))));
    reader.settle(&mut ring);
    assert_eq!(reader.got, vec![1, 2]);
}

#[test]
fn service_begins_with_what_is_there() {
    let (mut q_write, q_read, mut ring) = ends(3);
    for item in 0..7 {
        assert!(q_write.push(&mut ring, item));
        assert_eq!(q_read.pop(&mut ring), Some(item));
    }
    assert_eq!(ring.counters(), (7, 7));
    assert!(q_write.push(&mut ring, 7));
    assert!(q_write.push(&mut ring, 8));
    let mut reader = Reader::new(&q_read);
    assert!(q_write.push(&mut ring, 9));
    reader.settle(&mut ring);
    assert_eq!(reader.got, vec![7, 8, 9]);
}

#[test]
fn no_schedule_leaves_the_reader_asleep_with_items() {
    for seed in 1..400u64 {
        let mut schedule = seed.wrapping_mul(0xd134_2543_de82_ef95) | 1;
        let (_, q_read, mut ring) = ends(8);
        let mut reader = Reader::new(&q_read);
        reader.settle(&mut ring);
        let (access, op) = WriteOp::start(7, 8, true);
        let mut writing = Some((access, op));
        while let Some((access, op)) = writing.take() {
            if schedule & 1 == 1 {
                reader.go(&mut ring);
                writing = Some((access, op));
            } else if let Step::Do(access, op) = op.step(ring.perform(access)) {
                writing = Some((access, op));
            }
            schedule = schedule.rotate_right(1);
        }
        reader.settle(&mut ring);
        assert_eq!(reader.got, vec![7]);
    }
}

#[test]
fn writing_the_byte_of_a_call() {
    assert_eq!(after_write(1, IoFailure::Other), CallStep::Sent);
    assert_eq!(after_write(0, IoFailure::Interrupted), CallStep::Sent);
    assert_eq!(after_write(-1, IoFailure::Interrupted), CallStep::Retry);
    assert_eq!(after_write(-1, IoFailure::WouldBlock), CallStep::Failed);
    assert_eq!(after_write(-1, IoFailure::Other), CallStep::Failed);
}

#[test]
fn waiting_for_a_call() {
    assert_eq!(WaitOp::Readiness.step(WaitEvent::Readable), Some(WaitOp::Reading));
    assert_eq!(WaitOp::Readiness.step(WaitEvent::Broken), None);
    assert_eq!(WaitOp::Reading.step(WaitEvent::Read(64)), None);
    assert_eq!(WaitOp::Reading.step(WaitEvent::Read(0)), None);
    let failed = WaitEvent::ReadFailed;
    assert_eq!(WaitOp::Reading.step(failed(IoFailure::Interrupted)), Some(WaitOp::Reading));
    assert_eq!(WaitOp::Reading.step(failed(IoFailure::WouldBlock)), Some(WaitOp::Readiness));
    assert_eq!(WaitOp::Reading.step(failed(IoFailure::Other)), None);
}

#[test]
fn results_of_system_calls() {
    assert!(call_failed(-1));
    assert!(!call_failed(0));
    assert_eq!(made_pair(0, [7, 8]), Some((7, 8)));
    assert_eq!(made_pair(-1, [-1, -1]), None);
    assert_eq!(made_fd(-1), None);
    assert_eq!(made_fd(3), Some(3));
}
