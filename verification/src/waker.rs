//! How the sender of an item that had to wait learns that the item went through.

use parking_lot::lock_api::Mutex;
use parking_lot::RawMutex;
use std::sync::Arc;
use std::task::Waker;
use vstd::prelude::*;

verus! {

/// `parking_lot::RawMutex`, the lock word of a `parking_lot` mutex.
#[verifier::external_type_specification]
#[verifier::external_body]
pub struct ExRawMutex(parking_lot::RawMutex);

/// `lock_api::Mutex`, which `parking_lot::Mutex` is at the lock word above.
#[verifier::external_type_specification]
#[verifier::external_body]
#[verifier::reject_recursive_types(R)]
#[verifier::reject_recursive_types(T)]
pub struct ExMutex<R, T: ?Sized>(parking_lot::lock_api::Mutex<R, T>);

/// `std::task::Waker`, which wakes one task.
#[verifier::external_type_specification]
#[verifier::external_body]
pub struct ExWaker(std::task::Waker);

/// `Waker::clone`. Nothing is claimed of the copy but that it came out of this call.
pub assume_specification[ <std::task::Waker as Clone>::clone ](w: &std::task::Waker) -> (r:
    std::task::Waker);

/// `Waker::wake`. It acts on the task's executor, of which nothing is claimed; that the call was
/// made is what [`woken`] says.
pub assume_specification[ std::task::Waker::wake ](w: std::task::Waker);

/// Whether `Waker::wake` was called on this waker. The call uses the waker up, so it is not called
/// on it again.
pub open spec fn woken(w: Waker) -> bool {
    call_ensures(std::task::Waker::wake, (w,), ())
}

/// The slot that a mutex was made with.
pub uninterp spec fn initial_slot(m: Mutex<RawMutex, WakerSlot>) -> WakerSlot;

/// `Mutex::new`: the mutex starts out with `slot` in it.
#[verifier::external_body]
fn new_mutex(slot: WakerSlot) -> (m: Mutex<RawMutex, WakerSlot>)
    ensures
        initial_slot(m) == slot,
{
    Mutex::new(slot)
}

/// Whether a holder of the lock of `m` found `before` under it and left `after`.
pub uninterp spec fn held(m: Mutex<RawMutex, WakerSlot>, before: WakerSlot, after: WakerSlot) -> bool;

/// `Mutex::lock`, held while `f` runs on what the mutex protects: the result is one that `f`
/// gives on contents that a holder of this very lock found and left as `f` did. What the contents
/// are rests on who held the lock before.
///
/// The call does not return in a thread that already holds the lock.
#[verifier::external_body]
fn with_lock<R, F: FnOnce(&mut WakerSlot) -> R>(m: &Mutex<RawMutex, WakerSlot>, f: F) -> (r: R)
    requires
        forall|slot: &mut WakerSlot| call_requires(f, (slot,)),
    ensures
        exists|slot: &mut WakerSlot|
            held(*m, *slot, *final(slot)) && call_ensures(f, (slot,), r),
{
    f(&mut m.lock())
}

/// A slot that the two sides of one parked item share.
pub type Waiter = Arc<Mutex<RawMutex, WakerSlot>>;

/// Who is to be woken once a parked item has gone through.
pub enum WakerSlot {
    /// Nobody has asked yet.
    Empty,
    /// The task that asked last.
    Waiting(Waker),
    /// The item has gone through.
    Finished,
}

/// What asking does to a slot. It is answered `ready` exactly if the item has gone through, and
/// else leaves a copy of the asking task's waker behind.
pub open spec fn polled(before: WakerSlot, w: Waker, after: WakerSlot, ready: bool) -> bool {
    if before is Finished {
        ready && after is Finished
    } else {
        !ready && after is Waiting && cloned(w, after->Waiting_0)
    }
}

/// What ending the wait does to a slot: it is finished, and the waker that was in it, if there was
/// one, has been woken.
pub open spec fn wait_ended(before: WakerSlot, after: WakerSlot) -> bool {
    &&& after is Finished
    &&& before.waker() matches Some(w) ==> woken(w)
}

impl WakerSlot {
    /// The waker in the slot, if there is one.
    pub open spec fn waker(self) -> Option<Waker> {
        match self {
            WakerSlot::Waiting(w) => Some(w),
            _ => None,
        }
    }

    /// Ends the wait and hands out the waker of the task that waited, if one did.
    pub fn finish(&mut self) -> (w: Option<Waker>)
        ensures
            *final(self) is Finished,
            w == old(self).waker(),
    {
        let mut taken = WakerSlot::Finished;
        std::mem::swap(self, &mut taken);
        match taken {
            WakerSlot::Waiting(w) => Some(w),
            _ => None,
        }
    }

    /// Ends the wait and wakes the task that waited, if one did.
    pub fn wake(&mut self)
        ensures
            wait_ended(*old(self), *final(self)),
    {
        if let Some(w) = self.finish() {
            w.wake();
        }
    }

    /// Asks whether the wait is over. If not, `w` will be woken when it is, in place of any waker
    /// given before.
    pub fn set_waker(&mut self, w: &Waker) -> (ready: bool)
        ensures
            polled(*old(self), *w, *final(self), ready),
    {
        match self {
            WakerSlot::Finished => true,
            _ => {
                *self = WakerSlot::Waiting(w.clone());
                false
            },
        }
    }
}

/// Whether the wait in a shared slot has been ended: a holder of its lock left it finished, and woke
/// the waker that it found in it, if it found one.
pub open spec fn ended(waiter: Waiter) -> bool {
    exists|before: WakerSlot, after: WakerSlot|
        held(*waiter, before, after) && wait_ended(before, after)
}

/// Ends the wait in a shared slot and wakes the task that waited, if one did.
pub fn wake_waiter(waiter: &Waiter)
    ensures
        ended(*waiter),
{
    let wake = |slot: &mut WakerSlot| -> (r: ())
        ensures
            wait_ended(*old(slot), *final(slot)),
        { slot.wake() };
    with_lock(&**waiter, wake)
}

/// What becomes of a push that can wait.
pub enum PushResult {
    /// The item is in the queue.
    Queued,
    /// The item will be put into the queue when there is room.
    Pending(PushJoinHandle),
}

/// The sender's side of a parked item.
pub struct PushJoinHandle {
    waker_slot: Waiter,
}

impl PushJoinHandle {
    /// The slot that this handle asks.
    pub closed spec fn slot(self) -> Waiter {
        self.waker_slot
    }

    /// A handle and the slot that it asks, in which nobody has asked yet.
    pub(crate) fn new() -> (r: (Self, Waiter))
        ensures
            r.0.slot() == r.1,
            initial_slot(*r.1) is Empty,
    {
        let waker_slot = Arc::new(new_mutex(WakerSlot::Empty));
        let waiter = waker_slot.clone();
        (PushJoinHandle { waker_slot }, waiter)
    }

    /// Asks whether the item has gone through. If not, `w` will be woken when it has.
    pub fn poll(&self, w: &Waker) -> (ready: bool)
        ensures
            exists|before: WakerSlot, after: WakerSlot|
                held(*self.slot(), before, after) && polled(before, *w, after, ready),
    {
        let ask = |slot: &mut WakerSlot| -> (ready: bool)
            ensures
                polled(*old(slot), *w, *final(slot), ready),
            { slot.set_waker(w) };
        with_lock(&*self.waker_slot, ask)
    }
}

} // verus!
