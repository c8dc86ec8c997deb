//! What to make of the system calls by which the two parties call each other.
//!
//! The parties share a pair of connected sockets for each direction. To call is to write one byte,
//! to hear is to read what is there.

use vstd::prelude::*;

verus! {

/// Why a system call failed.
#[derive(Debug, Clone, Copy, PartialEq, Eq, Structural)]
pub enum IoFailure {
    /// A signal came in between.
    Interrupted,
    /// There is nothing to read, or no room to write.
    WouldBlock,
    /// Any other reason.
    Other,
}

/// What to do after an attempt to write the byte of a call.
#[derive(Debug, Clone, Copy, PartialEq, Eq, Structural)]
pub enum CallStep {
    /// The call has been made.
    Sent,
    /// Try again.
    Retry,
    /// The call cannot be made.
    Failed,
}

/// What an attempt to write the byte of a call comes to.
pub open spec fn judged(written: int, failure: IoFailure) -> CallStep {
    if written != -1 {
        CallStep::Sent
    } else if failure is Interrupted {
        CallStep::Retry
    } else {
        CallStep::Failed
    }
}

/// Judges an attempt to write the byte of a call. `failure` is only looked at if the attempt
/// failed, which a result of -1 says.
pub fn after_write(written: isize, failure: IoFailure) -> (s: CallStep)
    ensures
        s is Sent <==> written != -1,
        s is Retry <==> written == -1 && failure is Interrupted,
        s is Failed <==> written == -1 && !(failure is Interrupted),
        s == judged(written as int, failure),
{
    if written != -1 {
        return CallStep::Sent;
    }
    if failure == IoFailure::Interrupted {
        return CallStep::Retry;
    }
    CallStep::Failed
}

/// The wait for a call.
#[derive(Debug, Clone, Copy, PartialEq, Eq, Structural)]
pub enum WaitOp {
    /// Waits for the socket to become readable.
    Readiness,
    /// Has asked for what can be read.
    Reading,
}

/// What came of a wait or a read.
#[derive(Debug, Clone, Copy, PartialEq, Eq, Structural)]
pub enum WaitEvent {
    /// The socket is said to be readable.
    Readable,
    /// The socket can no longer be waited for.
    Broken,
    /// The read gave this many bytes.
    Read(usize),
    /// The read failed.
    ReadFailed(IoFailure),
}

impl WaitOp {
    /// Whether `event` can have come of what was asked for.
    pub open spec fn ready(self, event: WaitEvent) -> bool {
        match self {
            WaitOp::Readiness => event is Readable || event is Broken,
            WaitOp::Reading => event is Read || event is ReadFailed,
        }
    }

    /// What follows on `event`.
    pub open spec fn next(self, event: WaitEvent) -> Option<WaitOp> {
        match event {
            WaitEvent::Readable => Some(WaitOp::Reading),
            WaitEvent::Broken => None,
            WaitEvent::Read(_) => None,
            WaitEvent::ReadFailed(failure) => match failure {
                IoFailure::Interrupted => Some(WaitOp::Reading),
                IoFailure::WouldBlock => Some(WaitOp::Readiness),
                IoFailure::Other => None,
            },
        }
    }

    /// Goes on after `event`. The wait is over when the socket has been read or is of no more use;
    /// a read that was interrupted is made again, and one that found nothing sends the wait back
    /// to its beginning.
    pub fn step(self, event: WaitEvent) -> (next: Option<WaitOp>)
        requires
            self.ready(event),
        ensures
            next == Some(WaitOp::Reading) <==> event is Readable || event == WaitEvent::ReadFailed(
                IoFailure::Interrupted,
            ),
            next == Some(WaitOp::Readiness) <==> event == WaitEvent::ReadFailed(
                IoFailure::WouldBlock,
            ),
            next == self.next(event),
    {
        match event {
            WaitEvent::Readable => Some(WaitOp::Reading),
            WaitEvent::Broken => None,
            WaitEvent::Read(_) => None,
            WaitEvent::ReadFailed(IoFailure::Interrupted) => Some(WaitOp::Reading),
            WaitEvent::ReadFailed(IoFailure::WouldBlock) => Some(WaitOp::Readiness),
            WaitEvent::ReadFailed(IoFailure::Other) => None,
        }
    }
}

/// What a call that was to make something comes to: what it made, unless its result is -1.
pub open spec fn made<A>(ret: int, value: A) -> Option<A> {
    if ret == -1 {
        None
    } else {
        Some(value)
    }
}

/// Reads the result of a system call that gives -1 for failure.
pub fn call_failed(ret: i32) -> (failed: bool)
    ensures
        failed <==> ret == -1,
{
    ret == -1
}

/// Reads the result of a call that was to make a pair of connected sockets: the pair, unless the
/// call failed.
pub fn made_pair(ret: i32, fds: [i32; 2]) -> (pair: Option<(i32, i32)>)
    ensures
        pair == (if ret == -1 {
            None
        } else {
            Some((fds@[0], fds@[1]))
        }),
        pair == made(ret as int, (fds@[0], fds@[1])),
{
    if call_failed(ret) {
        None
    } else {
        Some((fds[0], fds[1]))
    }
}

/// Reads the result of a call that was to make a descriptor: the descriptor, unless the call
/// failed.
pub fn made_fd(ret: i32) -> (fd: Option<i32>)
    ensures
        fd == (if ret == -1 {
            None
        } else {
            Some(ret)
        }),
        fd == made(ret as int, ret),
{
    if call_failed(ret) {
        None
    } else {
        Some(ret)
    }
}

} // verus!
