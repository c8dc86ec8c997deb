//! A single-producer, single-consumer ring in memory that two parties share.
//!
//! One party writes items into the ring and the other reads them. When there is nothing to read
//! the reader sleeps, and the writer calls it when there is something again. When there is no room
//! items wait on the writer's side, and the reader calls the writer when it has made some.
//!
//! - [`counters`]: arithmetic on the two counters of a ring.
//! - [`memory`]: the shared memory and the accesses to it.
//! - [`script`]: the basic operations as scripts of accesses.
//! - [`queue`]: a handle on a queue, and the basic operations on memory held as plain values.
//! - [`read_queue`], [`handler`]: the reading end, and the reader that serves a handler.
//! - [`write_queue`], [`waker`]: the writing end, and how a sender learns that an item that had to
//!   wait went through.
//! - [`eventfd`]: what to make of the system calls by which the parties call each other.
//! - [`layout`]: where the words and slots of a queue lie.
//! - [`effects`], [`steps`], [`calls`]: what each operation, each step of a script and each call is
//!   for.
//! - [`laws`], [`protocol`], [`progress`], [`idle`]: what holds of the operations taken together, for
//!   a party that has the memory to itself, for two parties at work at the same time, and in the
//!   end.

pub mod calls;
pub mod counters;
pub mod effects;
pub mod eventfd;
pub mod handler;
pub mod idle;
pub mod laws;
pub mod layout;
pub mod memory;
pub mod progress;
pub mod protocol;
pub mod queue;
pub mod read_queue;
pub mod script;
pub mod steps;
pub mod waker;
pub mod write_queue;

pub use counters::{
    counters_empty, counters_full, is_set, occupied, pop_slot, push_slot, Slot, CLEAR, SET,
};
pub use eventfd::{
    after_write, call_failed, made_fd, made_pair, CallStep, IoFailure, WaitEvent, WaitOp,
};
pub use handler::{Action, Event, Handler, Phase, WARM_NANOS};
pub use memory::{Access, Reply, Ring, Step};
pub use queue::{Placement, Queue, QueueMeta};
pub use read_queue::{ReadOp, ReadQueue};
pub use script::{PopOp, PushOp, RouseOp, SleepOp};
pub use waker::{wake_waiter, PushJoinHandle, PushResult, Waiter, WakerSlot};
pub use write_queue::{FlushOp, FlushStep, PendingTask, Refused, Settled, WriteOp, WriteQueue};
