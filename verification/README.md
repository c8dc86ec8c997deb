# Mem Ring

A ring in shared memory that joins two parties, for instance one written in Rust and one written in
Go. One party writes, the other reads; with two rings both can start calls.

- `src/` is the verified library. It never touches the shared memory itself: every operation is a
  script that asks for one access at a time and is told what came of it. `memory::Ring` makes these
  accesses on plain values, and the contracts of the whole operations are stated on it.
- `src/protocol.rs` lets the scripts of both parties run at the same time, access by access, and
  proves that items arrive in order, that none is lost or doubled, that no item is left waiting for
  room, that senders are woken once, and that no reader is left asleep with items to read, unless
  they were put in quietly (`push_without_notify`) and nobody has looked after the reader since.
  `src/progress.rs` proves that items that wait get through in the end. Both take the accesses to
  happen one after the other, which is the order that `app/` asks for.
- `src/layout.rs` says where the words and slots of a ring lie, and that two rings that are laid out
  apart have nothing in common.
- `app/` makes the accesses on memory that is named by addresses, with atomics, and drives the
  scripts on the Tokio runtime.
