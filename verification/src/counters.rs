//! Arithmetic on the two counters of a ring.
//!
//! `head` counts the items ever taken out, `tail` the items ever put in. Neither wraps: an item
//! numbered `n` lives in slot `n % buffer_len`, and the ring holds the items numbered
//! `head..tail`.

use vstd::prelude::*;

verus! {

/// Value of a flag word that is down.
pub const CLEAR: u32 = 0;

/// Value of a flag word that is up.
pub const SET: u32 = 1;

/// The slot that one access goes to, and the counter value that publishes the access.
#[derive(Debug, Clone, Copy, PartialEq, Eq)]
pub struct Slot {
    /// Position in the buffer.
    pub index: usize,
    /// What the counter becomes once the slot has been written or read.
    pub next: u64,
}

/// The slot of the item numbered `counter` in a buffer of `buffer_len` slots.
pub open spec fn slot_of(counter: int, buffer_len: int) -> int {
    counter % buffer_len
}

/// Where a push that sees these counters puts its item: nowhere if the ring is full, else in the
/// slot of the item numbered `tail`.
pub open spec fn spec_push_slot(head: int, tail: int, buffer_len: int) -> Option<(int, int)> {
    if tail - head == buffer_len {
        None
    } else {
        Some((slot_of(tail, buffer_len), tail + 1))
    }
}

/// Where a pop that sees these counters finds its item: nowhere if the ring is empty, else in the
/// slot of the item numbered `head`.
pub open spec fn spec_pop_slot(head: int, tail: int, buffer_len: int) -> Option<(int, int)> {
    if head == tail {
        None
    } else {
        Some((slot_of(head, buffer_len), head + 1))
    }
}

/// A slot choice as a pair of mathematical integers.
pub open spec fn slot_view(slot: Option<Slot>) -> Option<(int, int)> {
    match slot {
        Some(s) => Some((s.index as int, s.next as int)),
        None => None,
    }
}

/// Whether a flag word is up. Any value other than [`SET`] counts as down.
pub fn is_set(flag: u32) -> (up: bool)
    ensures
        up <==> flag == SET,
{
    flag == SET
}

/// The number of items between the two counters.
pub fn occupied(head: u64, tail: u64) -> (n: u64)
    requires
        head <= tail,
    ensures
        n == tail - head,
{
    tail - head
}

/// Whether the two counters describe an empty ring.
pub fn counters_empty(head: u64, tail: u64) -> (empty: bool)
    ensures
        empty <==> head == tail,
{
    tail == head
}

/// Whether the two counters describe a full ring of `buffer_len` slots.
pub fn counters_full(head: u64, tail: u64, buffer_len: usize) -> (full: bool)
    requires
        head <= tail,
    ensures
        full <==> tail - head == buffer_len,
{
    tail - head == buffer_len as u64
}

/// Decides where a push goes that has seen these counters.
///
/// A push that is not refused needs a slot to go to and a `tail` that can still grow.
pub fn push_slot(head: u64, tail: u64, buffer_len: usize) -> (slot: Option<Slot>)
    requires
        head <= tail,
        tail - head != buffer_len ==> buffer_len > 0 && tail < u64::MAX,
    ensures
        slot_view(slot) == spec_push_slot(head as int, tail as int, buffer_len as int),
{
    if tail - head == buffer_len as u64 {
        return None;
    }
    let index: usize = (tail % (buffer_len as u64)) as usize;
    Some(Slot { index, next: tail + 1 })
}

/// Decides where a pop finds its item that has seen these counters.
///
/// A pop that is not refused needs a slot to look into and a `head` that can still grow.
pub fn pop_slot(head: u64, tail: u64, buffer_len: usize) -> (slot: Option<Slot>)
    requires
        head != tail ==> buffer_len > 0 && head < u64::MAX,
    ensures
        slot_view(slot) == spec_pop_slot(head as int, tail as int, buffer_len as int),
{
    if head == tail {
        return None;
    }
    let index: usize = (head % (buffer_len as u64)) as usize;
    Some(Slot { index, next: head + 1 })
}

/// Two items of one ring that are numbered less than `buffer_len` apart live in different slots.
pub proof fn lemma_slots_differ(a: int, b: int, buffer_len: int)
    requires
        0 <= a < b,
        b - a < buffer_len,
    ensures
        slot_of(a, buffer_len) != slot_of(b, buffer_len),
        0 <= slot_of(a, buffer_len) < buffer_len,
        0 <= slot_of(b, buffer_len) < buffer_len,
{
    if a % buffer_len == b % buffer_len {
        vstd::arithmetic::div_mod::lemma_fundamental_div_mod(a, buffer_len);
        vstd::arithmetic::div_mod::lemma_fundamental_div_mod(b, buffer_len);
        let qa = a / buffer_len;
        let qb = b / buffer_len;
        assert(b - a == buffer_len * (qb - qa)) by (nonlinear_arith)
            requires
                a == buffer_len * qa + a % buffer_len,
                b == buffer_len * qb + b % buffer_len,
                a % buffer_len == b % buffer_len,
        ;
        assert(qb - qa > 0) by (nonlinear_arith)
            requires
                b - a == buffer_len * (qb - qa),
                b - a > 0,
                buffer_len > 0,
        ;
        assert(false) by (nonlinear_arith)
            requires
                b - a == buffer_len * (qb - qa),
                qb - qa >= 1,
                b - a < buffer_len,
                buffer_len > 0,
        ;
    }
}

} // verus!
