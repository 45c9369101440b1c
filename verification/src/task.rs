//! Cooperative tasks.

use vstd::prelude::*;

pub mod executor;
pub mod keyboard;

verus! {

/// A unique identifier for a kernel task.
#[derive(Clone, Copy, Debug, PartialEq, Eq, PartialOrd, Ord, Structural)]
pub struct TaskId(u64);

impl View for TaskId {
    type V = u64;

    closed spec fn view(&self) -> u64 {
        self.0
    }
}

/// Where task identifiers come from: a counter that starts at zero and wraps around.
pub struct TaskIdCounter {
    next: u64,
}

impl View for TaskIdCounter {
    type V = u64;

    closed spec fn view(&self) -> u64 {
        self.next
    }
}

impl TaskIdCounter {
    /// A counter from which no identifier was taken yet.
    pub fn new() -> (counter: TaskIdCounter)
        ensures
            counter@ == 0,
    {
        TaskIdCounter { next: 0 }
    }
}

/// Number of different identifiers.
pub open spec fn id_space() -> int {
    0x1_0000_0000_0000_0000
}

/// The identifier that a counter gives `k` identifiers after it stood at `start`.
pub open spec fn id_after(start: u64, k: nat) -> u64 {
    ((start + k) % id_space()) as u64
}

impl TaskId {
    /// Takes the next identifier from the counter.
    pub fn new(counter: &mut TaskIdCounter) -> (id: TaskId)
        ensures
            id@ == old(counter)@,
            old(counter)@ < u64::MAX ==> final(counter)@ == old(counter)@ + 1,
            old(counter)@ == u64::MAX ==> final(counter)@ == 0,
            final(counter)@ == id_after(old(counter)@, 1),
    {
        let id: u64 = counter.next;
        counter.next = id.wrapping_add(1);
        TaskId(id)
    }

    /// The identifier as a number.
    pub fn number(self) -> (number: u64)
        ensures
            number == self@,
    {
        self.0
    }
}

/// Identifiers are unique: of fewer than 2^64 in a row, no two are equal.
pub proof fn law_task_ids_are_unique(start: u64, i: nat, j: nat)
    requires
        i < j < i + id_space(),
    ensures
        id_after(start, i) != id_after(start, j),
        id_after(start, i + 1) == id_after(id_after(start, i), 1),
        id_after(start, 0) == start,
{
    let a = (start + i) % id_space();
    let b = (start + j) % id_space();
    assert(a != b);
}

/// Identifiers count up by one, and start over after the largest.
pub proof fn law_task_ids_count_up(start: u64, k: nat)
    ensures
        start + k <= u64::MAX ==> id_after(start, k) == start + k,
        id_after(u64::MAX, k + 1) == id_after(0, k),
{
    vstd::arithmetic::div_mod::lemma_mod_add_multiples_vanish(k as int, id_space());
}

/// A kernel task: a future of type `F` with an identity.
pub struct Task<F> {
    pub id: TaskId,
    pub future: F,
}

impl<F: Send> Task<F> {
    /// Makes a task of a future that may be handed between contexts and gives it the next identifier.
    pub fn new(counter: &mut TaskIdCounter, future: F) -> (task: Task<F>)
        ensures
            task.id@ == old(counter)@,
            old(counter)@ < u64::MAX ==> final(counter)@ == old(counter)@ + 1,
            old(counter)@ == u64::MAX ==> final(counter)@ == 0,
            task.future == future,
            final(counter)@ == id_after(old(counter)@, 1),
    {
        Task { id: TaskId::new(counter), future }
    }
}

} // verus!
