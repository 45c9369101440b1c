//! Bounded first-in-first-out queues: `crossbeam_queue::ArrayQueue` behind contracts.
//!
//! The queues are written to through exclusive references only, so that what a queue holds does
//! not change between two calls.

use crossbeam_queue::ArrayQueue;
use vstd::prelude::*;

verus! {

/// Number of entries that the queues of the kernel have room for.
pub const QUEUE_CAPACITY: usize = 100;

/// `crossbeam_queue`'s bounded queue.
#[verifier::external_type_specification]
#[verifier::external_body]
#[verifier::reject_recursive_types(T)]
pub struct ExArrayQueue<T>(crossbeam_queue::ArrayQueue<T>);

/// The bytes that a queue holds, the one that came first in front.
pub uninterp spec fn queued_bytes(queue: ArrayQueue<u8>) -> Seq<u8>;

/// The number of bytes that a queue was made for.
pub uninterp spec fn byte_capacity(queue: ArrayQueue<u8>) -> nat;

/// The task numbers that a queue holds, the one that came first in front.
pub uninterp spec fn queued_tasks(queue: ArrayQueue<u64>) -> Seq<u64>;

/// The number of task numbers that a queue was made for.
pub uninterp spec fn task_capacity(queue: ArrayQueue<u64>) -> nat;

/// An empty queue of bytes from `ArrayQueue::new`, which panics on a capacity of zero, and on one
/// that is too large.
#[verifier::external_body]
pub(crate) fn byte_queue(capacity: usize) -> (queue: ArrayQueue<u8>)
    requires
        0 < capacity <= 65536,
    ensures
        queued_bytes(queue) == Seq::<u8>::empty(),
        byte_capacity(queue) == capacity,
{
    ArrayQueue::new(capacity)
}

/// `ArrayQueue::push`: puts a byte at the end, or hands it back if the queue is full.
#[verifier::external_body]
pub(crate) fn push_byte(queue: &mut ArrayQueue<u8>, byte: u8) -> (pushed: Result<(), u8>)
    ensures
        byte_capacity(*final(queue)) == byte_capacity(*old(queue)),
        pushed is Ok <==> queued_bytes(*old(queue)).len() < byte_capacity(*old(queue)),
        pushed is Ok ==> queued_bytes(*final(queue)) == queued_bytes(*old(queue)).push(byte),
        pushed is Err ==> queued_bytes(*final(queue)) == queued_bytes(*old(queue)),
        pushed matches Err(rejected) ==> rejected == byte,
{
    queue.push(byte)
}

/// `ArrayQueue::pop`: takes the byte in front, or nothing if the queue is empty.
#[verifier::external_body]
pub(crate) fn pop_byte(queue: &mut ArrayQueue<u8>) -> (popped: Option<u8>)
    ensures
        byte_capacity(*final(queue)) == byte_capacity(*old(queue)),
        popped is Some <==> queued_bytes(*old(queue)).len() > 0,
        popped matches Some(byte) ==> byte == queued_bytes(*old(queue))[0],
        popped is Some ==> queued_bytes(*final(queue)) == queued_bytes(*old(queue)).drop_first(),
        popped is None ==> queued_bytes(*final(queue)) == queued_bytes(*old(queue)),
{
    queue.pop()
}

/// An empty queue of task numbers from `ArrayQueue::new`, which panics on a capacity of zero, and
/// on one that is too large.
#[verifier::external_body]
pub(crate) fn task_queue(capacity: usize) -> (queue: ArrayQueue<u64>)
    requires
        0 < capacity <= 65536,
    ensures
        queued_tasks(queue) == Seq::<u64>::empty(),
        task_capacity(queue) == capacity,
{
    ArrayQueue::new(capacity)
}

/// `ArrayQueue::push`: puts a task number at the end, or hands it back if the queue is full.
#[verifier::external_body]
pub(crate) fn push_task(queue: &mut ArrayQueue<u64>, task: u64) -> (pushed: Result<(), u64>)
    ensures
        task_capacity(*final(queue)) == task_capacity(*old(queue)),
        pushed is Ok <==> queued_tasks(*old(queue)).len() < task_capacity(*old(queue)),
        pushed is Ok ==> queued_tasks(*final(queue)) == queued_tasks(*old(queue)).push(task),
        pushed is Err ==> queued_tasks(*final(queue)) == queued_tasks(*old(queue)),
        pushed matches Err(rejected) ==> rejected == task,
{
    queue.push(task)
}

/// `ArrayQueue::pop`: takes the task number in front, or nothing if the queue is empty.
#[verifier::external_body]
pub(crate) fn pop_task(queue: &mut ArrayQueue<u64>) -> (popped: Option<u64>)
    ensures
        task_capacity(*final(queue)) == task_capacity(*old(queue)),
        popped is Some <==> queued_tasks(*old(queue)).len() > 0,
        popped matches Some(task) ==> task == queued_tasks(*old(queue))[0],
        popped is Some ==> queued_tasks(*final(queue)) == queued_tasks(*old(queue)).drop_first(),
        popped is None ==> queued_tasks(*final(queue)) == queued_tasks(*old(queue)),
{
    queue.pop()
}

/// `ArrayQueue::is_empty`: whether no task number is queued.
#[verifier::external_body]
pub(crate) fn no_task_queued(queue: &ArrayQueue<u64>) -> (empty: bool)
    ensures
        empty == (queued_tasks(*queue).len() == 0),
{
    queue.is_empty()
}

/// `ArrayQueue::is_full`: whether no further task number can be queued.
#[verifier::external_body]
pub(crate) fn task_queue_full(queue: &ArrayQueue<u64>) -> (full: bool)
    ensures
        full == (queued_tasks(*queue).len() >= task_capacity(*queue)),
{
    queue.is_full()
}

} // verus!
