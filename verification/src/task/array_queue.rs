use vstd::prelude::*;

verus! {

/// crossbeam's bounded lock-free ring buffer. Declared so that its values
/// can stand in verified code; verified code reads and writes it only
/// through the wrappers below, whose contracts follow the crate's
/// documented first-in-first-out behaviour.
#[verifier::external_type_specification]
#[verifier::external_body]
#[verifier::reject_recursive_types(T)]
pub struct ExArrayQueue<T>(crossbeam_queue::ArrayQueue<T>);

/// The elements of a task-id queue, front first.
pub uninterp spec fn task_queue_elems(q: crossbeam_queue::ArrayQueue<u64>) -> Seq<u64>;

/// The capacity a task-id queue was created with.
pub uninterp spec fn task_queue_cap(q: crossbeam_queue::ArrayQueue<u64>) -> nat;

/// The elements of a scan-byte queue, front first.
pub uninterp spec fn byte_queue_elems(q: crossbeam_queue::ArrayQueue<u8>) -> Seq<u8>;

/// The capacity a scan-byte queue was created with.
pub uninterp spec fn byte_queue_cap(q: crossbeam_queue::ArrayQueue<u8>) -> nat;

/// Relies on crossbeam_queue::ArrayQueue::new: a fresh, empty queue of the
/// given capacity. `new` panics on capacity zero (and on a capacity so large
/// that its ring stamp would overflow), so those are excluded.
#[verifier::external_body]
pub(crate) fn new_task_queue(cap: usize) -> (q: crossbeam_queue::ArrayQueue<u64>)
    requires
        0 < cap < usize::MAX / 2,
    ensures
        task_queue_elems(q) == Seq::<u64>::empty(),
        task_queue_cap(q) == cap,
{
    crossbeam_queue::ArrayQueue::new(cap)
}

/// Relies on crossbeam_queue::ArrayQueue::push: appends at the back when
/// the queue is not full; a full queue returns the value back and is left
/// unchanged.
#[verifier::external_body]
pub(crate) fn task_queue_push(q: &mut crossbeam_queue::ArrayQueue<u64>, v: u64) -> (ok: bool)
    ensures
        task_queue_cap(*final(q)) == task_queue_cap(*old(q)),
        task_queue_elems(*old(q)).len() < task_queue_cap(*old(q)) ==> ok && task_queue_elems(
            *final(q),
        ) == task_queue_elems(*old(q)).push(v),
        task_queue_elems(*old(q)).len() >= task_queue_cap(*old(q)) ==> !ok && task_queue_elems(
            *final(q),
        ) == task_queue_elems(*old(q)),
{
    match q.push(v) {
        Ok(()) => true,
        Err(_) => false,
    }
}

/// Relies on crossbeam_queue::ArrayQueue::pop: takes the front element, or
/// reports an empty queue.
#[verifier::external_body]
pub(crate) fn task_queue_pop(q: &mut crossbeam_queue::ArrayQueue<u64>) -> (r: Option<u64>)
    ensures
        task_queue_cap(*final(q)) == task_queue_cap(*old(q)),
        task_queue_elems(*old(q)).len() == 0 ==> r is None && task_queue_elems(*final(q))
            == task_queue_elems(*old(q)),
        task_queue_elems(*old(q)).len() > 0 ==> r == Some(task_queue_elems(*old(q)).first())
            && task_queue_elems(*final(q)) == task_queue_elems(*old(q)).drop_first(),
{
    q.pop()
}

/// Relies on crossbeam_queue::ArrayQueue::is_empty.
#[verifier::external_body]
pub(crate) fn task_queue_is_empty(q: &crossbeam_queue::ArrayQueue<u64>) -> (r: bool)
    ensures
        r == (task_queue_elems(*q).len() == 0),
{
    q.is_empty()
}

/// Relies on crossbeam_queue::ArrayQueue::len.
#[verifier::external_body]
pub(crate) fn task_queue_len(q: &crossbeam_queue::ArrayQueue<u64>) -> (r: usize)
    ensures
        r == task_queue_elems(*q).len(),
{
    q.len()
}

/// Relies on crossbeam_queue::ArrayQueue::new, as `new_task_queue` does.
#[verifier::external_body]
pub(crate) fn new_byte_queue(cap: usize) -> (q: crossbeam_queue::ArrayQueue<u8>)
    requires
        0 < cap < usize::MAX / 2,
    ensures
        byte_queue_elems(q) == Seq::<u8>::empty(),
        byte_queue_cap(q) == cap,
{
    crossbeam_queue::ArrayQueue::new(cap)
}

/// Relies on crossbeam_queue::ArrayQueue::push, as `task_queue_push` does.
#[verifier::external_body]
pub(crate) fn byte_queue_push(q: &mut crossbeam_queue::ArrayQueue<u8>, v: u8) -> (ok: bool)
    ensures
        byte_queue_cap(*final(q)) == byte_queue_cap(*old(q)),
        byte_queue_elems(*old(q)).len() < byte_queue_cap(*old(q)) ==> ok && byte_queue_elems(
            *final(q),
        ) == byte_queue_elems(*old(q)).push(v),
        byte_queue_elems(*old(q)).len() >= byte_queue_cap(*old(q)) ==> !ok && byte_queue_elems(
            *final(q),
        ) == byte_queue_elems(*old(q)),
{
    match q.push(v) {
        Ok(()) => true,
        Err(_) => false,
    }
}

/// Relies on crossbeam_queue::ArrayQueue::pop, as `task_queue_pop` does.
#[verifier::external_body]
pub(crate) fn byte_queue_pop(q: &mut crossbeam_queue::ArrayQueue<u8>) -> (r: Option<u8>)
    ensures
        byte_queue_cap(*final(q)) == byte_queue_cap(*old(q)),
        byte_queue_elems(*old(q)).len() == 0 ==> r is None && byte_queue_elems(*final(q))
            == byte_queue_elems(*old(q)),
        byte_queue_elems(*old(q)).len() > 0 ==> r == Some(byte_queue_elems(*old(q)).first())
            && byte_queue_elems(*final(q)) == byte_queue_elems(*old(q)).drop_first(),
{
    q.pop()
}

} // verus!
