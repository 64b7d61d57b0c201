pub mod array_queue;
pub mod executor;
pub mod keyboard;
pub mod simple_executor;

use vstd::prelude::*;

verus! {

/// Identifier of a task: small, copyable, totally ordered, never reused.
#[derive(Debug, Clone, Copy, PartialEq, Eq, PartialOrd, Ord, Hash, Structural)]
pub struct TaskId(pub u64);

impl TaskId {
    pub open spec fn spec_u64(self) -> u64 {
        self.0
    }

    pub fn as_u64(&self) -> (v: u64)
        ensures
            v == self.spec_u64(),
    {
        self.0
    }
}

/// Hands out process-unique task identifiers, one per call, in increasing
/// order.
pub struct TaskIdAllocator {
    pub next: u64,
}

impl TaskIdAllocator {
    pub open spec fn spec_next(self) -> u64 {
        self.next
    }

    pub fn new() -> (r: Self)
        ensures
            r.spec_next() == 0,
    {
        TaskIdAllocator { next: 0 }
    }

    /// Returns an identifier never returned before by this allocator.
    pub fn fresh(&mut self) -> (id: TaskId)
        requires
            old(self).spec_next() < u64::MAX,
        ensures
            id.spec_u64() == old(self).spec_next(),
            final(self).spec_next() == old(self).spec_next() + 1,
    {
        let id = TaskId(self.next);
        self.next = self.next + 1;
        id
    }
}

/// What one poll of a task reports: the task finished, or it suspended and
/// will be polled again once woken.
#[derive(Debug, Clone, Copy, PartialEq, Eq, Structural)]
pub enum PollResult {
    Ready,
    Pending,
}

/// A suspended unit of cooperative work. Its computation is modelled by a
/// countdown: the task suspends `remaining` more times, then completes.
#[derive(Debug, Clone, Copy, PartialEq, Eq, Structural)]
pub struct Task {
    pub id: TaskId,
    pub remaining: u64,
}

impl Task {
    pub open spec fn spec_id(self) -> u64 {
        self.id.0
    }

    pub open spec fn spec_remaining(self) -> u64 {
        self.remaining
    }

    /// A task that will suspend exactly `remaining` times before completing.
    /// The identifier is assigned here, once, and never changes.
    pub fn new(id: TaskId, remaining: u64) -> (t: Task)
        ensures
            t.spec_id() == id.spec_u64(),
            t.spec_remaining() == remaining,
    {
        Task { id, remaining }
    }

    pub fn id(&self) -> (id: TaskId)
        ensures
            id.spec_u64() == self.spec_id(),
    {
        self.id
    }

    /// Run the task until it completes or suspends. A task whose countdown
    /// has reached zero reports `Ready`; otherwise it counts down one
    /// suspension and reports `Pending`.
    pub fn poll(&mut self) -> (r: PollResult)
        ensures
            final(self).spec_id() == old(self).spec_id(),
            old(self).spec_remaining() == 0 ==> r is Ready && *final(self) == *old(self),
            old(self).spec_remaining() > 0 ==> r is Pending && final(self).spec_remaining()
                == old(self).spec_remaining() - 1,
    {
        if self.remaining == 0 {
            PollResult::Ready
        } else {
            self.remaining = self.remaining - 1;
            PollResult::Pending
        }
    }
}

} // verus!
