use vstd::prelude::*;
use crate::task::array_queue::{
    new_task_queue, task_queue_cap, task_queue_elems, task_queue_is_empty, task_queue_len,
    task_queue_pop, task_queue_push,
};
use crate::task::{PollResult, Task, TaskId};
use std::collections::BTreeMap;

verus! {

/// Bounded multi-producer FIFO of task identifiers awaiting their next
/// poll. A push onto a full queue fails explicitly instead of blocking or
/// growing, so it is safe to use from interrupt context.
pub struct ReadyQueue {
    pub queue: crossbeam_queue::ArrayQueue<u64>,
}

impl ReadyQueue {
    /// The queued identifiers, front first.
    pub open spec fn view_elems(self) -> Seq<u64> {
        task_queue_elems(self.queue)
    }

    /// The fixed capacity the queue was created with.
    pub open spec fn cap(self) -> nat {
        task_queue_cap(self.queue)
    }

    /// The queue never holds more than its capacity.
    pub open spec fn wf(self) -> bool {
        self.view_elems().len() <= self.cap()
    }

    pub fn new(cap: usize) -> (r: Self)
        requires
            0 < cap < usize::MAX / 2,
        ensures
            r.wf(),
            r.view_elems() == Seq::<u64>::empty(),
            r.cap() == cap,
    {
        ReadyQueue { queue: new_task_queue(cap) }
    }

    /// Non-blocking append; reports failure on a full queue and leaves it
    /// unchanged.
    pub fn push(&mut self, id: TaskId) -> (ok: bool)
        requires
            old(self).wf(),
        ensures
            final(self).wf(),
            final(self).cap() == old(self).cap(),
            old(self).view_elems().len() < old(self).cap() ==> ok && final(self).view_elems()
                == old(self).view_elems().push(id.spec_u64()),
            old(self).view_elems().len() >= old(self).cap() ==> !ok && final(self).view_elems()
                == old(self).view_elems(),
    {
        task_queue_push(&mut self.queue, id.as_u64())
    }

    /// Non-blocking removal of the oldest queued identifier.
    pub fn pop(&mut self) -> (r: Option<TaskId>)
        requires
            old(self).wf(),
        ensures
            final(self).wf(),
            final(self).cap() == old(self).cap(),
            old(self).view_elems().len() == 0 ==> r is None && final(self).view_elems() == old(
                self,
            ).view_elems(),
            old(self).view_elems().len() > 0 ==> r == Some(
                TaskId(old(self).view_elems().first()),
            ) && final(self).view_elems() == old(self).view_elems().drop_first(),
    {
        match task_queue_pop(&mut self.queue) {
            Some(raw) => Some(TaskId(raw)),
            None => None,
        }
    }

    pub fn is_empty(&self) -> (r: bool)
        ensures
            r == (self.view_elems().len() == 0),
    {
        task_queue_is_empty(&self.queue)
    }

    pub fn len(&self) -> (r: usize)
        ensures
            r == self.view_elems().len(),
    {
        task_queue_len(&self.queue)
    }
}

/// The wake capability handed to a task: bound to that task's identifier,
/// it enqueues the identifier so the executor polls the task again. It
/// allocates nothing and never blocks, so an interrupt handler may invoke
/// it.
#[derive(Debug, Clone, Copy, PartialEq, Eq, Structural)]
pub struct TaskWaker {
    pub task_id: TaskId,
}

impl TaskWaker {
    pub fn new(task_id: TaskId) -> (r: TaskWaker)
        ensures
            r.task_id == task_id,
    {
        TaskWaker { task_id }
    }

    /// Schedule the task's next poll. The ready queue must have room: the
    /// system sizes it for the worst case, and a full queue here is a fatal
    /// configuration error.
    pub fn wake_task(&self, queue: &mut ReadyQueue)
        requires
            old(queue).wf(),
            old(queue).view_elems().len() < old(queue).cap(),
        ensures
            final(queue).wf(),
            final(queue).cap() == old(queue).cap(),
            final(queue).view_elems() == old(queue).view_elems().push(self.task_id.spec_u64()),
    {
        let _pushed = queue.push(self.task_id);
    }
}

/// Total outstanding suspensions over a task table: how many more times its
/// tasks will report `Pending` before all of them complete.
pub open spec fn sum_remaining(m: Map<u64, Task>) -> nat
    decreases m.dom().len() when m.dom().finite()
{
    if m.dom().finite() && !m.dom().is_empty() {
        let id = m.dom().choose();
        (m[id].spec_remaining() + sum_remaining(m.remove(id))) as nat
    } else {
        0
    }
}

/// Taking one task out of a table splits the total outstanding suspensions.
proof fn lemma_sum_remove(m: Map<u64, Task>, id: u64)
    requires
        m.dom().finite(),
        m.dom().contains(id),
    ensures
        sum_remaining(m) == m[id].spec_remaining() + sum_remaining(m.remove(id)),
    decreases m.dom().len(),
{
    let c = m.dom().choose();
    assert(!m.dom().is_empty());
    assert(m.dom().contains(c));
    if c == id {
    } else {
        let m1 = m.remove(c);
        let m2 = m.remove(id);
        assert(m1.dom() =~= m.dom().remove(c));
        assert(m2.dom() =~= m.dom().remove(id));
        assert(m1.dom().contains(id));
        assert(m2.dom().contains(c));
        lemma_sum_remove(m1, id);
        lemma_sum_remove(m2, c);
        assert(m1.remove(id) =~= m2.remove(c));
    }
}

/// Cooperative scheduler: a table of suspended tasks keyed by identifier, a
/// cache of their wakers, and the shared ready queue that wakes feed.
pub struct Executor {
    pub tasks: BTreeMap<u64, Task>,
    pub waker_cache: BTreeMap<u64, TaskWaker>,
    pub task_queue: ReadyQueue,
}

impl Executor {
    /// Structural soundness: the table keys tasks by their own identifier,
    /// the cache holds wakers only for tasks in the table, each bound to the
    /// matching identifier, and the ready queue respects its bound.
    pub open spec fn wf(self) -> bool {
        &&& forall|id: u64| #[trigger]
            self.tasks@.dom().contains(id) ==> self.tasks@[id].id.spec_u64() == id
        &&& forall|id: u64| #[trigger]
            self.waker_cache@.dom().contains(id) ==> self.tasks@.dom().contains(id)
                && self.waker_cache@[id].task_id.spec_u64() == id
        &&& self.task_queue.wf()
        &&& self.task_queue.cap() > 0
    }

    pub fn new() -> (r: Self)
        ensures
            r.wf(),
            r.tasks@ == Map::<u64, Task>::empty(),
            r.waker_cache@ == Map::<u64, TaskWaker>::empty(),
            r.task_queue.view_elems() == Seq::<u64>::empty(),
            r.task_queue.cap() == 100,
    {
        Executor {
            tasks: BTreeMap::new(),
            waker_cache: BTreeMap::new(),
            task_queue: ReadyQueue::new(100),
        }
    }

    /// Hand a task to the executor and queue its first poll. Spawning a
    /// task whose identifier is already in the table would be an
    /// id-generation bug, and a full ready queue a sizing bug; both are
    /// fatal, so both are excluded here.
    pub fn spawn(&mut self, task: Task)
        requires
            old(self).wf(),
            !old(self).tasks@.dom().contains(task.spec_id()),
            old(self).task_queue.view_elems().len() < old(self).task_queue.cap(),
        ensures
            final(self).wf(),
            final(self).tasks@ == old(self).tasks@.insert(task.spec_id(), task),
            final(self).waker_cache@ == old(self).waker_cache@,
            final(self).task_queue.cap() == old(self).task_queue.cap(),
            final(self).task_queue.view_elems() == old(self).task_queue.view_elems().push(
                task.spec_id(),
            ),
    {
        let task_id = task.id();
        self.tasks.insert(task_id.as_u64(), task);
        let _pushed = self.task_queue.push(task_id);
    }

    /// Whether the ready queue holds no identifier: the test `sleep_if_idle`
    /// makes, with interrupts disabled, before halting the processor.
    pub fn is_idle(&self) -> (r: bool)
        ensures
            r == (self.task_queue.view_elems().len() == 0),
    {
        self.task_queue.is_empty()
    }

    /// Drain the ready queue: pop identifiers until it is empty, silently
    /// skipping stale wakes for tasks that no longer exist, and poll each
    /// remaining task with its cached (or freshly created) waker. A task
    /// that completes leaves the table and the cache; one that suspends
    /// stays and is re-queued by its own wake. Every task woken at entry is
    /// therefore run to completion, and tasks never woken are untouched.
    #[verifier::rlimit(100)]
    #[verifier::spinoff_prover]
    pub fn run_ready_tasks(&mut self)
        requires
            old(self).wf(),
        ensures
            final(self).wf(),
            final(self).task_queue.cap() == old(self).task_queue.cap(),
            final(self).task_queue.view_elems().len() == 0,
            forall|id: u64| #[trigger]
                final(self).tasks@.dom().contains(id) ==> old(self).tasks@.dom().contains(id)
                    && !old(self).task_queue.view_elems().contains(id) && final(self).tasks@[id]
                    == old(self).tasks@[id],
            forall|id: u64|
                #![trigger old(self).tasks@.dom().contains(id)]
                old(self).tasks@.dom().contains(id) && !old(self).task_queue.view_elems().contains(
                    id,
                ) ==> final(self).tasks@.dom().contains(id),
            forall|id: u64| #[trigger]
                final(self).waker_cache@.dom().contains(id) ==> old(
                    self,
                ).waker_cache@.dom().contains(id) && !old(self).task_queue.view_elems().contains(
                    id,
                ) && final(self).waker_cache@[id] == old(self).waker_cache@[id],
            forall|id: u64|
                #![trigger old(self).waker_cache@.dom().contains(id)]
                old(self).waker_cache@.dom().contains(id) && !old(
                    self,
                ).task_queue.view_elems().contains(id) ==> final(self).waker_cache@.dom().contains(
                    id,
                ),
    {
        let ghost orig = *self;
        let ghost q0 = orig.task_queue.view_elems();
        proof {
            assert(self.tasks@.dom().finite());
        }
        while !self.task_queue.is_empty()
            invariant
                self.wf(),
                self.task_queue.cap() == orig.task_queue.cap(),
                forall|i: int|
                    0 <= i < self.task_queue.view_elems().len() ==> q0.contains(
                        #[trigger] self.task_queue.view_elems()[i],
                    ),
                forall|id: u64| #[trigger]
                    self.tasks@.dom().contains(id) ==> orig.tasks@.dom().contains(id),
                forall|id: u64| #[trigger]
                    self.tasks@.dom().contains(id) && !q0.contains(id) ==> self.tasks@[id]
                        == orig.tasks@[id],
                forall|id: u64|
                    #![trigger orig.tasks@.dom().contains(id)]
                    orig.tasks@.dom().contains(id) && !q0.contains(id)
                        ==> self.tasks@.dom().contains(id),
                forall|id: u64| #[trigger]
                    self.tasks@.dom().contains(id) && q0.contains(id)
                        ==> self.task_queue.view_elems().contains(id),
                forall|id: u64| #[trigger]
                    self.waker_cache@.dom().contains(id) ==> q0.contains(id) || (
                    orig.waker_cache@.dom().contains(id) && self.waker_cache@[id]
                        == orig.waker_cache@[id]),
                forall|id: u64|
                    #![trigger orig.waker_cache@.dom().contains(id)]
                    orig.waker_cache@.dom().contains(id) && !q0.contains(id)
                        ==> self.waker_cache@.dom().contains(id) && self.waker_cache@[id]
                        == orig.waker_cache@[id],
            decreases self.task_queue.view_elems().len() + 2 * sum_remaining(self.tasks@),
        {
            let ghost pre = *self;
            let id = self.task_queue.pop().unwrap();
            let idu = id.as_u64();
            proof {
                assert(pre.task_queue.view_elems()[0] == idu);
                assert(q0.contains(idu));
                assert(self.tasks@.dom().finite());
            }
            if self.tasks.contains_key(&idu) {
                if !self.waker_cache.contains_key(&idu) {
                    self.waker_cache.insert(idu, TaskWaker::new(id));
                }
                let waker = *self.waker_cache.get(&idu).unwrap();
                let mut task = self.tasks.remove(&idu).unwrap();
                let ghost tasks_mid = self.tasks@;
                proof {
                    lemma_sum_remove(pre.tasks@, idu);
                    assert(tasks_mid =~= pre.tasks@.remove(idu));
                }
                match task.poll() {
                    PollResult::Ready => {
                        self.waker_cache.remove(&idu);
                        proof {
                            assert forall|id2: u64| #[trigger]
                                self.tasks@.dom().contains(id2) && q0.contains(
                                    id2,
                                ) implies self.task_queue.view_elems().contains(id2) by {
                                assert(pre.tasks@.dom().contains(id2));
                                assert(id2 != idu);
                                let i = choose|i: int|
                                    0 <= i < pre.task_queue.view_elems().len()
                                        && pre.task_queue.view_elems()[i] == id2;
                                assert(i > 0);
                                assert(self.task_queue.view_elems()[i - 1] == id2);
                            }
                        }
                    },
                    PollResult::Pending => {
                        waker.wake_task(&mut self.task_queue);
                        self.tasks.insert(idu, task);
                        proof {
                            assert(self.tasks@ =~= tasks_mid.insert(idu, task));
                            lemma_sum_remove(self.tasks@, idu);
                            assert(self.tasks@.remove(idu) =~= tasks_mid);
                            assert(sum_remaining(self.tasks@) + 1 == sum_remaining(pre.tasks@));
                            let qnow = self.task_queue.view_elems();
                            let qpre = pre.task_queue.view_elems();
                            assert(qnow == qpre.drop_first().push(idu));
                            assert forall|i: int| 0 <= i < qnow.len() implies q0.contains(
                                #[trigger] qnow[i],
                            ) by {
                                if i < qnow.len() - 1 {
                                    assert(qnow[i] == qpre[i + 1]);
                                } else {
                                    assert(qnow[i] == idu);
                                }
                            }
                            assert forall|id2: u64| #[trigger]
                                self.tasks@.dom().contains(id2) && q0.contains(
                                    id2,
                                ) implies qnow.contains(id2) by {
                                if id2 == idu {
                                    assert(qnow[qnow.len() - 1] == idu);
                                } else {
                                    assert(pre.tasks@.dom().contains(id2));
                                    let i = choose|i: int|
                                        0 <= i < qpre.len() && qpre[i] == id2;
                                    assert(i > 0);
                                    assert(qnow[i - 1] == id2);
                                }
                            }
                        }
                    },
                }
            } else {
                // stale wake for a task that already completed: skipped
                proof {
                    assert forall|id2: u64| #[trigger]
                        self.tasks@.dom().contains(id2) && q0.contains(
                            id2,
                        ) implies self.task_queue.view_elems().contains(id2) by {
                        assert(id2 != idu);
                        let i = choose|i: int|
                            0 <= i < pre.task_queue.view_elems().len()
                                && pre.task_queue.view_elems()[i] == id2;
                        assert(i > 0);
                        assert(self.task_queue.view_elems()[i - 1] == id2);
                    }
                }
            }
        }
        proof {
            assert forall|id: u64| #[trigger]
                final(self).waker_cache@.dom().contains(id) implies !q0.contains(id) by {
                if q0.contains(id) {
                    assert(self.tasks@.dom().contains(id));
                    assert(self.task_queue.view_elems().contains(id));
                }
            }
        }
    }
}

/// Law: when every task in the table has a wake queued (as `spawn` queues
/// one for each task it inserts), one drain of the ready queue completes
/// them all: the state `run_ready_tasks` leaves behind, described by its
/// contract, has an empty task table and an empty waker cache — so a
/// second drain finds nothing left to do.
pub proof fn lemma_drain_completes_spawned(before: Executor, after: Executor)
    requires
        before.wf(),
        forall|id: u64| #[trigger]
            before.tasks@.dom().contains(id) ==> before.task_queue.view_elems().contains(id),
        forall|id: u64| #[trigger]
            after.tasks@.dom().contains(id) ==> before.tasks@.dom().contains(id) && !before
                .task_queue.view_elems().contains(id),
        forall|id: u64| #[trigger]
            after.waker_cache@.dom().contains(id) ==> before.waker_cache@.dom().contains(id)
                && !before.task_queue.view_elems().contains(id),
    ensures
        forall|id: u64| !after.tasks@.dom().contains(id),
        forall|id: u64| !after.waker_cache@.dom().contains(id),
{
    assert forall|id: u64| !after.tasks@.dom().contains(id) by {
        if after.tasks@.dom().contains(id) {
            assert(before.tasks@.dom().contains(id));
        }
    }
    assert forall|id: u64| !after.waker_cache@.dom().contains(id) by {
        if after.waker_cache@.dom().contains(id) {
            assert(before.waker_cache@.dom().contains(id));
            assert(before.tasks@.dom().contains(id));
        }
    }
}

} // verus!
