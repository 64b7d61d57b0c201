use vstd::prelude::*;
use crate::task::{PollResult, Task};
use std::collections::VecDeque;

verus! {

/// Polls that a round-robin pass still owes a queue of tasks: one poll per
/// outstanding suspension of each task, plus the poll that observes each
/// task's completion.
pub open spec fn queued_work(s: Seq<Task>) -> nat
    decreases s.len(),
{
    if s.len() == 0 {
        0
    } else {
        (s[0].spec_remaining() + 1 + queued_work(s.drop_first())) as nat
    }
}

/// Appending a task adds exactly its own polls to the queue's owed work.
proof fn lemma_queued_work_push(s: Seq<Task>, t: Task)
    ensures
        queued_work(s.push(t)) == queued_work(s) + t.spec_remaining() + 1,
    decreases s.len(),
{
    if s.len() == 0 {
        assert(s.push(t)[0] == t);
        assert(s.push(t).drop_first() =~= Seq::<Task>::empty());
        assert(queued_work(s.push(t).drop_first()) == 0);
        assert(queued_work(s.push(t)) == (t.spec_remaining() + 1) as nat);
    } else {
        assert(s.push(t)[0] == s[0]);
        assert(s.push(t).drop_first() =~= s.drop_first().push(t));
        lemma_queued_work_push(s.drop_first(), t);
        assert(queued_work(s.push(t)) == (s[0].spec_remaining() + 1 + queued_work(
            s.push(t).drop_first(),
        )) as nat);
        assert(queued_work(s) == (s[0].spec_remaining() + 1 + queued_work(s.drop_first())) as nat);
    }
}

/// A rudimentary scheduler with no wake mechanism: it simply cycles through
/// its queue, re-queueing every task that suspends, until all have
/// completed. Each poll hands the task a waker that does nothing.
pub struct SimpleExecutor {
    pub queue: VecDeque<Task>,
}

impl SimpleExecutor {
    pub fn new() -> (r: Self)
        ensures
            r.queue@ == Seq::<Task>::empty(),
    {
        SimpleExecutor { queue: VecDeque::new() }
    }

    pub fn spawn(&mut self, task: Task)
        ensures
            final(self).queue@ == old(self).queue@.push(task),
    {
        self.queue.push_back(task);
    }

    /// Poll every queued task round-robin until each has completed; tasks
    /// that suspend go to the back of the queue and are tried again.
    pub fn run(&mut self)
        ensures
            final(self).queue@.len() == 0,
    {
        loop
            invariant_except_break
                true,
            ensures
                final(self).queue@.len() == 0,
            decreases queued_work(self.queue@),
        {
            let ghost pre = self.queue@;
            match self.queue.pop_front() {
                Some(mut task) => {
                    let ghost rest = self.queue@;
                    proof {
                        assert(rest =~= pre.drop_first());
                    }
                    match task.poll() {
                        PollResult::Ready => {},
                        PollResult::Pending => {
                            self.queue.push_back(task);
                            proof {
                                lemma_queued_work_push(rest, task);
                            }
                        },
                    }
                },
                None => {
                    break ;
                },
            }
        }
    }
}

} // verus!
