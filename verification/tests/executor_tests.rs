use floof::task::executor::{Executor, ReadyQueue, TaskWaker};
use floof::task::simple_executor::SimpleExecutor;
use floof::task::{PollResult, Task, TaskId, TaskIdAllocator};

#[test]
fn simple_executor_runs_all_tasks_to_completion() {
    let mut ids = TaskIdAllocator::new();
    let mut executor = SimpleExecutor::new();
    executor.spawn(Task::new(ids.fresh(), 0));
    executor.spawn(Task::new(ids.fresh(), 1));
    executor.spawn(Task::new(ids.fresh(), 2));
    executor.run();
    assert!(executor.queue.is_empty());
}

#[test]
fn task_ids_are_fresh_and_increasing() {
    let mut ids = TaskIdAllocator::new();
    let a = ids.fresh();
    let b = ids.fresh();
    let c = ids.fresh();
    assert_eq!(a.as_u64(), 0);
    assert_eq!(b.as_u64(), 1);
    assert_eq!(c.as_u64(), 2);
    assert!(a < b && b < c);
}

#[test]
fn task_counts_down_to_completion() {
    let mut t = Task::new(TaskId(7), 2);
    assert_eq!(t.poll(), PollResult::Pending);
    assert_eq!(t.poll(), PollResult::Pending);
    assert_eq!(t.poll(), PollResult::Ready);
    assert_eq!(t.poll(), PollResult::Ready);
    assert_eq!(t.id(), TaskId(7));
}

#[test]
fn ready_queue_is_fifo_and_bounded() {
    let mut q = ReadyQueue::new(3);
    assert!(q.is_empty());
    assert!(q.push(TaskId(1)));
    assert!(q.push(TaskId(2)));
    assert!(q.push(TaskId(3)));
    // full: the push fails explicitly instead of blocking or growing
    assert!(!q.push(TaskId(4)));
    assert_eq!(q.len(), 3);
    assert_eq!(q.pop(), Some(TaskId(1)));
    assert_eq!(q.pop(), Some(TaskId(2)));
    assert_eq!(q.pop(), Some(TaskId(3)));
    assert_eq!(q.pop(), None);
}

#[test]
fn waker_enqueues_its_task_id() {
    let mut q = ReadyQueue::new(8);
    let w = TaskWaker::new(TaskId(42));
    w.wake_task(&mut q);
    assert_eq!(q.pop(), Some(TaskId(42)));
}

/// Tasks that each suspend exactly once all run to completion; after
/// draining the ready queue twice, the task table and the waker cache are
/// both empty.
#[test]
fn spawned_tasks_drain_to_empty_tables() {
    let mut ids = TaskIdAllocator::new();
    let mut executor = Executor::new();
    for _ in 0..5 {
        let id = ids.fresh();
        executor.spawn(Task::new(id, 1));
    }
    assert_eq!(executor.tasks.len(), 5);
    executor.run_ready_tasks();
    executor.run_ready_tasks();
    assert!(executor.tasks.is_empty());
    assert!(executor.waker_cache.is_empty());
    assert!(executor.is_idle());
}

/// A wake for a task that has already completed and been removed is
/// silently skipped when popped later.
#[test]
fn stale_wake_is_skipped_silently() {
    let mut ids = TaskIdAllocator::new();
    let mut executor = Executor::new();
    let id = ids.fresh();
    executor.spawn(Task::new(id, 0));
    executor.run_ready_tasks();
    assert!(executor.tasks.is_empty());
    // the task is gone; deliver its wake afterwards anyway
    assert!(executor.task_queue.push(id));
    executor.run_ready_tasks();
    assert!(executor.tasks.is_empty());
    assert!(executor.is_idle());
}

/// Several wakes for one task between its polls collapse into re-polling;
/// nothing fails and the task still completes exactly once.
#[test]
fn duplicate_wakes_collapse() {
    let mut ids = TaskIdAllocator::new();
    let mut executor = Executor::new();
    let id = ids.fresh();
    executor.spawn(Task::new(id, 1));
    // a second wake arrives before the first poll
    assert!(executor.task_queue.push(id));
    executor.run_ready_tasks();
    assert!(executor.tasks.is_empty());
    assert!(executor.waker_cache.is_empty());
    assert!(executor.is_idle());
}

/// Tasks not woken stay untouched in the table.
#[test]
fn unwoken_tasks_stay() {
    let mut executor = Executor::new();
    // insert a task directly, without queueing a first poll for it
    executor.tasks.insert(9, Task::new(TaskId(9), 3));
    executor.run_ready_tasks();
    assert_eq!(executor.tasks.len(), 1);
}
