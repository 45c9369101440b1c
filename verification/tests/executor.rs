use kernel::task::executor::{Executor, ExecutorAction, IdleAction};
use kernel::task::{Task, TaskId, TaskIdCounter};

/// Spawns a task for each of the futures.
fn executor_of<const N: usize>(futures: [&'static str; N]) -> (Executor<&'static str, u8>, Vec<TaskId>) {
    let mut counter = TaskIdCounter::new();
    let mut executor = Executor::new();
    let mut ids = vec![];
    for future in futures {
        let task = Task::new(&mut counter, future);
        ids.push(task.id);
        executor.spawn(task);
    }
    (executor, ids)
}

#[test]
fn identifiers_count_up() {
    let mut counter = TaskIdCounter::new();
    let first = TaskId::new(&mut counter);
    let second = TaskId::new(&mut counter);
    let task = Task::new(&mut counter, "future");
    assert_eq!(first.number(), 0);
    assert_eq!(second.number(), 1);
    assert_eq!(task.id.number(), 2);
    assert_eq!(task.future, "future");
    assert_ne!(first, second);
    assert!(first < second);
}

#[test]
fn executor_without_tasks_sleeps() {
    let mut executor: Executor<(), u8> = Executor::new();
    assert_eq!(executor.run(), ExecutorAction::Sleep);
    assert_eq!(executor.sleep_if_idle(), IdleAction::EnableAndHalt);
}

#[test]
fn spawned_tasks_are_polled_in_order() {
    let (mut executor, ids) = executor_of(["a", "b"]);
    assert_eq!(executor.sleep_if_idle(), IdleAction::Enable);
    assert_eq!(executor.run(), ExecutorAction::PollWithNewWaker(ids[0]));
    assert_eq!(executor.run(), ExecutorAction::PollWithNewWaker(ids[1]));
    assert_eq!(executor.run(), ExecutorAction::Sleep);
}

#[test]
fn wakers_are_cached() {
    let (mut executor, ids) = executor_of(["a"]);
    assert_eq!(executor.run(), ExecutorAction::PollWithNewWaker(ids[0]));
    assert_eq!(executor.cached_waker(ids[0]), None);
    executor.cache_waker(ids[0], 7);
    assert_eq!(executor.cached_waker(ids[0]), Some(&7));
    let task = executor.begin_poll(ids[0]);
    executor.finish_poll(task, false);
    executor.wake_task(ids[0]);
    assert_eq!(executor.run(), ExecutorAction::Poll(ids[0]));
    assert_eq!(executor.cached_waker(ids[0]), Some(&7));
}

#[test]
fn waiting_tasks_stay_and_sleep_until_woken() {
    let (mut executor, ids) = executor_of(["a"]);
    executor.run();
    let mut task = executor.begin_poll(ids[0]);
    assert_eq!(task.future, "a");
    assert!(executor.is_live(ids[0]));
    task.future = "a, polled";
    executor.finish_poll(task, false);
    assert_eq!(executor.run(), ExecutorAction::Sleep);
    assert!(executor.is_live(ids[0]));
    executor.wake_task(ids[0]);
    assert_eq!(executor.sleep_if_idle(), IdleAction::Enable);
    assert_eq!(executor.run(), ExecutorAction::PollWithNewWaker(ids[0]));
    assert_eq!(executor.begin_poll(ids[0]).future, "a, polled");
}

#[test]
fn completed_tasks_are_gone() {
    let (mut executor, ids) = executor_of(["a", "b"]);
    executor.wake_task(ids[0]);
    executor.run();
    executor.cache_waker(ids[0], 1);
    let task = executor.begin_poll(ids[0]);
    executor.finish_poll(task, true);
    assert!(!executor.is_live(ids[0]));
    assert_eq!(executor.cached_waker(ids[0]), None);
    assert_eq!(executor.run(), ExecutorAction::PollWithNewWaker(ids[1]));
    // What is left in the queue names the completed task and is skipped.
    assert_eq!(executor.sleep_if_idle(), IdleAction::Enable);
    assert_eq!(executor.run(), ExecutorAction::Sleep);
    assert_eq!(executor.sleep_if_idle(), IdleAction::EnableAndHalt);
}

#[test]
fn tasks_can_be_woken_while_they_are_polled() {
    let (mut executor, ids) = executor_of(["a"]);
    executor.run();
    let task = executor.begin_poll(ids[0]);
    executor.wake_task(ids[0]);
    executor.finish_poll(task, false);
    assert_eq!(executor.run_ready_tasks(), Some(ids[0]));
    assert_eq!(executor.run_ready_tasks(), None);
}

#[test]
fn queue_has_room_for_a_hundred_wakeups() {
    let (mut executor, ids) = executor_of(["a"]);
    for _ in 1..100 {
        assert!(executor.has_room());
        executor.wake_task(ids[0]);
    }
    assert!(!executor.has_room());
    executor.run();
    assert!(executor.has_room());
}
