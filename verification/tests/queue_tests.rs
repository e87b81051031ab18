use autotagger::task_queue::TaskQueue;

#[test]
fn tasks_run_in_submission_order() {
    let mut q = TaskQueue::new();
    q.add_task(1);
    q.add_task(2);
    q.add_task(3);
    assert_eq!(q.run_next(), Some(1));
    assert_eq!(q.run_next(), Some(2));
    assert_eq!(q.run_next(), Some(3));
    assert_eq!(q.run_next(), None);
}

#[test]
fn slow_task_still_runs_before_fast_one() {
    // The first task submitted does slow work before its visible effect, the
    // second is immediate; the queue still completes them strictly in
    // submission order, never by expected duration.
    let slow_then_write_a = 10;
    let write_b = 20;
    let mut q = TaskQueue::new();
    q.add_task(slow_then_write_a);
    q.add_task(write_b);
    let first = q.run_next().unwrap();
    let second = q.run_next().unwrap();
    assert_eq!((first, second), (slow_then_write_a, write_b));
    assert!(q.is_completed(slow_then_write_a));
    assert!(q.is_completed(write_b));
}

#[test]
fn run_all_drains_in_order() {
    let mut q = TaskQueue::new();
    for t in [4, 5, 6, 7] {
        q.add_task(t);
    }
    q.run_all();
    assert_eq!(q.run_next(), None);
    for t in [4, 5, 6, 7] {
        assert!(q.is_completed(t));
    }
}

#[test]
fn sentinel_completes_only_after_all_earlier_tasks() {
    let mut q = TaskQueue::new();
    for t in [1, 2, 3] {
        q.add_task(t);
    }
    let sentinel = 99;
    q.wait_for_queued_tasks(sentinel);
    // Drive the executor until the sentinel's completion releases the waiter.
    let mut steps = 0;
    while !q.is_completed(sentinel) {
        assert!(q.run_next().is_some());
        steps += 1;
        assert!(steps <= 4);
    }
    for t in [1, 2, 3] {
        assert!(q.is_completed(t));
    }
}

#[test]
fn nothing_runs_before_submission() {
    let mut q = TaskQueue::new();
    assert_eq!(q.run_next(), None);
    assert!(!q.is_completed(0));
}
