use my_redis::scheduler::{Scheduler, Step, TaskStatus};
use my_redis::timer::{Timer, TimerPoll, DONE};

/// Runs tasks whose computations are ready with their output at the first
/// poll; returns the outputs in the order they were observed.
fn run_immediately_ready(sched: &mut Scheduler, outputs: &[i32]) -> Vec<i32> {
    let mut observed = Vec::new();
    loop {
        match sched.next_step() {
            Step::Poll(id) => {
                observed.push(outputs[id]);
                sched.complete_poll(TaskStatus::Ready);
            }
            Step::Skip(_) => {}
            Step::Idle => panic!("no task should be left waiting"),
            Step::Finished => return observed,
        }
    }
}

#[test]
fn three_ready_tasks_run_in_spawn_order() {
    let mut sched = Scheduler::new();
    let outputs = [1, 2, 3];
    for _ in 0..3 {
        sched.spawn();
    }
    let observed = run_immediately_ready(&mut sched, &outputs);
    assert_eq!(observed, vec![1, 2, 3]);
    assert_eq!(sched.queue_len(), 0);
    assert!(sched.is_finished());
}

#[test]
fn first_spawned_is_first_polled() {
    let mut sched = Scheduler::new();
    let a = sched.spawn();
    let b = sched.spawn();
    assert_eq!((a, b), (0, 1));
    assert_eq!(sched.next_step(), Step::Poll(a));
    sched.complete_poll(TaskStatus::Ready);
    assert_eq!(sched.next_step(), Step::Poll(b));
}

#[test]
fn empty_scheduler_finishes_at_once() {
    let mut sched = Scheduler::new();
    assert_eq!(sched.next_step(), Step::Finished);
    assert!(sched.is_finished());
    assert_eq!(sched.task_count(), 0);
}

#[test]
fn pending_task_without_wake_leaves_run_waiting() {
    let mut sched = Scheduler::new();
    let id = sched.spawn();
    assert_eq!(sched.next_step(), Step::Poll(id));
    sched.complete_poll(TaskStatus::Pending);
    for _ in 0..5 {
        assert_eq!(sched.next_step(), Step::Idle);
    }
    assert!(!sched.is_finished());
    assert_eq!(sched.status(id), Some(TaskStatus::Pending));
}

#[test]
fn woken_task_is_polled_again_and_completes_once() {
    let mut sched = Scheduler::new();
    let id = sched.spawn();
    let mut polls = 0;
    let mut completions = 0;
    loop {
        match sched.next_step() {
            Step::Poll(t) => {
                assert_eq!(t, id);
                polls += 1;
                if polls < 3 {
                    sched.complete_poll(TaskStatus::Pending);
                } else {
                    completions += 1;
                    sched.complete_poll(TaskStatus::Ready);
                }
            }
            Step::Skip(_) => {}
            Step::Idle => sched.wake(id),
            Step::Finished => break,
        }
    }
    assert_eq!(polls, 3);
    assert_eq!(completions, 1);
    assert_eq!(sched.status(id), Some(TaskStatus::Ready));
}

#[test]
fn completed_task_is_never_polled_again() {
    let mut sched = Scheduler::new();
    let id = sched.spawn();
    assert_eq!(sched.next_step(), Step::Poll(id));
    sched.wake(id);
    sched.complete_poll(TaskStatus::Ready);
    assert_eq!(sched.next_step(), Step::Skip(id));
    for _ in 0..3 {
        sched.wake(id);
        assert_eq!(sched.queue_len(), 0);
        assert_eq!(sched.next_step(), Step::Finished);
    }
}

#[test]
fn extra_wakes_change_no_output() {
    let outputs = [10, 20];
    let mut quiet = Scheduler::new();
    quiet.spawn();
    quiet.spawn();
    let expected = run_immediately_ready(&mut quiet, &outputs);

    let mut noisy = Scheduler::new();
    noisy.spawn();
    noisy.spawn();
    for _ in 0..4 {
        noisy.wake(0);
        noisy.wake(1);
        noisy.wake(7);
    }
    assert_eq!(noisy.queue_len(), 2);
    let observed = run_immediately_ready(&mut noisy, &outputs);
    assert_eq!(observed, expected);
    noisy.wake(0);
    noisy.wake(1);
    assert_eq!(noisy.status(0), Some(TaskStatus::Ready));
    assert_eq!(noisy.status(1), Some(TaskStatus::Ready));
    assert_eq!(noisy.next_step(), Step::Finished);
}

#[test]
fn self_wake_is_seen_on_a_later_step() {
    let mut sched = Scheduler::new();
    let a = sched.spawn();
    let b = sched.spawn();
    assert_eq!(sched.next_step(), Step::Poll(a));
    assert_eq!(sched.polling(), Some(a));
    sched.wake(a);
    sched.complete_poll(TaskStatus::Pending);
    assert_eq!(sched.polling(), None);
    assert_eq!(sched.next_step(), Step::Poll(b));
    sched.complete_poll(TaskStatus::Ready);
    assert_eq!(sched.next_step(), Step::Poll(a));
}

#[test]
fn status_of_unknown_task_is_none() {
    let mut sched = Scheduler::new();
    sched.spawn();
    assert_eq!(sched.status(0), Some(TaskStatus::Pending));
    assert_eq!(sched.status(1), None);
    assert_eq!(sched.task_count(), 1);
}

#[test]
fn timer_arms_once_and_fires_at_deadline() {
    let mut timer = Timer::new(1_000);
    assert_eq!(timer.deadline(), 1_000);
    assert!(matches!(timer.poll(400), TimerPoll::Arm(600)));
    assert!(matches!(timer.poll(700), TimerPoll::Pending));
    assert!(matches!(timer.poll(999), TimerPoll::Pending));
    assert!(!timer.is_fired());
    match timer.poll(1_000) {
        TimerPoll::Ready(m) => assert_eq!(m, "done"),
        _ => panic!("timer should fire at its deadline"),
    }
    assert!(timer.is_fired());
}

#[test]
fn timer_past_deadline_is_ready_at_first_poll() {
    let mut timer = Timer::new(5);
    match timer.poll(9) {
        TimerPoll::Ready(m) => assert_eq!(m, DONE),
        _ => panic!("timer should be ready"),
    }
}

/// A timer task driven by the scheduler on a simulated clock, with a
/// deadline 50 ms after the start: the waiter's wake arrives when its delay
/// has elapsed.
#[test]
fn timer_task_resolves_to_done_after_fifty_ms() {
    let ms: u64 = 1_000_000;
    let start: u64 = 7 * ms;
    let mut now = start;
    let mut timer = Timer::new(start + 50 * ms);
    let mut sched = Scheduler::new();
    let id = sched.spawn();
    let mut waiter: Option<u64> = None;
    let mut output = None;
    let mut polls = 0;
    loop {
        match sched.next_step() {
            Step::Poll(t) => {
                assert_eq!(t, id);
                polls += 1;
                match timer.poll(now) {
                    TimerPoll::Ready(m) => {
                        output = Some((m, now));
                        sched.complete_poll(TaskStatus::Ready);
                    }
                    TimerPoll::Arm(delay) => {
                        assert!(waiter.is_none());
                        waiter = Some(now + delay);
                        sched.complete_poll(TaskStatus::Pending);
                    }
                    TimerPoll::Pending => sched.complete_poll(TaskStatus::Pending),
                }
            }
            Step::Skip(_) => {}
            Step::Idle => {
                let due = waiter.take().expect("a waiter is armed");
                now = due;
                sched.wake(id);
            }
            Step::Finished => break,
        }
    }
    let (marker, at) = output.expect("the timer resolved");
    assert_eq!(marker, "done");
    assert!(at - start >= 50 * ms);
    assert_eq!(polls, 2);
}

#[test]
fn self_waking_tasks_finish_after_needed_polls() {
    let mut need = vec![3, 1, 2];
    let mut sched = Scheduler::new();
    for _ in 0..need.len() {
        sched.spawn();
    }
    let mut rounds = 0;
    let mut order = Vec::new();
    loop {
        rounds += 1;
        match sched.next_step() {
            Step::Poll(t) => {
                order.push(t);
                need[t] -= 1;
                if need[t] == 0 {
                    sched.complete_poll(TaskStatus::Ready);
                } else {
                    sched.wake(t);
                    sched.complete_poll(TaskStatus::Pending);
                }
            }
            Step::Skip(_) => {}
            Step::Idle => panic!("a self-waking task is always queued"),
            Step::Finished => break,
        }
    }
    assert_eq!(rounds, 3 + 1 + 2 + 1);
    assert_eq!(order, vec![0, 1, 2, 0, 2, 0]);
    for t in 0..3 {
        assert_eq!(sched.status(t), Some(TaskStatus::Ready));
    }
}
