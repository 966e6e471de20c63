use wasabi::executor::{sleep, yield_now, Executor, Polled, Sleep, Step, TaskId, TaskState, Wait, YieldNow};
use wasabi::hpet::Hpet;

/// A task of the tests: it prints its words one by one and yields after each.
struct Speaker {
    id: TaskId,
    words: Vec<&'static str>,
    next: usize,
    waiting: Option<YieldNow>,
}

impl Speaker {
    fn poll(&mut self, out: &mut Vec<&'static str>) -> Polled {
        loop {
            if let Some(y) = &mut self.waiting {
                match y.poll() {
                    Polled::Pending(w) => return Polled::Pending(w),
                    Polled::Ready(_) => self.waiting = None,
                }
            }
            if self.next == self.words.len() {
                return Polled::Ready(Ok(()));
            }
            out.push(self.words[self.next]);
            self.next += 1;
            self.waiting = Some(yield_now());
        }
    }
}

#[test]
fn cooperative_yields_interleave() {
    let mut executor = Executor::new();
    let mut tasks = vec![
        Speaker { id: executor.spawn().unwrap(), words: vec!["A", "B", "C"], next: 0, waiting: None },
        Speaker { id: executor.spawn().unwrap(), words: vec!["X", "Y", "Z"], next: 0, waiting: None },
    ];
    let mut out = Vec::new();
    let mut polls = 0;
    loop {
        match executor.poll_next(0) {
            Step::Poll(id) => {
                polls += 1;
                let task = tasks.iter_mut().find(|t| t.id == id).unwrap();
                let outcome = task.poll(&mut out);
                assert_eq!(executor.polled(outcome), None);
            }
            Step::Halt => panic!("no task sleeps"),
            Step::Idle => break,
        }
    }
    assert_eq!(out, vec!["A", "X", "B", "Y", "C", "Z"]);
    assert_eq!(polls, 8);
}

/// A task of the tests: it sleeps, and prints its word afterwards.
struct Napper {
    id: TaskId,
    word: &'static str,
    nap: Sleep,
}

/// Runs two tasks that sleep 1 s and 2 s, spawned in the given order, and returns what they print.
fn nap_and_print(spawn_two_first: bool) -> Vec<(&'static str, u64)> {
    let second = 1_000_000_000u64;
    let clock = Hpet::new(100_000_000, 0);
    let mut counter = 0u64;
    let mut executor = Executor::new();
    let mut tasks: Vec<Napper> = Vec::new();
    let mut plan = vec![("one", second), ("two", 2 * second)];
    if spawn_two_first {
        plan.reverse();
    }
    for (word, duration) in plan {
        tasks.push(Napper { id: executor.spawn().unwrap(), word, nap: sleep(duration) });
    }
    let mut out = Vec::new();
    loop {
        let now = clock.now_ns(counter);
        match executor.poll_next(now) {
            Step::Poll(id) => {
                let task = tasks.iter_mut().find(|t| t.id == id).unwrap();
                let outcome = task.nap.poll(now);
                if let Polled::Ready(_) = outcome {
                    out.push((task.word, now));
                }
                executor.polled(outcome);
            }
            Step::Halt => counter += 70_000,
            Step::Idle => break,
        }
    }
    out
}

#[test]
fn sleepers_print_in_the_order_of_their_deadlines_whichever_was_spawned_first() {
    for spawn_two_first in [false, true] {
        let out = nap_and_print(spawn_two_first);
        assert_eq!(out.iter().map(|(w, _)| *w).collect::<Vec<_>>(), vec!["one", "two"]);
        let gap = out[1].1 - out[0].1;
        assert!(gap >= 1_000_000_000 && gap <= 1_100_000_000);
    }
}

#[test]
fn sleep_ordering() {
    let second = 1_000_000_000u64;
    // a counter of 10 MHz: a period of 100 ns
    let clock = Hpet::new(100_000_000, 5000);
    let mut counter = 5000u64;
    let mut executor = Executor::new();
    // task 2 is spawned first: the order of the output is that of the deadlines
    let two = Napper { id: executor.spawn().unwrap(), word: "two", nap: sleep(2 * second) };
    let one = Napper { id: executor.spawn().unwrap(), word: "one", nap: sleep(second) };
    let mut tasks = vec![two, one];
    let mut out: Vec<(&'static str, u64)> = Vec::new();
    loop {
        let now = clock.now_ns(counter);
        match executor.poll_next(now) {
            Step::Poll(id) => {
                let task = tasks.iter_mut().find(|t| t.id == id).unwrap();
                let outcome = task.nap.poll(now);
                if let Polled::Ready(_) = outcome {
                    out.push((task.word, now));
                }
                executor.polled(outcome);
            }
            // the loop halts and asks again; meanwhile the counter runs on by 10 ms
            Step::Halt => counter += 100_000,
            Step::Idle => break,
        }
    }
    assert_eq!(out.iter().map(|(w, _)| *w).collect::<Vec<_>>(), vec!["one", "two"]);
    let gap = out[1].1 - out[0].1;
    assert!(gap >= second && gap <= second + second / 10);
    assert_eq!(out[0].1, second);
    assert_eq!(out[1].1, 2 * second);
}

#[test]
fn sleep_is_not_ready_before_its_time() {
    let mut nap = sleep(100);
    assert_eq!(nap.started, None);
    assert!(matches!(nap.poll(1000), Polled::Pending(Wait::Until(1100))));
    assert_eq!(nap.started, Some(1000));
    assert!(matches!(nap.poll(1050), Polled::Pending(Wait::Until(1100))));
    assert!(matches!(nap.poll(1099), Polled::Pending(Wait::Until(1100))));
    assert!(matches!(nap.poll(1100), Polled::Ready(Ok(()))));
    assert!(matches!(nap.poll(2000), Polled::Ready(Ok(()))));
    // a sleep of no time is ready at once
    assert!(matches!(sleep(0).poll(5), Polled::Ready(Ok(()))));
    // a deadline beyond the end of time is the end of time
    let mut long = sleep(u64::MAX);
    assert!(matches!(long.poll(10), Polled::Pending(Wait::Until(u64::MAX))));
    assert!(matches!(long.poll(u64::MAX), Polled::Ready(Ok(()))));
}

#[test]
fn yield_is_pending_once() {
    let mut y = yield_now();
    assert!(!y.polled);
    assert!(matches!(y.poll(), Polled::Pending(Wait::Turn)));
    assert!(y.polled);
    assert!(matches!(y.poll(), Polled::Ready(Ok(()))));
    assert!(matches!(y.poll(), Polled::Ready(Ok(()))));
}

#[test]
fn ready_queue_is_first_in_first_out() {
    let mut executor = Executor::new();
    let ids: Vec<TaskId> = (0..5).map(|_| executor.spawn().unwrap()).collect();
    assert_eq!(ids, vec![0, 1, 2, 3, 4]);
    assert_eq!(executor.ready_len(), 5);
    let mut order = Vec::new();
    for round in 0..10 {
        match executor.poll_next(0) {
            Step::Poll(id) => {
                assert!(executor.is_polling());
                assert_eq!(executor.state(id), TaskState::Ready);
                order.push(id);
                // every task is polled at least once: in its first round each yields
                let outcome = if round < 5 { Polled::Pending(Wait::Turn) } else { Polled::Ready(Ok(())) };
                executor.polled(outcome);
                assert!(!executor.is_polling());
            }
            _ => panic!("tasks are ready"),
        }
    }
    assert_eq!(order, vec![0, 1, 2, 3, 4, 0, 1, 2, 3, 4]);
    assert_eq!(executor.poll_next(0), Step::Idle);
    assert_eq!(executor.state(3), TaskState::Done);
    assert_eq!(executor.state(99), TaskState::Done);
}

#[test]
fn sleepers_wake_in_the_order_of_their_deadlines() {
    let mut executor = Executor::new();
    let deadlines = [300u64, 100, 200, 100, 50];
    for _ in 0..deadlines.len() {
        executor.spawn().unwrap();
    }
    for d in deadlines {
        match executor.poll_next(0) {
            Step::Poll(_) => {
                executor.polled(Polled::Pending(Wait::Until(d)));
            }
            _ => panic!("tasks are ready"),
        }
    }
    assert_eq!(executor.sleeping_len(), 5);
    assert_eq!(executor.ready_len(), 0);
    assert_eq!(executor.state(0), TaskState::Sleeping(300));
    assert_eq!(executor.state(4), TaskState::Sleeping(50));
    // nothing is due
    assert_eq!(executor.poll_next(49), Step::Halt);
    // at 100 three are due: by deadline, and among equal deadlines by the order of falling asleep
    assert_eq!(executor.poll_next(100), Step::Poll(4));
    assert_eq!(executor.ready_len(), 2);
    assert_eq!(executor.sleeping_len(), 2);
    executor.polled(Polled::Ready(Ok(())));
    assert_eq!(executor.poll_next(100), Step::Poll(1));
    executor.polled(Polled::Ready(Ok(())));
    assert_eq!(executor.poll_next(100), Step::Poll(3));
    executor.polled(Polled::Ready(Ok(())));
    assert_eq!(executor.poll_next(100), Step::Halt);
    assert_eq!(executor.poll_next(1000), Step::Poll(2));
    // a task that yields goes behind the sleeper that woke before
    executor.polled(Polled::Pending(Wait::Turn));
    assert_eq!(executor.poll_next(1000), Step::Poll(0));
    executor.polled(Polled::Ready(Ok(())));
    assert_eq!(executor.poll_next(1000), Step::Poll(2));
    executor.polled(Polled::Ready(Ok(())));
    assert_eq!(executor.poll_next(1000), Step::Idle);
}

#[test]
fn a_failed_task_is_dropped_and_its_message_logged() {
    let mut executor = Executor::new();
    let id = executor.spawn().unwrap();
    assert_eq!(executor.poll_next(0), Step::Poll(id));
    assert_eq!(executor.polled(Polled::Ready(Err("disk on fire"))), Some("disk on fire"));
    assert_eq!(executor.state(id), TaskState::Done);
    assert_eq!(executor.poll_next(0), Step::Idle);
    // an outcome while no task is being polled changes nothing
    assert_eq!(executor.polled(Polled::Ready(Err("late"))), None);
    assert_eq!(executor.polled(Polled::Pending(Wait::Turn)), None);
    assert_eq!(executor.poll_next(0), Step::Idle);
}

/// Runs two tasks that sleep 1 s and 2 s over the given readings of the clock,
/// one round for each, and returns the steps and the times at which the tasks print.
fn run_over(times: &[u64]) -> (Vec<Step>, Vec<(TaskId, u64)>) {
    let mut executor = Executor::new();
    let mut naps = vec![sleep(1_000_000_000), sleep(2_000_000_000)];
    executor.spawn().unwrap();
    executor.spawn().unwrap();
    let mut steps = Vec::new();
    let mut printed = Vec::new();
    for &now in times {
        let step = executor.poll_next(now);
        steps.push(step);
        if let Step::Poll(id) = step {
            let outcome = naps[id as usize].poll(now);
            if let Polled::Ready(_) = outcome {
                printed.push((id, now));
            }
            executor.polled(outcome);
        }
    }
    (steps, printed)
}

#[test]
fn sleepers_are_polled_at_the_first_reading_that_reached_their_deadline() {
    // readings 40 ms apart, the first two polls at 0 and at 40 ms
    let gap = 40_000_000u64;
    let times: Vec<u64> = (0..60).map(|i| i * gap).collect();
    let (steps, printed) = run_over(&times);
    // deadlines: 1 s and 2.04 s; the first readings that reached them are the 25th and the 51st
    assert_eq!(steps[0], Step::Poll(0));
    assert_eq!(steps[1], Step::Poll(1));
    for (i, step) in steps.iter().enumerate().skip(2) {
        let expected = match i {
            25 => Step::Poll(0),
            51 => Step::Poll(1),
            i if i < 51 => Step::Halt,
            _ => Step::Idle,
        };
        assert_eq!(*step, expected, "round {}", i);
    }
    assert_eq!(printed, vec![(0, 1_000_000_000), (1, 2_040_000_000)]);
    let apart = printed[1].1 - printed[0].1;
    assert!(1_000_000_000 - gap < apart && apart < 1_000_000_000 + 2 * gap);
}

#[test]
fn a_late_first_print_brings_the_two_prints_closer_than_a_second() {
    // the clock is read 50 ms after the first deadline, and at the second deadline exactly
    let times = [0u64, 0, 950_000_000, 1_050_000_000, 1_950_000_000, 2_000_000_000, 2_000_000_001];
    let (steps, printed) = run_over(&times);
    assert_eq!(
        steps,
        vec![Step::Poll(0), Step::Poll(1), Step::Halt, Step::Poll(0), Step::Halt, Step::Poll(1), Step::Idle]
    );
    assert_eq!(printed, vec![(0, 1_050_000_000), (1, 2_000_000_000)]);
    assert_eq!(printed[1].1 - printed[0].1, 950_000_000);
}
