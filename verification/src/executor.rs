//! The cooperative executor: which task to poll next, and where a task goes
//! after it was polled.
//!
//! The executor keeps the tasks by their numbers. Polling a task is the
//! caller's work: the caller asks for the next step, polls the task that the
//! step names, and hands back how the poll ended.

use vstd::prelude::*;
use std::collections::VecDeque;
use crate::hpet::{deadline_after, saturating_sum};

verus! {

/// The number of a task.
pub type TaskId = u64;

/// A task that waits for a time.
#[derive(Debug, Clone, Copy, PartialEq, Eq, Structural)]
pub struct Sleeper {
    pub deadline: u64,
    pub task: TaskId,
}

/// What a task that is not finished waits for.
#[derive(Debug, Clone, Copy, PartialEq, Eq, Structural)]
pub enum Wait {
    /// For its next turn: it yielded.
    Turn,
    /// For the time to reach this deadline.
    Until(u64),
}

/// How the poll of a task ended.
#[derive(Debug, Clone, Copy)]
pub enum Polled {
    /// The task is finished, with its result.
    Ready(Result<(), &'static str>),
    /// The task is not finished.
    Pending(Wait),
}

/// The state of a task.
#[derive(Debug, Clone, Copy, PartialEq, Eq, Structural)]
pub enum TaskState {
    Ready,
    Sleeping(u64),
    /// Finished, or never known.
    Done,
}

/// What the run loop does next.
#[derive(Debug, Clone, Copy, PartialEq, Eq, Structural)]
pub enum Step {
    /// Poll the task with this number.
    Poll(TaskId),
    /// No task is ready, some sleep: halt until the next interrupt, and ask again.
    Halt,
    /// No task is left: halt for good.
    Idle,
}

/// The mathematical state of the executor.
pub struct ExecutorModel {
    /// The tasks that are ready, the next to poll first.
    pub ready: Seq<TaskId>,
    /// The tasks that sleep, by deadline; among equal deadlines the one that fell asleep first comes first.
    pub sleeping: Seq<Sleeper>,
    /// The task that is being polled.
    pub polling: Option<TaskId>,
    /// The number of the next task.
    pub next_id: u64,
}

/// The first index from `from` on whose sleeper has a deadline after `time`; the length if there is none.
pub open spec fn first_later(sleeping: Seq<Sleeper>, time: u64, from: nat) -> nat
    decreases sleeping.len() - from,
{
    if from >= sleeping.len() || sleeping[from as int].deadline > time {
        from
    } else {
        first_later(sleeping, time, from + 1)
    }
}

/// The tasks of sleepers.
pub open spec fn tasks_of(sleepers: Seq<Sleeper>) -> Seq<TaskId> {
    sleepers.map_values(|s: Sleeper| s.task)
}

impl ExecutorModel {
    /// An executor without tasks.
    pub open spec fn empty() -> ExecutorModel {
        ExecutorModel { ready: Seq::empty(), sleeping: Seq::empty(), polling: None, next_id: 0 }
    }

    /// The invariant: the sleepers are in the order of their deadlines, and
    /// every task is in exactly one place: ready, asleep, or being polled.
    pub open spec fn wf(self) -> bool {
        &&& forall|i: int, j: int|
            0 <= i < j < self.sleeping.len() ==> (#[trigger] self.sleeping[i]).deadline
                <= (#[trigger] self.sleeping[j]).deadline
        &&& forall|i: int, j: int|
            0 <= i < j < self.ready.len() ==> (#[trigger] self.ready[i]) != (#[trigger] self.ready[j])
        &&& forall|i: int, j: int|
            0 <= i < j < self.sleeping.len() ==> (#[trigger] self.sleeping[i]).task
                != (#[trigger] self.sleeping[j]).task
        &&& forall|i: int, j: int|
            0 <= i < self.ready.len() && 0 <= j < self.sleeping.len() ==> (#[trigger] self.ready[i])
                != (#[trigger] self.sleeping[j]).task
        &&& forall|i: int| 0 <= i < self.ready.len() ==> Some(#[trigger] self.ready[i]) != self.polling
        &&& forall|j: int|
            0 <= j < self.sleeping.len() ==> Some((#[trigger] self.sleeping[j]).task) != self.polling
        &&& forall|i: int| 0 <= i < self.ready.len() ==> (#[trigger] self.ready[i]) < self.next_id
        &&& forall|j: int| 0 <= j < self.sleeping.len() ==> (#[trigger] self.sleeping[j]).task < self.next_id
        &&& self.polling matches Some(p) ==> p < self.next_id
    }

    /// The state of a task.
    pub open spec fn state_of(self, task: TaskId) -> TaskState {
        if self.polling == Some(task) || self.ready.contains(task) {
            TaskState::Ready
        } else if exists|j: int| 0 <= j < self.sleeping.len() && (#[trigger] self.sleeping[j]).task == task {
            let j = choose|j: int| 0 <= j < self.sleeping.len() && (#[trigger] self.sleeping[j]).task == task;
            TaskState::Sleeping(self.sleeping[j].deadline)
        } else {
            TaskState::Done
        }
    }

    /// A new task: it gets the next number and goes to the end of the ready
    /// queue. No task is made once the numbers are used up.
    pub open spec fn spawn(self) -> (Option<TaskId>, ExecutorModel) {
        if self.next_id == u64::MAX {
            (None, self)
        } else {
            (
                Some(self.next_id),
                ExecutorModel {
                    ready: self.ready.push(self.next_id),
                    sleeping: self.sleeping,
                    polling: self.polling,
                    next_id: (self.next_id + 1) as u64,
                },
            )
        }
    }

    /// The sleepers whose deadline has come go to the end of the ready queue, in their order.
    pub open spec fn wake(self, now: u64) -> ExecutorModel {
        let due = first_later(self.sleeping, now, 0) as int;
        ExecutorModel {
            ready: self.ready + tasks_of(self.sleeping.subrange(0, due)),
            sleeping: self.sleeping.subrange(due, self.sleeping.len() as int),
            polling: self.polling,
            next_id: self.next_id,
        }
    }

    /// The next step at time `now`: the sleepers that are due are woken; the
    /// first ready task, if there is one, is to be polled; else the loop halts,
    /// for good if no task sleeps.
    pub open spec fn poll_next(self, now: u64) -> (Step, ExecutorModel) {
        let woken = self.wake(now);
        if woken.ready.len() > 0 {
            (
                Step::Poll(woken.ready[0]),
                ExecutorModel {
                    ready: woken.ready.drop_first(),
                    sleeping: woken.sleeping,
                    polling: Some(woken.ready[0]),
                    next_id: woken.next_id,
                },
            )
        } else if woken.sleeping.len() > 0 {
            (Step::Halt, woken)
        } else {
            (Step::Idle, woken)
        }
    }

    /// The executor after the task that was being polled has been polled: a
    /// finished task is dropped; one that yielded goes to the end of the ready
    /// queue; one that sleeps goes among the sleepers, behind those whose
    /// deadline is not later than its own.
    pub open spec fn polled(self, outcome: Polled) -> ExecutorModel {
        match (self.polling, outcome) {
            (Some(task), Polled::Pending(Wait::Turn)) => ExecutorModel {
                ready: self.ready.push(task),
                sleeping: self.sleeping,
                polling: None,
                next_id: self.next_id,
            },
            (Some(task), Polled::Pending(Wait::Until(deadline))) => ExecutorModel {
                ready: self.ready,
                sleeping: self.sleeping.insert(
                    first_later(self.sleeping, deadline, 0) as int,
                    Sleeper { deadline, task },
                ),
                polling: None,
                next_id: self.next_id,
            },
            _ => ExecutorModel {
                ready: self.ready,
                sleeping: self.sleeping,
                polling: None,
                next_id: self.next_id,
            },
        }
    }

    /// One round of the run loop at time `now`: the next step, and if it polls a task, the poll's outcome.
    pub open spec fn round(self, now: u64, outcome: Polled) -> ExecutorModel {
        let next = self.poll_next(now);
        if next.0 is Poll {
            next.1.polled(outcome)
        } else {
            next.1
        }
    }

    /// The executor after one round for each of the given times and outcomes.
    pub open spec fn rounds(self, times: Seq<u64>, outcomes: Seq<Polled>) -> ExecutorModel
        decreases times.len(),
    {
        if times.len() == 0 {
            self
        } else {
            self.round(times[0], outcomes[0]).rounds(times.drop_first(), outcomes.drop_first())
        }
    }
}

/// What `first_later` finds: an index in range such that every sleeper from
/// `from` up to it has a deadline not after `time`, and the sleeper at it, if there is one, a later one.
pub proof fn lemma_first_later(sleeping: Seq<Sleeper>, time: u64, from: nat)
    requires
        from <= sleeping.len(),
    ensures
        from <= first_later(sleeping, time, from) <= sleeping.len(),
        forall|i: int| from <= i < first_later(sleeping, time, from) ==> (#[trigger] sleeping[i]).deadline <= time,
        first_later(sleeping, time, from) < sleeping.len() ==> sleeping[first_later(
            sleeping,
            time,
            from,
        ) as int].deadline > time,
    decreases sleeping.len() - from,
{
    if from < sleeping.len() && sleeping[from as int].deadline <= time {
        lemma_first_later(sleeping, time, from + 1);
    }
}

impl ExecutorModel {
    /// Waking keeps the invariant.
    pub proof fn lemma_wake(self, now: u64)
        requires
            self.wf(),
        ensures
            self.wake(now).wf(),
            self.wake(now).polling == self.polling,
            self.wake(now).ready.len() >= self.ready.len(),
            forall|i: int| 0 <= i < self.ready.len() ==> self.wake(now).ready[i] == #[trigger] self.ready[i],
    {
        let due = first_later(self.sleeping, now, 0) as int;
        lemma_first_later(self.sleeping, now, 0);
        let woken = self.wake(now);
        let n = self.ready.len() as int;
        assert forall|i: int| 0 <= i < woken.ready.len() implies #[trigger] woken.ready[i] == (if i < n {
            self.ready[i]
        } else {
            self.sleeping[i - n].task
        }) by {}
        assert forall|j: int| 0 <= j < woken.sleeping.len() implies #[trigger] woken.sleeping[j]
            == self.sleeping[j + due] by {}
        assert forall|i: int, j: int| 0 <= i < j < woken.ready.len() implies (#[trigger] woken.ready[i]) != (
        #[trigger] woken.ready[j]) by {
            if i < n && j >= n {
                assert(self.ready[i] != self.sleeping[j - n].task);
            } else if i >= n {
                assert(self.sleeping[i - n].task != self.sleeping[j - n].task);
            }
        }
        assert forall|i: int, j: int|
            0 <= i < woken.ready.len() && 0 <= j < woken.sleeping.len() implies (#[trigger] woken.ready[i]) != (
        #[trigger] woken.sleeping[j]).task by {
            if i < n {
                assert(self.ready[i] != self.sleeping[j + due].task);
            } else {
                assert(self.sleeping[i - n].task != self.sleeping[j + due].task);
            }
        }
        assert forall|i: int| 0 <= i < woken.ready.len() implies Some(#[trigger] woken.ready[i])
            != woken.polling && woken.ready[i] < woken.next_id by {
            if i >= n {
                assert(Some(self.sleeping[i - n].task) != self.polling);
            }
        }
    }

    /// Spawning keeps the invariant.
    pub proof fn lemma_spawn(self)
        requires
            self.wf(),
        ensures
            self.spawn().1.wf(),
    {
        let after = self.spawn().1;
        if self.next_id < u64::MAX {
            let n = self.ready.len() as int;
            assert forall|i: int, j: int| 0 <= i < j < after.ready.len() implies (#[trigger] after.ready[i])
                != (#[trigger] after.ready[j]) by {
                if j == n {
                    assert(self.ready[i] < self.next_id);
                }
            }
        }
    }

    /// Asking for the next step keeps the invariant. A task that is to be
    /// polled is the one that is being polled afterwards, and it is neither
    /// ready nor asleep.
    pub proof fn lemma_poll_next(self, now: u64)
        requires
            self.wf(),
            self.polling is None,
        ensures
            self.poll_next(now).1.wf(),
            match self.poll_next(now).0 {
                Step::Poll(task) => {
                    &&& self.poll_next(now).1.polling == Some(task)
                    &&& !self.poll_next(now).1.ready.contains(task)
                    &&& forall|j: int|
                        0 <= j < self.poll_next(now).1.sleeping.len() ==> (#[trigger] self.poll_next(
                            now,
                        ).1.sleeping[j]).task != task
                },
                _ => self.poll_next(now).1.polling is None && self.poll_next(now).1.ready.len() == 0,
            },
    {
        self.lemma_wake(now);
        let woken = self.wake(now);
        let after = self.poll_next(now).1;
        if woken.ready.len() > 0 {
            assert forall|i: int| 0 <= i < after.ready.len() implies #[trigger] after.ready[i]
                == woken.ready[i + 1] by {}
            assert forall|i: int, j: int| 0 <= i < j < after.ready.len() implies (#[trigger] after.ready[i])
                != (#[trigger] after.ready[j]) by {
                assert(woken.ready[i + 1] != woken.ready[j + 1]);
            }
            assert forall|i: int| 0 <= i < after.ready.len() implies Some(#[trigger] after.ready[i])
                != after.polling && after.ready[i] < after.next_id by {
                assert(woken.ready[0] != woken.ready[i + 1]);
            }
            assert forall|i: int, j: int|
                0 <= i < after.ready.len() && 0 <= j < after.sleeping.len() implies (
            #[trigger] after.ready[i]) != (#[trigger] after.sleeping[j]).task by {
                assert(woken.ready[i + 1] != woken.sleeping[j].task);
            }
            assert forall|j: int| 0 <= j < after.sleeping.len() implies Some(
                (#[trigger] after.sleeping[j]).task,
            ) != after.polling by {
                assert(woken.ready[0] != woken.sleeping[j].task);
            }
            assert(woken.ready[0] < woken.next_id);
        }
    }

    /// Handing back the outcome of a poll keeps the invariant, and no task is being polled afterwards.
    pub proof fn lemma_polled(self, outcome: Polled)
        requires
            self.wf(),
        ensures
            self.polled(outcome).wf(),
            self.polled(outcome).polling is None,
            self.polled(outcome).ready.len() >= self.ready.len(),
            forall|i: int| 0 <= i < self.ready.len() ==> self.polled(outcome).ready[i] == #[trigger] self.ready[i],
    {
        let after = self.polled(outcome);
        match (self.polling, outcome) {
            (Some(task), Polled::Pending(Wait::Turn)) => {
                let n = self.ready.len() as int;
                assert forall|i: int, j: int| 0 <= i < j < after.ready.len() implies (
                #[trigger] after.ready[i]) != (#[trigger] after.ready[j]) by {
                    if j == n {
                        assert(Some(self.ready[i]) != self.polling);
                    }
                }
                assert forall|i: int, j: int|
                    0 <= i < after.ready.len() && 0 <= j < after.sleeping.len() implies (
                #[trigger] after.ready[i]) != (#[trigger] after.sleeping[j]).task by {
                    if i == n {
                        assert(Some(self.sleeping[j].task) != self.polling);
                    }
                }
            },
            (Some(task), Polled::Pending(Wait::Until(deadline))) => {
                let pos = first_later(self.sleeping, deadline, 0) as int;
                lemma_first_later(self.sleeping, deadline, 0);
                assert forall|j: int| 0 <= j < after.sleeping.len() implies #[trigger] after.sleeping[j] == (
                if j < pos {
                    self.sleeping[j]
                } else if j == pos {
                    Sleeper { deadline, task }
                } else {
                    self.sleeping[j - 1]
                }) by {}
                assert forall|i: int, j: int| 0 <= i < j < after.sleeping.len() implies (
                #[trigger] after.sleeping[i]).deadline <= (#[trigger] after.sleeping[j]).deadline by {
                    if i < pos && j > pos {
                        assert(self.sleeping[i].deadline <= self.sleeping[j - 1].deadline);
                    } else if i == pos {
                        assert(self.sleeping[pos].deadline <= self.sleeping[j - 1].deadline);
                    } else if i > pos {
                        assert(self.sleeping[i - 1].deadline <= self.sleeping[j - 1].deadline);
                    }
                }
                assert forall|i: int, j: int| 0 <= i < j < after.sleeping.len() implies (
                #[trigger] after.sleeping[i]).task != (#[trigger] after.sleeping[j]).task by {
                    let ii = if i < pos { i } else { i - 1 };
                    let jj = if j < pos { j } else { j - 1 };
                    if i != pos && j != pos {
                        assert(self.sleeping[ii].task != self.sleeping[jj].task);
                    } else if i == pos {
                        assert(Some(self.sleeping[jj].task) != self.polling);
                    } else {
                        assert(Some(self.sleeping[ii].task) != self.polling);
                    }
                }
                assert forall|i: int, j: int|
                    0 <= i < after.ready.len() && 0 <= j < after.sleeping.len() implies (
                #[trigger] after.ready[i]) != (#[trigger] after.sleeping[j]).task by {
                    let jj = if j < pos { j } else { j - 1 };
                    if j != pos {
                        assert(self.ready[i] != self.sleeping[jj].task);
                    } else {
                        assert(Some(self.ready[i]) != self.polling);
                    }
                }
                assert forall|j: int| 0 <= j < after.sleeping.len() implies (#[trigger] after.sleeping[j]).task
                    < after.next_id by {
                    let jj = if j < pos { j } else { j - 1 };
                    if j != pos {
                        assert(self.sleeping[jj].task < self.next_id);
                    }
                }
            },
            _ => {},
        }
    }

    /// The ready queue is first in, first out: a task that is ready behind `k`
    /// others, while no task is being polled, is the task that the poll after
    /// `k` more rounds of the loop takes, whatever the times and the outcomes
    /// of those rounds are.
    pub proof fn lemma_ready_task_is_polled(
        self,
        task: TaskId,
        k: nat,
        times: Seq<u64>,
        outcomes: Seq<Polled>,
        now: u64,
    )
        requires
            self.wf(),
            self.polling is None,
            k < self.ready.len(),
            self.ready[k as int] == task,
            times.len() == k,
            outcomes.len() == k,
        ensures
            self.rounds(times, outcomes).poll_next(now).0 == Step::Poll(task),
        decreases k,
    {
        if k == 0 {
            self.lemma_wake(now);
        } else {
            self.lemma_wake(times[0]);
            self.lemma_poll_next(times[0]);
            let next = self.poll_next(times[0]);
            next.1.lemma_polled(outcomes[0]);
            let after = self.round(times[0], outcomes[0]);
            assert(next.1.ready[k - 1] == task);
            after.lemma_ready_task_is_polled(
                task,
                (k - 1) as nat,
                times.drop_first(),
                outcomes.drop_first(),
                now,
            );
        }
    }
}

impl ExecutorModel {
    /// Every task is polled: a task that is spawned while no task is being
    /// polled is the task that the poll takes after one round of the loop for
    /// each task that was ready before it, whatever the times and the outcomes
    /// of those rounds are.
    pub proof fn lemma_spawned_task_is_polled(self, times: Seq<u64>, outcomes: Seq<Polled>, now: u64)
        requires
            self.wf(),
            self.polling is None,
            self.spawn().0 is Some,
            times.len() == self.ready.len(),
            outcomes.len() == self.ready.len(),
        ensures
            self.spawn().1.rounds(times, outcomes).poll_next(now).0 == Step::Poll(self.spawn().0->0),
    {
        self.lemma_spawn();
        self.spawn().1.lemma_ready_task_is_polled(self.spawn().0->0, self.ready.len(), times, outcomes, now);
    }
}

impl ExecutorModel {
    /// The tasks that wait, in the order in which they get their turn if none
    /// of them is put back: the ready tasks, and behind them the sleepers.
    pub open spec fn order(self) -> Seq<TaskId> {
        self.ready + tasks_of(self.sleeping)
    }

    /// Whether task `a` waits before task `b`.
    pub open spec fn precedes(self, a: TaskId, b: TaskId) -> bool {
        exists|i: int, j: int|
            #![trigger self.order()[i], self.order()[j]]
            0 <= i < j < self.order().len() && self.order()[i] == a && self.order()[j] == b
    }

    /// The step of each round of the loop, for the given times and outcomes.
    pub open spec fn steps(self, times: Seq<u64>, outcomes: Seq<Polled>) -> Seq<Step>
        decreases times.len(),
    {
        if times.len() == 0 {
            Seq::empty()
        } else {
            seq![self.poll_next(times[0]).0] + self.round(times[0], outcomes[0]).steps(
                times.drop_first(),
                outcomes.drop_first(),
            )
        }
    }

    /// No task waits twice.
    proof fn lemma_order_distinct(self)
        requires
            self.wf(),
        ensures
            forall|i: int, j: int|
                0 <= i < j < self.order().len() ==> #[trigger] self.order()[i] != #[trigger] self.order()[j],
            forall|i: int| 0 <= i < self.order().len() ==> Some(#[trigger] self.order()[i]) != self.polling,
    {
        let n = self.ready.len() as int;
        assert forall|i: int| 0 <= i < self.order().len() implies #[trigger] self.order()[i] == (if i < n {
            self.ready[i]
        } else {
            self.sleeping[i - n].task
        }) by {}
        assert forall|i: int, j: int| 0 <= i < j < self.order().len() implies #[trigger] self.order()[i]
            != #[trigger] self.order()[j] by {
            if j < n {
                assert(self.ready[i] != self.ready[j]);
            } else if i < n {
                assert(self.ready[i] != self.sleeping[j - n].task);
            } else {
                assert(self.sleeping[i - n].task != self.sleeping[j - n].task);
            }
        }
        assert forall|i: int| 0 <= i < self.order().len() implies Some(#[trigger] self.order()[i])
            != self.polling by {
            if i < n {
                assert(Some(self.ready[i]) != self.polling);
            } else {
                assert(Some(self.sleeping[i - n].task) != self.polling);
            }
        }
    }

    /// A sleeper with an earlier deadline waits before one with a later deadline.
    pub proof fn lemma_earlier_deadline_precedes(self, i: int, j: int)
        requires
            self.wf(),
            0 <= i < self.sleeping.len(),
            0 <= j < self.sleeping.len(),
            self.sleeping[i].deadline < self.sleeping[j].deadline,
        ensures
            i < j,
            self.precedes(self.sleeping[i].task, self.sleeping[j].task),
    {
        if j < i {
            assert(self.sleeping[j].deadline <= self.sleeping[i].deadline);
        }
        let n = self.ready.len() as int;
        assert(self.order()[n + i] == self.sleeping[i].task);
        assert(self.order()[n + j] == self.sleeping[j].task);
    }

    /// A round of the loop polls the task that waits first, if its time has
    /// come, and keeps the others in their order. So where `a` waits before
    /// `b`, the round does not poll `b`; and unless it polls `a`, `a` still
    /// waits before `b` after the round, whatever the outcome of the poll.
    pub proof fn lemma_round_keeps_order(self, a: TaskId, b: TaskId, now: u64, outcome: Polled)
        requires
            self.wf(),
            self.polling is None,
            self.precedes(a, b),
        ensures
            self.poll_next(now).0 != Step::Poll(b),
            self.round(now, outcome).wf(),
            self.round(now, outcome).polling is None,
            self.poll_next(now).0 != Step::Poll(a) ==> self.round(now, outcome).precedes(a, b),
    {
        self.lemma_wake(now);
        self.lemma_poll_next(now);
        self.lemma_order_distinct();
        lemma_first_later(self.sleeping, now, 0);
        let woken = self.wake(now);
        let next = self.poll_next(now);
        next.1.lemma_polled(outcome);
        let after = self.round(now, outcome);
        let (i, j) = choose|i: int, j: int|
            #![trigger self.order()[i], self.order()[j]]
            0 <= i < j < self.order().len() && self.order()[i] == a && self.order()[j] == b;
        // waking moves no task past another
        assert(woken.order() =~= self.order()) by {
            let due = first_later(self.sleeping, now, 0) as int;
            let n = self.ready.len() as int;
            assert forall|k: int| 0 <= k < self.order().len() implies woken.order()[k] == self.order()[k] by {
                if k < n {
                } else if k < n + due {
                    assert(woken.ready[k] == self.sleeping.subrange(0, due)[k - n].task);
                } else {
                    assert(woken.sleeping[k - n - due] == self.sleeping[k - n]);
                }
            }
        }
        if woken.ready.len() > 0 {
            let c = woken.ready[0];
            assert(c == self.order()[0]);
            assert(next.1.order() =~= self.order().drop_first());
            assert(b != c) by {
                if j > 0 {
                    assert(self.order()[0] != self.order()[j]);
                }
            }
            if c != a {
                assert(i > 0);
                let before = next.1;
                let p = before.order();
                assert(p[i - 1] == a && p[j - 1] == b);
                let m = before.ready.len() as int;
                match outcome {
                    Polled::Pending(Wait::Turn) => {
                        let q = after.order();
                        assert forall|k: int| 0 <= k < p.len() implies q[if k < m { k } else { k + 1 }] == p[k] by {
                            if k >= m {
                                assert(q[k + 1] == after.sleeping[k - m].task);
                            }
                        }
                        let ii = if i - 1 < m { i - 1 } else { i };
                        let jj = if j - 1 < m { j - 1 } else { j };
                        assert(q[ii] == a && q[jj] == b && ii < jj);
                    },
                    Polled::Pending(Wait::Until(deadline)) => {
                        let q = after.order();
                        let pos = first_later(before.sleeping, deadline, 0) as int;
                        lemma_first_later(before.sleeping, deadline, 0);
                        assert forall|k: int| 0 <= k < p.len() implies q[if k < m + pos { k } else { k + 1 }]
                            == p[k] by {
                            if k < m {
                            } else if k < m + pos {
                                assert(after.sleeping[k - m] == before.sleeping[k - m]);
                            } else {
                                assert(after.sleeping[k + 1 - m] == before.sleeping[k - m]);
                            }
                        }
                        let ii = if i - 1 < m + pos { i - 1 } else { i };
                        let jj = if j - 1 < m + pos { j - 1 } else { j };
                        assert(q[ii] == a && q[jj] == b && ii < jj);
                    },
                    Polled::Ready(_) => {
                        assert(after.order() =~= p);
                        assert(after.order()[i - 1] == a && after.order()[j - 1] == b);
                    },
                }
            }
        } else {
            assert(after.order() =~= self.order());
            assert(after.order()[i] == a && after.order()[j] == b);
        }
    }

    /// Tasks are polled in the order in which they wait: where `a` waits
    /// before `b` while no task is being polled, every run of the loop, whatever
    /// its times and the outcomes of its polls, polls `a` before it polls `b`.
    /// So of two tasks that sleep, the one with the earlier deadline prints first.
    pub proof fn lemma_polled_in_order(
        self,
        a: TaskId,
        b: TaskId,
        times: Seq<u64>,
        outcomes: Seq<Polled>,
        k: int,
    )
        requires
            self.wf(),
            self.polling is None,
            self.precedes(a, b),
            times.len() == outcomes.len(),
            0 <= k < times.len(),
            self.steps(times, outcomes)[k] == Step::Poll(b),
        ensures
            exists|i: int| 0 <= i < k && #[trigger] self.steps(times, outcomes)[i] == Step::Poll(a),
        decreases times.len(),
    {
        let all = self.steps(times, outcomes);
        let rest = self.round(times[0], outcomes[0]).steps(times.drop_first(), outcomes.drop_first());
        self.lemma_round_keeps_order(a, b, times[0], outcomes[0]);
        self.lemma_steps_len(times, outcomes);
        self.round(times[0], outcomes[0]).lemma_steps_len(times.drop_first(), outcomes.drop_first());
        assert(all[0] == self.poll_next(times[0]).0);
        assert(forall|n: int| 1 <= n < all.len() ==> all[n] == rest[n - 1]);
        if all[0] == Step::Poll(a) {
            assert(k != 0);
        } else {
            assert(k >= 1);
            self.round(times[0], outcomes[0]).lemma_polled_in_order(
                a,
                b,
                times.drop_first(),
                outcomes.drop_first(),
                k - 1,
            );
            let i = choose|i: int| 0 <= i < k - 1 && #[trigger] rest[i] == Step::Poll(a);
            assert(all[i + 1] == Step::Poll(a));
        }
    }

    /// A run has one step for each of its times.
    proof fn lemma_steps_len(self, times: Seq<u64>, outcomes: Seq<Polled>)
        ensures
            self.steps(times, outcomes).len() == times.len(),
        decreases times.len(),
    {
        if times.len() > 0 {
            self.round(times[0], outcomes[0]).lemma_steps_len(times.drop_first(), outcomes.drop_first());
        }
    }
}

/// Whether the clock was read in order, each reading at most `gap` after the one before.
pub open spec fn read_within(times: Seq<u64>, gap: u64) -> bool {
    forall|i: int| 0 <= i && i + 1 < times.len() ==> times[i] <= #[trigger] times[i + 1] <= times[i] + gap
}

impl ExecutorModel {
    /// While nothing but sleepers is left, a round before the first deadline halts and changes nothing.
    proof fn lemma_round_before_deadline(self, now: u64, outcome: Polled)
        requires
            self.polling is None,
            self.ready.len() == 0,
            self.sleeping.len() > 0,
            now < self.sleeping[0].deadline,
        ensures
            self.poll_next(now).0 == Step::Halt,
            self.round(now, outcome) == self,
    {
        assert(first_later(self.sleeping, now, 0) == 0);
        let woken = self.wake(now);
        assert(woken.ready =~= self.ready);
        assert(woken.sleeping =~= self.sleeping);
    }

    /// The loop waits for the first sleeper and no longer: while no task is
    /// ready, every round before the first sleeper's deadline halts, and the
    /// first round whose time has reached that deadline polls that sleeper.
    pub proof fn lemma_first_sleeper_polled_when_due(self, times: Seq<u64>, outcomes: Seq<Polled>, k: int)
        requires
            self.polling is None,
            self.ready.len() == 0,
            self.sleeping.len() > 0,
            times.len() == outcomes.len(),
            0 <= k < times.len(),
            forall|i: int| 0 <= i < k ==> times[i] < self.sleeping[0].deadline,
            times[k] >= self.sleeping[0].deadline,
        ensures
            self.steps(times, outcomes).len() == times.len(),
            forall|i: int| 0 <= i < k ==> self.steps(times, outcomes)[i] == Step::Halt,
            self.steps(times, outcomes)[k] == Step::Poll(self.sleeping[0].task),
        decreases times.len(),
    {
        let all = self.steps(times, outcomes);
        let rest = self.round(times[0], outcomes[0]).steps(times.drop_first(), outcomes.drop_first());
        self.lemma_steps_len(times, outcomes);
        self.round(times[0], outcomes[0]).lemma_steps_len(times.drop_first(), outcomes.drop_first());
        assert(all[0] == self.poll_next(times[0]).0);
        assert(forall|n: int| 1 <= n < all.len() ==> all[n] == rest[n - 1]);
        if k == 0 {
            lemma_first_later(self.sleeping, times[0], 0);
            assert(first_later(self.sleeping, times[0], 0) >= 1);
            assert(self.wake(times[0]).ready[0] == self.sleeping[0].task);
        } else {
            self.lemma_round_before_deadline(times[0], outcomes[0]);
            assert forall|i: int| 0 <= i < k - 1 implies times.drop_first()[i] < self.sleeping[0].deadline by {
                assert(times.drop_first()[i] == times[i + 1]);
            }
            self.lemma_first_sleeper_polled_when_due(times.drop_first(), outcomes.drop_first(), k - 1);
        }
    }

    /// The steps of a run with two sleepers and nothing else, where the first
    /// is finished by its poll: the loop halts but for the two polls, each at
    /// the first round whose time has reached the sleeper's deadline.
    proof fn lemma_two_sleepers_steps(self, times: Seq<u64>, outcomes: Seq<Polled>, first: int, second: int)
        requires
            self.wf(),
            self.polling is None,
            self.ready.len() == 0,
            self.sleeping.len() == 2,
            times.len() == outcomes.len(),
            0 <= first < second < times.len(),
            forall|i: int| 0 <= i < first ==> times[i] < self.sleeping[0].deadline,
            self.sleeping[0].deadline <= times[first] < self.sleeping[1].deadline,
            forall|i: int| first < i < second ==> times[i] < self.sleeping[1].deadline,
            times[second] >= self.sleeping[1].deadline,
            outcomes[first] is Ready,
        ensures
            self.steps(times, outcomes).len() == times.len(),
            self.steps(times, outcomes)[first] == Step::Poll(self.sleeping[0].task),
            self.steps(times, outcomes)[second] == Step::Poll(self.sleeping[1].task),
            forall|i: int| 0 <= i < second && i != first ==> self.steps(times, outcomes)[i] == Step::Halt,
        decreases times.len(),
    {
        let all = self.steps(times, outcomes);
        let next = self.round(times[0], outcomes[0]);
        let rest = next.steps(times.drop_first(), outcomes.drop_first());
        self.lemma_steps_len(times, outcomes);
        next.lemma_steps_len(times.drop_first(), outcomes.drop_first());
        assert(all[0] == self.poll_next(times[0]).0);
        assert(forall|n: int| 1 <= n < all.len() ==> all[n] == rest[n - 1]);
        assert(forall|i: int| 0 <= i < times.len() - 1 ==> times.drop_first()[i] == times[i + 1]);
        if first == 0 {
            lemma_first_later(self.sleeping, times[0], 0);
            lemma_first_later(self.sleeping, times[0], 1);
            assert(first_later(self.sleeping, times[0], 0) == 1);
            let woken = self.wake(times[0]);
            assert(woken.ready =~= seq![self.sleeping[0].task]);
            assert(woken.sleeping =~= seq![self.sleeping[1]]);
            assert(next.ready =~= Seq::<TaskId>::empty());
            assert(next.sleeping == woken.sleeping);
            next.lemma_first_sleeper_polled_when_due(times.drop_first(), outcomes.drop_first(), second - 1);
        } else {
            self.lemma_round_before_deadline(times[0], outcomes[0]);
            self.lemma_two_sleepers_steps(times.drop_first(), outcomes.drop_first(), first - 1, second - 1);
        }
    }

    /// Two tasks that sleep print as far apart as their deadlines are, give or
    /// take the time between two readings of the clock.
    ///
    /// Two tasks sleep and nothing else waits; the first is finished by the
    /// poll that wakes it. The clock is read in order and at most `gap` apart,
    /// first before the earlier deadline; the deadlines are at least `gap`
    /// apart. Round `first` is the first at which the clock has reached the
    /// earlier deadline, round `second` the first at which it has reached the
    /// later one. Then these two rounds poll the two tasks, the loop halts in
    /// every other round till then, and each task is polled less than `gap`
    /// after its deadline: so the two polls are more than the distance of the
    /// deadlines less `gap` apart, and less than that distance and `gap`.
    pub proof fn lemma_sleepers_polled_apart(
        self,
        times: Seq<u64>,
        outcomes: Seq<Polled>,
        gap: u64,
        first: int,
        second: int,
    )
        requires
            self.wf(),
            self.polling is None,
            self.ready.len() == 0,
            self.sleeping.len() == 2,
            self.sleeping[0].deadline + gap <= self.sleeping[1].deadline,
            times.len() == outcomes.len(),
            read_within(times, gap),
            0 < first < times.len(),
            0 < second < times.len(),
            times[first - 1] < self.sleeping[0].deadline <= times[first],
            times[second - 1] < self.sleeping[1].deadline <= times[second],
            outcomes[first] is Ready,
        ensures
            first < second,
            self.steps(times, outcomes).len() == times.len(),
            self.steps(times, outcomes)[first] == Step::Poll(self.sleeping[0].task),
            self.steps(times, outcomes)[second] == Step::Poll(self.sleeping[1].task),
            forall|i: int| 0 <= i < second && i != first ==> self.steps(times, outcomes)[i] == Step::Halt,
            self.sleeping[0].deadline <= times[first] < self.sleeping[0].deadline + gap,
            self.sleeping[1].deadline <= times[second] < self.sleeping[1].deadline + gap,
            self.sleeping[1].deadline - self.sleeping[0].deadline - gap < times[second] - times[first]
                < self.sleeping[1].deadline - self.sleeping[0].deadline + gap,
    {
        lemma_read_in_order(times, gap, 0, first - 1);
        assert(times[(first - 1) + 1] <= times[first - 1] + gap);
        assert(times[(second - 1) + 1] <= times[second - 1] + gap);
        if second <= first {
            lemma_read_in_order(times, gap, second, first);
        }
        assert forall|i: int| 0 <= i < first implies times[i] < self.sleeping[0].deadline by {
            lemma_read_in_order(times, gap, i, first - 1);
        }
        assert forall|i: int| first < i < second implies times[i] < self.sleeping[1].deadline by {
            lemma_read_in_order(times, gap, i, second - 1);
        }
        self.lemma_two_sleepers_steps(times, outcomes, first, second);
    }
}

/// Readings of the clock that are in order one by one are in order all along.
pub proof fn lemma_read_in_order(times: Seq<u64>, gap: u64, i: int, j: int)
    requires
        read_within(times, gap),
        0 <= i <= j < times.len(),
    ensures
        times[i] <= times[j],
    decreases j - i,
{
    if i < j {
        lemma_read_in_order(times, gap, i, j - 1);
        assert(times[j - 1] <= times[(j - 1) + 1]);
    }
}

/// The executor with two tasks, both new: the first has the number 0, the second the number 1.
pub open spec fn two_tasks() -> ExecutorModel {
    ExecutorModel::empty().spawn().1.spawn().1
}

/// What the first poll of a task that sleeps for `duration` hands back at time `now`, if that is not ready at once.
pub open spec fn falls_asleep(duration: u64, now: u64) -> Polled {
    Polled::Pending(Wait::Until((Sleep { duration, started: None }).deadline(now)))
}

/// Two tasks that sleep print as far apart as their sleeps differ, give or
/// take the time between readings of the clock.
///
/// Two new tasks are all that runs. The first sleeps for `shorter` and is
/// finished when it wakes, the second sleeps for `longer`. The clock is read
/// in order, at most `gap` apart; `gap` is less than the shorter sleep, and
/// the sleeps differ by `gap` at least. Rounds 0 and 1 poll the two tasks for
/// the first time, and they fall asleep. Round `first` is the first at which
/// the clock has reached the first task's deadline, round `second` the same
/// for the second task. Then these rounds poll the two tasks again, in this
/// order, the loop halts in every round between, and the time from the one
/// poll to the other is more than the difference of the sleeps less `gap`, and
/// less than that difference and two times `gap`.
pub proof fn lemma_two_sleeps_apart(
    times: Seq<u64>,
    outcomes: Seq<Polled>,
    shorter: u64,
    longer: u64,
    gap: u64,
    first: int,
    second: int,
)
    requires
        times.len() == outcomes.len(),
        read_within(times, gap),
        gap < shorter,
        shorter + gap <= longer,
        times[1] + longer <= u64::MAX,
        2 <= first < times.len(),
        2 <= second < times.len(),
        outcomes[0] == falls_asleep(shorter, times[0]),
        outcomes[1] == falls_asleep(longer, times[1]),
        times[first - 1] < times[0] + shorter <= times[first],
        times[second - 1] < times[1] + longer <= times[second],
        outcomes[first] is Ready,
    ensures
        first < second,
        two_tasks().steps(times, outcomes).len() == times.len(),
        two_tasks().steps(times, outcomes)[0] == Step::Poll(0),
        two_tasks().steps(times, outcomes)[1] == Step::Poll(1),
        two_tasks().steps(times, outcomes)[first] == Step::Poll(0),
        two_tasks().steps(times, outcomes)[second] == Step::Poll(1),
        forall|i: int| 2 <= i < second && i != first ==> two_tasks().steps(times, outcomes)[i] == Step::Halt,
        longer - shorter - gap < times[second] - times[first] < longer - shorter + 2 * gap,
{
    let wake_first: u64 = (times[0] + shorter) as u64;
    let wake_second: u64 = (times[1] + longer) as u64;
    assert(times[0int + 1] <= times[0] + gap);
    assert(times[(first - 1) + 1] <= times[first - 1] + gap);
    assert(times[(second - 1) + 1] <= times[second - 1] + gap);
    if second <= first {
        lemma_read_in_order(times, gap, second, first);
    }
    // the two first polls
    let start = two_tasks();
    assert(start.ready =~= seq![0u64, 1u64]);
    assert(start.sleeping =~= Seq::<Sleeper>::empty());
    ExecutorModel::empty().lemma_spawn();
    ExecutorModel::empty().spawn().1.lemma_spawn();
    let one = start.round(times[0], outcomes[0]);
    assert(first_later(start.sleeping, times[0], 0) == 0);
    assert(start.wake(times[0]).ready =~= start.ready);
    assert(start.wake(times[0]).sleeping =~= start.sleeping);
    assert(start.poll_next(times[0]).0 == Step::Poll(0));
    assert(first_later(start.sleeping, wake_first, 0) == 0);
    assert(one.ready =~= seq![1u64]);
    assert(one.sleeping =~= seq![Sleeper { deadline: wake_first, task: 0 }]);
    start.lemma_poll_next(times[0]);
    start.poll_next(times[0]).1.lemma_polled(outcomes[0]);
    let two = one.round(times[1], outcomes[1]);
    assert(first_later(one.sleeping, times[1], 0) == 0);
    assert(one.wake(times[1]).ready =~= one.ready);
    assert(one.wake(times[1]).sleeping =~= one.sleeping);
    assert(one.poll_next(times[1]).0 == Step::Poll(1));
    lemma_first_later(one.sleeping, wake_second, 0);
    assert(first_later(one.sleeping, wake_second, 1) == 1);
    assert(first_later(one.sleeping, wake_second, 0) == 1);
    assert(two.ready =~= Seq::<TaskId>::empty());
    assert(two.sleeping =~= seq![
        Sleeper { deadline: wake_first, task: 0 },
        Sleeper { deadline: wake_second, task: 1 },
    ]);
    one.lemma_poll_next(times[1]);
    one.poll_next(times[1]).1.lemma_polled(outcomes[1]);
    // the rounds after them
    let later = times.drop_first().drop_first();
    let handed = outcomes.drop_first().drop_first();
    assert(forall|i: int| 0 <= i < later.len() ==> later[i] == times[i + 2]);
    assert(forall|i: int| 0 <= i < handed.len() ==> handed[i] == outcomes[i + 2]);
    assert forall|i: int| 0 <= i < first - 2 implies later[i] < wake_first by {
        lemma_read_in_order(times, gap, i + 2, first - 1);
    }
    assert forall|i: int| first - 2 < i < second - 2 implies later[i] < wake_second by {
        lemma_read_in_order(times, gap, i + 2, second - 1);
    }
    two.lemma_two_sleepers_steps(later, handed, first - 2, second - 2);
    let all = start.steps(times, outcomes);
    let after_one = one.steps(times.drop_first(), outcomes.drop_first());
    let after_two = two.steps(later, handed);
    start.lemma_steps_len(times, outcomes);
    one.lemma_steps_len(times.drop_first(), outcomes.drop_first());
    assert(times.drop_first()[0] == times[1]);
    assert(outcomes.drop_first()[0] == outcomes[1]);
    assert(after_one == seq![one.poll_next(times[1]).0] + after_two);
    assert(all == seq![start.poll_next(times[0]).0] + after_one);
    assert(forall|n: int| 2 <= n < all.len() ==> all[n] == after_two[n - 2]);
}

/// The executor.
pub struct Executor {
    ready: VecDeque<TaskId>,
    sleeping: Vec<Sleeper>,
    polling: Option<TaskId>,
    next_id: u64,
}

impl View for Executor {
    type V = ExecutorModel;

    closed spec fn view(&self) -> ExecutorModel {
        ExecutorModel {
            ready: self.ready@,
            sleeping: self.sleeping@,
            polling: self.polling,
            next_id: self.next_id,
        }
    }
}

impl Executor {
    /// The executor's invariant.
    pub open spec fn wf(&self) -> bool {
        self@.wf()
    }

    /// An executor without tasks.
    pub fn new() -> (executor: Executor)
        ensures
            executor.wf(),
            executor@ == ExecutorModel::empty(),
    {
        Executor { ready: VecDeque::new(), sleeping: Vec::new(), polling: None, next_id: 0 }
    }

    /// Makes a new task and puts it at the end of the ready queue. Returns the
    /// task's number; `None`, and no task, once the numbers are used up.
    pub fn spawn(&mut self) -> (task: Option<TaskId>)
        requires
            old(self).wf(),
        ensures
            final(self).wf(),
            task == old(self)@.spawn().0,
            final(self)@ == old(self)@.spawn().1,
    {
        proof {
            self@.lemma_spawn();
        }
        if self.next_id == u64::MAX {
            return None;
        }
        let task = self.next_id;
        self.ready.push_back(task);
        self.next_id = self.next_id + 1;
        Some(task)
    }

    /// Whether a task is being polled.
    pub fn is_polling(&self) -> (yes: bool)
        ensures
            yes == (self@.polling is Some),
    {
        self.polling.is_some()
    }

    /// The number of tasks that are ready.
    pub fn ready_len(&self) -> (n: usize)
        ensures
            n == self@.ready.len(),
    {
        self.ready.len()
    }

    /// The number of tasks that sleep.
    pub fn sleeping_len(&self) -> (n: usize)
        ensures
            n == self@.sleeping.len(),
    {
        self.sleeping.len()
    }

    /// The state of a task: ready if it is in the ready queue or being polled,
    /// sleeping with its deadline if it is among the sleepers, done otherwise.
    pub fn state(&self, task: TaskId) -> (state: TaskState)
        requires
            self.wf(),
        ensures
            state == self@.state_of(task),
    {
        if self.polling == Some(task) {
            return TaskState::Ready;
        }
        let mut i: usize = 0;
        while i < self.ready.len()
            invariant
                i <= self.ready@.len(),
                forall|k: int| 0 <= k < i ==> self.ready@[k] != task,
            decreases self.ready@.len() - i,
        {
            if self.ready[i] == task {
                assert(self.ready@.contains(task));
                return TaskState::Ready;
            }
            i = i + 1;
        }
        let mut j: usize = 0;
        while j < self.sleeping.len()
            invariant
                j <= self.sleeping@.len(),
                self.wf(),
                !self.ready@.contains(task),
                self.polling != Some(task),
                forall|k: int| 0 <= k < j ==> (#[trigger] self.sleeping@[k]).task != task,
            decreases self.sleeping@.len() - j,
        {
            if self.sleeping[j].task == task {
                proof {
                    let found = choose|k: int|
                        0 <= k < self@.sleeping.len() && (#[trigger] self@.sleeping[k]).task == task;
                    if found != j {
                        if found < j {
                            assert(self@.sleeping[found].task != self@.sleeping[j as int].task);
                        } else {
                            assert(self@.sleeping[j as int].task != self@.sleeping[found].task);
                        }
                    }
                }
                return TaskState::Sleeping(self.sleeping[j].deadline);
            }
            j = j + 1;
        }
        TaskState::Done
    }

    /// Moves the sleepers whose deadline has come to the end of the ready queue, in their order.
    fn wake(&mut self, now: u64)
        requires
            old(self).wf(),
        ensures
            final(self).wf(),
            final(self)@ == old(self)@.wake(now),
    {
        proof {
            self@.lemma_wake(now);
            lemma_first_later(self.sleeping@, now, 0);
        }
        let ghost start = self@;
        let count: usize = self.sleeping.len();
        assert(start.sleeping.len() == count);
        let mut moved: usize = 0;
        while self.sleeping.len() > 0 && self.sleeping[0].deadline <= now
            invariant
                moved <= start.sleeping.len() <= usize::MAX,
                self.polling == start.polling,
                self.next_id == start.next_id,
                self.ready@ == start.ready + tasks_of(start.sleeping.subrange(0, moved as int)),
                self.sleeping@ == start.sleeping.subrange(moved as int, start.sleeping.len() as int),
                first_later(start.sleeping, now, 0) == first_later(start.sleeping, now, moved as nat),
            decreases self.sleeping.len(),
        {
            let sleeper = self.sleeping.remove(0);
            self.ready.push_back(sleeper.task);
            proof {
                assert(sleeper == start.sleeping[moved as int]);
                assert(tasks_of(start.sleeping.subrange(0, moved + 1)) =~= tasks_of(
                    start.sleeping.subrange(0, moved as int),
                ).push(sleeper.task));
                assert(self.ready@ =~= start.ready + tasks_of(start.sleeping.subrange(0, moved + 1)));
                assert(self.sleeping@ =~= start.sleeping.subrange(moved + 1, start.sleeping.len() as int));
            }
            moved = moved + 1;
        }
        proof {
            if moved < start.sleeping.len() {
                assert(self.sleeping@[0] == start.sleeping[moved as int]);
            }
            assert(first_later(start.sleeping, now, 0) == moved);
        }
    }

    /// Says what the run loop does next at time `now`: wakes the sleepers whose
    /// deadline has come, in the order of their deadlines; takes the first ready
    /// task to be polled, if there is one; else tells the loop to halt, for
    /// good if no task sleeps.
    pub fn poll_next(&mut self, now: u64) -> (step: Step)
        requires
            old(self).wf(),
            old(self)@.polling is None,
        ensures
            final(self).wf(),
            step == old(self)@.poll_next(now).0,
            final(self)@ == old(self)@.poll_next(now).1,
    {
        proof {
            self@.lemma_poll_next(now);
        }
        self.wake(now);
        match self.ready.pop_front() {
            Some(task) => {
                self.polling = Some(task);
                assert(self.ready@ =~= old(self)@.wake(now).ready.drop_first());
                Step::Poll(task)
            },
            None => {
                if self.sleeping.len() > 0 {
                    Step::Halt
                } else {
                    Step::Idle
                }
            },
        }
    }

    /// Takes the outcome of the poll of the task that was being polled. A
    /// finished task is dropped, and the message of one that failed is
    /// returned for the log. A task that yielded goes to the end of the ready
    /// queue; one that sleeps goes among the sleepers.
    pub fn polled(&mut self, outcome: Polled) -> (failure: Option<&'static str>)
        requires
            old(self).wf(),
        ensures
            final(self).wf(),
            final(self)@ == old(self)@.polled(outcome),
            failure == (match (old(self)@.polling, outcome) {
                (Some(_), Polled::Ready(Err(message))) => Some(message),
                _ => None,
            }),
    {
        proof {
            self@.lemma_polled(outcome);
        }
        let task = match self.polling {
            Some(task) => task,
            None => {
                return None;
            },
        };
        self.polling = None;
        match outcome {
            Polled::Ready(Ok(())) => None,
            Polled::Ready(Err(message)) => Some(message),
            Polled::Pending(Wait::Turn) => {
                self.ready.push_back(task);
                None
            },
            Polled::Pending(Wait::Until(deadline)) => {
                let mut pos: usize = 0;
                while pos < self.sleeping.len() && self.sleeping[pos].deadline <= deadline
                    invariant
                        pos <= self.sleeping.len(),
                        self.sleeping@ == old(self)@.sleeping,
                        first_later(self.sleeping@, deadline, 0) == first_later(
                            self.sleeping@,
                            deadline,
                            pos as nat,
                        ),
                    decreases self.sleeping.len() - pos,
                {
                    pos = pos + 1;
                }
                self.sleeping.insert(pos, Sleeper { deadline, task });
                None
            },
        }
    }
}

/// A future that lets the other ready tasks run once.
#[derive(Debug, Clone, Copy, PartialEq, Eq, Structural)]
pub struct YieldNow {
    pub polled: bool,
}

/// A future that yields once: its first poll is pending, its second is ready.
pub fn yield_now() -> (future: YieldNow)
    ensures
        future.polled == false,
{
    YieldNow { polled: false }
}

impl YieldNow {
    /// Polls the future: pending for a turn the first time, ready from the second time on.
    pub fn poll(&mut self) -> (outcome: Polled)
        ensures
            final(self).polled,
            outcome == (if old(self).polled {
                Polled::Ready(Ok(()))
            } else {
                Polled::Pending(Wait::Turn)
            }),
    {
        if self.polled {
            Polled::Ready(Ok(()))
        } else {
            self.polled = true;
            Polled::Pending(Wait::Turn)
        }
    }
}

/// A future that waits for a time to pass.
#[derive(Debug, Clone, Copy, PartialEq, Eq, Structural)]
pub struct Sleep {
    pub duration: u64,
    /// The time of the first poll.
    pub started: Option<u64>,
}

/// A future that is ready `duration` nanoseconds after its first poll.
pub fn sleep(duration: u64) -> (future: Sleep)
    ensures
        future == (Sleep { duration, started: None }),
{
    Sleep { duration, started: None }
}

impl Sleep {
    /// The time at which the future is ready if it is first polled, or was first polled, at `now`.
    pub open spec fn deadline(self, now: u64) -> u64 {
        match self.started {
            Some(start) => saturating_sum(start, self.duration),
            None => saturating_sum(now, self.duration),
        }
    }

    /// Polls the future at time `now`. The first poll fixes the deadline, the
    /// duration after `now`. The future is ready once `now` has reached the
    /// deadline, and pending until the deadline before that: it is never ready
    /// earlier than its duration after its first poll.
    pub fn poll(&mut self, now: u64) -> (outcome: Polled)
        ensures
            final(self).duration == old(self).duration,
            final(self).started == (match old(self).started {
                Some(start) => Some(start),
                None => Some(now),
            }),
            outcome == (if now >= old(self).deadline(now) {
                Polled::Ready(Ok(()))
            } else {
                Polled::Pending(Wait::Until(old(self).deadline(now)))
            }),
    {
        let start = match self.started {
            Some(start) => start,
            None => {
                self.started = Some(now);
                now
            },
        };
        let deadline = deadline_after(start, self.duration);
        if now >= deadline {
            Polled::Ready(Ok(()))
        } else {
            Polled::Pending(Wait::Until(deadline))
        }
    }
}

} // verus!
