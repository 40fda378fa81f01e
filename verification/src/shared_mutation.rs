//! The shared-mutation pattern: a counter at zero, one worker for each task,
//! every worker joined before the counter is read.
//!
//! The workers take their turns in the order of their tasks. A host that
//! runs them on threads gets the same report for tasks that only increment,
//! whatever order its scheduler picks, since increments commute.

use crate::attempt::Attempt;
use crate::counter::{Counter, CounterState, LockPoisoned};
use crate::join_set::{all_joined, join_failures, must_wait, JoinFailure, JoinSet};
use crate::worker::{HandleState, WorkerEvent, WorkerState};
use vstd::prelude::*;

verus! {

/// What one worker does when it is scheduled.
#[derive(Clone, Copy, Debug, PartialEq, Eq, Structural)]
pub enum Task {
    /// Increment the counter once and return.
    Increment,
    /// Fail without touching the counter.
    Fail,
    /// Take the counter's lock and fail while holding it.
    FailHoldingLock,
}

/// What the coordinator saw once every worker was joined.
#[derive(Debug, PartialEq, Eq)]
pub struct Report {
    /// The final read of the counter.
    pub value: Result<u64, LockPoisoned>,
    /// The workers whose join failed, in the order of the workers.
    pub failures: Vec<JoinFailure>,
}

/// The counter after a worker with task `task` took its turn on `c`.
pub open spec fn counter_after_task(c: CounterState, task: Task) -> CounterState {
    match task {
        Task::Increment => c.incremented(),
        Task::Fail => c,
        Task::FailHoldingLock => if c.poisoned {
            c
        } else {
            c.poisoned_now()
        },
    }
}

/// Whether a worker with task `task` that finds the counter as `c` fails:
/// always if failing is its task, and on a poisoned lock if it is to
/// increment.
pub open spec fn task_fails(c: CounterState, task: Task) -> bool {
    match task {
        Task::Increment => c.poisoned,
        _ => true,
    }
}

/// The counter after the workers with these tasks took their turns in order,
/// starting from zero.
pub open spec fn counter_after(tasks: Seq<Task>) -> CounterState
    decreases tasks.len(),
{
    if tasks.len() == 0 {
        CounterState { value: 0, poisoned: false }
    } else {
        counter_after_task(counter_after(tasks.drop_last()), tasks.last())
    }
}

/// The handle of each worker once all have taken their turns and before any
/// is joined: failed or completed, as its task and the counter it found
/// made it.
pub open spec fn handles_after(tasks: Seq<Task>) -> Seq<HandleState> {
    Seq::new(
        tasks.len(),
        |i: int|
            HandleState {
                state: if task_fails(counter_after(tasks.take(i)), tasks[i]) {
                    WorkerState::Failed
                } else {
                    WorkerState::Completed
                },
                joined: false,
            },
    )
}

/// Whether every task is to increment.
pub open spec fn all_increment(tasks: Seq<Task>) -> bool {
    forall|i: int| 0 <= i < tasks.len() ==> (#[trigger] tasks[i]) is Increment
}

/// The counter never counts more than the workers that took their turn.
pub proof fn lemma_counter_bounded(tasks: Seq<Task>)
    ensures
        counter_after(tasks).value <= tasks.len(),
    decreases tasks.len(),
{
    if tasks.len() > 0 {
        lemma_counter_bounded(tasks.drop_last());
    }
}

/// No update is lost and no worker fails: when each of `n` workers
/// increments once, the counter ends at `n`, healthy, and no join fails.
pub proof fn lemma_all_increment(tasks: Seq<Task>)
    requires
        all_increment(tasks),
    ensures
        counter_after(tasks) == (CounterState { value: tasks.len(), poisoned: false }),
        join_failures(handles_after(tasks)).len() == 0,
    decreases tasks.len(),
{
    if tasks.len() > 0 {
        let front = tasks.drop_last();
        assert(all_increment(front)) by {
            assert forall|i: int| 0 <= i < front.len() implies (#[trigger] front[i]) is Increment by {
                assert(front[i] == tasks[i]);
            }
        }
        lemma_all_increment(front);
        assert(tasks.last() is Increment);
        assert(tasks.take(tasks.len() - 1) =~= front);
        assert(handles_after(tasks).drop_last() =~= handles_after(front)) by {
            assert forall|i: int| 0 <= i < front.len() implies handles_after(tasks)[i]
                == handles_after(front)[i] by {
                assert(tasks.take(i) =~= front.take(i));
            }
        }
    } else {
        assert(handles_after(tasks) =~= Seq::empty());
    }
}

/// A failure rolls nothing back: the turn of one more worker never lowers
/// the counter, a worker that fails leaves it where it was, and a poisoned
/// counter stays exactly as it is.
pub proof fn lemma_turn_keeps_increments(tasks: Seq<Task>, task: Task)
    ensures
        counter_after(tasks.push(task)).value >= counter_after(tasks).value,
        !(task is Increment) ==> counter_after(tasks.push(task)).value == counter_after(
            tasks,
        ).value,
        counter_after(tasks).poisoned ==> counter_after(tasks.push(task)) == counter_after(tasks),
{
    assert(tasks.push(task).drop_last() =~= tasks);
}

/// The coordinator's read of the counter. A read while some worker has not
/// been joined would race with that worker, so it is refused: the result is
/// `None` unless every handle of `workers` has been joined, and else what
/// the counter gives.
pub fn read_after_join(counter: &Counter, workers: &JoinSet) -> (r: Option<
    Result<u64, LockPoisoned>,
>)
    ensures
        !all_joined(workers@) ==> r is None,
        all_joined(workers@) ==> r == Some(
            if counter@.poisoned {
                Err::<u64, LockPoisoned>(LockPoisoned)
            } else {
                Ok::<u64, LockPoisoned>(counter@.value as u64)
            },
        ),
{
    if workers.all_joined() {
        Some(counter.get())
    } else {
        None
    }
}

/// Runs the shared-mutation pattern: creates a counter at zero, spawns one
/// worker for each task, lets each take its turn in order, joins all of them
/// and only then reads the counter. The report holds the final read and the
/// join of every worker that failed; a failure stops neither the workers
/// after it nor the joins.
pub fn shared_mutation(tasks: &Vec<Task>) -> (report: Report)
    ensures
        report.value == if counter_after(tasks@).poisoned {
            Err::<u64, LockPoisoned>(LockPoisoned)
        } else {
            Ok::<u64, LockPoisoned>(counter_after(tasks@).value as u64)
        },
        report.failures@ == join_failures(handles_after(tasks@)),
        all_increment(tasks@) ==> report.value == Ok::<u64, LockPoisoned>(tasks@.len() as u64)
            && report.failures@.len() == 0,
{
    let n = tasks.len();
    let mut counter = Counter::new(0);
    let mut workers = JoinSet::spawn_workers(n);
    let mut i: usize = 0;
    while i < n
        invariant
            i <= n,
            n == tasks@.len(),
            workers.wf(),
            workers@.len() == n,
            counter@ == counter_after(tasks@.take(i as int)),
            forall|k: int| 0 <= k < i ==> (#[trigger] workers@[k]) == handles_after(tasks@)[k],
            forall|k: int| i <= k < n ==> (#[trigger] workers@[k]) == HandleState::spawned(),
        decreases n - i,
    {
        proof {
            lemma_counter_bounded(tasks@.take(i as int));
            assert(tasks@.take(i + 1).drop_last() =~= tasks@.take(i as int));
        }
        workers.advance(i, WorkerEvent::Scheduled);
        let ended = match tasks[i] {
            Task::Increment => match counter.increment_and_get() {
                Ok(_) => WorkerEvent::Returned,
                Err(_) => WorkerEvent::Panicked,
            },
            Task::Fail => WorkerEvent::Panicked,
            Task::FailHoldingLock => {
                if !counter.is_poisoned() {
                    counter.poison();
                }
                WorkerEvent::Panicked
            },
        };
        workers.advance(i, ended);
        i = i + 1;
    }
    proof {
        assert(tasks@.take(n as int) =~= tasks@);
        assert(workers@ =~= handles_after(tasks@));
        assert(!must_wait(workers@));
        if all_increment(tasks@) {
            lemma_all_increment(tasks@);
        }
    }
    let failures = match workers.join_all() {
        Attempt::Ready(Ok(())) => Vec::new(),
        Attempt::Ready(Err(failures)) => failures,
        Attempt::WouldBlock => Vec::new(),
    };
    let value = match read_after_join(&counter, &workers) {
        Some(value) => value,
        None => Err(LockPoisoned),
    };
    Report { value, failures }
}

} // verus!
