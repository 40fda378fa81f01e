//! The coordinator's collection of worker handles.

use crate::attempt::Attempt;
use crate::worker::{HandleState, JoinError, WorkerEvent, WorkerHandle, WorkerState};
use vstd::prelude::*;

verus! {

/// One entry of the report of [`JoinSet::join_all`]: a worker and why its
/// join did not succeed.
#[derive(Clone, Copy, Debug, PartialEq, Eq, Structural)]
pub struct JoinFailure {
    /// The index of the worker in its set.
    pub worker: usize,
    /// What its join returned.
    pub error: JoinError,
}

/// Whether every handle satisfies the handle invariant.
pub open spec fn all_valid(handles: Seq<HandleState>) -> bool {
    forall|i: int| 0 <= i < handles.len() ==> (#[trigger] handles[i]).inv()
}

/// Whether a join of all handles would have to wait: some worker that was
/// not joined yet has not ended.
pub open spec fn must_wait(handles: Seq<HandleState>) -> bool {
    exists|i: int| 0 <= i < handles.len() && (#[trigger] handles[i]).join_verdict() is WouldBlock
}

/// Whether every handle has been joined.
pub open spec fn all_joined(handles: Seq<HandleState>) -> bool {
    forall|i: int| 0 <= i < handles.len() ==> (#[trigger] handles[i]).joined
}

/// The handles after each of them was joined.
pub open spec fn joined_all(handles: Seq<HandleState>) -> Seq<HandleState> {
    Seq::new(handles.len(), |i: int| handles[i].after_join())
}

/// The joins that fail when the handles are joined one after another, in
/// the order of the handles: one entry for each worker that failed and for
/// each handle that was joined before, none for any other.
pub open spec fn join_failures(handles: Seq<HandleState>) -> Seq<JoinFailure>
    decreases handles.len(),
{
    if handles.len() == 0 {
        Seq::empty()
    } else {
        let earlier = join_failures(handles.drop_last());
        match handles.last().join_verdict() {
            Attempt::Ready(Err(error)) => earlier.push(
                JoinFailure { worker: (handles.len() - 1) as usize, error },
            ),
            _ => earlier,
        }
    }
}

/// Joining one handle more adds its failure, if it has one, to the end of
/// the report.
pub proof fn lemma_join_failures_step(handles: Seq<HandleState>, i: int)
    requires
        0 <= i < handles.len(),
    ensures
        join_failures(handles.take(i + 1)) == match handles[i].join_verdict() {
            Attempt::Ready(Err(error)) => join_failures(handles.take(i)).push(
                JoinFailure { worker: i as usize, error },
            ),
            _ => join_failures(handles.take(i)),
        },
{
    assert(handles.take(i + 1).drop_last() =~= handles.take(i));
}

/// Once every worker has ended, joining all handles leaves every handle
/// joined and no handle in a state that it could not be in.
pub proof fn lemma_joined_all(handles: Seq<HandleState>)
    requires
        all_valid(handles),
        !must_wait(handles),
    ensures
        all_valid(joined_all(handles)),
        all_joined(joined_all(handles)),
{
    assert forall|i: int| 0 <= i < handles.len() implies (#[trigger] joined_all(handles)[i]).joined
        && joined_all(handles)[i].inv() by {
        assert(handles[i].inv());
        assert(!(handles[i].join_verdict() is WouldBlock));
    }
}

/// Joining all never waits for a worker that has ended: once every worker
/// has ended, completed or failed, the join of all of them finishes.
pub proof fn lemma_ended_workers_need_no_wait(handles: Seq<HandleState>)
    requires
        forall|i: int| 0 <= i < handles.len() ==> (#[trigger] handles[i]).state.is_terminal(),
    ensures
        !must_wait(handles),
{
}

/// The handles of the workers that one coordinator spawned, by index.
pub struct JoinSet {
    handles: Vec<WorkerHandle>,
}

impl View for JoinSet {
    type V = Seq<HandleState>;

    closed spec fn view(&self) -> Seq<HandleState> {
        Seq::new(self.handles@.len(), |i: int| self.handles@[i]@)
    }
}

impl JoinSet {
    /// Well-formed: every handle satisfies the handle invariant.
    pub open spec fn wf(&self) -> bool {
        all_valid(self@)
    }

    /// The handles of `n` new workers, each waiting to be scheduled.
    pub fn spawn_workers(n: usize) -> (set: JoinSet)
        ensures
            set.wf(),
            set@.len() == n,
            forall|i: int| 0 <= i < n ==> set@[i] == HandleState::spawned(),
    {
        let mut handles: Vec<WorkerHandle> = Vec::new();
        let mut i: usize = 0;
        while i < n
            invariant
                i <= n,
                handles@.len() == i,
                forall|k: int| 0 <= k < i ==> (#[trigger] handles@[k])@ == HandleState::spawned(),
            decreases n - i,
        {
            handles.push(WorkerHandle::spawn());
            i = i + 1;
        }
        JoinSet { handles }
    }

    /// The number of workers.
    pub fn len(&self) -> (r: usize)
        ensures
            r == self@.len(),
    {
        self.handles.len()
    }

    /// Where worker `i` is.
    pub fn state(&self, i: usize) -> (r: WorkerState)
        requires
            i < self@.len(),
        ensures
            r == self@[i as int].state,
    {
        self.handles[i].state()
    }

    /// Records what happened to worker `i`. Returns whether the event could
    /// happen in the worker's state; one that could not changes nothing.
    pub fn advance(&mut self, i: usize, event: WorkerEvent) -> (r: bool)
        requires
            old(self).wf(),
            i < old(self)@.len(),
        ensures
            final(self).wf(),
            final(self)@ == old(self)@.update(i as int, old(self)@[i as int].after_event(event)),
            r == (old(self)@[i as int].state.next(event) is Some),
    {
        assert(self@[i as int].inv());
        let r = self.handles[i].advance(event);
        assert(self@ =~= old(self)@.update(i as int, old(self)@[i as int].after_event(event)));
        r
    }

    /// Tries to join worker `i`, as [`WorkerHandle::join`] does.
    pub fn join(&mut self, i: usize) -> (r: Attempt<Result<(), JoinError>>)
        requires
            old(self).wf(),
            i < old(self)@.len(),
        ensures
            final(self).wf(),
            final(self)@ == old(self)@.update(i as int, old(self)@[i as int].after_join()),
            r == old(self)@[i as int].join_verdict(),
    {
        assert(self@[i as int].inv());
        let r = self.handles[i].join();
        assert(self@ =~= old(self)@.update(i as int, old(self)@[i as int].after_join()));
        r
    }

    /// Whether every handle has been joined.
    pub fn all_joined(&self) -> (r: bool)
        ensures
            r == all_joined(self@),
    {
        let mut i: usize = 0;
        while i < self.handles.len()
            invariant
                i <= self.handles@.len(),
                forall|k: int| 0 <= k < i ==> (#[trigger] self@[k]).joined,
            decreases self.handles@.len() - i,
        {
            if !self.handles[i].is_joined() {
                assert(!self@[i as int].joined);
                return false;
            }
            i = i + 1;
        }
        true
    }

    /// Whether a join of all handles would have to wait: some worker that
    /// was not joined yet has not ended.
    pub fn must_wait(&self) -> (r: bool)
        ensures
            r == must_wait(self@),
    {
        let mut i: usize = 0;
        while i < self.handles.len()
            invariant
                i <= self.handles@.len(),
                forall|k: int| 0 <= k < i ==> !((#[trigger] self@[k]).join_verdict() is WouldBlock),
            decreases self.handles@.len() - i,
        {
            if !self.handles[i].is_joined() && !self.handles[i].state().has_ended() {
                assert(self@[i as int].join_verdict() is WouldBlock);
                return true;
            }
            i = i + 1;
        }
        false
    }

    /// Tries to join every worker. While some worker that was not joined
    /// yet has not ended, the coordinator would have to wait and nothing
    /// changes. Else every handle is joined, in order, whether or not the
    /// joins before it failed, and the failures are reported together:
    /// success if there is none, and else one entry for each worker that
    /// failed and for each handle that had been joined before.
    pub fn join_all(&mut self) -> (r: Attempt<Result<(), Vec<JoinFailure>>>)
        requires
            old(self).wf(),
        ensures
            final(self).wf(),
            match r {
                Attempt::WouldBlock => must_wait(old(self)@) && final(self)@ == old(self)@,
                Attempt::Ready(Ok(())) => {
                    &&& !must_wait(old(self)@)
                    &&& join_failures(old(self)@).len() == 0
                    &&& final(self)@ == joined_all(old(self)@)
                },
                Attempt::Ready(Err(failures)) => {
                    &&& !must_wait(old(self)@)
                    &&& failures@ == join_failures(old(self)@)
                    &&& failures@.len() > 0
                    &&& final(self)@ == joined_all(old(self)@)
                },
            },
            r is Ready ==> all_joined(final(self)@),
    {
        if self.must_wait() {
            return Attempt::WouldBlock;
        }
        let mut failures: Vec<JoinFailure> = Vec::new();
        let n = self.handles.len();
        let mut i: usize = 0;
        while i < n
            invariant
                i <= n,
                n == old(self)@.len(),
                self@.len() == n,
                old(self).wf(),
                self.wf(),
                forall|k: int| 0 <= k < i ==> (#[trigger] self@[k]) == old(self)@[k].after_join(),
                forall|k: int| i <= k < n ==> (#[trigger] self@[k]) == old(self)@[k],
                failures@ == join_failures(old(self)@.take(i as int)),
            decreases n - i,
        {
            proof {
                lemma_join_failures_step(old(self)@, i as int);
            }
            match self.join(i) {
                Attempt::Ready(Err(error)) => {
                    failures.push(JoinFailure { worker: i, error });
                },
                _ => {},
            }
            i = i + 1;
        }
        proof {
            assert(old(self)@.take(n as int) =~= old(self)@);
            assert(self@ =~= joined_all(old(self)@));
            lemma_joined_all(old(self)@);
        }
        if failures.len() == 0 {
            Attempt::Ready(Ok(()))
        } else {
            Attempt::Ready(Err(failures))
        }
    }
}

} // verus!
