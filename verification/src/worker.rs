//! The life of one worker, and the handle by which its coordinator waits
//! for it.
//!
//! The library does not run workers. A host starts them, tells the handle
//! what happened to each ([`WorkerHandle::advance`]) and joins; the handle
//! decides what a join returns.

use crate::attempt::Attempt;
use vstd::prelude::*;

verus! {

/// Where a worker is in its life.
#[derive(Clone, Copy, Debug, PartialEq, Eq, Structural)]
pub enum WorkerState {
    /// Spawned, not yet scheduled.
    Created,
    /// Running its task.
    Running,
    /// Its task returned.
    Completed,
    /// Its task ended in a failure that nothing recovered.
    Failed,
}

/// What can happen to a worker.
#[derive(Clone, Copy, Debug, PartialEq, Eq, Structural)]
pub enum WorkerEvent {
    /// The worker was scheduled and began its task.
    Scheduled,
    /// The task returned normally.
    Returned,
    /// The task ended in an unrecovered failure.
    Panicked,
}

/// Why a join did not succeed.
#[derive(Clone, Copy, Debug, PartialEq, Eq, Structural)]
pub enum JoinError {
    /// The worker ended in an unrecovered failure.
    WorkerFailed,
    /// The handle was joined before: a mistake of the coordinator.
    AlreadyJoined,
}

impl WorkerState {
    /// The state that `event` leads to, `None` where the event cannot
    /// happen in this state.
    pub open spec fn next(self, event: WorkerEvent) -> Option<WorkerState> {
        match (self, event) {
            (WorkerState::Created, WorkerEvent::Scheduled) => Some(WorkerState::Running),
            (WorkerState::Running, WorkerEvent::Returned) => Some(WorkerState::Completed),
            (WorkerState::Running, WorkerEvent::Panicked) => Some(WorkerState::Failed),
            _ => None,
        }
    }

    /// Whether the worker has ended, one way or the other.
    pub open spec fn is_terminal(self) -> bool {
        self is Completed || self is Failed
    }

    /// Computes [`WorkerState::next`].
    pub fn step(self, event: WorkerEvent) -> (r: Option<WorkerState>)
        ensures
            r == self.next(event),
    {
        match self {
            WorkerState::Created => match event {
                WorkerEvent::Scheduled => Some(WorkerState::Running),
                _ => None,
            },
            WorkerState::Running => match event {
                WorkerEvent::Returned => Some(WorkerState::Completed),
                WorkerEvent::Panicked => Some(WorkerState::Failed),
                WorkerEvent::Scheduled => None,
            },
            _ => None,
        }
    }

    /// Computes [`WorkerState::is_terminal`].
    pub fn has_ended(self) -> (r: bool)
        ensures
            r == self.is_terminal(),
    {
        match self {
            WorkerState::Completed => true,
            WorkerState::Failed => true,
            _ => false,
        }
    }
}

/// What a handle is, as a mathematical value.
pub struct HandleState {
    /// Where the worker is.
    pub state: WorkerState,
    /// Whether a join of this handle has finished.
    pub joined: bool,
}

impl HandleState {
    /// The handle of a worker that was just spawned.
    pub open spec fn spawned() -> HandleState {
        HandleState { state: WorkerState::Created, joined: false }
    }

    /// Only a worker that has ended can have been joined.
    pub open spec fn inv(self) -> bool {
        self.joined ==> self.state.is_terminal()
    }

    /// The handle after `event`; an event that cannot happen changes nothing.
    pub open spec fn after_event(self, event: WorkerEvent) -> HandleState {
        match self.state.next(event) {
            Some(state) => HandleState { state, joined: self.joined },
            None => self,
        }
    }

    /// What a join comes to: an error on a handle that was joined before;
    /// else a wait while the worker has not ended; else the worker's outcome.
    pub open spec fn join_verdict(self) -> Attempt<Result<(), JoinError>> {
        if self.joined {
            Attempt::Ready(Err(JoinError::AlreadyJoined))
        } else {
            match self.state {
                WorkerState::Completed => Attempt::Ready(Ok(())),
                WorkerState::Failed => Attempt::Ready(Err(JoinError::WorkerFailed)),
                _ => Attempt::WouldBlock,
            }
        }
    }

    /// The handle after a join: joined, if the worker has ended.
    pub open spec fn after_join(self) -> HandleState {
        if self.state.is_terminal() {
            HandleState { state: self.state, joined: true }
        } else {
            self
        }
    }
}

/// The coordinator's token for one worker.
#[derive(Debug)]
pub struct WorkerHandle {
    state: WorkerState,
    joined: bool,
}

impl View for WorkerHandle {
    type V = HandleState;

    closed spec fn view(&self) -> HandleState {
        HandleState { state: self.state, joined: self.joined }
    }
}

impl WorkerHandle {
    /// The handle of a new worker, which waits to be scheduled.
    pub fn spawn() -> (h: WorkerHandle)
        ensures
            h@ == HandleState::spawned(),
            h@.inv(),
    {
        WorkerHandle { state: WorkerState::Created, joined: false }
    }

    /// Where the worker is.
    pub fn state(&self) -> (r: WorkerState)
        ensures
            r == self@.state,
    {
        self.state
    }

    /// Whether a join of this handle has finished.
    pub fn is_joined(&self) -> (r: bool)
        ensures
            r == self@.joined,
    {
        self.joined
    }

    /// Records what happened to the worker. Returns whether the event could
    /// happen in the worker's state; one that could not changes nothing.
    pub fn advance(&mut self, event: WorkerEvent) -> (r: bool)
        requires
            old(self)@.inv(),
        ensures
            final(self)@ == old(self)@.after_event(event),
            final(self)@.inv(),
            r == (old(self)@.state.next(event) is Some),
    {
        match self.state.step(event) {
            Some(state) => {
                self.state = state;
                true
            },
            None => false,
        }
    }

    /// Tries to join the worker. A second join of the same handle is an
    /// error. While the worker has not ended the coordinator would have to
    /// wait. Once it has, the join reports how it ended and marks the handle
    /// as joined.
    pub fn join(&mut self) -> (r: Attempt<Result<(), JoinError>>)
        requires
            old(self)@.inv(),
        ensures
            final(self)@ == old(self)@.after_join(),
            final(self)@.inv(),
            r == old(self)@.join_verdict(),
    {
        if self.joined {
            return Attempt::Ready(Err(JoinError::AlreadyJoined));
        }
        match self.state {
            WorkerState::Completed => {
                self.joined = true;
                Attempt::Ready(Ok(()))
            },
            WorkerState::Failed => {
                self.joined = true;
                Attempt::Ready(Err(JoinError::WorkerFailed))
            },
            _ => Attempt::WouldBlock,
        }
    }
}

/// A handle is joined at most once: after a join that finished, every
/// further join of the same handle fails with `AlreadyJoined` and changes
/// nothing.
pub proof fn lemma_second_join_fails(h: HandleState)
    requires
        h.inv(),
        h.join_verdict() is Ready,
    ensures
        h.after_join().joined,
        h.after_join().join_verdict() == Attempt::Ready(
            Err::<(), JoinError>(JoinError::AlreadyJoined),
        ),
        h.after_join().after_join() == h.after_join(),
{
}

/// A worker that has ended stays as it ended: no event moves it.
pub proof fn lemma_ended_is_final(state: WorkerState, event: WorkerEvent)
    requires
        state.is_terminal(),
    ensures
        state.next(event) is None,
{
}

} // verus!
