use coordination::attempt::Attempt;
use coordination::join_set::{JoinFailure, JoinSet};
use coordination::worker::{JoinError, WorkerEvent, WorkerHandle, WorkerState};

#[test]
fn worker_goes_from_created_to_running_to_completed() {
    let mut handle = WorkerHandle::spawn();
    assert_eq!(handle.state(), WorkerState::Created);
    assert!(handle.advance(WorkerEvent::Scheduled));
    assert_eq!(handle.state(), WorkerState::Running);
    assert!(handle.advance(WorkerEvent::Returned));
    assert_eq!(handle.state(), WorkerState::Completed);
}

#[test]
fn worker_goes_from_running_to_failed() {
    let mut handle = WorkerHandle::spawn();
    handle.advance(WorkerEvent::Scheduled);
    assert!(handle.advance(WorkerEvent::Panicked));
    assert_eq!(handle.state(), WorkerState::Failed);
}

#[test]
fn events_that_cannot_happen_change_nothing() {
    let mut handle = WorkerHandle::spawn();
    assert!(!handle.advance(WorkerEvent::Returned));
    assert!(!handle.advance(WorkerEvent::Panicked));
    assert_eq!(handle.state(), WorkerState::Created);
    handle.advance(WorkerEvent::Scheduled);
    assert!(!handle.advance(WorkerEvent::Scheduled));
    assert_eq!(handle.state(), WorkerState::Running);
    handle.advance(WorkerEvent::Returned);
    assert!(!handle.advance(WorkerEvent::Scheduled));
    assert!(!handle.advance(WorkerEvent::Panicked));
    assert!(!handle.advance(WorkerEvent::Returned));
    assert_eq!(handle.state(), WorkerState::Completed);
}

#[test]
fn transition_table_of_the_worker_states() {
    let events = [WorkerEvent::Scheduled, WorkerEvent::Returned, WorkerEvent::Panicked];
    assert_eq!(WorkerState::Created.step(WorkerEvent::Scheduled), Some(WorkerState::Running));
    assert_eq!(WorkerState::Created.step(WorkerEvent::Returned), None);
    assert_eq!(WorkerState::Created.step(WorkerEvent::Panicked), None);
    assert_eq!(WorkerState::Running.step(WorkerEvent::Scheduled), None);
    assert_eq!(WorkerState::Running.step(WorkerEvent::Returned), Some(WorkerState::Completed));
    assert_eq!(WorkerState::Running.step(WorkerEvent::Panicked), Some(WorkerState::Failed));
    for state in [WorkerState::Completed, WorkerState::Failed] {
        for event in events {
            assert_eq!(state.step(event), None);
        }
    }
    assert!(!WorkerState::Created.has_ended());
    assert!(!WorkerState::Running.has_ended());
    assert!(WorkerState::Completed.has_ended());
    assert!(WorkerState::Failed.has_ended());
}

#[test]
fn join_waits_for_a_worker_that_has_not_ended() {
    let mut handle = WorkerHandle::spawn();
    assert_eq!(handle.join(), Attempt::WouldBlock);
    handle.advance(WorkerEvent::Scheduled);
    assert_eq!(handle.join(), Attempt::WouldBlock);
    assert!(!handle.is_joined());
    handle.advance(WorkerEvent::Returned);
    assert_eq!(handle.join(), Attempt::Ready(Ok(())));
    assert!(handle.is_joined());
}

#[test]
fn join_surfaces_the_failure_of_the_worker() {
    let mut handle = WorkerHandle::spawn();
    handle.advance(WorkerEvent::Scheduled);
    handle.advance(WorkerEvent::Panicked);
    assert_eq!(handle.join(), Attempt::Ready(Err(JoinError::WorkerFailed)));
    assert!(handle.is_joined());
}

#[test]
fn join_on_an_already_joined_handle_fails_with_already_joined() {
    let mut completed = WorkerHandle::spawn();
    completed.advance(WorkerEvent::Scheduled);
    completed.advance(WorkerEvent::Returned);
    assert_eq!(completed.join(), Attempt::Ready(Ok(())));
    assert_eq!(completed.join(), Attempt::Ready(Err(JoinError::AlreadyJoined)));
    assert_eq!(completed.join(), Attempt::Ready(Err(JoinError::AlreadyJoined)));

    let mut failed = WorkerHandle::spawn();
    failed.advance(WorkerEvent::Scheduled);
    failed.advance(WorkerEvent::Panicked);
    assert_eq!(failed.join(), Attempt::Ready(Err(JoinError::WorkerFailed)));
    assert_eq!(failed.join(), Attempt::Ready(Err(JoinError::AlreadyJoined)));
}

fn finish(set: &mut JoinSet, worker: usize, how: WorkerEvent) {
    assert!(set.advance(worker, WorkerEvent::Scheduled));
    assert!(set.advance(worker, how));
}

#[test]
fn spawn_workers_creates_as_many_handles_as_asked() {
    let set = JoinSet::spawn_workers(4);
    assert_eq!(set.len(), 4);
    for worker in 0..4 {
        assert_eq!(set.state(worker), WorkerState::Created);
    }
    assert!(!set.all_joined());
    assert!(set.must_wait());
    assert_eq!(JoinSet::spawn_workers(0).len(), 0);
}

#[test]
fn join_all_of_no_workers_succeeds() {
    let mut set = JoinSet::spawn_workers(0);
    assert!(!set.must_wait());
    assert_eq!(set.join_all(), Attempt::Ready(Ok(())));
    assert!(set.all_joined());
}

#[test]
fn join_all_succeeds_when_every_worker_completed() {
    let mut set = JoinSet::spawn_workers(3);
    for worker in 0..3 {
        finish(&mut set, worker, WorkerEvent::Returned);
    }
    assert_eq!(set.join_all(), Attempt::Ready(Ok(())));
    assert!(set.all_joined());
}

#[test]
fn join_all_returns_every_failure_and_still_joins_the_rest() {
    let mut set = JoinSet::spawn_workers(5);
    finish(&mut set, 0, WorkerEvent::Returned);
    finish(&mut set, 1, WorkerEvent::Panicked);
    finish(&mut set, 2, WorkerEvent::Returned);
    finish(&mut set, 3, WorkerEvent::Panicked);
    finish(&mut set, 4, WorkerEvent::Returned);
    assert_eq!(
        set.join_all(),
        Attempt::Ready(Err(vec![
            JoinFailure { worker: 1, error: JoinError::WorkerFailed },
            JoinFailure { worker: 3, error: JoinError::WorkerFailed },
        ]))
    );
    assert!(set.all_joined());
    assert_eq!(set.state(4), WorkerState::Completed);
}

#[test]
fn join_all_waits_while_a_worker_runs_and_changes_nothing() {
    let mut set = JoinSet::spawn_workers(3);
    finish(&mut set, 0, WorkerEvent::Returned);
    finish(&mut set, 1, WorkerEvent::Panicked);
    set.advance(2, WorkerEvent::Scheduled);
    assert_eq!(set.join_all(), Attempt::WouldBlock);
    assert!(!set.all_joined());
    assert_eq!(set.join(0), Attempt::Ready(Ok(())));
    set.advance(2, WorkerEvent::Returned);
    assert_eq!(
        set.join_all(),
        Attempt::Ready(Err(vec![
            JoinFailure { worker: 0, error: JoinError::AlreadyJoined },
            JoinFailure { worker: 1, error: JoinError::WorkerFailed },
        ]))
    );
    assert!(set.all_joined());
}

#[test]
fn second_join_all_reports_every_handle_as_already_joined() {
    let mut set = JoinSet::spawn_workers(2);
    finish(&mut set, 0, WorkerEvent::Returned);
    finish(&mut set, 1, WorkerEvent::Returned);
    assert_eq!(set.join_all(), Attempt::Ready(Ok(())));
    assert_eq!(
        set.join_all(),
        Attempt::Ready(Err(vec![
            JoinFailure { worker: 0, error: JoinError::AlreadyJoined },
            JoinFailure { worker: 1, error: JoinError::AlreadyJoined },
        ]))
    );
}

#[test]
fn join_of_one_worker_of_a_set() {
    let mut set = JoinSet::spawn_workers(2);
    assert_eq!(set.join(1), Attempt::WouldBlock);
    finish(&mut set, 1, WorkerEvent::Panicked);
    assert_eq!(set.join(1), Attempt::Ready(Err(JoinError::WorkerFailed)));
    assert_eq!(set.join(1), Attempt::Ready(Err(JoinError::AlreadyJoined)));
    assert_eq!(set.join(0), Attempt::WouldBlock);
    assert!(!set.all_joined());
}
