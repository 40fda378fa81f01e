use coordination::counter::LockPoisoned;
use coordination::fan_in::{fan_in, FanIn};
use coordination::join_set::JoinFailure;
use coordination::counter::Counter;
use coordination::join_set::JoinSet;
use coordination::shared_mutation::{read_after_join, shared_mutation, Report, Task};
use coordination::worker::WorkerEvent;
use coordination::worker::JoinError;

fn words(list: &[&str]) -> Vec<String> {
    list.iter().map(|w| String::from(*w)).collect()
}

fn failed(worker: usize) -> JoinFailure {
    JoinFailure { worker, error: JoinError::WorkerFailed }
}

#[test]
fn ten_workers_incrementing_a_counter_at_zero_give_ten() {
    let tasks = vec![Task::Increment; 10];
    assert_eq!(shared_mutation(&tasks), Report { value: Ok(10), failures: vec![] });
}

#[test]
fn no_workers_leave_the_counter_at_zero() {
    assert_eq!(shared_mutation(&vec![]), Report { value: Ok(0), failures: vec![] });
}

#[test]
fn n_workers_give_n_for_many_n() {
    for n in [1usize, 2, 3, 17, 100, 1000] {
        let report = shared_mutation(&vec![Task::Increment; n]);
        assert_eq!(report.value, Ok(n as u64));
        assert!(report.failures.is_empty());
    }
}

#[test]
fn a_failed_worker_does_not_roll_back_the_increments_of_the_others() {
    let tasks = vec![Task::Increment, Task::Fail, Task::Increment, Task::Increment, Task::Fail];
    assert_eq!(
        shared_mutation(&tasks),
        Report { value: Ok(3), failures: vec![failed(1), failed(4)] }
    );
}

#[test]
fn a_worker_that_fails_holding_the_lock_poisons_it_for_those_after_it() {
    let tasks = vec![Task::Increment, Task::FailHoldingLock, Task::Increment, Task::Fail];
    assert_eq!(
        shared_mutation(&tasks),
        Report { value: Err(LockPoisoned), failures: vec![failed(1), failed(2), failed(3)] }
    );
}

#[test]
fn two_producers_of_four_payloads_each_give_eight_in_order() {
    let first = words(&["hi", "from", "the", "thread"]);
    let second = words(&["more", "messages", "for", "you"]);
    let schedule = vec![0, 1, 0, 1, 0, 1, 0, 1];
    let drained = fan_in(vec![first.clone(), second.clone()], &schedule);
    assert_eq!(drained.items.len(), 8);
    for word in first.iter().chain(second.iter()) {
        assert!(drained.items.contains(word));
    }
    let at = |word: &str| drained.items.iter().position(|w| w == word).unwrap();
    assert!(at("hi") < at("from"));
    assert!(at("from") < at("the"));
    assert!(at("the") < at("thread"));
    assert!(at("more") < at("messages"));
    assert!(at("messages") < at("for"));
    assert!(at("for") < at("you"));
    assert_eq!(
        drained.items,
        words(&["hi", "more", "from", "messages", "the", "for", "thread", "you"])
    );
    assert_eq!(drained.origins, vec![0, 1, 0, 1, 0, 1, 0, 1]);
}

fn from_producer(drained: &FanIn<String>, p: usize) -> Vec<String> {
    drained
        .items
        .iter()
        .zip(drained.origins.iter())
        .filter(|(_, origin)| **origin == p)
        .map(|(item, _)| item.clone())
        .collect()
}

#[test]
fn every_schedule_keeps_the_order_of_each_producer() {
    let producers = vec![
        words(&["hi", "from", "the", "thread"]),
        words(&["more", "messages", "for", "you"]),
        words(&["hi", "hi"]),
        words(&[]),
    ];
    let schedules: Vec<Vec<usize>> = vec![
        vec![],
        vec![0, 0, 0, 0, 1, 1, 1, 1],
        vec![1, 1, 1, 1, 0, 0, 0, 0],
        vec![2, 1, 0, 2, 1, 0, 3, 3],
        vec![9, 9, 1, 0, 0, 0, 0, 0, 0, 1],
        vec![3, 2, 2, 2, 2, 1],
    ];
    for schedule in schedules {
        let drained = fan_in(producers.clone(), &schedule);
        assert_eq!(drained.items.len(), 10);
        assert_eq!(drained.origins.len(), 10);
        for p in 0..producers.len() {
            assert_eq!(from_producer(&drained, p), producers[p]);
        }
    }
}

#[test]
fn the_schedule_fixes_the_order_of_arrival() {
    let producers = vec![vec![1, 2, 3], vec![10, 20], vec![100]];
    assert_eq!(
        fan_in(producers.clone(), &vec![]),
        FanIn { items: vec![1, 2, 3, 10, 20, 100], origins: vec![0, 0, 0, 1, 1, 2] }
    );
    assert_eq!(
        fan_in(producers.clone(), &vec![2, 1, 0, 1]),
        FanIn { items: vec![100, 10, 1, 20, 2, 3], origins: vec![2, 1, 0, 1, 0, 0] }
    );
    assert_eq!(
        fan_in(producers.clone(), &vec![2, 2, 7, 1, 1, 1, 0]),
        FanIn { items: vec![100, 10, 20, 1, 2, 3], origins: vec![2, 1, 1, 0, 0, 0] }
    );
}

#[test]
fn fan_in_of_no_producers_is_empty() {
    assert_eq!(fan_in(Vec::<Vec<u8>>::new(), &vec![0, 1]), FanIn { items: vec![], origins: vec![] });
    assert_eq!(
        fan_in(vec![Vec::<u8>::new(), Vec::new()], &vec![0, 1]),
        FanIn { items: vec![], origins: vec![] }
    );
}

#[test]
fn the_counter_is_read_only_after_every_worker_was_joined() {
    let mut counter = Counter::new(0);
    let mut workers = JoinSet::spawn_workers(2);
    assert_eq!(read_after_join(&counter, &workers), None);
    for worker in 0..2 {
        workers.advance(worker, WorkerEvent::Scheduled);
        counter.increment_and_get().unwrap();
        workers.advance(worker, WorkerEvent::Returned);
    }
    assert_eq!(read_after_join(&counter, &workers), None);
    workers.join(0);
    assert_eq!(read_after_join(&counter, &workers), None);
    workers.join(1);
    assert_eq!(read_after_join(&counter, &workers), Some(Ok(2)));
    counter.poison();
    assert_eq!(read_after_join(&counter, &workers), Some(Err(LockPoisoned)));
    assert_eq!(read_after_join(&counter, &JoinSet::spawn_workers(0)), Some(Err(LockPoisoned)));
}
