//! A counter guarded by a lock that can be poisoned.
//!
//! Exclusive access is the `&mut` borrow: whoever calls
//! [`Counter::increment_and_get`] holds the lock for exactly the length of
//! the call, and it is released on every way out. A host that shares the
//! counter between threads puts it behind its own lock and reports a holder
//! that died inside the critical section with [`Counter::poison`].

use vstd::prelude::*;

verus! {

/// The lock was poisoned: an earlier holder failed inside its critical section.
#[derive(Clone, Copy, Debug, PartialEq, Eq, Structural)]
pub struct LockPoisoned;

/// What a counter is, as a mathematical value.
pub struct CounterState {
    /// The guarded integer.
    pub value: nat,
    /// Whether a holder of the lock failed before releasing it.
    pub poisoned: bool,
}

impl CounterState {
    /// The state after one attempt to increment: a healthy counter goes up by
    /// one, a poisoned one stays as it is.
    pub open spec fn incremented(self) -> CounterState {
        if self.poisoned {
            self
        } else {
            CounterState { value: self.value + 1, poisoned: false }
        }
    }

    /// The state after `n` attempts to increment, one after another.
    pub open spec fn incremented_by(self, n: nat) -> CounterState
        decreases n,
    {
        if n == 0 {
            self
        } else {
            self.incremented_by((n - 1) as nat).incremented()
        }
    }

    /// The state after a holder of the lock failed: the value stays.
    pub open spec fn poisoned_now(self) -> CounterState {
        CounterState { value: self.value, poisoned: true }
    }
}

/// One integer cell together with the state of the lock that guards it.
pub struct Counter {
    value: u64,
    poisoned: bool,
}

impl View for Counter {
    type V = CounterState;

    closed spec fn view(&self) -> CounterState {
        CounterState { value: self.value as nat, poisoned: self.poisoned }
    }
}

impl Counter {
    /// A counter at `initial` behind a healthy lock.
    pub fn new(initial: u64) -> (c: Counter)
        ensures
            c@ == (CounterState { value: initial as nat, poisoned: false }),
    {
        Counter { value: initial, poisoned: false }
    }

    /// Takes the lock, adds one to the value, releases the lock and returns
    /// the new value. On a poisoned lock nothing changes and the error is
    /// returned. The value must have room for one more.
    pub fn increment_and_get(&mut self) -> (r: Result<u64, LockPoisoned>)
        requires
            !old(self)@.poisoned ==> old(self)@.value < u64::MAX,
        ensures
            final(self)@ == old(self)@.incremented(),
            old(self)@.poisoned ==> r == Err::<u64, LockPoisoned>(LockPoisoned),
            !old(self)@.poisoned ==> r == Ok::<u64, LockPoisoned>((old(self)@.value + 1) as u64),
    {
        if self.poisoned {
            Err(LockPoisoned)
        } else {
            self.value = self.value + 1;
            Ok(self.value)
        }
    }

    /// Whether one more increment fits: false only at the largest value.
    pub fn has_room(&self) -> (r: bool)
        ensures
            r == (self@.value < u64::MAX),
    {
        self.value < u64::MAX
    }

    /// Records that a holder of the lock failed inside its critical section.
    /// The value is kept as the holder left it; the poison is never cleared.
    pub fn poison(&mut self)
        ensures
            final(self)@ == old(self)@.poisoned_now(),
    {
        self.poisoned = true;
    }

    /// Whether the lock is poisoned.
    pub fn is_poisoned(&self) -> (r: bool)
        ensures
            r == self@.poisoned,
    {
        self.poisoned
    }

    /// Takes the lock and reads the value; fails on a poisoned lock.
    pub fn get(&self) -> (r: Result<u64, LockPoisoned>)
        ensures
            self@.poisoned ==> r == Err::<u64, LockPoisoned>(LockPoisoned),
            !self@.poisoned ==> r == Ok::<u64, LockPoisoned>(self@.value as u64),
    {
        if self.poisoned {
            Err(LockPoisoned)
        } else {
            Ok(self.value)
        }
    }
}

/// No update is lost: `n` increments of a healthy counter raise its value by
/// exactly `n`, in whatever order the workers that make them take their turn.
pub proof fn lemma_increments_add_up(s: CounterState, n: nat)
    requires
        !s.poisoned,
    ensures
        s.incremented_by(n) == (CounterState { value: s.value + n, poisoned: false }),
    decreases n,
{
    if n > 0 {
        lemma_increments_add_up(s, (n - 1) as nat);
    }
}

/// A poisoned counter keeps its value: increments that come after the
/// failure are refused, and those that came before are not rolled back.
pub proof fn lemma_poison_keeps_value(s: CounterState, n: nat)
    ensures
        s.poisoned_now().incremented_by(n) == s.poisoned_now(),
        s.poisoned_now().value == s.value,
    decreases n,
{
    if n > 0 {
        lemma_poison_keeps_value(s, (n - 1) as nat);
    }
}

} // verus!
