use vstd::prelude::*;

verus! {

/// A reusable "done" latch.
///
/// The latch itself only decides; whoever blocks on it (a condition variable
/// held next to it) asks `wait` whether it may proceed and wakes its waiters
/// whenever `set` or `clear` report a transition.
pub struct Event {
    finished: bool,
}

impl Event {
    /// Whether the latch is in the set state.
    pub closed spec fn is_set(&self) -> bool {
        self.finished
    }

    /// A latch in the unset state.
    pub fn new() -> (e: Event)
        ensures
            !e.is_set(),
    {
        Event { finished: false }
    }

    /// Returns the latch to the unset state; the result says whether waiters
    /// must be notified (the latch was set before).
    pub fn clear(&mut self) -> (notify: bool)
        ensures
            !final(self).is_set(),
            notify == old(self).is_set(),
    {
        self.set_value(false)
    }

    /// Puts the latch in the set state; the result says whether waiters must
    /// be woken (the latch was unset before).
    pub fn set(&mut self) -> (notify: bool)
        ensures
            final(self).is_set(),
            notify == !old(self).is_set(),
    {
        self.set_value(true)
    }

    /// Stores `value`, reporting a notification only on a transition.
    pub fn set_value(&mut self, value: bool) -> (notify: bool)
        ensures
            final(self).is_set() == value,
            notify == (old(self).is_set() != value),
    {
        if self.finished != value {
            self.finished = value;
            true
        } else {
            false
        }
    }

    /// Whether a waiter may stop waiting: true exactly when the latch is set.
    pub fn wait(&self) -> (ready: bool)
        ensures
            ready == self.is_set(),
    {
        self.finished
    }
}

} // verus!
