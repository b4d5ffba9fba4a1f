//! A shared-state cell for data touched by both interrupt handlers and
//! task code.
//!
//! On a single-core target, exclusive access to such a cell is obtained
//! by disabling interruption for the duration of the access, not by a
//! contended lock. In this model the exclusivity is carried by Rust's
//! `&mut` borrow, so every operation below is atomic with respect to
//! everything else. The cell holds one value or is empty; code that
//! finds it empty during start-up must treat that as a valid state and
//! skip its action, never as a fatal error.

use vstd::prelude::*;

verus! {

pub struct GuardedCell<T> {
    pub value: Option<T>,
}

impl<T> View for GuardedCell<T> {
    type V = Option<T>;

    open spec fn view(&self) -> Option<T> {
        self.value
    }
}

impl<T> GuardedCell<T> {
    /// A cell that starts out unpopulated.
    pub fn empty() -> (c: Self)
        ensures
            c@ == Option::<T>::None,
    {
        GuardedCell { value: None }
    }

    /// A cell pre-populated with `v`.
    pub fn with_value(v: T) -> (c: Self)
        ensures
            c@ == Some(v),
    {
        GuardedCell { value: Some(v) }
    }

    /// Swap in a new value and hand back whatever was there before.
    pub fn replace(&mut self, v: T) -> (prev: Option<T>)
        ensures
            final(self)@ == replace_state(old(self)@, v),
            final(self)@ == Some(v),
            prev == old(self)@,
    {
        let mut fresh = Some(v);
        core::mem::swap(&mut self.value, &mut fresh);
        fresh
    }

    /// Remove the value, leaving the cell empty.
    pub fn take(&mut self) -> (prev: Option<T>)
        ensures
            final(self)@ == Option::<T>::None,
            prev == old(self)@,
    {
        self.value.take()
    }

    /// Observe the contents without changing them.
    pub fn peek(&self) -> (r: &Option<T>)
        ensures
            *r == self@,
    {
        &self.value
    }

    /// True when the cell holds no value.
    pub fn is_empty(&self) -> (r: bool)
        ensures
            r == (self@ == Option::<T>::None),
    {
        self.value.is_none()
    }
}

/// What `replace` does to the contents, as a pure transition.
pub open spec fn replace_state<T>(state: Option<T>, v: T) -> Option<T> {
    Some(v)
}

/// Reading never changes the contents, so two observations of an
/// empty cell with no write in between — `first` and `second` being
/// what `peek` hands back each time — yield "empty" both times.
pub proof fn lemma_empty_read_idempotent<T>(c: GuardedCell<T>, first: Option<T>, second: Option<T>)
    requires
        c@ == Option::<T>::None,
        first == c@,
        second == c@,
    ensures
        first is None,
        second is None,
{
}

/// Writing the same value twice is observably equivalent to writing it
/// once: `replace(v)` after `replace(v)` leaves the same contents as a
/// single `replace(v)`, from any starting state.
pub proof fn lemma_replace_idempotent<T>(state: Option<T>, v: T)
    ensures
        replace_state(replace_state(state, v), v) == replace_state(state, v),
{
}

} // verus!
