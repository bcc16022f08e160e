//! Immutable transition value.
use vstd::prelude::*;

verus! {

/// A directed transition `source --event--> target` in a finite state machine.
#[derive(Debug, Clone, Copy, PartialEq, Eq, Hash)]
pub struct Transition<S, E> {
    /// State required before the transition.
    source: S,
    /// Event that selects the transition.
    event: E,
    /// State installed after the transition.
    target: S,
}

impl<S, E> View for Transition<S, E> {
    /// A transition is the triple `(source, event, target)`.
    type V = (S, E, S);

    closed spec fn view(&self) -> (S, E, S) {
        (self.source, self.event, self.target)
    }
}

/// Two transitions are the same value exactly when they have the same
/// source, event and target.
pub proof fn lemma_transition_identity<S, E>(a: Transition<S, E>, b: Transition<S, E>)
    ensures
        (a == b) <==> (a@ == b@),
{
}

impl<S: Copy, E: Copy> Transition<S, E> {
    /// Creates a transition from `source` to `target` triggered by `event`.
    pub fn new(source: S, event: E, target: S) -> (t: Self)
        ensures
            t@ == (source, event, target),
    {
        Transition { source, event, target }
    }

    /// Returns the source state.
    pub fn source(&self) -> (s: S)
        ensures
            s == self@.0,
    {
        self.source
    }

    /// Returns the triggering event.
    pub fn event(&self) -> (e: E)
        ensures
            e == self@.1,
    {
        self.event
    }

    /// Returns the target state.
    pub fn target(&self) -> (s: S)
        ensures
            s == self@.2,
    {
        self.target
    }
}

} // verus!
