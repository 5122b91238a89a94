//! The lifecycle state of a task, totally ordered for grouping.

use vstd::prelude::*;

verus! {

/// A task's lifecycle state. The declaration order is the canonical grouping
/// order used when a project's tasks are re-sorted: ONGOING first, then TODO,
/// then DONE.
#[derive(PartialEq, Eq, Structural, Copy, Clone, Debug)]
pub enum State {
    ONGOING,
    TODO,
    DONE,
}

/// The rank of a state in the canonical grouping order.
pub open spec fn state_rank(s: State) -> int {
    match s {
        State::ONGOING => 0,
        State::TODO => 1,
        State::DONE => 2,
    }
}

impl State {
    /// The state one step further along the lifecycle, clamped at DONE.
    pub fn next(&self) -> (r: State)
        ensures
            r == self.spec_next(),
    {
        match self {
            State::TODO => State::ONGOING,
            State::ONGOING => State::DONE,
            State::DONE => State::DONE,
        }
    }

    /// The state one step back in the lifecycle, clamped at TODO.
    pub fn previous(&self) -> (r: State)
        ensures
            r == self.spec_previous(),
    {
        match self {
            State::TODO => State::TODO,
            State::ONGOING => State::TODO,
            State::DONE => State::ONGOING,
        }
    }

    pub open spec fn spec_next(self) -> State {
        match self {
            State::TODO => State::ONGOING,
            State::ONGOING => State::DONE,
            State::DONE => State::DONE,
        }
    }

    pub open spec fn spec_previous(self) -> State {
        match self {
            State::TODO => State::TODO,
            State::ONGOING => State::TODO,
            State::DONE => State::ONGOING,
        }
    }
}

} // verus!
