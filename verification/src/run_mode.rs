//! The run mode: a two-state flag, external to the simulation itself,
//! that an orchestrating loop consults to decide whether to tick the
//! universe on a given frame.

use vstd::prelude::*;

verus! {

/// Whether the orchestrating loop should advance the simulation.
#[derive(Copy, Clone, Debug, PartialEq, Eq, Structural)]
pub enum State {
    Paused,
    Playing,
}

/// The state a toggle moves to: Paused and Playing swap.
pub open spec fn toggled(s: State) -> State {
    match s {
        State::Paused => State::Playing,
        State::Playing => State::Paused,
    }
}

/// Holder of the run mode for one session; starts paused and flips on
/// every toggle, with no terminal state.
pub struct GameOfLife {
    state: State,
}

impl GameOfLife {
    /// The current run mode.
    pub closed spec fn spec_state(&self) -> State {
        self.state
    }

    /// A fresh session starts paused.
    pub fn new() -> (r: GameOfLife)
        ensures
            r.spec_state() == State::Paused,
    {
        GameOfLife { state: State::Paused }
    }

    /// Flips between Paused and Playing.
    pub fn toggle_state(&mut self)
        ensures
            final(self).spec_state() == toggled(old(self).spec_state()),
    {
        self.state = match self.state {
            State::Paused => State::Playing,
            State::Playing => State::Paused,
        }
    }

    /// The current run mode.
    pub fn state(&self) -> (r: State)
        ensures
            r == self.spec_state(),
    {
        self.state
    }
}

} // verus!
