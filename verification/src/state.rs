//! The CPU lifecycle states driven by the hosting system.

use vstd::prelude::*;

verus! {

/// The lifecycle of a CPU: created, loaded, running, and the two stopped
/// states reachable through `halt` and `shutdown`.
#[derive(Debug, Clone, Copy, PartialEq, Eq, Structural)]
pub enum State {
    Unknown,
    Initialised,
    Loaded,
    Running,
    Halted,
    Shutdown,
}

impl State {
    /// A short diagnostic name for the state.
    pub fn name(&self) -> (r: &'static str) {
        match self {
            State::Unknown => "Unknown",
            State::Initialised => "Initialised",
            State::Loaded => "Loaded",
            State::Running => "Running",
            State::Halted => "Halted",
            State::Shutdown => "Shutdown",
        }
    }
}

} // verus!
