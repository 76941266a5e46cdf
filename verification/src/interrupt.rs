//! The supervisor interrupt causes of the taxonomy.  Nothing raises them in
//! the current semantics: no interrupt controller is modeled.

use vstd::prelude::*;

verus! {

/// A supervisor-level interrupt cause.
#[derive(Debug, Clone, Copy, PartialEq, Eq, Structural)]
pub enum RvInterrupt {
    SupervisorSwInt,
    SupervisorTimerInt,
    SupervisorExternalInt,
}

impl RvInterrupt {
    /// A short diagnostic name for the interrupt cause.
    pub fn name(&self) -> (r: &'static str) {
        match self {
            RvInterrupt::SupervisorSwInt => "SupervisorSw",
            RvInterrupt::SupervisorTimerInt => "SupervisorTimer",
            RvInterrupt::SupervisorExternalInt => "SupervisorExternal",
        }
    }
}

} // verus!
