//! The architecture interface: one fetch-decode-execute step against a bus.

use vstd::prelude::*;

verus! {

use crate::bus::{Bus, bus_inv};
use crate::exception::RvException;

/// A processor core that the CPU shell can drive one step at a time.
pub trait ArchInterface {
    /// The core's architectural invariant, preserved by every step.
    spec fn arch_inv(&self) -> bool;

    /// Executes one instruction cycle against the bus.
    fn step(&mut self, bus: &mut Bus) -> (r: Option<RvException>)
        requires
            old(self).arch_inv(),
            bus_inv(old(bus)@),
        ensures
            final(self).arch_inv(),
            bus_inv(final(bus)@),
    ;
}

} // verus!
