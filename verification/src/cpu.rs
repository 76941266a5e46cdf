//! The CPU shell: a lifecycle state around the architecture core.

use vstd::prelude::*;

verus! {

use crate::bus::{Bus, bus_inv};
use crate::exception::{RvException, VsocException, convert_spec};
use crate::registers::RvRegisters;
use crate::hart::{Rv, valid_arch, width_of, ext_of};
use crate::state::State;

/// The processor core variants the shell can drive.
#[derive(Debug)]
pub enum CpuCore {
    CoreRv(Rv),
}

/// A CPU: its description string, lifecycle state and core.
#[derive(Debug)]
pub struct Cpu {
    pub desc: String,
    pub state: State,
    pub core: CpuCore,
}

impl Cpu {
    /// The core's architectural well-formedness.
    pub open spec fn wf(&self) -> bool {
        match self.core {
            CpuCore::CoreRv(h) => h.wf(),
        }
    }

    /// The hart inside the core.
    pub open spec fn hart(&self) -> Rv {
        match self.core {
            CpuCore::CoreRv(h) => h,
        }
    }

    /// Builds a CPU around a hart constructed from the description.
    pub fn new(desc: String) -> (r: Cpu)
        requires
            valid_arch(desc@),
        ensures
            r.wf(),
            r.state == State::Initialised,
            r.hart().xlen == width_of(desc@),
            r.hart().extensions == ext_of(desc@),
            r.hart().pc.val() == 0,
    {
        let core = Rv::new(desc.as_str());
        Cpu { desc, state: State::Initialised, core: CpuCore::CoreRv(core) }
    }

    /// Resets the program counter of the core.
    pub fn set_pc(&mut self, pc: u128)
        requires
            old(self).wf(),
        ensures
            final(self).wf(),
            final(self).hart().pc.val() == pc as nat % vstd::arithmetic::power2::pow2(
                old(self).hart().xlen as nat,
            ),
            final(self).state == old(self).state,
            final(self).hart().xlen == old(self).hart().xlen,
            final(self).hart().extensions == old(self).hart().extensions,
            final(self).hart().x == old(self).hart().x,
    {
        match &mut self.core {
            CpuCore::CoreRv(core) => core.set_pc(pc),
        }
    }

    /// One instruction cycle: the core steps per [`Rv::step_post`] and any
    /// architectural exception comes back converted to the system taxonomy.
    pub fn step(&mut self, bus: &mut Bus) -> (r: Option<VsocException>)
        requires
            old(self).wf(),
            bus_inv(old(bus)@),
        ensures
            final(self).wf(),
            bus_inv(final(bus)@),
            final(self).hart().val_x0() == 0,
            final(self).state == old(self).state,
            final(self).desc == old(self).desc,
            exists|rr: Option<RvException>|
                #[trigger] Rv::step_post(
                    &old(self).hart(),
                    &final(self).hart(),
                    old(bus)@,
                    final(bus)@,
                    rr,
                ) && r == (match rr {
                    Some(e) => Some(convert_spec(e)),
                    None => None::<VsocException>,
                }),
    {
        match &mut self.core {
            CpuCore::CoreRv(core) => {
                let res = core.step(bus);
                let ghost rr = res;
                let out: Option<VsocException> = match res {
                    Some(e) => Some(e.convert()),
                    None => None,
                };
                proof {
                    assert(Rv::step_post(
                        &old(self).hart(),
                        &self.hart(),
                        old(bus)@,
                        bus@,
                        rr,
                    ));
                }
                out
            },
        }
    }

    /// The current lifecycle state.
    pub fn get_state(&self) -> (r: State)
        ensures
            r == self.state,
    {
        self.state
    }

    /// Moves the CPU to the halted state.
    pub fn halt(&mut self)
        ensures
            final(self).state == State::Halted,
            final(self).core == old(self).core,
            final(self).desc == old(self).desc,
    {
        self.state = State::Halted;
    }

    /// Moves a halted CPU back to the running state.
    pub fn resume(&mut self)
        ensures
            final(self).state == State::Running,
            final(self).core == old(self).core,
            final(self).desc == old(self).desc,
    {
        self.state = State::Running;
    }

    /// Moves the CPU to the shutdown state.
    pub fn shutdown(&mut self)
        ensures
            final(self).state == State::Shutdown,
            final(self).core == old(self).core,
            final(self).desc == old(self).desc,
    {
        self.state = State::Shutdown;
    }
}

} // verus!
