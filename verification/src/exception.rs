//! The two-level exception taxonomy: bus-level faults, the architectural
//! RISC-V exceptions, and the system-level mirror handed to the outer driver.

use vstd::prelude::*;

verus! {

/// A fault raised by the bus or a device on a memory access.
#[derive(Debug, Clone, Copy, PartialEq, Eq, Structural)]
pub enum BusException {
    LoadAddressMisaligned,
    LoadAccessFault,
    StoreAddressMisaligned,
    StoreAccessFault,
}

/// An architectural RISC-V exception.  The page-fault kinds exist in the
/// taxonomy but are never raised: no address translation is modeled.
#[derive(Debug, Clone, Copy, PartialEq, Eq, Structural)]
pub enum RvException {
    InstructionAddressMisaligned,
    InstructionAccessFault,
    InstructionIllegal,
    Breakpoint,
    LoadAddressMisaligned,
    LoadAccessFault,
    StoreAddressMisaligned,
    StoreAccessFault,
    EnvironmentCallUMode,
    EnvironmentCallSMode,
    InstructionPageFault,
    LoadPageFault,
    StorePageFault,
}

/// The system-level exception reported by the SoC, mirroring [`RvException`]
/// one-to-one.
#[derive(Debug, Clone, Copy, PartialEq, Eq, Structural)]
pub enum VsocException {
    InstructionAddressMisaligned,
    InstructionAccessFault,
    InstructionIllegal,
    Breakpoint,
    LoadAddressMisaligned,
    LoadAccessFault,
    StoreAddressMisaligned,
    StoreAccessFault,
    EnvironmentCallUMode,
    EnvironmentCallSMode,
    InstructionPageFault,
    LoadPageFault,
    StorePageFault,
}

/// The system-level exception that mirrors an architectural one.
pub open spec fn convert_spec(e: RvException) -> VsocException {
    match e {
        RvException::InstructionAddressMisaligned => VsocException::InstructionAddressMisaligned,
        RvException::InstructionAccessFault => VsocException::InstructionAccessFault,
        RvException::InstructionIllegal => VsocException::InstructionIllegal,
        RvException::Breakpoint => VsocException::Breakpoint,
        RvException::LoadAddressMisaligned => VsocException::LoadAddressMisaligned,
        RvException::LoadAccessFault => VsocException::LoadAccessFault,
        RvException::StoreAddressMisaligned => VsocException::StoreAddressMisaligned,
        RvException::StoreAccessFault => VsocException::StoreAccessFault,
        RvException::EnvironmentCallUMode => VsocException::EnvironmentCallUMode,
        RvException::EnvironmentCallSMode => VsocException::EnvironmentCallSMode,
        RvException::InstructionPageFault => VsocException::InstructionPageFault,
        RvException::LoadPageFault => VsocException::LoadPageFault,
        RvException::StorePageFault => VsocException::StorePageFault,
    }
}

/// The architectural exception for a bus fault, same kind and direction.
pub open spec fn from_bus_spec(e: BusException) -> RvException {
    match e {
        BusException::LoadAddressMisaligned => RvException::LoadAddressMisaligned,
        BusException::LoadAccessFault => RvException::LoadAccessFault,
        BusException::StoreAddressMisaligned => RvException::StoreAddressMisaligned,
        BusException::StoreAccessFault => RvException::StoreAccessFault,
    }
}

impl RvException {
    /// Maps this architectural exception to the system-level taxonomy.
    pub fn convert(&self) -> (r: VsocException)
        ensures
            r == convert_spec(*self),
    {
        match self {
            RvException::InstructionAddressMisaligned => VsocException::InstructionAddressMisaligned,
            RvException::InstructionAccessFault => VsocException::InstructionAccessFault,
            RvException::InstructionIllegal => VsocException::InstructionIllegal,
            RvException::Breakpoint => VsocException::Breakpoint,
            RvException::LoadAddressMisaligned => VsocException::LoadAddressMisaligned,
            RvException::LoadAccessFault => VsocException::LoadAccessFault,
            RvException::StoreAddressMisaligned => VsocException::StoreAddressMisaligned,
            RvException::StoreAccessFault => VsocException::StoreAccessFault,
            RvException::EnvironmentCallUMode => VsocException::EnvironmentCallUMode,
            RvException::EnvironmentCallSMode => VsocException::EnvironmentCallSMode,
            RvException::InstructionPageFault => VsocException::InstructionPageFault,
            RvException::LoadPageFault => VsocException::LoadPageFault,
            RvException::StorePageFault => VsocException::StorePageFault,
        }
    }

    /// Converts a bus fault raised while executing a load or store.
    pub fn from_bus(e: BusException) -> (r: RvException)
        ensures
            r == from_bus_spec(e),
    {
        match e {
            BusException::LoadAddressMisaligned => RvException::LoadAddressMisaligned,
            BusException::LoadAccessFault => RvException::LoadAccessFault,
            BusException::StoreAddressMisaligned => RvException::StoreAddressMisaligned,
            BusException::StoreAccessFault => RvException::StoreAccessFault,
        }
    }

    /// A short diagnostic name for the exception.
    pub fn name(&self) -> (r: &'static str) {
        match self {
            RvException::InstructionAddressMisaligned => "InstructionAddressMisaligned",
            RvException::InstructionAccessFault => "InstructionAccessFault",
            RvException::InstructionIllegal => "InstructionIllegal",
            RvException::Breakpoint => "Breakpoint",
            RvException::LoadAddressMisaligned => "LoadAddressMisaligned",
            RvException::LoadAccessFault => "LoadAccessFault",
            RvException::StoreAddressMisaligned => "StoreAddressMisaligned",
            RvException::StoreAccessFault => "StoreAccessFault",
            RvException::EnvironmentCallUMode => "EnvironmentCallUMode",
            RvException::EnvironmentCallSMode => "EnvironmentCallSMode",
            RvException::InstructionPageFault => "InstructionPageFault",
            RvException::LoadPageFault => "LoadPageFault",
            RvException::StorePageFault => "StorePageFault",
        }
    }
}

impl VsocException {
    /// A short diagnostic name for the exception.
    pub fn name(&self) -> (r: &'static str) {
        match self {
            VsocException::InstructionAddressMisaligned => "InstructionAddressMisaligned",
            VsocException::InstructionAccessFault => "InstructionAccessFault",
            VsocException::InstructionIllegal => "InstructionIllegal",
            VsocException::Breakpoint => "Breakpoint",
            VsocException::LoadAddressMisaligned => "LoadAddressMisaligned",
            VsocException::LoadAccessFault => "LoadAccessFault",
            VsocException::StoreAddressMisaligned => "StoreAddressMisaligned",
            VsocException::StoreAccessFault => "StoreAccessFault",
            VsocException::EnvironmentCallUMode => "EnvironmentCallUMode",
            VsocException::EnvironmentCallSMode => "EnvironmentCallSMode",
            VsocException::InstructionPageFault => "InstructionPageFault",
            VsocException::LoadPageFault => "LoadPageFault",
            VsocException::StorePageFault => "StorePageFault",
        }
    }
}

} // verus!
