//! The active RISC-V extension set: capability flags checked at dispatch
//! time, and the MISA bit positions used to report them.

use vstd::prelude::*;

verus! {

pub const EXT_A: u32 = 1 << 0;

pub const EXT_C: u32 = 1 << 2;

pub const EXT_D: u32 = 1 << 3;

pub const EXT_E: u32 = 1 << 4;

pub const EXT_F: u32 = 1 << 5;

/// Hypervisor mode.
pub const EXT_H: u32 = 1 << 7;

pub const EXT_I: u32 = 1 << 8;

pub const EXT_M: u32 = 1 << 12;

pub const EXT_Q: u32 = 1 << 16;

/// Supervisor mode.
pub const EXT_S: u32 = 1 << 18;

/// User mode.
pub const EXT_U: u32 = 1 << 20;

pub const EXT_V: u32 = 1 << 21;

pub const EXT_X: u32 = 1 << 23;

/// The extension flags a hart was constructed with.  Each flag gates the
/// legality of one instruction family or CSR group.
#[derive(Debug, Clone, Copy, PartialEq, Eq, Structural)]
pub struct RvExtensions {
    pub i: bool,
    pub e: bool,
    pub m: bool,
    pub f: bool,
    pub d: bool,
    pub q: bool,
    pub s: bool,
    pub h: bool,
    pub u: bool,
    pub c: bool,
    /// Load-reserved / store-conditional (part of A).
    pub zalrsc: bool,
    /// Read-modify-write atomics (part of A).
    pub zamo: bool,
    /// Compare-and-swap atomics (part of A).
    pub zacas: bool,
    pub zicsr: bool,
    pub zifencei: bool,
    pub zmmul: bool,
    pub zicntr: bool,
    pub zihpm: bool,
}

impl RvExtensions {
    /// The extension set with every flag cleared.
    pub fn none() -> (r: Self)
        ensures
            !r.i && !r.e && !r.m && !r.f && !r.d && !r.q && !r.s && !r.h && !r.u && !r.c,
            !r.zalrsc && !r.zamo && !r.zacas,
            !r.zicsr && !r.zifencei && !r.zmmul && !r.zicntr && !r.zihpm,
    {
        RvExtensions {
            i: false,
            e: false,
            m: false,
            f: false,
            d: false,
            q: false,
            s: false,
            h: false,
            u: false,
            c: false,
            zalrsc: false,
            zamo: false,
            zacas: false,
            zicsr: false,
            zifencei: false,
            zmmul: false,
            zicntr: false,
            zihpm: false,
        }
    }
}

} // verus!
