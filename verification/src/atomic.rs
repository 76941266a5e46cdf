//! The atomic-reservation context: at most one outstanding load-reserved
//! reservation per hart, consumed by the next store-conditional.

use vstd::prelude::*;

verus! {

/// A single outstanding reservation (address and validity flag).
#[derive(Debug, Clone, Copy, PartialEq, Eq, Structural)]
pub struct AtomicCtx {
    pub xlen: usize,
    pub address: u64,
    pub valid: bool,
}

impl AtomicCtx {
    /// A fresh context with no reservation outstanding.
    pub fn new(xlen: usize) -> (r: Self)
        ensures
            r.xlen == xlen,
            !r.valid,
            r.address == 0,
    {
        AtomicCtx { xlen, address: 0, valid: false }
    }

    /// Places a reservation on `address`, replacing any outstanding one.
    pub fn reserve(&mut self, address: u64)
        ensures
            final(self).xlen == old(self).xlen,
            final(self).address == address,
            final(self).valid,
    {
        self.address = address;
        self.valid = true;
    }

    /// True exactly when a reservation is outstanding on `address`.
    pub fn check(&self, address: u64) -> (r: bool)
        ensures
            r == (self.valid && self.address == address),
    {
        if self.valid && self.address == address {
            true
        } else {
            false
        }
    }

    /// Clears any outstanding reservation.
    pub fn release(&mut self)
        ensures
            final(self).xlen == old(self).xlen,
            final(self).address == 0,
            !final(self).valid,
    {
        self.address = 0;
        self.valid = false;
    }
}

} // verus!
