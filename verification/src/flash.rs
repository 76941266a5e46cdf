//! A byte-addressable memory device backed by 32-bit cells, used for both
//! the flash/ROM region and the RAM region of the default wiring.
//!
//! Accesses wider than one byte must be aligned (width-aligned up to four
//! bytes, word-aligned beyond); the device signals misalignment distinctly
//! from an out-of-range access.

use vstd::prelude::*;

verus! {

use vstd::arithmetic::power2::{pow2, lemma_pow2_pos, lemma2_to64};
use crate::exception::BusException;

/// The abstract state of a memory device: its byte length and its cells.
pub struct FlashView {
    pub length: nat,
    pub cells: Seq<u32>,
}

/// A memory of `length` bytes stored as `length` 32-bit cells (the byte at
/// address `a` lives in cell `a / 4` at bit offset `8 * (a % 4)`).
#[derive(Debug)]
pub struct Flash {
    pub length: usize,
    pub data: Vec<u32>,
}

impl View for Flash {
    type V = FlashView;

    open spec fn view(&self) -> FlashView {
        FlashView { length: self.length as nat, cells: self.data@ }
    }
}

/// The supported access widths for a fetch.
pub open spec fn flash_fetch_width_ok(width: nat) -> bool {
    width == 1 || width == 2 || width == 4 || width == 8
}

/// An access of `width` at `addr` is aligned when it does not cross a
/// width-sized (capped at one cell) boundary.
pub open spec fn flash_aligned(width: nat, addr: nat) -> bool {
    let align: nat = if width > 4 {
        4
    } else {
        width
    };
    align <= 1 || (addr % align == 0 && (addr + width) % align == 0)
}

/// Structural well-formedness: one cell per byte of declared length.
pub open spec fn flash_inv(fv: FlashView) -> bool {
    fv.cells.len() == fv.length
}

/// The byte stored at `addr`.
pub open spec fn flash_byte_at(fv: FlashView, addr: int) -> u8 {
    ((fv.cells[addr / 4] >> ((8 * (addr % 4)) as u32)) & 0xffu32) as u8
}

/// The value a legal fetch of `width` at `addr` returns.
pub open spec fn flash_fetch_val(fv: FlashView, width: nat, addr: int) -> nat {
    if width == 1 {
        flash_byte_at(fv, addr) as nat
    } else if width == 2 {
        ((fv.cells[addr / 4] >> ((8 * (addr % 4)) as u32)) & 0xffffu32) as nat
    } else if width == 4 {
        fv.cells[addr / 4] as nat
    } else {
        fv.cells[addr / 4] as nat + pow2(32) * (fv.cells[addr / 4 + 1] as nat)
    }
}

/// The fault a fetch raises, if any: out-of-range or unsupported widths are
/// access faults, misaligned accesses are misalignment faults.
pub open spec fn flash_fetch_err(fv: FlashView, width: nat, addr: nat) -> Option<BusException> {
    if addr + width > fv.length {
        Some(BusException::LoadAccessFault)
    } else if !flash_aligned(width, addr) {
        Some(BusException::LoadAddressMisaligned)
    } else if !flash_fetch_width_ok(width) {
        Some(BusException::LoadAccessFault)
    } else {
        None
    }
}

/// The fault a store raises, if any.
pub open spec fn flash_store_err(fv: FlashView, width: nat, addr: nat) -> Option<BusException> {
    if addr + width > fv.length {
        Some(BusException::StoreAccessFault)
    } else if !flash_aligned(width, addr) {
        Some(BusException::StoreAddressMisaligned)
    } else if !flash_fetch_width_ok(width) {
        Some(BusException::StoreAccessFault)
    } else {
        None
    }
}

/// The cell contents after a legal store of the value `v` at `addr`.
pub open spec fn flash_store_cells(fv: FlashView, width: nat, addr: int, v: nat) -> Seq<u32> {
    if width == 1 {
        let off = (8 * (addr % 4)) as u32;
        fv.cells.update(
            addr / 4,
            (fv.cells[addr / 4] & !(0xffu32 << off)) | (((v % 256) as u32) << off),
        )
    } else if width == 2 {
        let off = (8 * (addr % 4)) as u32;
        fv.cells.update(
            addr / 4,
            (fv.cells[addr / 4] & !(0xffffu32 << off)) | (((v % 0x10000) as u32) << off),
        )
    } else if width == 4 {
        fv.cells.update(addr / 4, (v % 0x100000000) as u32)
    } else {
        fv.cells.update(addr / 4, (v % 0x100000000) as u32).update(
            addr / 4 + 1,
            ((v / 0x100000000) % 0x100000000) as u32,
        )
    }
}

impl Flash {

    /// Creates a zero-filled memory of `length` bytes.
    pub fn new(length: usize) -> (r: Flash)
        ensures
            flash_inv(r@),
            r.length == length,
            forall|i: int| 0 <= i < length ==> r.data@[i] == 0,
    {
        Flash { length, data: vec![0u32; length] }
    }

    /// The extent of the device in bytes.
    pub fn size(&self) -> (r: usize)
        ensures
            r == self.length,
    {
        self.length
    }

    /// Reads one byte.
    pub(crate) fn fetch8(&self, addr: usize) -> (r: u8)
        requires
            flash_inv(self@),
            addr < self.length,
        ensures
            r == flash_byte_at(self@, addr as int),
    {
        let cell: usize = addr / 4;
        let off: u32 = (8 * (addr % 4)) as u32;
        let value = self.data[cell];
        ((value >> off) & 0xff) as u8
    }

    /// Reads an aligned half-word.
    pub(crate) fn fetch16(&self, addr: usize) -> (r: u16)
        requires
            flash_inv(self@),
            addr + 2 <= self.length,
        ensures
            r as nat == flash_fetch_val(self@, 2, addr as int),
    {
        let cell: usize = addr / 4;
        let off: u32 = (8 * (addr % 4)) as u32;
        let value = self.data[cell];
        proof {
            assert(((value >> off) & 0xffffu32) <= 0xffff) by (bit_vector);
        }
        ((value >> off) & 0xffff) as u16
    }

    /// Reads an aligned word.
    pub(crate) fn fetch32(&self, addr: usize) -> (r: u32)
        requires
            flash_inv(self@),
            addr + 4 <= self.length,
        ensures
            r as nat == flash_fetch_val(self@, 4, addr as int),
    {
        let cell: usize = addr / 4;
        self.data[cell]
    }

    /// Reads an aligned double word (two consecutive cells).
    pub(crate) fn fetch64(&self, addr: usize) -> (r: u64)
        requires
            flash_inv(self@),
            addr + 8 <= self.length,
            addr % 4 == 0,
        ensures
            r as nat == flash_fetch_val(self@, 8, addr as int),
    {
        let hi = self.fetch32(addr + 4);
        let lo = self.fetch32(addr);
        proof {
            lemma2_to64();
            assert((addr + 4) as int / 4 == addr as int / 4 + 1);
            let h = hi as u64;
            let l = lo as u64;
            assert((h <= 0xffffffff && l <= 0xffffffff) ==> (((h << 32u64) | l) == h * 0x100000000
                + l)) by (bit_vector);
        }
        ((hi as u64) << 32u64) | (lo as u64)
    }

    /// Writes one byte.
    pub(crate) fn store8(&mut self, addr: usize, value: u8)
        requires
            flash_inv(old(self)@),
            addr < old(self).length,
        ensures
            flash_inv(final(self)@),
            final(self).length == old(self).length,
            final(self).data@ == flash_store_cells(old(self)@, 1, addr as int, value as nat),
    {
        let cell: usize = addr / 4;
        let off: u32 = (8 * (addr % 4)) as u32;
        let masked = self.data[cell] & !(0xffu32 << off);
        let nv = masked | ((value as u32) << off);
        self.data.set(cell, nv);
        proof {
            vstd::arithmetic::div_mod::lemma_small_mod(value as nat, 256);
            assert(final(self).data@ =~= flash_store_cells(old(self)@, 1, addr as int, value as nat));
        }
    }

    /// Writes an aligned half-word.
    pub(crate) fn store16(&mut self, addr: usize, value: u16)
        requires
            flash_inv(old(self)@),
            addr + 2 <= old(self).length,
        ensures
            flash_inv(final(self)@),
            final(self).length == old(self).length,
            final(self).data@ == flash_store_cells(old(self)@, 2, addr as int, value as nat),
    {
        let cell: usize = addr / 4;
        let off: u32 = (8 * (addr % 4)) as u32;
        let masked = self.data[cell] & !(0xffffu32 << off);
        let nv = masked | ((value as u32) << off);
        self.data.set(cell, nv);
        proof {
            vstd::arithmetic::div_mod::lemma_small_mod(value as nat, 0x10000);
            assert(final(self).data@ =~= flash_store_cells(old(self)@, 2, addr as int, value as nat));
        }
    }

    /// Writes an aligned word.
    pub(crate) fn store32(&mut self, addr: usize, value: u32)
        requires
            flash_inv(old(self)@),
            addr + 4 <= old(self).length,
        ensures
            flash_inv(final(self)@),
            final(self).length == old(self).length,
            final(self).data@ == flash_store_cells(old(self)@, 4, addr as int, value as nat),
    {
        let cell: usize = addr / 4;
        self.data.set(cell, value);
        proof {
            vstd::arithmetic::div_mod::lemma_small_mod(value as nat, 0x100000000);
            assert(final(self).data@ =~= flash_store_cells(old(self)@, 4, addr as int, value as nat));
        }
    }

    /// Writes an aligned double word across two cells, low half first.
    pub(crate) fn store64(&mut self, addr: usize, value: u64)
        requires
            flash_inv(old(self)@),
            addr + 8 <= old(self).length,
            addr % 4 == 0,
        ensures
            flash_inv(final(self)@),
            final(self).length == old(self).length,
            final(self).data@ == flash_store_cells(old(self)@, 8, addr as int, value as nat),
    {
        let lo = (value & 0xffffffffu64) as u32;
        let hi = (value >> 32u64) as u32;
        proof {
            let v = value;
            assert((v & 0xffffffffu64) == v % 0x100000000 && (v >> 32u64) == v / 0x100000000)
                by (bit_vector);
            assert((addr + 4) as int / 4 == addr as int / 4 + 1);
        }
        self.store32(addr, lo);
        self.store32(addr + 4, hi);
        proof {
            vstd::arithmetic::div_mod::lemma_mod_bound(value as int / 0x100000000, 0x100000000);
            vstd::arithmetic::div_mod::lemma_small_mod((value as nat) / 0x100000000, 0x100000000);
            assert(final(self).data@ =~= flash_store_cells(old(self)@, 8, addr as int, value as nat));
        }
    }
}

} // verus!
