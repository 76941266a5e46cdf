//! Instruction classification and bit-field extraction.
//!
//! A fetched word is classified by its low two bits into a 32-bit instruction
//! or one of the 16-bit compressed shapes (whose execution is not
//! implemented: dispatch on them signals an illegal instruction).  Field
//! extraction is pure bit-slicing; the immediates are specified as
//! two's-complement values of the assembled bit patterns.

pub mod amo;
pub mod auipc;
pub mod branch;
pub mod load;
pub mod lui;
pub mod op;
pub mod opimm;
pub mod store;
pub mod system;

use vstd::prelude::*;

verus! {

use vstd::arithmetic::power2::{pow2, lemma_pow2_pos, lemma2_to64, lemma_pow2_adds};
use vstd::bits::{lemma_u32_shr_is_div, lemma_u32_low_bits_mask_is_mod, low_bits_mask};
use crate::uint::{le_val, to_signed, le_low128};

/// The `n` bits of `i` starting at bit `lo`, as a natural number.
pub open spec fn bits_of(i: u32, lo: nat, n: nat) -> nat {
    ((i as nat) / pow2(lo)) % pow2(n)
}

/// The I-type immediate: bits 31:20, sign-extended from 12 bits.
pub open spec fn i_imm_spec(i: u32) -> int {
    to_signed(bits_of(i, 20, 12), 12)
}

/// The S-type immediate: bits 31:25 over bits 11:7, sign-extended from 12 bits.
pub open spec fn s_imm_spec(i: u32) -> int {
    to_signed(bits_of(i, 25, 7) * pow2(5) + bits_of(i, 7, 5), 12)
}

/// The B-type immediate: a 13-bit branch offset with a zero low bit.
pub open spec fn b_imm_spec(i: u32) -> int {
    to_signed(
        bits_of(i, 31, 1) * pow2(12) + bits_of(i, 7, 1) * pow2(11) + bits_of(i, 25, 6) * pow2(5)
            + bits_of(i, 8, 4) * pow2(1),
        13,
    )
}

/// The U-type immediate: bits 31:12 shifted into the upper 20 bits.
pub open spec fn u_imm_spec(i: u32) -> int {
    to_signed(bits_of(i, 12, 20) * pow2(12), 32)
}

/// The J-type immediate: a 21-bit jump offset with a zero low bit.
pub open spec fn j_imm_spec(i: u32) -> int {
    to_signed(
        bits_of(i, 31, 1) * pow2(20) + bits_of(i, 12, 8) * pow2(12) + bits_of(i, 20, 1) * pow2(11)
            + bits_of(i, 21, 10) * pow2(1),
        21,
    )
}

/// A classified instruction word: one 32-bit shape, three compressed 16-bit
/// shapes, and the invalid (reserved longer-encoding) shape.
#[derive(Debug, Clone, Copy, PartialEq, Eq, Structural)]
pub enum Instr {
    Invalid,
    InstrC0(u16),
    InstrC1(u16),
    InstrC2(u16),
    Instr32(u32),
}

/// Classification of a raw word by its low two bits; `11` selects a 32-bit
/// instruction unless bits 4:2 are `111` (reserved for longer encodings).
pub open spec fn classify_spec(raw: u32) -> Instr {
    if raw % 4 == 3 {
        if (raw / 4) % 8 == 7 {
            Instr::Invalid
        } else {
            Instr::Instr32(raw)
        }
    } else if raw % 4 == 2 {
        Instr::InstrC2((raw % 0x10000) as u16)
    } else if raw % 4 == 1 {
        Instr::InstrC1((raw % 0x10000) as u16)
    } else {
        Instr::InstrC0((raw % 0x10000) as u16)
    }
}

/// Extracts the `n`-bit field of `i` starting at bit `lo`.
pub fn field(i: u32, lo: u32, n: u32) -> (r: u32)
    requires
        lo < 32,
        0 < n <= 31,
    ensures
        r as nat == bits_of(i, lo as nat, n as nat),
        r < pow2(n as nat),
{
    proof {
        vstd::bits::lemma_u32_pow2_no_overflow(n as nat);
        vstd::bits::lemma_u32_shl_is_mul(1u32, n);
        lemma_pow2_pos(n as nat);
    }
    let mask: u32 = (1u32 << n) - 1;
    let shifted = i >> lo;
    proof {
        lemma_u32_shr_is_div(i, lo);
        assert(mask as nat == low_bits_mask(n as nat));
        lemma_u32_low_bits_mask_is_mod(shifted, n as nat);
    }
    shifted & mask
}

impl Instr {
    /// Classifies a raw 32-bit word by its low two bits.
    pub fn new(raw_instr: u32) -> (r: Instr)
        ensures
            r == classify_spec(raw_instr),
    {
        let low = raw_instr % 4;
        if low == 3 {
            if (raw_instr / 4) % 8 == 7 {
                return Instr::Invalid;
            }
            Instr::Instr32(raw_instr)
        } else if low == 2 {
            Instr::InstrC2((raw_instr % 0x10000) as u16)
        } else if low == 1 {
            Instr::InstrC1((raw_instr % 0x10000) as u16)
        } else {
            Instr::InstrC0((raw_instr % 0x10000) as u16)
        }
    }

    /// Wraps four fetched little-endian bytes as an (unclassified) 32-bit
    /// instruction; any other byte count is invalid.
    pub fn from_bytes(v: &Vec<u8>) -> (r: Instr)
        ensures
            v@.len() == 4 ==> r == Instr::Instr32((le_val(v@) % pow2(32)) as u32),
            v@.len() != 4 ==> r == Instr::Invalid,
    {
        if v.len() != 4 {
            return Instr::Invalid;
        }
        proof {
            vstd::arithmetic::power2::lemma_pow2_pos(32);
            crate::uint::lemma_pow2_halves();
            vstd::arithmetic::div_mod::lemma_mod_bound(le_val(v@) as int, pow2(32) as int);
        }
        let raw = le_low128(v, 4) as u32;
        Instr::Instr32(raw)
    }

    /// The raw bits of the classified word.
    pub fn get_raw(&self) -> (r: u32)
        requires
            !(self is Invalid),
        ensures
            self matches Instr::Instr32(i) ==> r == *i,
            self matches Instr::InstrC0(i) ==> r == *i as u32,
            self matches Instr::InstrC1(i) ==> r == *i as u32,
            self matches Instr::InstrC2(i) ==> r == *i as u32,
    {
        match self {
            Instr::InstrC0(v) => *v as u32,
            Instr::InstrC1(v) => *v as u32,
            Instr::InstrC2(v) => *v as u32,
            Instr::Instr32(v) => *v,
            Instr::Invalid => 0,
        }
    }

    /// The major opcode: bits 6:2.
    pub fn get_opcode(&self) -> (r: usize)
        requires
            !(self is Invalid),
        ensures
            self matches Instr::Instr32(i) ==> r as nat == bits_of(*i, 2, 5),
    {
        let raw = self.get_raw();
        field(raw, 2, 5) as usize
    }

    /// The destination register: bits 11:7.
    pub fn get_rd(&self) -> (r: usize)
        requires
            !(self is Invalid),
        ensures
            self matches Instr::Instr32(i) ==> r as nat == bits_of(*i, 7, 5),
            r < 32,
    {
        proof {
            lemma2_to64();
        }
        let raw = self.get_raw();
        field(raw, 7, 5) as usize
    }

    /// The first source register: bits 19:15 of a 32-bit word.
    pub fn get_rs1(&self) -> (r: usize)
        requires
            !(self is Invalid),
        ensures
            self matches Instr::Instr32(i) ==> r as nat == bits_of(*i, 15, 5),
            r < 32,
    {
        proof {
            lemma2_to64();
        }
        let raw = self.get_raw();
        match self {
            Instr::Instr32(_) => field(raw, 15, 5) as usize,
            _ => field(raw, 7, 5) as usize,
        }
    }

    /// The second source register: bits 24:20 of a 32-bit word.
    pub fn get_rs2(&self) -> (r: usize)
        requires
            !(self is Invalid),
        ensures
            self matches Instr::Instr32(i) ==> r as nat == bits_of(*i, 20, 5),
            r < 32,
    {
        proof {
            lemma2_to64();
        }
        let raw = self.get_raw();
        match self {
            Instr::Instr32(_) => field(raw, 20, 5) as usize,
            _ => field(raw, 2, 5) as usize,
        }
    }

    /// The compressed-form rd' field (decode placeholder).
    pub fn get_rd_prime(&self) -> (r: usize)
        requires
            self is InstrC0 || self is InstrC1 || self is InstrC2,
    {
        let raw = self.get_raw();
        field(raw, 2, 2) as usize
    }

    /// The compressed-form rs1' field (decode placeholder).
    pub fn get_rs1_prime(&self) -> (r: usize)
        requires
            self is InstrC0 || self is InstrC1 || self is InstrC2,
    {
        let raw = self.get_raw();
        field(raw, 7, 2) as usize
    }

    /// The compressed-form rs2' field (decode placeholder).
    pub fn get_rs2_prime(&self) -> (r: usize)
        requires
            self is InstrC0 || self is InstrC1 || self is InstrC2,
    {
        let raw = self.get_raw();
        field(raw, 2, 2) as usize
    }

    /// The minor opcode funct3: bits 14:12 of a 32-bit word.
    pub fn get_funct3(&self) -> (r: usize)
        requires
            !(self is Invalid),
        ensures
            self matches Instr::Instr32(i) ==> r as nat == bits_of(*i, 12, 3),
            r < 8,
    {
        proof {
            lemma2_to64();
        }
        let raw = self.get_raw();
        match self {
            Instr::Instr32(_) => field(raw, 12, 3) as usize,
            _ => (((field(raw, 13, 3) as usize) / 2) % 2) * 2,
        }
    }

    /// The compressed-form funct4 field (decode placeholder).
    pub fn get_funct4(&self) -> (r: usize)
        requires
            self is InstrC0 || self is InstrC1 || self is InstrC2,
    {
        let raw = self.get_raw();
        field(raw, 11, 4) as usize
    }

    /// The funct5 field: bits 31:27 of a 32-bit word.
    pub fn get_funct5(&self) -> (r: usize)
        requires
            self is Instr32,
        ensures
            self matches Instr::Instr32(i) ==> r as nat == bits_of(*i, 27, 5),
            r < 32,
    {
        proof {
            lemma2_to64();
        }
        let raw = self.get_raw();
        field(raw, 27, 5) as usize
    }

    /// The compressed-form funct6 field (decode placeholder).
    pub fn get_funct6(&self) -> (r: usize)
        requires
            self is InstrC0 || self is InstrC1 || self is InstrC2,
    {
        let raw = self.get_raw();
        field(raw, 10, 6) as usize
    }

    /// The funct7 field: bits 31:25 of a 32-bit word.
    pub fn get_funct7(&self) -> (r: usize)
        requires
            self is Instr32,
        ensures
            self matches Instr::Instr32(i) ==> r as nat == bits_of(*i, 25, 7),
            r < 128,
    {
        proof {
            lemma2_to64();
        }
        let raw = self.get_raw();
        field(raw, 25, 7) as usize
    }

    /// The funct12 field: bits 31:20 of a 32-bit word.
    pub fn get_funct12(&self) -> (r: usize)
        requires
            self is Instr32,
        ensures
            self matches Instr::Instr32(i) ==> r as nat == bits_of(*i, 20, 12),
            r < 4096,
    {
        proof {
            lemma2_to64();
        }
        let raw = self.get_raw();
        field(raw, 20, 12) as usize
    }

    /// The shift amount for immediate shifts: bits 25:20.
    pub fn get_shamt(&self) -> (r: usize)
        requires
            self is Instr32,
        ensures
            self matches Instr::Instr32(i) ==> r as nat == bits_of(*i, 20, 6),
            r < 64,
    {
        proof {
            lemma2_to64();
        }
        let raw = self.get_raw();
        field(raw, 20, 6) as usize
    }

    /// The raw bit range `last:first`, shifted down to bit zero.
    pub fn get_imm(&self, last: usize, first: usize) -> (r: u32)
        requires
            self is Instr32,
            first <= last < 32,
        ensures
            self matches Instr::Instr32(i) ==> r as nat == bits_of(
                *i,
                first as nat,
                (last + 1 - first) as nat,
            ),
    {
        let raw = self.get_raw();
        if first == 0 && last == 31 {
            proof {
                lemma2_to64();
                crate::uint::lemma_pow2_halves();
                lemma_small_mod(raw as nat, pow2(32));
                vstd::arithmetic::div_mod::lemma_div_basics(raw as int);
            }
            return raw;
        }
        field(raw, first as u32, (last + 1 - first) as u32)
    }

    /// The I-type immediate as a signed value.
    pub fn get_i_imm(&self) -> (r: i32)
        requires
            self is Instr32,
        ensures
            self matches Instr::Instr32(i) ==> r as int == i_imm_spec(*i),
    {
        proof {
            lemma2_to64();
        }
        let raw = self.get_raw();
        let m = field(raw, 20, 12);
        if m >= 0x800 {
            (m as i32) - 0x1000
        } else {
            m as i32
        }
    }

    /// The S-type immediate as a signed value.
    pub fn get_s_imm(&self) -> (r: i32)
        requires
            self is Instr32,
        ensures
            self matches Instr::Instr32(i) ==> r as int == s_imm_spec(*i),
    {
        proof {
            lemma2_to64();
        }
        let raw = self.get_raw();
        let m = field(raw, 25, 7) * 0x20 + field(raw, 7, 5);
        if m >= 0x800 {
            (m as i32) - 0x1000
        } else {
            m as i32
        }
    }

    /// The B-type immediate as a signed branch offset.
    pub fn get_b_imm(&self) -> (r: i32)
        requires
            self is Instr32,
        ensures
            self matches Instr::Instr32(i) ==> r as int == b_imm_spec(*i),
    {
        proof {
            lemma2_to64();
        }
        let raw = self.get_raw();
        let m = field(raw, 31, 1) * 0x1000 + field(raw, 7, 1) * 0x800 + field(raw, 25, 6) * 0x20
            + field(raw, 8, 4) * 0x2;
        if m >= 0x1000 {
            (m as i32) - 0x2000
        } else {
            m as i32
        }
    }

    /// The U-type immediate: upper 20 bits, as a signed 32-bit value.
    pub fn get_u_imm(&self) -> (r: i32)
        requires
            self is Instr32,
        ensures
            self matches Instr::Instr32(i) ==> r as int == u_imm_spec(*i),
    {
        proof {
            lemma2_to64();
        }
        let raw = self.get_raw();
        let m = field(raw, 12, 20);
        if m >= 0x80000 {
            i32::MIN + ((m - 0x80000) as i32) * 0x1000
        } else {
            (m as i32) * 0x1000
        }
    }

    /// The J-type immediate as a signed jump offset.
    pub fn get_j_imm(&self) -> (r: i32)
        requires
            self is Instr32,
        ensures
            self matches Instr::Instr32(i) ==> r as int == j_imm_spec(*i),
    {
        proof {
            lemma2_to64();
        }
        let raw = self.get_raw();
        let m = field(raw, 31, 1) * 0x100000 + field(raw, 12, 8) * 0x1000 + field(raw, 20, 1)
            * 0x800 + field(raw, 21, 10) * 0x2;
        if m >= 0x100000 {
            (m as i32) - 0x200000
        } else {
            m as i32
        }
    }
}

} // verus!

verus! {

use crate::registers::RvRegisters;
use crate::exception::RvException;
use crate::ext::RvExtensions;
use crate::csr::Csr;
use crate::atomic::AtomicCtx;
use crate::bus::{Bus, bus_inv};
use crate::hart::Rv;
use crate::uint::{Uint, lemma_val_u128_exact, lemma_pow2_halves};
use crate::alu::{enc, add_mod, sub_mod, imm_to_enc, decode_signed, lemma_enc_to_signed};
use crate::instr::op::{div_val, divu_val, rem_val, remu_val, mulh_val, mulhu_val, mulhsu_val};
use crate::instr::load::{eff_addr, load_result};
use crate::instr::amo::{lr_post, sc_post, cas_post, amo_rmw_post};
use crate::instr::system::{csrrw_post, csrrs_post, csrrc_post};
use crate::instr::store::store_bytes;
use crate::bus::{bus_fetch_spec, bus_store_spec};
use crate::exception::from_bus_spec;
use crate::uint::sext_val;
use vstd::arithmetic::div_mod::{lemma_small_mod, lemma_mod_bound, lemma_mod_multiples_vanish,
    lemma_add_mod_noop_right, lemma_add_mod_noop};

/// The taken/not-taken decision of the BRANCH family per its minor opcode.
pub open spec fn branch_taken(funct3: nat, a: nat, b: nat, w: nat) -> bool {
    if funct3 == 0 {
        a == b
    } else if funct3 == 1 {
        a != b
    } else if funct3 == 4 {
        to_signed(a, w) < to_signed(b, w)
    } else if funct3 == 5 {
        to_signed(a, w) >= to_signed(b, w)
    } else if funct3 == 6 {
        a < b
    } else {
        a >= b
    }
}

/// The access width in bytes of a LOAD-family instruction.
pub open spec fn load_width_of(funct3: nat) -> nat {
    if funct3 == 0 || funct3 == 4 {
        1
    } else if funct3 == 1 || funct3 == 5 {
        2
    } else if funct3 == 2 || funct3 == 6 {
        4
    } else {
        8
    }
}

/// Whether a LOAD-family instruction sign-extends what it fetched.
pub open spec fn load_signed(funct3: nat) -> bool {
    funct3 < 4
}

/// The exact condition under which the LOAD family rejects an encoding: a
/// register index past the file, the reserved funct3, or a load wider than
/// the 32-bit register width.
pub open spec fn load_illegal(i: u32, xlen: nat, count: nat) -> bool {
    let funct3 = bits_of(i, 12, 3);
    ||| bits_of(i, 7, 5) >= count
    ||| bits_of(i, 15, 5) >= count
    ||| funct3 == 7
    ||| (funct3 == 3 && xlen == 32)
    ||| (funct3 == 6 && xlen == 32)
}

/// The exact condition under which the STORE family rejects an encoding.
pub open spec fn store_illegal(i: u32, xlen: nat, count: nat) -> bool {
    let funct3 = bits_of(i, 12, 3);
    ||| bits_of(i, 15, 5) >= count
    ||| bits_of(i, 20, 5) >= count
    ||| funct3 > 3
    ||| (funct3 == 3 && xlen == 32)
}

/// The exact condition under which the AMO dispatcher rejects an encoding:
/// an unsupported access width (the quad width only exists for a Zacas
/// compare-and-swap on a wide-enough hart), a register index past the file,
/// a missing atomic sub-extension, or an unknown operation code.
pub open spec fn amo_illegal(i: u32, ext: RvExtensions, xlen: nat, count: nat) -> bool {
    let funct3 = bits_of(i, 12, 3);
    let op = bits_of(i, 25, 7) / 4;
    ||| (funct3 != 2 && funct3 != 3 && !(funct3 == 4 && op == 5))
    ||| (funct3 == 3 && xlen < 64)
    ||| (funct3 == 4 && xlen < 64)
    ||| bits_of(i, 7, 5) >= count
    ||| bits_of(i, 15, 5) >= count
    ||| bits_of(i, 20, 5) >= count
    ||| ((op == 2 || op == 3) && !ext.zalrsc)
    ||| (op == 5 && !ext.zacas)
    ||| ((op == 0 || op == 1 || op == 4 || op == 8 || op == 12 || op == 16 || op == 20 || op == 24
        || op == 28) && !ext.zamo)
    ||| !(op == 0 || op == 1 || op == 2 || op == 3 || op == 4 || op == 5 || op == 8 || op == 12
        || op == 16 || op == 20 || op == 24 || op == 28)
}

/// What the LOAD family does, keyed on its fields and the prior state.
pub open spec fn load_post(
    i: u32,
    pre_x: &RvRegisters,
    post_x: &RvRegisters,
    pre_bus: crate::bus::BusView,
    post_bus: crate::bus::BusView,
    r: Option<RvException>,
) -> bool {
    let rd = bits_of(i, 7, 5) as int;
    let rs1 = bits_of(i, 15, 5) as int;
    if load_illegal(i, pre_x.xlen as nat, pre_x.count as nat) {
        r == Some(RvException::InstructionIllegal) && *post_x == *pre_x && post_bus == pre_bus
    } else {
        let wd = load_width_of(bits_of(i, 12, 3));
        let addr = eff_addr(pre_x.val(rs1), i_imm_spec(i)) as u64;
        let (b1, fr) = bus_fetch_spec(pre_bus, wd, addr);
        post_bus == b1 && match fr {
            Ok(bytes) => r is None && RvRegisters::others_unchanged(pre_x, post_x, rd)
                && post_x.val(rd) == load_result(
                bytes,
                wd,
                pre_x.xlen as nat,
                load_signed(bits_of(i, 12, 3)),
            ),
            Err(e) => r == Some(from_bus_spec(e)) && *post_x == *pre_x,
        }
    }
}

/// What the STORE family does, keyed on its fields and the prior state.
pub open spec fn store_post(
    i: u32,
    pre_x: &RvRegisters,
    pre_bus: crate::bus::BusView,
    post_bus: crate::bus::BusView,
    r: Option<RvException>,
) -> bool {
    let rs1 = bits_of(i, 15, 5) as int;
    let rs2 = bits_of(i, 20, 5) as int;
    if store_illegal(i, pre_x.xlen as nat, pre_x.count as nat) {
        r == Some(RvException::InstructionIllegal) && post_bus == pre_bus
    } else {
        let wd = load_width_of(bits_of(i, 12, 3));
        let addr = eff_addr(pre_x.val(rs1), s_imm_spec(i)) as u64;
        let (b1, sr) = bus_store_spec(pre_bus, wd, addr, store_bytes(pre_x.val(rs2), wd));
        post_bus == b1 && match sr {
            None => r is None,
            Some(e) => r == Some(from_bus_spec(e)),
        }
    }
}

/// What the OP family does: the gating decision and the written value.
pub open spec fn opfam_post(
    i: u32,
    ext: RvExtensions,
    pre_x: &RvRegisters,
    post_x: &RvRegisters,
    r: Option<RvException>,
) -> bool {
    &&& (r matches Some(e) ==> e == RvException::InstructionIllegal && *post_x == *pre_x)
    &&& (r is Some <==> op_illegal(i, ext, pre_x.xlen as nat, pre_x.count as nat))
    &&& (r is None ==> RvRegisters::others_unchanged(pre_x, post_x, bits_of(i, 7, 5) as int)
        && post_x.val(bits_of(i, 7, 5) as int) == op_result(
        i,
        pre_x.xlen as nat,
        pre_x.val(bits_of(i, 15, 5) as int),
        pre_x.val(bits_of(i, 20, 5) as int),
    ))
}

/// What the OP-32 family does.
pub open spec fn op32fam_post(
    i: u32,
    ext: RvExtensions,
    pre_x: &RvRegisters,
    post_x: &RvRegisters,
    r: Option<RvException>,
) -> bool {
    &&& (r matches Some(e) ==> e == RvException::InstructionIllegal && *post_x == *pre_x)
    &&& (r is Some <==> op32_illegal(i, ext, pre_x.xlen as nat, pre_x.count as nat))
    &&& (r is None ==> RvRegisters::others_unchanged(pre_x, post_x, bits_of(i, 7, 5) as int)
        && post_x.val(bits_of(i, 7, 5) as int) == op32_result(
        i,
        pre_x.xlen as nat,
        pre_x.val(bits_of(i, 15, 5) as int),
        pre_x.val(bits_of(i, 20, 5) as int),
    ))
}

/// What the OP-IMM family does.
pub open spec fn opimmfam_post(
    i: u32,
    pre_x: &RvRegisters,
    post_x: &RvRegisters,
    r: Option<RvException>,
) -> bool {
    &&& (r matches Some(e) ==> e == RvException::InstructionIllegal && *post_x == *pre_x)
    &&& (r is Some <==> (bits_of(i, 7, 5) >= pre_x.count || bits_of(i, 15, 5) >= pre_x.count))
    &&& (r is None ==> RvRegisters::others_unchanged(pre_x, post_x, bits_of(i, 7, 5) as int)
        && post_x.val(bits_of(i, 7, 5) as int) == opimm_result(
        i,
        pre_x.xlen as nat,
        pre_x.val(bits_of(i, 15, 5) as int),
    ))
}

/// What the OP-IMM-32 family does.
pub open spec fn opimm32fam_post(
    i: u32,
    pre_x: &RvRegisters,
    post_x: &RvRegisters,
    r: Option<RvException>,
) -> bool {
    &&& (r matches Some(e) ==> e == RvException::InstructionIllegal && *post_x == *pre_x)
    &&& (r is Some <==> (pre_x.xlen == 32 || bits_of(i, 7, 5) >= pre_x.count || bits_of(i, 15, 5)
        >= pre_x.count || (bits_of(i, 12, 3) != 0 && bits_of(i, 12, 3) != 1 && bits_of(i, 12, 3)
        != 5)))
    &&& (r is None ==> RvRegisters::others_unchanged(pre_x, post_x, bits_of(i, 7, 5) as int)
        && post_x.val(bits_of(i, 7, 5) as int) == opimm32_result(
        i,
        pre_x.xlen as nat,
        pre_x.val(bits_of(i, 15, 5) as int),
    ))
}

/// What MISC-MEM does: validation only, both fence forms are no-ops.
pub open spec fn mem_post(i: u32, zifencei: bool, r: Option<RvException>) -> bool {
    let funct3 = bits_of(i, 12, 3);
    let fm = bits_of(i, 28, 4);
    if funct3 == 0 {
        if fm == 0 || fm == 8 {
            r is None
        } else {
            r == Some(RvException::InstructionIllegal)
        }
    } else if funct3 == 1 {
        if zifencei {
            r is None
        } else {
            r == Some(RvException::InstructionIllegal)
        }
    } else {
        r == Some(RvException::InstructionIllegal)
    }
}

/// What AUIPC does: `rd` receives pc plus the upper immediate, wrapped.
pub open spec fn auipc_post(
    i: u32,
    pre_x: &RvRegisters,
    post_x: &RvRegisters,
    pc: crate::uint::Uint,
    r: Option<RvException>,
) -> bool {
    let rd = bits_of(i, 7, 5) as int;
    &&& (r matches Some(e) ==> e == RvException::InstructionIllegal && *post_x == *pre_x)
    &&& (r is Some <==> rd >= pre_x.count)
    &&& (r is None ==> RvRegisters::others_unchanged(pre_x, post_x, rd) && post_x.val(rd) == enc(
        pc.val() + u_imm_spec(i),
        pre_x.xlen as nat,
    ))
}

/// What LUI does: `rd` receives the sign-extended upper immediate.
pub open spec fn lui_post(
    i: u32,
    pre_x: &RvRegisters,
    post_x: &RvRegisters,
    r: Option<RvException>,
) -> bool {
    let rd = bits_of(i, 7, 5) as int;
    &&& (r matches Some(e) ==> e == RvException::InstructionIllegal && *post_x == *pre_x)
    &&& (r is Some <==> rd >= pre_x.count)
    &&& (r is None ==> RvRegisters::others_unchanged(pre_x, post_x, rd) && post_x.val(rd)
        == sext_val(enc(u_imm_spec(i), 32), 32, pre_x.xlen as nat))
}

/// What BRANCH does: the funct3 condition decides between the B-immediate
/// offset and four; registers are never written.
pub open spec fn branch_post(
    i: u32,
    pre_x: &RvRegisters,
    post_x: &RvRegisters,
    res: Result<i128, RvException>,
) -> bool {
    let funct3 = bits_of(i, 12, 3);
    let rs1 = bits_of(i, 15, 5) as int;
    let rs2 = bits_of(i, 20, 5) as int;
    &&& *post_x == *pre_x
    &&& if funct3 == 2 || funct3 == 3 || rs1 >= pre_x.count || rs2 >= pre_x.count {
        res == Err::<i128, RvException>(RvException::InstructionIllegal)
    } else {
        res matches Ok(off) && off as int == if branch_taken(
            funct3,
            pre_x.val(rs1),
            pre_x.val(rs2),
            pre_x.xlen as nat,
        ) {
            b_imm_spec(i)
        } else {
            4
        }
    }
}

/// What JAL does: the link lands in `rd`, the offset is the J-immediate.
pub open spec fn jal_post(
    i: u32,
    pre_x: &RvRegisters,
    post_x: &RvRegisters,
    pc: crate::uint::Uint,
    res: Result<i128, RvException>,
) -> bool {
    let rd = bits_of(i, 7, 5) as int;
    &&& (res matches Err(e) ==> e == RvException::InstructionIllegal && *post_x == *pre_x)
    &&& (res is Err <==> rd >= pre_x.count)
    &&& (res matches Ok(off) ==> RvRegisters::others_unchanged(pre_x, post_x, rd) && post_x.val(rd)
        == enc(pc.val() as int + 4, pre_x.xlen as nat) && off as int == j_imm_spec(i))
}

/// What JALR does: the link lands in `rd` and the offset steers the program
/// counter onto `rs1 + imm` (wrapped at the register width).
pub open spec fn jalr_post(
    i: u32,
    pre_x: &RvRegisters,
    post_x: &RvRegisters,
    pc: crate::uint::Uint,
    res: Result<i128, RvException>,
) -> bool {
    let rd = bits_of(i, 7, 5) as int;
    let rs1 = bits_of(i, 15, 5) as int;
    let w = pre_x.xlen as nat;
    &&& (res matches Err(e) ==> e == RvException::InstructionIllegal && *post_x == *pre_x)
    &&& (res is Err <==> (rd >= pre_x.count || rs1 >= pre_x.count))
    &&& (res matches Ok(off) ==> RvRegisters::others_unchanged(pre_x, post_x, rd) && post_x.val(rd)
        == enc(pc.val() as int + 4, w) && enc(pc.val() as int + off as int, w) == enc(
        pre_x.val(rs1) + i_imm_spec(i),
        w,
    ))
}

/// What the AMO family does: the gating decision, then the handler's effect.
pub open spec fn amofam_post(
    i: u32,
    ext: RvExtensions,
    pre_ctx: AtomicCtx,
    post_ctx: AtomicCtx,
    pre_x: &RvRegisters,
    post_x: &RvRegisters,
    pre_bus: crate::bus::BusView,
    post_bus: crate::bus::BusView,
    r: Option<RvException>,
) -> bool {
    let funct3 = bits_of(i, 12, 3);
    let rd = bits_of(i, 7, 5) as int;
    let rs1 = bits_of(i, 15, 5) as int;
    let rs2 = bits_of(i, 20, 5) as int;
    let op = bits_of(i, 25, 7) / 4;
    if amo_illegal(i, ext, pre_x.xlen as nat, pre_x.count as nat) {
        r == Some(RvException::InstructionIllegal) && *post_x == *pre_x && post_ctx == pre_ctx
            && post_bus == pre_bus
    } else if op == 2 {
        lr_post(pre_ctx, post_ctx, pre_x, post_x, pre_bus, post_bus, funct3, rd, rs1, rs2, r)
    } else if op == 3 {
        sc_post(pre_ctx, post_ctx, pre_x, post_x, pre_bus, post_bus, funct3, rd, rs1, rs2, r)
    } else if op == 5 {
        cas_post(pre_x, post_x, pre_bus, post_bus, funct3, rd, rs1, rs2, r) && post_ctx == pre_ctx
    } else {
        amo_rmw_post(op, pre_x, post_x, pre_bus, post_bus, funct3, rd, rs1, rs2, r) && post_ctx
            == pre_ctx
    }
}

/// What SYSTEM does: funct12 selects the environment instruction, funct3 the
/// CSR form, all gated on the CSR bank's presence.
pub open spec fn system_post(
    i: u32,
    pre_x: &RvRegisters,
    post_x: &RvRegisters,
    pre_csr: Option<Csr>,
    post_csr: Option<Csr>,
    r: Option<RvException>,
) -> bool {
    let funct3 = bits_of(i, 12, 3);
    let funct12 = bits_of(i, 20, 12);
    let rd = bits_of(i, 7, 5) as int;
    let rs1 = bits_of(i, 15, 5) as int;
    &&& (funct3 == 0 && funct12 == 1 ==> r == Some(RvException::Breakpoint))
    &&& (funct3 == 0 && funct12 == 0 ==> r is None)
    &&& (funct3 != 0 && pre_csr is None ==> r == Some(RvException::InstructionIllegal))
    &&& (funct3 == 4 ==> r == Some(RvException::InstructionIllegal) && *post_x == *pre_x
        && post_csr == pre_csr)
    &&& (funct3 != 0 && funct3 != 4 && pre_csr is Some ==> (if rd >= pre_x.count || rs1
        >= pre_x.count {
        r == Some(RvException::InstructionIllegal) && *post_x == *pre_x && post_csr == pre_csr
    } else {
        (pre_csr matches Some(c0) ==> (post_csr matches Some(c1) && (if funct3 == 1 || funct3
            == 5 {
            csrrw_post(pre_x, post_x, &c0, &c1, rd, rs1, funct3, funct12 as int, r)
        } else if funct3 == 2 || funct3 == 6 {
            csrrs_post(pre_x, post_x, &c0, &c1, rd, rs1, funct3, funct12 as int, r)
        } else {
            csrrc_post(pre_x, post_x, &c0, &c1, rd, rs1, funct3, funct12 as int, r)
        })))
    }))
}

/// Bit 5 of funct7 (bit 30 of the word), which separates the arithmetic
/// from the logical right shifts and `add` from `sub`.
pub open spec fn funct7_bit5(i: u32) -> nat {
    (bits_of(i, 25, 7) / 32) % 2
}

/// The value the OP family writes to `rd`, given the two register operands.
pub open spec fn op_result(i: u32, xlen: nat, a: nat, b: nat) -> nat {
    let funct3 = bits_of(i, 12, 3);
    let funct7 = bits_of(i, 25, 7);
    if funct7 == 1 {
        if funct3 == 0 {
            (a * b) % pow2(xlen)
        } else if funct3 == 1 {
            mulh_val(a, b, xlen)
        } else if funct3 == 2 {
            mulhsu_val(a, b, xlen)
        } else if funct3 == 3 {
            mulhu_val(a, b, xlen)
        } else if funct3 == 4 {
            div_val(a, b, xlen)
        } else if funct3 == 5 {
            divu_val(a, b, xlen)
        } else if funct3 == 6 {
            rem_val(a, b, xlen)
        } else {
            remu_val(a, b, xlen)
        }
    } else {
        if funct3 == 0 {
            if funct7 == 0 {
                (a + b) % pow2(xlen)
            } else {
                enc(a - b, xlen)
            }
        } else if funct3 == 1 {
            (a * pow2(b % xlen)) % pow2(xlen)
        } else if funct3 == 2 {
            if to_signed(a, xlen) < to_signed(b, xlen) {
                1
            } else {
                0
            }
        } else if funct3 == 3 {
            if a < b {
                1
            } else {
                0
            }
        } else if funct3 == 4 {
            ((a as u128) ^ (b as u128)) as nat
        } else if funct3 == 5 {
            if funct7_bit5(i) == 1 {
                enc(to_signed(a, xlen) / (pow2(b % xlen) as int), xlen)
            } else {
                a / pow2(b % xlen)
            }
        } else if funct3 == 6 {
            ((a as u128) | (b as u128)) as nat
        } else {
            ((a as u128) & (b as u128)) as nat
        }
    }
}

/// The value the OP-32 family writes to `rd`: a 32-bit result, sign-extended.
pub open spec fn op32_result(i: u32, xlen: nat, a: nat, b: nat) -> nat {
    let funct3 = bits_of(i, 12, 3);
    let funct7 = bits_of(i, 25, 7);
    if funct7 == 1 {
        if funct3 == 0 {
            sext_val((a * b) % pow2(32), 32, xlen)
        } else if funct3 == 4 {
            sext_val(div_val(a % pow2(32), b % pow2(32), 32), 32, xlen)
        } else if funct3 == 5 {
            sext_val(divu_val(a % pow2(32), b % pow2(32), 32), 32, xlen)
        } else if funct3 == 6 {
            sext_val(rem_val(a % pow2(32), b % pow2(32), 32), 32, xlen)
        } else {
            sext_val(remu_val(a % pow2(32), b % pow2(32), 32), 32, xlen)
        }
    } else {
        if funct3 == 0 {
            if funct7 == 0 {
                sext_val((a + b) % pow2(32), 32, xlen)
            } else {
                sext_val(enc(a - b, 32), 32, xlen)
            }
        } else if funct3 == 1 {
            sext_val((a * pow2(b % 32)) % pow2(32), 32, xlen)
        } else {
            if funct7_bit5(i) == 1 {
                sext_val(enc(to_signed(a % pow2(32), 32) / (pow2(b % 32) as int), 32), 32, xlen)
            } else {
                sext_val((a % pow2(32)) / pow2(b % 32), 32, xlen)
            }
        }
    }
}

/// The value the OP-IMM family writes to `rd`, given the `rs1` operand.
pub open spec fn opimm_result(i: u32, xlen: nat, a: nat) -> nat {
    let funct3 = bits_of(i, 12, 3);
    let imm = i_imm_spec(i);
    let shamt = bits_of(i, 20, 6);
    if funct3 == 0 {
        enc(a + imm, xlen)
    } else if funct3 == 1 {
        (a * pow2(shamt % xlen)) % pow2(xlen)
    } else if funct3 == 2 {
        if to_signed(a, xlen) < imm {
            1
        } else {
            0
        }
    } else if funct3 == 3 {
        if a < enc(imm, xlen) {
            1
        } else {
            0
        }
    } else if funct3 == 4 {
        ((a as u128) ^ (enc(imm, xlen) as u128)) as nat
    } else if funct3 == 5 {
        if funct7_bit5(i) == 1 {
            enc(to_signed(a, xlen) / (pow2(shamt % xlen) as int), xlen)
        } else {
            a / pow2(shamt % xlen)
        }
    } else if funct3 == 6 {
        ((a as u128) | (enc(imm, xlen) as u128)) as nat
    } else {
        ((a as u128) & (enc(imm, xlen) as u128)) as nat
    }
}

/// The value the OP-IMM-32 family writes to `rd`.
pub open spec fn opimm32_result(i: u32, xlen: nat, a: nat) -> nat {
    let funct3 = bits_of(i, 12, 3);
    let shamt = bits_of(i, 20, 5);
    if funct3 == 0 {
        sext_val(enc(a + i_imm_spec(i), 32), 32, xlen)
    } else if funct3 == 1 {
        sext_val((a * pow2(shamt % 32)) % pow2(32), 32, xlen)
    } else {
        if funct7_bit5(i) == 1 {
            sext_val(enc(to_signed(a % pow2(32), 32) / (pow2(shamt % 32) as int), 32), 32, xlen)
        } else {
            sext_val((a % pow2(32)) / pow2(shamt % 32), 32, xlen)
        }
    }
}

/// The exact condition under which the OP family rejects an encoding: a
/// register index past the file, a multiply/divide without its extension, or
/// an unknown funct7 for the add/sub slot.
pub open spec fn op_illegal(i: u32, ext: RvExtensions, xlen: nat, count: nat) -> bool {
    let funct3 = bits_of(i, 12, 3);
    let funct7 = bits_of(i, 25, 7);
    ||| bits_of(i, 7, 5) >= count
    ||| bits_of(i, 15, 5) >= count
    ||| bits_of(i, 20, 5) >= count
    ||| (funct7 == 1 && funct3 <= 3 && !(ext.m || ext.zmmul))
    ||| (funct7 == 1 && funct3 >= 4 && !ext.m)
    ||| (funct7 != 1 && funct3 == 0 && funct7 != 0 && funct7 != 0x20)
}

/// The exact condition under which the OP-32 family rejects an encoding.
pub open spec fn op32_illegal(i: u32, ext: RvExtensions, xlen: nat, count: nat) -> bool {
    let funct3 = bits_of(i, 12, 3);
    let funct7 = bits_of(i, 25, 7);
    ||| xlen == 32
    ||| bits_of(i, 7, 5) >= count
    ||| bits_of(i, 15, 5) >= count
    ||| bits_of(i, 20, 5) >= count
    ||| (funct7 == 1 && funct3 == 0 && !(ext.m || ext.zmmul))
    ||| (funct7 == 1 && (funct3 == 4 || funct3 == 5 || funct3 == 6 || funct3 == 7) && !ext.m)
    ||| (funct7 == 1 && (funct3 == 1 || funct3 == 2 || funct3 == 3))
    ||| (funct7 != 1 && funct3 == 0 && funct7 != 0 && funct7 != 0x20)
    ||| (funct7 != 1 && (funct3 == 2 || funct3 == 3 || funct3 == 4 || funct3 == 6 || funct3 == 7))
    ||| (funct7 != 1 && funct3 == 5 && funct7 != 0 && funct7 != 0x20)
}

/// The dispatcher's result as a fault option, for the non-jump families
/// whose offset is always four.
pub open spec fn opt_of(res: Result<i128, RvException>) -> Option<RvException> {
    match res {
        Ok(_) => None,
        Err(e) => Some(e),
    }
}

/// What executing one 32-bit word does to the hart and the bus, keyed on the
/// major opcode: each family behaves exactly as its own postcondition says,
/// the program counter is untouched (the step moves it by the offset), and
/// an opcode outside the implemented set is an illegal instruction.
pub open spec fn process_post(
    i: u32,
    pre: &Rv,
    post: &Rv,
    pre_bus: crate::bus::BusView,
    post_bus: crate::bus::BusView,
    res: Result<i128, RvException>,
) -> bool {
    let opcode = bits_of(i, 2, 5);
    let fixed4 = res matches Ok(o) ==> o == 4;
    if opcode == 0x00 {
        post.csr == pre.csr && post.atomic_ctx == pre.atomic_ctx && fixed4 && load_post(
            i,
            &pre.x,
            &post.x,
            pre_bus,
            post_bus,
            opt_of(res),
        )
    } else if opcode == 0x03 {
        post.x == pre.x && post.csr == pre.csr && post.atomic_ctx == pre.atomic_ctx && post_bus
            == pre_bus && fixed4 && mem_post(i, pre.extensions.zifencei, opt_of(res))
    } else if opcode == 0x04 {
        post.csr == pre.csr && post.atomic_ctx == pre.atomic_ctx && post_bus == pre_bus && fixed4
            && opimmfam_post(i, &pre.x, &post.x, opt_of(res))
    } else if opcode == 0x05 {
        post.csr == pre.csr && post.atomic_ctx == pre.atomic_ctx && post_bus == pre_bus && fixed4
            && auipc_post(i, &pre.x, &post.x, pre.pc, opt_of(res))
    } else if opcode == 0x06 {
        post.csr == pre.csr && post.atomic_ctx == pre.atomic_ctx && post_bus == pre_bus && fixed4
            && opimm32fam_post(i, &pre.x, &post.x, opt_of(res))
    } else if opcode == 0x08 {
        post.x == pre.x && post.csr == pre.csr && post.atomic_ctx == pre.atomic_ctx && fixed4
            && store_post(i, &pre.x, pre_bus, post_bus, opt_of(res))
    } else if opcode == 0x0b {
        post.csr == pre.csr && fixed4 && match (pre.atomic_ctx, post.atomic_ctx) {
            (Some(c0), Some(c1)) => amofam_post(
                i,
                pre.extensions,
                c0,
                c1,
                &pre.x,
                &post.x,
                pre_bus,
                post_bus,
                opt_of(res),
            ),
            (None, None) => res == Err::<i128, RvException>(RvException::InstructionIllegal)
                && post.x == pre.x && post_bus == pre_bus,
            _ => false,
        }
    } else if opcode == 0x0c {
        post.csr == pre.csr && post.atomic_ctx == pre.atomic_ctx && post_bus == pre_bus && fixed4
            && opfam_post(i, pre.extensions, &pre.x, &post.x, opt_of(res))
    } else if opcode == 0x0d {
        post.csr == pre.csr && post.atomic_ctx == pre.atomic_ctx && post_bus == pre_bus && fixed4
            && lui_post(i, &pre.x, &post.x, opt_of(res))
    } else if opcode == 0x0e {
        post.csr == pre.csr && post.atomic_ctx == pre.atomic_ctx && post_bus == pre_bus && fixed4
            && op32fam_post(i, pre.extensions, &pre.x, &post.x, opt_of(res))
    } else if opcode == 0x18 {
        post.csr == pre.csr && post.atomic_ctx == pre.atomic_ctx && post_bus == pre_bus
            && branch_post(i, &pre.x, &post.x, res)
    } else if opcode == 0x19 {
        post.csr == pre.csr && post.atomic_ctx == pre.atomic_ctx && post_bus == pre_bus
            && jalr_post(i, &pre.x, &post.x, pre.pc, res)
    } else if opcode == 0x1b {
        post.csr == pre.csr && post.atomic_ctx == pre.atomic_ctx && post_bus == pre_bus && jal_post(
            i,
            &pre.x,
            &post.x,
            pre.pc,
            res,
        )
    } else if opcode == 0x1c {
        post.atomic_ctx == pre.atomic_ctx && post_bus == pre_bus && fixed4 && system_post(
            i,
            &pre.x,
            &post.x,
            pre.csr,
            post.csr,
            opt_of(res),
        )
    } else {
        res == Err::<i128, RvException>(RvException::InstructionIllegal) && post.x == pre.x
            && post.csr == pre.csr && post.atomic_ctx == pre.atomic_ctx && post_bus == pre_bus
    }
}

/// The dispatcher's frame: the hart keeps its shape, capabilities and
/// program counter across one instruction (only `step` moves the pc).
pub open spec fn hart_frame(pre: &Rv, post: &Rv) -> bool {
    &&& post.wf()
    &&& post.xlen == pre.xlen
    &&& post.flen == pre.flen
    &&& post.extensions == pre.extensions
    &&& post.pc == pre.pc
    &&& post.x.count == pre.x.count
    &&& (post.csr is Some <==> pre.csr is Some)
    &&& (post.atomic_ctx is Some <==> pre.atomic_ctx is Some)
}

impl Instr {
    /// Dispatches the LOAD family on funct3: the fetched bytes land in `rd`,
    /// extended per the form; a bus fault becomes the matching exception.
    pub fn load(&self, x: &mut RvRegisters, bus: &mut Bus) -> (r: Option<RvException>)
        requires
            self is Instr32,
            old(x).wf(),
            bus_inv(old(bus)@),
        ensures
            final(x).wf(),
            bus_inv(final(bus)@),
            final(x).xlen == old(x).xlen,
            final(x).count == old(x).count,
            load_post((self->Instr32_0), old(x), final(x), old(bus)@, final(bus)@, r),
    {
        let funct3 = self.get_funct3();
        let rd = self.get_rd();
        let rs1 = self.get_rs1();
        let imm = self.get_i_imm();
        if rd >= x.count || rs1 >= x.count {
            return Some(RvException::InstructionIllegal);
        }
        let w = x.len();
        let result = match funct3 {
            0x0 => crate::instr::load::lb(x, rd, rs1, imm, bus),
            0x1 => crate::instr::load::lh(x, rd, rs1, imm, bus),
            0x2 => crate::instr::load::lw(x, rd, rs1, imm, bus),
            0x3 => {
                if w == 32 {
                    return Some(RvException::InstructionIllegal);
                }
                crate::instr::load::ld(x, rd, rs1, imm, bus)
            },
            0x4 => crate::instr::load::lbu(x, rd, rs1, imm, bus),
            0x5 => crate::instr::load::lhu(x, rd, rs1, imm, bus),
            0x6 => {
                if w == 32 {
                    return Some(RvException::InstructionIllegal);
                }
                crate::instr::load::lwu(x, rd, rs1, imm, bus)
            },
            _ => {
                return Some(RvException::InstructionIllegal);
            },
        };
        match result {
            Ok(_) => None,
            Err(e) => Some(e),
        }
    }

    /// Dispatches the OP family on funct3/funct7, with M-extension gating.
    pub fn op(&self, ext: &RvExtensions, x: &mut RvRegisters) -> (r: Option<RvException>)
        requires
            self is Instr32,
            old(x).wf(),
        ensures
            final(x).wf(),
            final(x).xlen == old(x).xlen,
            final(x).count == old(x).count,
            opfam_post((self->Instr32_0), *ext, old(x), final(x), r),
    {
        let funct3 = self.get_funct3();
        let funct7 = self.get_funct7();
        let rd = self.get_rd();
        let rs1 = self.get_rs1();
        let rs2 = self.get_rs2();
        if rd >= x.count || rs1 >= x.count || rs2 >= x.count {
            return Some(RvException::InstructionIllegal);
        }
        let w = x.len();
        proof {
            old(x).lemma_val_bound(rs1 as int);
            old(x).lemma_val_bound(rs2 as int);
            if (old(x).xlen as nat) < 128 {
                vstd::arithmetic::power2::lemma_pow2_strictly_increases(old(x).xlen as nat, 128);
            }
            crate::uint::lemma_pow2_val_128();
        }
        if funct7 == 0x01 {
            match funct3 {
                0x0 => {
                    if ext.m || ext.zmmul {
                        crate::instr::op::mul(x, rd, rs1, rs2);
                    } else {
                        return Some(RvException::InstructionIllegal);
                    }
                },
                0x1 => {
                    if ext.m || ext.zmmul {
                        crate::instr::op::mulh(x, rd, rs1, rs2);
                    } else {
                        return Some(RvException::InstructionIllegal);
                    }
                },
                0x2 => {
                    if ext.m || ext.zmmul {
                        crate::instr::op::mulhsu(x, rd, rs1, rs2);
                    } else {
                        return Some(RvException::InstructionIllegal);
                    }
                },
                0x3 => {
                    if ext.m || ext.zmmul {
                        crate::instr::op::mulhu(x, rd, rs1, rs2);
                    } else {
                        return Some(RvException::InstructionIllegal);
                    }
                },
                0x4 => {
                    if ext.m {
                        crate::instr::op::div(x, rd, rs1, rs2);
                    } else {
                        return Some(RvException::InstructionIllegal);
                    }
                },
                0x5 => {
                    if ext.m {
                        crate::instr::op::divu(x, rd, rs1, rs2);
                    } else {
                        return Some(RvException::InstructionIllegal);
                    }
                },
                0x6 => {
                    if ext.m {
                        crate::instr::op::rem(x, rd, rs1, rs2);
                    } else {
                        return Some(RvException::InstructionIllegal);
                    }
                },
                _ => {
                    if ext.m {
                        crate::instr::op::remu(x, rd, rs1, rs2);
                    } else {
                        return Some(RvException::InstructionIllegal);
                    }
                },
            }
        } else {
            match funct3 {
                0x0 => {
                    if funct7 == 0x00 {
                        crate::instr::op::add(x, rd, rs1, rs2);
                    } else if funct7 == 0x20 {
                        crate::instr::op::sub(x, rd, rs1, rs2);
                    } else {
                        return Some(RvException::InstructionIllegal);
                    }
                },
                0x1 => crate::instr::op::sll(x, rd, rs1, rs2),
                0x2 => crate::instr::op::slt(x, rd, rs1, rs2),
                0x3 => crate::instr::op::sltu(x, rd, rs1, rs2),
                0x4 => crate::instr::op::xor(x, rd, rs1, rs2),
                0x5 => {
                    if funct7 / 32 % 2 == 1 {
                        crate::instr::op::sra(x, rd, rs1, rs2);
                    } else {
                        crate::instr::op::srl(x, rd, rs1, rs2);
                    }
                },
                0x6 => crate::instr::op::or(x, rd, rs1, rs2),
                _ => crate::instr::op::and(x, rd, rs1, rs2),
            }
        }
        proof {
            x.lemma_val_bound(rd as int);
        }
        None
    }

    /// Dispatches the OP-32 family, illegal at the 32-bit width.
    pub fn op32(&self, ext: &RvExtensions, x: &mut RvRegisters) -> (r: Option<RvException>)
        requires
            self is Instr32,
            old(x).wf(),
        ensures
            final(x).wf(),
            final(x).xlen == old(x).xlen,
            final(x).count == old(x).count,
            op32fam_post((self->Instr32_0), *ext, old(x), final(x), r),
    {
        let funct3 = self.get_funct3();
        let funct7 = self.get_funct7();
        let rd = self.get_rd();
        let rs1 = self.get_rs1();
        let rs2 = self.get_rs2();
        if x.len() == 32 {
            return Some(RvException::InstructionIllegal);
        }
        if rd >= x.count || rs1 >= x.count || rs2 >= x.count {
            return Some(RvException::InstructionIllegal);
        }
        if funct7 == 0x01 {
            match funct3 {
                0x0 => {
                    if ext.m || ext.zmmul {
                        crate::instr::op::mulw(x, rd, rs1, rs2);
                    } else {
                        return Some(RvException::InstructionIllegal);
                    }
                },
                0x4 => {
                    if ext.m {
                        crate::instr::op::divw(x, rd, rs1, rs2);
                    } else {
                        return Some(RvException::InstructionIllegal);
                    }
                },
                0x5 => {
                    if ext.m {
                        crate::instr::op::divuw(x, rd, rs1, rs2);
                    } else {
                        return Some(RvException::InstructionIllegal);
                    }
                },
                0x6 => {
                    if ext.m {
                        crate::instr::op::remw(x, rd, rs1, rs2);
                    } else {
                        return Some(RvException::InstructionIllegal);
                    }
                },
                0x7 => {
                    if ext.m {
                        crate::instr::op::remuw(x, rd, rs1, rs2);
                    } else {
                        return Some(RvException::InstructionIllegal);
                    }
                },
                _ => {
                    return Some(RvException::InstructionIllegal);
                },
            }
        } else {
            match funct3 {
                0x0 => {
                    if funct7 == 0x00 {
                        crate::instr::op::addw(x, rd, rs1, rs2);
                    } else if funct7 == 0x20 {
                        crate::instr::op::subw(x, rd, rs1, rs2);
                    } else {
                        return Some(RvException::InstructionIllegal);
                    }
                },
                0x1 => crate::instr::op::sllw(x, rd, rs1, rs2),
                0x5 => {
                    if funct7 == 0x00 {
                        crate::instr::op::srlw(x, rd, rs1, rs2);
                    } else if funct7 == 0x20 {
                        crate::instr::op::sraw(x, rd, rs1, rs2);
                    } else {
                        return Some(RvException::InstructionIllegal);
                    }
                },
                _ => {
                    return Some(RvException::InstructionIllegal);
                },
            }
        }
        None
    }

    /// Validates the MISC-MEM (fence) forms; both are no-ops on state.
    pub fn mem(&self, zifencei: bool) -> (r: Option<RvException>)
        requires
            self is Instr32,
        ensures
            mem_post((self->Instr32_0), zifencei, r),
    {
        let funct3 = self.get_funct3();
        let raw = self.get_raw();
        let fm = field(raw, 28, 4) as usize;
        match funct3 {
            0x0 => {
                if fm == 0x0 || fm == 0x8 {
                    None
                } else {
                    Some(RvException::InstructionIllegal)
                }
            },
            0x1 => {
                if zifencei {
                    None
                } else {
                    Some(RvException::InstructionIllegal)
                }
            },
            _ => Some(RvException::InstructionIllegal),
        }
    }

    /// Dispatches the OP-IMM family on funct3; every funct3 names a form, so
    /// only a register index past the file is rejected.
    pub fn opimm(&self, x: &mut RvRegisters) -> (r: Option<RvException>)
        requires
            self is Instr32,
            old(x).wf(),
        ensures
            final(x).wf(),
            final(x).xlen == old(x).xlen,
            final(x).count == old(x).count,
            opimmfam_post((self->Instr32_0), old(x), final(x), r),
    {
        let funct3 = self.get_funct3();
        let funct7 = self.get_funct7();
        let rd = self.get_rd();
        let rs1 = self.get_rs1();
        let imm = self.get_i_imm();
        let shamt = self.get_shamt();
        if rd >= x.count || rs1 >= x.count {
            return Some(RvException::InstructionIllegal);
        }
        proof {
            old(x).lemma_val_bound(rs1 as int);
            if (old(x).xlen as nat) < 128 {
                vstd::arithmetic::power2::lemma_pow2_strictly_increases(old(x).xlen as nat, 128);
            }
            crate::uint::lemma_pow2_val_128();
        }
        match funct3 {
            0x0 => crate::instr::opimm::addi(x, rd, rs1, imm),
            0x1 => crate::instr::opimm::slli(x, rd, rs1, shamt),
            0x2 => crate::instr::opimm::slti(x, rd, rs1, imm),
            0x3 => crate::instr::opimm::sltiu(x, rd, rs1, imm),
            0x4 => crate::instr::opimm::xori(x, rd, rs1, imm),
            0x5 => {
                if funct7 / 32 % 2 == 1 {
                    crate::instr::opimm::srai(x, rd, rs1, shamt);
                } else {
                    crate::instr::opimm::srli(x, rd, rs1, shamt);
                }
            },
            0x6 => crate::instr::opimm::ori(x, rd, rs1, imm),
            _ => crate::instr::opimm::andi(x, rd, rs1, imm),
        }
        proof {
            x.lemma_val_bound(rd as int);
        }
        None
    }

    /// Dispatches the OP-IMM-32 family, illegal at the 32-bit width.
    pub fn opimm32(&self, x: &mut RvRegisters) -> (r: Option<RvException>)
        requires
            self is Instr32,
            old(x).wf(),
        ensures
            final(x).wf(),
            final(x).xlen == old(x).xlen,
            final(x).count == old(x).count,
            opimm32fam_post((self->Instr32_0), old(x), final(x), r),
    {
        let funct3 = self.get_funct3();
        let funct7 = self.get_funct7();
        let rd = self.get_rd();
        let rs1 = self.get_rs1();
        let rs2 = self.get_rs2();
        let imm = self.get_i_imm();
        if x.len() == 32 {
            return Some(RvException::InstructionIllegal);
        }
        if rd >= x.count || rs1 >= x.count {
            return Some(RvException::InstructionIllegal);
        }
        match funct3 {
            0x0 => crate::instr::opimm::addiw(x, rd, rs1, imm),
            0x1 => crate::instr::opimm::slliw(x, rd, rs1, rs2),
            0x5 => {
                if funct7 / 32 % 2 == 1 {
                    crate::instr::opimm::sraiw(x, rd, rs1, rs2);
                } else {
                    crate::instr::opimm::srliw(x, rd, rs1, rs2);
                }
            },
            _ => {
                return Some(RvException::InstructionIllegal);
            },
        }
        None
    }

    /// Dispatches AUIPC.
    pub fn auipc(&self, x: &mut RvRegisters, pc: &Uint) -> (r: Option<RvException>)
        requires
            self is Instr32,
            old(x).wf(),
            pc.nbytes() == old(x).xlen / 8,
        ensures
            final(x).wf(),
            final(x).xlen == old(x).xlen,
            final(x).count == old(x).count,
            auipc_post((self->Instr32_0), old(x), final(x), *pc, r),
    {
        let rd = self.get_rd();
        let imm = self.get_u_imm();
        if rd >= x.count {
            return Some(RvException::InstructionIllegal);
        }
        crate::instr::auipc::auipc(x, rd, pc, imm);
        None
    }

    /// Dispatches LUI.
    pub fn lui(&self, x: &mut RvRegisters) -> (r: Option<RvException>)
        requires
            self is Instr32,
            old(x).wf(),
        ensures
            final(x).wf(),
            final(x).xlen == old(x).xlen,
            final(x).count == old(x).count,
            lui_post((self->Instr32_0), old(x), final(x), r),
    {
        let rd = self.get_rd();
        let imm = self.get_u_imm();
        if rd >= x.count {
            return Some(RvException::InstructionIllegal);
        }
        crate::instr::lui::lui(x, rd, imm);
        None
    }

    /// JALR: writes the return address and yields an offset that lands the
    /// program counter on `rs1 + imm` (wrapped at the register width).
    pub fn jalr(&self, x: &mut RvRegisters, pc: &Uint) -> (r: Result<i128, RvException>)
        requires
            self is Instr32,
            old(x).wf(),
            pc.nbytes() == old(x).xlen / 8,
        ensures
            final(x).wf(),
            final(x).xlen == old(x).xlen,
            final(x).count == old(x).count,
            jalr_post((self->Instr32_0), old(x), final(x), *pc, r),
    {
        let rd = self.get_rd();
        let rs1 = self.get_rs1();
        let imm = self.get_i_imm();
        if rd >= x.count || rs1 >= x.count {
            return Err(RvException::InstructionIllegal);
        }
        let w = x.len();
        let base = x.get_u128(rs1);
        proof {
            lemma_val_u128_exact(pc);
            lemma_pow2_pos(w as nat);
        }
        let pcv = pc.low_u128(16);
        let link = add_mod(pcv, 4, w);
        x.set_u128(rd, link);
        proof {
            lemma_small_mod(link as nat, pow2(w as nat));
        }
        let d1 = sub_mod(base, pcv, w);
        let e = imm_to_enc(imm, w);
        let d = add_mod(d1, e, w);
        let off = decode_signed(d, w);
        proof {
            lemma_enc_to_signed(d as nat, w as nat);
            lemma_add_mod_noop(base as int - pcv as int, imm as int, pow2(w as nat) as int);
            // the wrapped offset cancels the pc: pc + off lands on rs1 + imm
            lemma_offset_cancels(pcv as nat, base as nat, imm as int, d as nat, off as int, w as nat);
        }
        Ok(off)
    }

    /// JAL: writes the return address and yields the J-immediate offset.
    pub fn jal(&self, x: &mut RvRegisters, pc: &Uint) -> (r: Result<i128, RvException>)
        requires
            self is Instr32,
            old(x).wf(),
            pc.nbytes() == old(x).xlen / 8,
        ensures
            final(x).wf(),
            final(x).xlen == old(x).xlen,
            final(x).count == old(x).count,
            jal_post((self->Instr32_0), old(x), final(x), *pc, r),
    {
        let rd = self.get_rd();
        let imm = self.get_j_imm();
        if rd >= x.count {
            return Err(RvException::InstructionIllegal);
        }
        let w = x.len();
        proof {
            lemma_val_u128_exact(pc);
            lemma_pow2_pos(w as nat);
        }
        let pcv = pc.low_u128(16);
        let link = add_mod(pcv, 4, w);
        x.set_u128(rd, link);
        proof {
            lemma_small_mod(link as nat, pow2(w as nat));
        }
        Ok(imm as i128)
    }

    /// BRANCH: evaluates the funct3 condition and yields the B-immediate
    /// offset when taken, four otherwise.
    pub fn branch(&self, x: &mut RvRegisters, pc: &Uint) -> (r: Result<i128, RvException>)
        requires
            self is Instr32,
            old(x).wf(),
        ensures
            branch_post((self->Instr32_0), old(x), final(x), r),
    {
        let funct3 = self.get_funct3();
        let rs1 = self.get_rs1();
        let rs2 = self.get_rs2();
        let offset = self.get_b_imm();
        if rs1 >= x.count || rs2 >= x.count {
            return Err(RvException::InstructionIllegal);
        }
        let taken = match funct3 {
            0x0 => crate::instr::branch::beq(x, rs1, rs2),
            0x1 => crate::instr::branch::bne(x, rs1, rs2),
            0x4 => crate::instr::branch::blt(x, rs1, rs2),
            0x5 => crate::instr::branch::bge(x, rs1, rs2),
            0x6 => crate::instr::branch::bltu(x, rs1, rs2),
            0x7 => crate::instr::branch::bgeu(x, rs1, rs2),
            _ => {
                return Err(RvException::InstructionIllegal);
            },
        };
        match taken {
            Ok(t) => {
                if t {
                    Ok(offset as i128)
                } else {
                    Ok(4)
                }
            },
            Err(e) => Err(e),
        }
    }

    /// Dispatches the STORE family on funct3: the low bytes of `rs2` go to
    /// the effective address; a bus fault becomes the matching exception.
    pub fn store(&self, x: &mut RvRegisters, bus: &mut Bus) -> (r: Option<RvException>)
        requires
            self is Instr32,
            old(x).wf(),
            bus_inv(old(bus)@),
        ensures
            final(x).wf(),
            bus_inv(final(bus)@),
            final(x).xlen == old(x).xlen,
            final(x).count == old(x).count,
            *final(x) == *old(x),
            store_post((self->Instr32_0), old(x), old(bus)@, final(bus)@, r),
    {
        let funct3 = self.get_funct3();
        let rs1 = self.get_rs1();
        let rs2 = self.get_rs2();
        let imm = self.get_s_imm();
        if rs1 >= x.count || rs2 >= x.count {
            return Some(RvException::InstructionIllegal);
        }
        let w = x.len();
        let result = match funct3 {
            0x0 => crate::instr::store::sb(x, rs1, rs2, imm, bus),
            0x1 => crate::instr::store::sh(x, rs1, rs2, imm, bus),
            0x2 => crate::instr::store::sw(x, rs1, rs2, imm, bus),
            0x3 => {
                if w == 32 {
                    return Some(RvException::InstructionIllegal);
                }
                crate::instr::store::sd(x, rs1, rs2, imm, bus)
            },
            _ => {
                return Some(RvException::InstructionIllegal);
            },
        };
        match result {
            Ok(_) => None,
            Err(e) => Some(e),
        }
    }

    /// Dispatches the AMO family on funct7, with A-extension gating: a
    /// rejected encoding leaves everything untouched, an accepted one does
    /// exactly what its handler's postcondition says.
    pub fn amo(
        &self,
        x: &mut RvRegisters,
        atomic_ctx: &mut AtomicCtx,
        extensions: &RvExtensions,
        bus: &mut Bus,
    ) -> (r: Option<RvException>)
        requires
            self is Instr32,
            old(x).wf(),
            bus_inv(old(bus)@),
        ensures
            final(x).wf(),
            bus_inv(final(bus)@),
            final(x).xlen == old(x).xlen,
            final(x).count == old(x).count,
            amofam_post(
                (self->Instr32_0),
                *extensions,
                *old(atomic_ctx),
                *final(atomic_ctx),
                old(x),
                final(x),
                old(bus)@,
                final(bus)@,
                r,
            ),
    {
        let funct3 = self.get_funct3();
        let rd = self.get_rd();
        let rs1 = self.get_rs1();
        let rs2 = self.get_rs2();
        let funct7 = self.get_funct7();
        let rl = funct7 % 2 != 0;
        let aq = (funct7 / 2) % 2 != 0;
        if funct3 != 0x2 && funct3 != 0x3 && !(funct3 == 0x4 && funct7 / 4 == 0x05) {
            return Some(RvException::InstructionIllegal);
        }
        if funct3 == 0x3 && x.len() < 64 {
            return Some(RvException::InstructionIllegal);
        }
        if funct3 == 0x4 && x.len() < 64 {
            return Some(RvException::InstructionIllegal);
        }
        if rd >= x.count || rs1 >= x.count || rs2 >= x.count {
            return Some(RvException::InstructionIllegal);
        }
        match funct7 / 4 {
            0x00 => {
                if extensions.zamo {
                    crate::instr::amo::add(aq, rl, funct3, x, rd, rs1, rs2, bus)
                } else {
                    Some(RvException::InstructionIllegal)
                }
            },
            0x01 => {
                if extensions.zamo {
                    crate::instr::amo::swap(aq, rl, funct3, x, rd, rs1, rs2, bus)
                } else {
                    Some(RvException::InstructionIllegal)
                }
            },
            0x02 => {
                if extensions.zalrsc {
                    crate::instr::amo::lr(atomic_ctx, aq, rl, funct3, x, rd, rs1, rs2, bus)
                } else {
                    Some(RvException::InstructionIllegal)
                }
            },
            0x03 => {
                if extensions.zalrsc {
                    crate::instr::amo::sc(atomic_ctx, aq, rl, funct3, x, rd, rs1, rs2, bus)
                } else {
                    Some(RvException::InstructionIllegal)
                }
            },
            0x04 => {
                if extensions.zamo {
                    crate::instr::amo::xor(aq, rl, funct3, x, rd, rs1, rs2, bus)
                } else {
                    Some(RvException::InstructionIllegal)
                }
            },
            0x05 => {
                if extensions.zacas {
                    crate::instr::amo::cas(aq, rl, funct3, x, rd, rs1, rs2, bus)
                } else {
                    Some(RvException::InstructionIllegal)
                }
            },
            0x08 => {
                if extensions.zamo {
                    crate::instr::amo::or(aq, rl, funct3, x, rd, rs1, rs2, bus)
                } else {
                    Some(RvException::InstructionIllegal)
                }
            },
            0x0c => {
                if extensions.zamo {
                    crate::instr::amo::and(aq, rl, funct3, x, rd, rs1, rs2, bus)
                } else {
                    Some(RvException::InstructionIllegal)
                }
            },
            0x10 => {
                if extensions.zamo {
                    crate::instr::amo::min(aq, rl, funct3, x, rd, rs1, rs2, bus)
                } else {
                    Some(RvException::InstructionIllegal)
                }
            },
            0x14 => {
                if extensions.zamo {
                    crate::instr::amo::max(aq, rl, funct3, x, rd, rs1, rs2, bus)
                } else {
                    Some(RvException::InstructionIllegal)
                }
            },
            0x18 => {
                if extensions.zamo {
                    crate::instr::amo::minu(aq, rl, funct3, x, rd, rs1, rs2, bus)
                } else {
                    Some(RvException::InstructionIllegal)
                }
            },
            0x1c => {
                if extensions.zamo {
                    crate::instr::amo::maxu(aq, rl, funct3, x, rd, rs1, rs2, bus)
                } else {
                    Some(RvException::InstructionIllegal)
                }
            },
            _ => Some(RvException::InstructionIllegal),
        }
    }

    /// Dispatches the SYSTEM family: environment instructions on funct12 and
    /// the CSR instructions on funct3, all gated on the Zicsr bank.
    pub fn system(&self, x: &mut RvRegisters, csr: &mut Option<Csr>) -> (r: Option<RvException>)
        requires
            self is Instr32,
            old(x).wf(),
            *old(csr) matches Some(c) ==> c.wf() && c.width == old(x).xlen,
        ensures
            final(x).wf(),
            final(x).xlen == old(x).xlen,
            final(x).count == old(x).count,
            *final(csr) is Some <==> *old(csr) is Some,
            *final(csr) matches Some(c) ==> c.wf() && c.width == old(x).xlen,
            system_post((self->Instr32_0), old(x), final(x), *old(csr), *final(csr), r),
    {
        let funct3 = self.get_funct3();
        let rd = self.get_rd();
        let rs1 = self.get_rs1();
        let funct12 = self.get_funct12();
        if funct3 == 0 {
            if funct12 == 0 {
                return crate::instr::system::ecall(x);
            }
            if funct12 == 1 {
                return crate::instr::system::ebreak(x);
            }
            if funct12 == 0x102 || funct12 == 0x302 || funct12 == 0x702 {
                let taken = csr.take();
                match taken {
                    Some(mut c) => {
                        let res = crate::instr::system::xret(x, rd, rs1, funct12, &mut c);
                        *csr = Some(c);
                        return res;
                    },
                    None => {
                        return Some(RvException::InstructionIllegal);
                    },
                }
            }
            return Some(RvException::InstructionIllegal);
        }
        if funct3 == 4 {
            return Some(RvException::InstructionIllegal);
        }
        if rd >= x.count || rs1 >= x.count {
            return Some(RvException::InstructionIllegal);
        }
        let taken = csr.take();
        match taken {
            Some(mut c) => {
                let res = if funct3 == 0x1 || funct3 == 0x5 {
                    crate::instr::system::csrrw(x, rd, rs1, funct3, funct12, &mut c)
                } else if funct3 == 0x2 || funct3 == 0x6 {
                    crate::instr::system::csrrs(x, rd, rs1, funct3, funct12, &mut c)
                } else {
                    crate::instr::system::csrrc(x, rd, rs1, funct3, funct12, &mut c)
                };
                *csr = Some(c);
                res
            },
            None => Some(RvException::InstructionIllegal),
        }
    }

    /// The STORE-FP family is a decode placeholder: floating-point state is
    /// not modeled, so dispatch on it signals an illegal instruction.
    pub fn store_fp(&self) -> (r: Option<RvException>)
        ensures
            r == Some(RvException::InstructionIllegal),
    {
        Some(RvException::InstructionIllegal)
    }

    /// Executes one classified 32-bit instruction against the hart and the
    /// bus, returning the signed program-counter offset or the fault.
    #[verifier::rlimit(100)]
    #[verifier::spinoff_prover]
    pub fn process_32(&self, hart: &mut Rv, bus: &mut Bus) -> (r: Result<i128, RvException>)
        requires
            self is Instr32,
            old(hart).wf(),
            bus_inv(old(bus)@),
        ensures
            hart_frame(old(hart), final(hart)),
            bus_inv(final(bus)@),
            process_post((self->Instr32_0), old(hart), final(hart), old(bus)@, final(bus)@, r),
    {
        let opcode = self.get_opcode();
        let r: Result<i128, RvException> = match opcode {
            0x00 => {
                match self.load(&mut hart.x, bus) {
                    None => Ok(4),
                    Some(e) => Err(e),
                }
            },
            0x03 => {
                match self.mem(hart.extensions.zifencei) {
                    None => Ok(4),
                    Some(e) => Err(e),
                }
            },
            0x04 => {
                match self.opimm(&mut hart.x) {
                    None => Ok(4),
                    Some(e) => Err(e),
                }
            },
            0x05 => {
                match self.auipc(&mut hart.x, &hart.pc) {
                    None => Ok(4),
                    Some(e) => Err(e),
                }
            },
            0x06 => {
                match self.opimm32(&mut hart.x) {
                    None => Ok(4),
                    Some(e) => Err(e),
                }
            },
            0x08 => {
                match self.store(&mut hart.x, bus) {
                    None => Ok(4),
                    Some(e) => Err(e),
                }
            },
            0x09 => {
                match self.store_fp() {
                    None => Ok(4),
                    Some(e) => Err(e),
                }
            },
            0x0b => {
                let taken = hart.atomic_ctx.take();
                match taken {
                    Some(mut ctx) => {
                        let res = self.amo(&mut hart.x, &mut ctx, &hart.extensions, bus);
                        hart.atomic_ctx = Some(ctx);
                        match res {
                            None => Ok(4),
                            Some(e) => Err(e),
                        }
                    },
                    None => Err(RvException::InstructionIllegal),
                }
            },
            0x0c => {
                match self.op(&hart.extensions, &mut hart.x) {
                    None => Ok(4),
                    Some(e) => Err(e),
                }
            },
            0x0d => {
                match self.lui(&mut hart.x) {
                    None => Ok(4),
                    Some(e) => Err(e),
                }
            },
            0x0e => {
                match self.op32(&hart.extensions, &mut hart.x) {
                    None => Ok(4),
                    Some(e) => Err(e),
                }
            },
            0x18 => self.branch(&mut hart.x, &hart.pc),
            0x19 => self.jalr(&mut hart.x, &hart.pc),
            0x1b => self.jal(&mut hart.x, &hart.pc),
            0x1c => {
                match self.system(&mut hart.x, &mut hart.csr) {
                    None => Ok(4),
                    Some(e) => Err(e),
                }
            },
            _ => Err(RvException::InstructionIllegal),
        };
        r
    }

    /// Executes one classified instruction: the 32-bit shape dispatches to
    /// its family, every other shape (compressed or invalid) is illegal.
    pub fn process(&self, hart: &mut Rv, bus: &mut Bus) -> (r: Result<i128, RvException>)
        requires
            old(hart).wf(),
            bus_inv(old(bus)@),
        ensures
            hart_frame(old(hart), final(hart)),
            bus_inv(final(bus)@),
            !(self is Instr32) ==> r == Err::<i128, RvException>(RvException::InstructionIllegal)
                && *final(hart) == *old(hart) && final(bus)@ == old(bus)@,
            self matches Instr::Instr32(i) ==> process_post(
                *i,
                old(hart),
                final(hart),
                old(bus)@,
                final(bus)@,
                r,
            ),
    {
        match self {
            Instr::Instr32(_) => self.process_32(hart, bus),
            _ => Err(RvException::InstructionIllegal),
        }
    }
}

/// Adding a wrapped offset to the program counter lands on the target.
proof fn lemma_offset_cancels(pcv: nat, base: nat, imm: int, d: nat, off: int, w: nat)
    requires
        w >= 1,
        d < pow2(w),
        off == to_signed(d, w),
        d == (base - pcv + imm) % (pow2(w) as int),
    ensures
        enc(pcv + off, w) == enc(base + imm, w),
{
    lemma_pow2_pos(w);
    lemma_enc_to_signed(d, w);
    // off and the wrapped difference agree modulo 2^w
    if d >= pow2((w - 1) as nat) {
        lemma_mod_multiples_vanish(-1, pcv as int + d, pow2(w) as int);
        assert(pcv + off == pcv as int + d - pow2(w));
    }
    lemma_add_mod_noop_right(pcv as int, base - pcv + imm, pow2(w) as int);
    assert((pcv + (base - pcv + imm)) % (pow2(w) as int) == (base + imm) % (pow2(w) as int));
}

} // verus!
