//! The LOAD family: byte, half, word and double loads, signed and unsigned.
//!
//! The effective address is the `rs1` value plus or minus the immediate's
//! magnitude, wrapping at 64 bits (the bus address width).  The load width
//! selects how the destination register is sign- or zero-extended.

use vstd::prelude::*;

verus! {

use vstd::arithmetic::power2::{pow2, lemma_pow2_pos, lemma2_to64};
use vstd::arithmetic::div_mod::{lemma_small_mod, lemma_mod_bound, lemma_mod_multiples_vanish,
    lemma_add_mod_noop_right};
use crate::registers::RvRegisters;
use crate::exception::{RvException, BusException, from_bus_spec};
use crate::bus::{Bus, bus_fetch_spec};
use crate::uint::{Uint, le_val, sext_val, lemma_pow2_halves, lemma_mod_pow2_collapse};
use crate::alu::{enc, sext_u128, mod_pow2_u128};

/// The effective address of a load or store: the base register value plus
/// the signed immediate, wrapping at the 64-bit bus address width.
pub open spec fn eff_addr(base: nat, imm: int) -> nat {
    enc(base % pow2(64) + imm, 64)
}

/// What a completed load writes to `rd`: the fetched bytes, reduced to the
/// access width and sign- or zero-extended to the register width.
pub open spec fn load_result(bytes: Seq<u8>, width: nat, xlen: nat, signed: bool) -> nat {
    if signed {
        sext_val(le_val(bytes), 8 * width, xlen)
    } else {
        le_val(bytes) % pow2(8 * width)
    }
}

/// Computes the wrapping effective address.
pub fn eff_addr_calc(a: u64, imm: i32) -> (r: u64)
    ensures
        r as nat == eff_addr(a as nat, imm as int),
{
    proof {
        lemma_pow2_halves();
        lemma_small_mod(a as nat, pow2(64));
    }
    if imm >= 0 {
        let r = a.wrapping_add(imm as u64);
        proof {
            if a + imm > u64::MAX {
                lemma_fundamental_sub(a + imm);
            } else {
                lemma_small_mod((a + imm) as nat, pow2(64));
            }
        }
        r
    } else {
        let m: u64 = ((-(imm + 1)) as u64) + 1;
        let r = a.wrapping_sub(m);
        proof {
            if a >= m {
                lemma_small_mod((a - m) as nat, pow2(64));
            } else {
                lemma_mod_multiples_vanish(1, a - m, pow2(64) as int);
                lemma_small_mod((a - m + pow2(64)) as nat, pow2(64));
            }
        }
        r
    }
}

/// `x % 2^64 == x - 2^64` for `x` in the doubled range.
proof fn lemma_fundamental_sub(x: int)
    requires
        pow2(64) <= x < pow2(64) + pow2(64),
    ensures
        x % (pow2(64) as int) == x - pow2(64),
{
    lemma_pow2_pos(64);
    vstd::arithmetic::div_mod::lemma_fundamental_div_mod_converse_mod(
        x,
        pow2(64) as int,
        1,
        x - pow2(64),
    );
}

/// The common load path at a given access width and extension rule.
fn load_width(
    reg: &mut RvRegisters,
    rd: usize,
    rs1: usize,
    imm: i32,
    bus: &mut Bus,
    width: usize,
    signed: bool,
) -> (r: Result<Uint, RvException>)
    requires
        old(reg).wf(),
        rd < old(reg).count,
        rs1 < old(reg).count,
        crate::bus::bus_inv(old(bus)@),
        width == 1 || width == 2 || width == 4 || width == 8,
        8 * width <= old(reg).xlen,
    ensures
        final(reg).wf(),
        crate::bus::bus_inv(final(bus)@),
        final(bus)@ == bus_fetch_spec(
            old(bus)@,
            width as nat,
            eff_addr(old(reg).val(rs1 as int), imm as int) as u64,
        ).0,
        ({
            let fr = bus_fetch_spec(
                old(bus)@,
                width as nat,
                eff_addr(old(reg).val(rs1 as int), imm as int) as u64,
            ).1;
            match fr {
                Ok(bytes) => r is Ok && RvRegisters::others_unchanged(
                    old(reg),
                    final(reg),
                    rd as int,
                ) && final(reg).val(rd as int) == load_result(
                    bytes,
                    width as nat,
                    old(reg).xlen as nat,
                    signed,
                ) && (r matches Ok(u) && u.val() == final(reg).val(rd as int)),
                Err(e) => r == Err::<Uint, RvException>(from_bus_spec(e)) && *final(reg) == *old(
                    reg,
                ),
            }
        }),
{
    proof {
        lemma_pow2_halves();
        lemma_pow2_pos(64);
        lemma_mod_bound(
            (old(reg).val(rs1 as int) % pow2(64)) as int + imm as int,
            pow2(64) as int,
        );
    }
    let a64 = low_u64_of(reg, rs1);
    let addr = eff_addr_calc(a64, imm);
    let w = reg.len();
    match bus.fetch(width, addr) {
        Ok(v) => {
            let m = crate::uint::le_low128(&v, width);
            let rv: u128 = if signed {
                proof {
                    lemma_sext_of_mod(le_val(v@), (8 * width) as nat, w as nat);
                }
                sext_u128(m, 8 * width, w)
            } else {
                proof {
                    lemma_pow2_pos((8 * width) as nat);
                    lemma_mod_bound(le_val(v@) as int, pow2((8 * width) as nat) as int);
                }
                m
            };
            reg.set_u128(rd, rv);
            proof {
                lemma_pow2_pos(w as nat);
                lemma_small_mod(rv as nat, pow2(w as nat));
            }
            let u = Uint::from_low_u128(rv, w / 8);
            proof {
                lemma_small_mod(rv as nat, pow2((8 * (w / 8)) as nat));
            }
            Ok(u)
        },
        Err(e) => Err(RvException::from_bus(e)),
    }
}

/// Reads the low 64 bits of a register as a bus address.
fn low_u64_of(reg: &RvRegisters, rs1: usize) -> (r: u64)
    requires
        reg.wf(),
        rs1 < reg.count,
    ensures
        r as nat == reg.val(rs1 as int) % pow2(64),
{
    let u = reg.get(rs1);
    proof {
        lemma_pow2_halves();
        lemma_mod_bound(reg.val(rs1 as int) as int, pow2(64) as int);
    }
    u.low_u128(8) as u64
}

/// Sign extension ignores anything above the source width.
proof fn lemma_sext_of_mod(n: nat, bits: nat, w: nat)
    requires
        1 <= bits,
    ensures
        sext_val(n % pow2(bits), bits, w) == sext_val(n, bits, w),
{
    lemma_pow2_pos(bits);
    vstd::arithmetic::div_mod::lemma_mod_bound(n as int, pow2(bits) as int);
    vstd::arithmetic::div_mod::lemma_small_mod((n % pow2(bits)) as nat, pow2(bits));
}

/// `lb`: load byte, sign-extended.
pub fn lb(reg: &mut RvRegisters, rd: usize, rs1: usize, imm: i32, bus: &mut Bus) -> (r: Result<
    Uint,
    RvException,
>)
    requires
        old(reg).wf(),
        rd < old(reg).count,
        rs1 < old(reg).count,
        crate::bus::bus_inv(old(bus)@),
    ensures
        final(reg).wf(),
        crate::bus::bus_inv(final(bus)@),
        final(bus)@ == bus_fetch_spec(
            old(bus)@,
            1,
            eff_addr(old(reg).val(rs1 as int), imm as int) as u64,
        ).0,
        ({
            let fr = bus_fetch_spec(
                old(bus)@,
                1,
                eff_addr(old(reg).val(rs1 as int), imm as int) as u64,
            ).1;
            match fr {
                Ok(bytes) => RvRegisters::others_unchanged(old(reg), final(reg), rd as int)
                    && final(reg).val(rd as int) == load_result(
                    bytes,
                    1,
                    old(reg).xlen as nat,
                    true,
                ) && (r matches Ok(u) && u.val() == final(reg).val(rd as int)),
                Err(e) => r == Err::<Uint, RvException>(from_bus_spec(e)) && *final(reg) == *old(
                    reg,
                ),
            }
        }),
{
    load_width(reg, rd, rs1, imm, bus, 1, true)
}

/// `lh`: load half-word, sign-extended.
pub fn lh(reg: &mut RvRegisters, rd: usize, rs1: usize, imm: i32, bus: &mut Bus) -> (r: Result<
    Uint,
    RvException,
>)
    requires
        old(reg).wf(),
        rd < old(reg).count,
        rs1 < old(reg).count,
        crate::bus::bus_inv(old(bus)@),
    ensures
        final(reg).wf(),
        crate::bus::bus_inv(final(bus)@),
        final(bus)@ == bus_fetch_spec(
            old(bus)@,
            2,
            eff_addr(old(reg).val(rs1 as int), imm as int) as u64,
        ).0,
        ({
            let fr = bus_fetch_spec(
                old(bus)@,
                2,
                eff_addr(old(reg).val(rs1 as int), imm as int) as u64,
            ).1;
            match fr {
                Ok(bytes) => RvRegisters::others_unchanged(old(reg), final(reg), rd as int)
                    && final(reg).val(rd as int) == load_result(
                    bytes,
                    2,
                    old(reg).xlen as nat,
                    true,
                ) && (r matches Ok(u) && u.val() == final(reg).val(rd as int)),
                Err(e) => r == Err::<Uint, RvException>(from_bus_spec(e)) && *final(reg) == *old(
                    reg,
                ),
            }
        }),
{
    load_width(reg, rd, rs1, imm, bus, 2, true)
}

/// `lw`: load word, sign-extended.
pub fn lw(reg: &mut RvRegisters, rd: usize, rs1: usize, imm: i32, bus: &mut Bus) -> (r: Result<
    Uint,
    RvException,
>)
    requires
        old(reg).wf(),
        rd < old(reg).count,
        rs1 < old(reg).count,
        crate::bus::bus_inv(old(bus)@),
    ensures
        final(reg).wf(),
        crate::bus::bus_inv(final(bus)@),
        final(bus)@ == bus_fetch_spec(
            old(bus)@,
            4,
            eff_addr(old(reg).val(rs1 as int), imm as int) as u64,
        ).0,
        ({
            let fr = bus_fetch_spec(
                old(bus)@,
                4,
                eff_addr(old(reg).val(rs1 as int), imm as int) as u64,
            ).1;
            match fr {
                Ok(bytes) => RvRegisters::others_unchanged(old(reg), final(reg), rd as int)
                    && final(reg).val(rd as int) == load_result(
                    bytes,
                    4,
                    old(reg).xlen as nat,
                    true,
                ) && (r matches Ok(u) && u.val() == final(reg).val(rd as int)),
                Err(e) => r == Err::<Uint, RvException>(from_bus_spec(e)) && *final(reg) == *old(
                    reg,
                ),
            }
        }),
{
    load_width(reg, rd, rs1, imm, bus, 4, true)
}

/// `ld`: load double-word, sign-extended (64- and 128-bit widths).
pub fn ld(reg: &mut RvRegisters, rd: usize, rs1: usize, imm: i32, bus: &mut Bus) -> (r: Result<
    Uint,
    RvException,
>)
    requires
        old(reg).wf(),
        old(reg).xlen == 64 || old(reg).xlen == 128,
        rd < old(reg).count,
        rs1 < old(reg).count,
        crate::bus::bus_inv(old(bus)@),
    ensures
        final(reg).wf(),
        crate::bus::bus_inv(final(bus)@),
        final(bus)@ == bus_fetch_spec(
            old(bus)@,
            8,
            eff_addr(old(reg).val(rs1 as int), imm as int) as u64,
        ).0,
        ({
            let fr = bus_fetch_spec(
                old(bus)@,
                8,
                eff_addr(old(reg).val(rs1 as int), imm as int) as u64,
            ).1;
            match fr {
                Ok(bytes) => RvRegisters::others_unchanged(old(reg), final(reg), rd as int)
                    && final(reg).val(rd as int) == load_result(
                    bytes,
                    8,
                    old(reg).xlen as nat,
                    true,
                ) && (r matches Ok(u) && u.val() == final(reg).val(rd as int)),
                Err(e) => r == Err::<Uint, RvException>(from_bus_spec(e)) && *final(reg) == *old(
                    reg,
                ),
            }
        }),
{
    load_width(reg, rd, rs1, imm, bus, 8, true)
}

/// `lbu`: load byte, zero-extended.
pub fn lbu(reg: &mut RvRegisters, rd: usize, rs1: usize, imm: i32, bus: &mut Bus) -> (r: Result<
    Uint,
    RvException,
>)
    requires
        old(reg).wf(),
        rd < old(reg).count,
        rs1 < old(reg).count,
        crate::bus::bus_inv(old(bus)@),
    ensures
        final(reg).wf(),
        crate::bus::bus_inv(final(bus)@),
        final(bus)@ == bus_fetch_spec(
            old(bus)@,
            1,
            eff_addr(old(reg).val(rs1 as int), imm as int) as u64,
        ).0,
        ({
            let fr = bus_fetch_spec(
                old(bus)@,
                1,
                eff_addr(old(reg).val(rs1 as int), imm as int) as u64,
            ).1;
            match fr {
                Ok(bytes) => RvRegisters::others_unchanged(old(reg), final(reg), rd as int)
                    && final(reg).val(rd as int) == load_result(
                    bytes,
                    1,
                    old(reg).xlen as nat,
                    false,
                ) && (r matches Ok(u) && u.val() == final(reg).val(rd as int)),
                Err(e) => r == Err::<Uint, RvException>(from_bus_spec(e)) && *final(reg) == *old(
                    reg,
                ),
            }
        }),
{
    load_width(reg, rd, rs1, imm, bus, 1, false)
}

/// `lhu`: load half-word, zero-extended.
pub fn lhu(reg: &mut RvRegisters, rd: usize, rs1: usize, imm: i32, bus: &mut Bus) -> (r: Result<
    Uint,
    RvException,
>)
    requires
        old(reg).wf(),
        rd < old(reg).count,
        rs1 < old(reg).count,
        crate::bus::bus_inv(old(bus)@),
    ensures
        final(reg).wf(),
        crate::bus::bus_inv(final(bus)@),
        final(bus)@ == bus_fetch_spec(
            old(bus)@,
            2,
            eff_addr(old(reg).val(rs1 as int), imm as int) as u64,
        ).0,
        ({
            let fr = bus_fetch_spec(
                old(bus)@,
                2,
                eff_addr(old(reg).val(rs1 as int), imm as int) as u64,
            ).1;
            match fr {
                Ok(bytes) => RvRegisters::others_unchanged(old(reg), final(reg), rd as int)
                    && final(reg).val(rd as int) == load_result(
                    bytes,
                    2,
                    old(reg).xlen as nat,
                    false,
                ) && (r matches Ok(u) && u.val() == final(reg).val(rd as int)),
                Err(e) => r == Err::<Uint, RvException>(from_bus_spec(e)) && *final(reg) == *old(
                    reg,
                ),
            }
        }),
{
    load_width(reg, rd, rs1, imm, bus, 2, false)
}

/// `lwu`: load word, zero-extended (64- and 128-bit widths).
pub fn lwu(reg: &mut RvRegisters, rd: usize, rs1: usize, imm: i32, bus: &mut Bus) -> (r: Result<
    Uint,
    RvException,
>)
    requires
        old(reg).wf(),
        old(reg).xlen == 64 || old(reg).xlen == 128,
        rd < old(reg).count,
        rs1 < old(reg).count,
        crate::bus::bus_inv(old(bus)@),
    ensures
        final(reg).wf(),
        crate::bus::bus_inv(final(bus)@),
        final(bus)@ == bus_fetch_spec(
            old(bus)@,
            4,
            eff_addr(old(reg).val(rs1 as int), imm as int) as u64,
        ).0,
        ({
            let fr = bus_fetch_spec(
                old(bus)@,
                4,
                eff_addr(old(reg).val(rs1 as int), imm as int) as u64,
            ).1;
            match fr {
                Ok(bytes) => RvRegisters::others_unchanged(old(reg), final(reg), rd as int)
                    && final(reg).val(rd as int) == load_result(
                    bytes,
                    4,
                    old(reg).xlen as nat,
                    false,
                ) && (r matches Ok(u) && u.val() == final(reg).val(rd as int)),
                Err(e) => r == Err::<Uint, RvException>(from_bus_spec(e)) && *final(reg) == *old(
                    reg,
                ),
            }
        }),
{
    load_width(reg, rd, rs1, imm, bus, 4, false)
}

} // verus!
