//! The STORE family: the source register is truncated to the access width
//! and written at the effective address.

use vstd::prelude::*;

verus! {

use vstd::arithmetic::power2::{pow2, lemma_pow2_pos};
use vstd::arithmetic::div_mod::{lemma_small_mod, lemma_mod_bound};
use crate::registers::RvRegisters;
use crate::exception::{RvException, from_bus_spec};
use crate::bus::{Bus, bus_store_spec};
use crate::uint::{Uint, le_bytes, lemma_le_bytes_exact, lemma_pow2_halves};
use crate::instr::load::{eff_addr, eff_addr_calc};

/// The bytes a store of `width` hands the bus: the low bytes of `rs2`.
pub open spec fn store_bytes(rs2val: nat, width: nat) -> Seq<u8> {
    le_bytes(rs2val % pow2(8 * width), width)
}

/// The common store path at a given access width.
#[verifier::rlimit(100)]
#[verifier::spinoff_prover]
fn store_width(reg: &mut RvRegisters, rs1: usize, rs2: usize, imm: i32, bus: &mut Bus, width: usize)
    -> (r: Result<Uint, RvException>)
    requires
        old(reg).wf(),
        rs1 < old(reg).count,
        rs2 < old(reg).count,
        crate::bus::bus_inv(old(bus)@),
        width == 1 || width == 2 || width == 4 || width == 8,
    ensures
        *final(reg) == *old(reg),
        crate::bus::bus_inv(final(bus)@),
        final(bus)@ == bus_store_spec(
            old(bus)@,
            width as nat,
            eff_addr(old(reg).val(rs1 as int), imm as int) as u64,
            store_bytes(old(reg).val(rs2 as int), width as nat),
        ).0,
        ({
            let sr = bus_store_spec(
                old(bus)@,
                width as nat,
                eff_addr(old(reg).val(rs1 as int), imm as int) as u64,
                store_bytes(old(reg).val(rs2 as int), width as nat),
            ).1;
            match sr {
                None => (r matches Ok(u) && u.val() == old(reg).val(rs2 as int) % pow2(
                    (8 * width) as nat,
                )),
                Some(e) => r == Err::<Uint, RvException>(from_bus_spec(e)),
            }
        }),
{
    proof {
        lemma_pow2_halves();
        lemma_pow2_pos(64);
        lemma_mod_bound(old(reg).val(rs1 as int) as int, pow2(64) as int);
    }
    let u1 = reg.get(rs1);
    let a64 = u1.low_u128(8) as u64;
    let addr = eff_addr_calc(a64, imm);
    let u2 = reg.get(rs2);
    let low = u2.low_u128(if width <= 16 {
        width
    } else {
        16
    });
    let bytes = crate::uint::u128_to_le_bytes(low, width);
    proof {
        lemma_pow2_pos((8 * width) as nat);
        lemma_mod_bound(old(reg).val(rs2 as int) as int, pow2((8 * width) as nat) as int);
        crate::uint::lemma_mod_pow2_collapse(old(reg).val(rs2 as int) as int, (8 * width) as nat);
        lemma_le_bytes_exact(
            bytes@,
            (old(reg).val(rs2 as int) % pow2((8 * width) as nat)) as nat,
            width as nat,
        );
    }
    match bus.store(width, addr, &bytes) {
        None => {
            let u = Uint::new(bytes);
            Ok(u)
        },
        Some(e) => Err(RvException::from_bus(e)),
    }
}

/// `sb`: store byte.
pub fn sb(reg: &mut RvRegisters, rs1: usize, rs2: usize, imm: i32, bus: &mut Bus) -> (r: Result<
    Uint,
    RvException,
>)
    requires
        old(reg).wf(),
        rs1 < old(reg).count,
        rs2 < old(reg).count,
        crate::bus::bus_inv(old(bus)@),
    ensures
        *final(reg) == *old(reg),
        crate::bus::bus_inv(final(bus)@),
        final(bus)@ == bus_store_spec(
            old(bus)@,
            1,
            eff_addr(old(reg).val(rs1 as int), imm as int) as u64,
            store_bytes(old(reg).val(rs2 as int), 1),
        ).0,
        ({
            let sr = bus_store_spec(
                old(bus)@,
                1,
                eff_addr(old(reg).val(rs1 as int), imm as int) as u64,
                store_bytes(old(reg).val(rs2 as int), 1),
            ).1;
            match sr {
                None => r is Ok,
                Some(e) => r == Err::<Uint, RvException>(from_bus_spec(e)),
            }
        }),
{
    store_width(reg, rs1, rs2, imm, bus, 1)
}

/// `sh`: store half-word.
pub fn sh(reg: &mut RvRegisters, rs1: usize, rs2: usize, imm: i32, bus: &mut Bus) -> (r: Result<
    Uint,
    RvException,
>)
    requires
        old(reg).wf(),
        rs1 < old(reg).count,
        rs2 < old(reg).count,
        crate::bus::bus_inv(old(bus)@),
    ensures
        *final(reg) == *old(reg),
        crate::bus::bus_inv(final(bus)@),
        final(bus)@ == bus_store_spec(
            old(bus)@,
            2,
            eff_addr(old(reg).val(rs1 as int), imm as int) as u64,
            store_bytes(old(reg).val(rs2 as int), 2),
        ).0,
        ({
            let sr = bus_store_spec(
                old(bus)@,
                2,
                eff_addr(old(reg).val(rs1 as int), imm as int) as u64,
                store_bytes(old(reg).val(rs2 as int), 2),
            ).1;
            match sr {
                None => r is Ok,
                Some(e) => r == Err::<Uint, RvException>(from_bus_spec(e)),
            }
        }),
{
    store_width(reg, rs1, rs2, imm, bus, 2)
}

/// `sw`: store word.
pub fn sw(reg: &mut RvRegisters, rs1: usize, rs2: usize, imm: i32, bus: &mut Bus) -> (r: Result<
    Uint,
    RvException,
>)
    requires
        old(reg).wf(),
        rs1 < old(reg).count,
        rs2 < old(reg).count,
        crate::bus::bus_inv(old(bus)@),
    ensures
        *final(reg) == *old(reg),
        crate::bus::bus_inv(final(bus)@),
        final(bus)@ == bus_store_spec(
            old(bus)@,
            4,
            eff_addr(old(reg).val(rs1 as int), imm as int) as u64,
            store_bytes(old(reg).val(rs2 as int), 4),
        ).0,
        ({
            let sr = bus_store_spec(
                old(bus)@,
                4,
                eff_addr(old(reg).val(rs1 as int), imm as int) as u64,
                store_bytes(old(reg).val(rs2 as int), 4),
            ).1;
            match sr {
                None => r is Ok,
                Some(e) => r == Err::<Uint, RvException>(from_bus_spec(e)),
            }
        }),
{
    store_width(reg, rs1, rs2, imm, bus, 4)
}

/// `sd`: store double-word (64- and 128-bit widths).
pub fn sd(reg: &mut RvRegisters, rs1: usize, rs2: usize, imm: i32, bus: &mut Bus) -> (r: Result<
    Uint,
    RvException,
>)
    requires
        old(reg).wf(),
        old(reg).xlen == 64 || old(reg).xlen == 128,
        rs1 < old(reg).count,
        rs2 < old(reg).count,
        crate::bus::bus_inv(old(bus)@),
    ensures
        *final(reg) == *old(reg),
        crate::bus::bus_inv(final(bus)@),
        final(bus)@ == bus_store_spec(
            old(bus)@,
            8,
            eff_addr(old(reg).val(rs1 as int), imm as int) as u64,
            store_bytes(old(reg).val(rs2 as int), 8),
        ).0,
        ({
            let sr = bus_store_spec(
                old(bus)@,
                8,
                eff_addr(old(reg).val(rs1 as int), imm as int) as u64,
                store_bytes(old(reg).val(rs2 as int), 8),
            ).1;
            match sr {
                None => r is Ok,
                Some(e) => r == Err::<Uint, RvException>(from_bus_spec(e)),
            }
        }),
{
    store_width(reg, rs1, rs2, imm, bus, 8)
}

} // verus!
