//! The atomic-memory-operation family: load-reserved / store-conditional,
//! read-modify-write atomics, and compare-and-swap.
//!
//! Atomicity here means single-hart sequential execution: each handler is one
//! load, an update in registers, and possibly one store.  `funct3` selects
//! the word (2), double-word (3) or, for compare-and-swap, quad-word (4)
//! access width; a width of twice the register width uses register pairs.

use vstd::prelude::*;

verus! {

use vstd::arithmetic::power2::{pow2, lemma_pow2_pos, lemma2_to64};
use vstd::arithmetic::div_mod::{lemma_small_mod, lemma_mod_bound};
use crate::registers::RvRegisters;
use crate::atomic::AtomicCtx;
use crate::exception::{RvException, from_bus_spec};
use crate::bus::{Bus, bus_fetch_spec, bus_store_spec};
use crate::uint::{le_val, le_bytes, sext_val, to_signed, lemma_pow2_halves,
    lemma_mod_pow2_collapse, lemma_le_bytes_exact, lemma_bitop_bound, u128_to_le_bytes};
use crate::alu::{enc, add_mod, sext_u128, signed_lt, mod_pow2_u128};

/// The access width in bytes selected by `funct3`.
pub open spec fn amo_width(funct3: nat) -> nat {
    if funct3 == 2 {
        4
    } else {
        8
    }
}

/// The access width in bytes a compare-and-swap selects by `funct3`.
pub open spec fn cas_width(funct3: nat) -> nat {
    if funct3 == 2 {
        4
    } else if funct3 == 3 {
        8
    } else {
        16
    }
}

/// The bus address of an atomic access: the low 64 bits of `rs1`.
pub open spec fn amo_addr(rs1val: nat) -> nat {
    rs1val % pow2(64)
}

/// The register value a successful atomic load produces: the fetched bytes
/// at the access width, sign-extended to the register width.
pub open spec fn amo_loaded(bytes: Seq<u8>, wb: nat, xlen: nat) -> nat {
    sext_val(le_val(bytes), 8 * wb, xlen)
}

/// The full-width byte image a read-modify-write atomic hands the bus.
pub open spec fn amo_stored(result: nat, xlen: nat) -> Seq<u8> {
    le_bytes(result % pow2(xlen), xlen / 8)
}

/// The second operand of a read-modify-write atomic: `rs2` as it reads after
/// the destination register was written with the loaded value.
pub open spec fn amo_rs2(pre: &RvRegisters, rd: int, rs2: int, loaded: nat) -> nat {
    if rs2 == rd {
        loaded
    } else {
        pre.val(rs2)
    }
}

/// Reads the low 64 bits of `rs1` as the atomic access address.
fn amo_addr_calc(x: &RvRegisters, rs1: usize) -> (r: u64)
    requires
        x.wf(),
        rs1 < x.count,
    ensures
        r as nat == amo_addr(x.val(rs1 as int)),
{
    let u = x.get(rs1);
    proof {
        lemma_pow2_halves();
        lemma_mod_bound(x.val(rs1 as int) as int, pow2(64) as int);
    }
    u.low_u128(8) as u64
}

/// Fetches the access-width word and sign-extends it to the register width.
fn amo_fetch(bus: &mut Bus, addr: u64, wb: usize, xlen: usize) -> (r: Result<u128, RvException>)
    requires
        crate::bus::bus_inv(old(bus)@),
        wb == 4 || wb == 8 || wb == 16,
        xlen == 32 || xlen == 64 || xlen == 128,
        8 * wb <= xlen,
    ensures
        crate::bus::bus_inv(final(bus)@),
        final(bus)@ == bus_fetch_spec(old(bus)@, wb as nat, addr).0,
        ({
            let fr = bus_fetch_spec(old(bus)@, wb as nat, addr).1;
            match fr {
                Ok(bytes) => (r matches Ok(v) && v as nat == amo_loaded(
                    bytes,
                    wb as nat,
                    xlen as nat,
                ) && v < pow2(xlen as nat)),
                Err(e) => r == Err::<u128, RvException>(from_bus_spec(e)),
            }
        }),
{
    match bus.fetch(wb, addr) {
        Ok(v) => {
            let m = crate::uint::le_low128(&v, wb);
            proof {
                lemma_pow2_pos((8 * wb) as nat);
                lemma_mod_bound(le_val(v@) as int, pow2((8 * wb) as nat) as int);
                lemma_small_mod((le_val(v@) % pow2((8 * wb) as nat)) as nat, pow2((8 * wb) as nat));
            }
            Ok(sext_u128(m, 8 * wb, xlen))
        },
        Err(e) => Err(RvException::from_bus(e)),
    }
}

/// Encodes a full-width register value as the byte image for the bus.
fn amo_store_bytes(result: u128, xlen: usize) -> (r: Vec<u8>)
    requires
        xlen == 32 || xlen == 64 || xlen == 128,
    ensures
        r@ == amo_stored(result as nat, xlen as nat),
        r@.len() == xlen / 8,
{
    let bytes = u128_to_le_bytes(result, xlen / 8);
    proof {
        lemma_mod_pow2_collapse(result as int, xlen as nat);
        lemma_le_bytes_exact(bytes@, (result as nat % pow2(xlen as nat)) as nat, (xlen / 8) as nat);
    }
    bytes
}

/// What `lr` does: reserves the address, loads the sign-extended word into
/// `rd`, and reports a fetched fault with the registers untouched; a nonzero
/// `rs2` field is an illegal encoding.
pub open spec fn lr_post(
    pre_ctx: AtomicCtx,
    post_ctx: AtomicCtx,
    pre_x: &RvRegisters,
    post_x: &RvRegisters,
    pre_bus: BusView0,
    post_bus: BusView0,
    funct3: nat,
    rd: int,
    rs1: int,
    rs2: int,
    r: Option<RvException>,
) -> bool {
    &&& rs2 != 0 ==> r == Some(RvException::InstructionIllegal) && *post_x == *pre_x && post_ctx
        == pre_ctx && post_bus == pre_bus
    &&& rs2 == 0 ==> ({
        let addr = amo_addr(pre_x.val(rs1)) as u64;
        let wb = amo_width(funct3);
        let (b1, fr) = bus_fetch_spec(pre_bus, wb, addr);
        post_bus == b1 && post_ctx.valid && post_ctx.address == addr && match fr {
            Ok(bytes) => r is None && RvRegisters::others_unchanged(pre_x, post_x, rd)
                && post_x.val(rd) == amo_loaded(bytes, wb, pre_x.xlen as nat),
            Err(e) => r == Some(from_bus_spec(e)) && *post_x == *pre_x,
        }
    })
}

/// What `sc` does: stores `rs2` exactly when the reservation matches, writes
/// the success flag, and consumes the reservation on every outcome.
pub open spec fn sc_post(
    pre_ctx: AtomicCtx,
    post_ctx: AtomicCtx,
    pre_x: &RvRegisters,
    post_x: &RvRegisters,
    pre_bus: BusView0,
    post_bus: BusView0,
    funct3: nat,
    rd: int,
    rs1: int,
    rs2: int,
    r: Option<RvException>,
) -> bool {
    let addr = amo_addr(pre_x.val(rs1)) as u64;
    let wb = amo_width(funct3);
    let hit = pre_ctx.valid && pre_ctx.address == addr;
    if hit {
        let stored = le_bytes(pre_x.val(rs2) % pow2(8 * wb), wb);
        let (b1, sr) = bus_store_spec(pre_bus, wb, addr, stored);
        post_bus == b1 && !post_ctx.valid && match sr {
            None => r is None && RvRegisters::others_unchanged(pre_x, post_x, rd) && post_x.val(rd)
                == 0,
            Some(e) => r == Some(from_bus_spec(e)) && *post_x == *pre_x,
        }
    } else {
        post_bus == pre_bus && r is None && !post_ctx.valid && RvRegisters::others_unchanged(
            pre_x,
            post_x,
            rd,
        ) && post_x.val(rd) == 1
    }
}

/// `lr`: loads the addressed word and places a reservation on the address.
pub fn lr(
    ctx: &mut AtomicCtx,
    _aq: bool,
    _rl: bool,
    funct3: usize,
    x: &mut RvRegisters,
    rd: usize,
    rs1: usize,
    rs2: usize,
    bus: &mut Bus,
) -> (r: Option<RvException>)
    requires
        old(x).wf(),
        funct3 == 2 || funct3 == 3,
        funct3 == 3 ==> old(x).xlen >= 64,
        rd < old(x).count,
        rs1 < old(x).count,
        crate::bus::bus_inv(old(bus)@),
    ensures
        final(x).wf(),
        crate::bus::bus_inv(final(bus)@),
        lr_post(
            *old(ctx),
            *final(ctx),
            old(x),
            final(x),
            old(bus)@,
            final(bus)@,
            funct3 as nat,
            rd as int,
            rs1 as int,
            rs2 as int,
            r,
        ),
{
    let wb: usize = if funct3 == 2 {
        4
    } else {
        8
    };
    if rs2 != 0 {
        return Some(RvException::InstructionIllegal);
    }
    let addr = amo_addr_calc(x, rs1);
    ctx.reserve(addr);
    let w = x.len();
    match amo_fetch(bus, addr, wb, w) {
        Ok(v) => {
            x.set_u128(rd, v);
            proof {
                lemma_pow2_pos(w as nat);
                lemma_small_mod(v as nat, pow2(w as nat));
            }
            None
        },
        Err(e) => Some(e),
    }
}

/// `sc`: stores the source word exactly when the address still carries the
/// reservation; writes zero to `rd` on success and one on failure.  The
/// reservation is consumed on every outcome, a faulting store included.
pub fn sc(
    ctx: &mut AtomicCtx,
    _aq: bool,
    _rl: bool,
    funct3: usize,
    x: &mut RvRegisters,
    rd: usize,
    rs1: usize,
    rs2: usize,
    bus: &mut Bus,
) -> (r: Option<RvException>)
    requires
        old(x).wf(),
        funct3 == 2 || funct3 == 3,
        funct3 == 3 ==> old(x).xlen >= 64,
        rd < old(x).count,
        rs1 < old(x).count,
        rs2 < old(x).count,
        crate::bus::bus_inv(old(bus)@),
    ensures
        final(x).wf(),
        crate::bus::bus_inv(final(bus)@),
        sc_post(
            *old(ctx),
            *final(ctx),
            old(x),
            final(x),
            old(bus)@,
            final(bus)@,
            funct3 as nat,
            rd as int,
            rs1 as int,
            rs2 as int,
            r,
        ),
{
    let wb: usize = if funct3 == 2 {
        4
    } else {
        8
    };
    let addr = amo_addr_calc(x, rs1);
    let w = x.len();
    proof {
        lemma_pow2_pos(w as nat);
        lemma_pow2_pos((8 * wb) as nat);
        lemma2_to64();
        crate::uint::lemma_pow2_halves();
    }
    if ctx.check(addr) {
        let u2 = x.get(rs2);
        let low = u2.low_u128(wb);
        let bytes = u128_to_le_bytes(low, wb);
        proof {
            lemma_mod_bound(old(x).val(rs2 as int) as int, pow2((8 * wb) as nat) as int);
            lemma_mod_pow2_collapse(old(x).val(rs2 as int) as int, (8 * wb) as nat);
            lemma_le_bytes_exact(
                bytes@,
                (old(x).val(rs2 as int) % pow2((8 * wb) as nat)) as nat,
                wb as nat,
            );
        }
        match bus.store(wb, addr, &bytes) {
            None => (),
            Some(e) => {
                // the reservation is consumed even when the store faults
                ctx.release();
                return Some(RvException::from_bus(e));
            },
        }
        x.set_u128(rd, 0);
        proof {
            lemma_small_mod(0nat, pow2(w as nat));
        }
    } else {
        x.set_u128(rd, 1);
        proof {
            lemma_small_mod(1nat, pow2(w as nat));
        }
    }
    ctx.release();
    None
}

/// The stored value of one read-modify-write atomic, given the loaded value
/// and the (post-`rd`-write) `rs2` operand, both at the register width.
pub open spec fn amo_op_result(op: nat, loaded: nat, rs2v: nat, wb: nat, xlen: nat) -> nat {
    if op == 0 {
        // add: wrapping sum at the register width
        (loaded + rs2v) % pow2(xlen)
    } else if op == 1 {
        // swap: the source operand
        rs2v
    } else if op == 4 {
        // xor
        ((loaded as u128) ^ (rs2v as u128)) as nat
    } else if op == 12 {
        // and
        ((loaded as u128) & (rs2v as u128)) as nat
    } else if op == 8 {
        // or
        ((loaded as u128) | (rs2v as u128)) as nat
    } else if op == 16 {
        // min: signed comparison at the access width
        if to_signed(loaded % pow2(8 * wb), 8 * wb) < to_signed(rs2v % pow2(8 * wb), 8 * wb) {
            loaded
        } else {
            rs2v
        }
    } else if op == 20 {
        // max: signed comparison at the access width
        if to_signed(loaded % pow2(8 * wb), 8 * wb) > to_signed(rs2v % pow2(8 * wb), 8 * wb) {
            loaded
        } else {
            rs2v
        }
    } else if op == 24 {
        // minu: unsigned comparison at the register width
        if loaded < rs2v {
            loaded
        } else {
            rs2v
        }
    } else {
        // maxu: unsigned comparison at the register width
        if loaded > rs2v {
            loaded
        } else {
            rs2v
        }
    }
}

/// The shared shape of every read-modify-write atomic: fetch, write `rd`,
/// compute, store the full-width image of the result.
pub open spec fn amo_rmw_post(
    op: nat,
    pre_x: &RvRegisters,
    post_x: &RvRegisters,
    pre_bus: BusView0,
    post_bus: BusView0,
    ctx_funct3: nat,
    rd: int,
    rs1: int,
    rs2: int,
    r: Option<RvException>,
) -> bool {
    let addr = amo_addr(pre_x.val(rs1)) as u64;
    let wb = amo_width(ctx_funct3);
    let (b1, fr) = bus_fetch_spec(pre_bus, wb, addr);
    match fr {
        Err(e) => r == Some(from_bus_spec(e)) && post_bus == b1 && *post_x == *pre_x,
        Ok(bytes) => {
            let loaded = amo_loaded(bytes, wb, pre_x.xlen as nat);
            let rs2v = amo_rs2(pre_x, rd, rs2, loaded);
            let result = amo_op_result(op, loaded, rs2v, wb, pre_x.xlen as nat);
            let (b2, sr) = bus_store_spec(b1, wb, addr, amo_stored(result, pre_x.xlen as nat));
            post_bus == b2 && RvRegisters::others_unchanged(pre_x, post_x, rd) && post_x.val(rd)
                == loaded && match sr {
                Some(e) => r == Some(from_bus_spec(e)),
                None => r is None,
            }
        },
    }
}

/// The bus state type, named for use in spec signatures here.
pub type BusView0 = crate::bus::BusView;

/// The common executable path of the read-modify-write atomics.
fn amo_rmw(
    op: usize,
    funct3: usize,
    x: &mut RvRegisters,
    rd: usize,
    rs1: usize,
    rs2: usize,
    bus: &mut Bus,
) -> (r: Option<RvException>)
    requires
        old(x).wf(),
        funct3 == 2 || funct3 == 3,
        funct3 == 3 ==> old(x).xlen >= 64,
        rd < old(x).count,
        rs1 < old(x).count,
        rs2 < old(x).count,
        crate::bus::bus_inv(old(bus)@),
        op == 0 || op == 1 || op == 4 || op == 8 || op == 12 || op == 16 || op == 20 || op == 24
            || op == 28,
    ensures
        final(x).wf(),
        crate::bus::bus_inv(final(bus)@),
        amo_rmw_post(
            op as nat,
            old(x),
            final(x),
            old(bus)@,
            final(bus)@,
            funct3 as nat,
            rd as int,
            rs1 as int,
            rs2 as int,
            r,
        ),
{
    let wb: usize = if funct3 == 2 {
        4
    } else {
        8
    };
    let addr = amo_addr_calc(x, rs1);
    let w = x.len();
    proof {
        lemma_pow2_pos(w as nat);
        lemma_pow2_pos((8 * wb) as nat);
    }
    let loaded = match amo_fetch(bus, addr, wb, w) {
        Ok(v) => v,
        Err(e) => {
            return Some(e);
        },
    };
    x.set_u128(rd, loaded);
    proof {
        lemma_small_mod(loaded as nat, pow2(w as nat));
    }
    let rs2v = x.get_u128(rs2);
    let result: u128 = if op == 0 {
        add_mod(loaded, rs2v, w)
    } else if op == 1 {
        rs2v
    } else if op == 4 {
        proof {
            lemma_bitop_bound(loaded, rs2v, w as nat);
        }
        loaded ^ rs2v
    } else if op == 12 {
        proof {
            lemma_bitop_bound(loaded, rs2v, w as nat);
        }
        loaded & rs2v
    } else if op == 8 {
        proof {
            lemma_bitop_bound(loaded, rs2v, w as nat);
        }
        loaded | rs2v
    } else if op == 16 {
        let lw = mod_pow2_u128(loaded, 8 * wb);
        let rw = mod_pow2_u128(rs2v, 8 * wb);
        if signed_lt(lw, rw, 8 * wb) {
            loaded
        } else {
            rs2v
        }
    } else if op == 20 {
        let lw = mod_pow2_u128(loaded, 8 * wb);
        let rw = mod_pow2_u128(rs2v, 8 * wb);
        if signed_lt(rw, lw, 8 * wb) {
            loaded
        } else {
            rs2v
        }
    } else if op == 24 {
        if loaded < rs2v {
            loaded
        } else {
            rs2v
        }
    } else {
        if loaded > rs2v {
            loaded
        } else {
            rs2v
        }
    };
    let bytes = amo_store_bytes(result, w);
    proof {
        lemma_small_mod(
            (loaded as nat % pow2((8 * wb) as nat)) as nat,
            pow2((8 * wb) as nat),
        );
        lemma_small_mod((rs2v as nat % pow2((8 * wb) as nat)) as nat, pow2((8 * wb) as nat));
        lemma_mod_bound(loaded as int, pow2((8 * wb) as nat) as int);
        lemma_mod_bound(rs2v as int, pow2((8 * wb) as nat) as int);
    }
    match bus.store(wb, addr, &bytes) {
        None => None,
        Some(e) => Some(RvException::from_bus(e)),
    }
}

/// `amoswap`: exchanges the memory word with `rs2`.
pub fn swap(
    _aq: bool,
    _rl: bool,
    funct3: usize,
    x: &mut RvRegisters,
    rd: usize,
    rs1: usize,
    rs2: usize,
    bus: &mut Bus,
) -> (r: Option<RvException>)
    requires
        old(x).wf(),
        funct3 == 2 || funct3 == 3,
        funct3 == 3 ==> old(x).xlen >= 64,
        rd < old(x).count,
        rs1 < old(x).count,
        rs2 < old(x).count,
        crate::bus::bus_inv(old(bus)@),
    ensures
        final(x).wf(),
        crate::bus::bus_inv(final(bus)@),
        amo_rmw_post(
            1,
            old(x),
            final(x),
            old(bus)@,
            final(bus)@,
            funct3 as nat,
            rd as int,
            rs1 as int,
            rs2 as int,
            r,
        ),
{
    amo_rmw(1, funct3, x, rd, rs1, rs2, bus)
}

/// `amoadd`: adds `rs2` into the memory word.
pub fn add(
    _aq: bool,
    _rl: bool,
    funct3: usize,
    x: &mut RvRegisters,
    rd: usize,
    rs1: usize,
    rs2: usize,
    bus: &mut Bus,
) -> (r: Option<RvException>)
    requires
        old(x).wf(),
        funct3 == 2 || funct3 == 3,
        funct3 == 3 ==> old(x).xlen >= 64,
        rd < old(x).count,
        rs1 < old(x).count,
        rs2 < old(x).count,
        crate::bus::bus_inv(old(bus)@),
    ensures
        final(x).wf(),
        crate::bus::bus_inv(final(bus)@),
        amo_rmw_post(
            0,
            old(x),
            final(x),
            old(bus)@,
            final(bus)@,
            funct3 as nat,
            rd as int,
            rs1 as int,
            rs2 as int,
            r,
        ),
{
    amo_rmw(0, funct3, x, rd, rs1, rs2, bus)
}

/// `amoxor`: exclusive-ors `rs2` into the memory word.
pub fn xor(
    _aq: bool,
    _rl: bool,
    funct3: usize,
    x: &mut RvRegisters,
    rd: usize,
    rs1: usize,
    rs2: usize,
    bus: &mut Bus,
) -> (r: Option<RvException>)
    requires
        old(x).wf(),
        funct3 == 2 || funct3 == 3,
        funct3 == 3 ==> old(x).xlen >= 64,
        rd < old(x).count,
        rs1 < old(x).count,
        rs2 < old(x).count,
        crate::bus::bus_inv(old(bus)@),
    ensures
        final(x).wf(),
        crate::bus::bus_inv(final(bus)@),
        amo_rmw_post(
            4,
            old(x),
            final(x),
            old(bus)@,
            final(bus)@,
            funct3 as nat,
            rd as int,
            rs1 as int,
            rs2 as int,
            r,
        ),
{
    amo_rmw(4, funct3, x, rd, rs1, rs2, bus)
}

/// `amoand`: ands `rs2` into the memory word.
pub fn and(
    _aq: bool,
    _rl: bool,
    funct3: usize,
    x: &mut RvRegisters,
    rd: usize,
    rs1: usize,
    rs2: usize,
    bus: &mut Bus,
) -> (r: Option<RvException>)
    requires
        old(x).wf(),
        funct3 == 2 || funct3 == 3,
        funct3 == 3 ==> old(x).xlen >= 64,
        rd < old(x).count,
        rs1 < old(x).count,
        rs2 < old(x).count,
        crate::bus::bus_inv(old(bus)@),
    ensures
        final(x).wf(),
        crate::bus::bus_inv(final(bus)@),
        amo_rmw_post(
            12,
            old(x),
            final(x),
            old(bus)@,
            final(bus)@,
            funct3 as nat,
            rd as int,
            rs1 as int,
            rs2 as int,
            r,
        ),
{
    amo_rmw(12, funct3, x, rd, rs1, rs2, bus)
}

/// `amoor`: ors `rs2` into the memory word.
pub fn or(
    _aq: bool,
    _rl: bool,
    funct3: usize,
    x: &mut RvRegisters,
    rd: usize,
    rs1: usize,
    rs2: usize,
    bus: &mut Bus,
) -> (r: Option<RvException>)
    requires
        old(x).wf(),
        funct3 == 2 || funct3 == 3,
        funct3 == 3 ==> old(x).xlen >= 64,
        rd < old(x).count,
        rs1 < old(x).count,
        rs2 < old(x).count,
        crate::bus::bus_inv(old(bus)@),
    ensures
        final(x).wf(),
        crate::bus::bus_inv(final(bus)@),
        amo_rmw_post(
            8,
            old(x),
            final(x),
            old(bus)@,
            final(bus)@,
            funct3 as nat,
            rd as int,
            rs1 as int,
            rs2 as int,
            r,
        ),
{
    amo_rmw(8, funct3, x, rd, rs1, rs2, bus)
}

/// `amomin`: signed minimum of the memory word and `rs2`.
pub fn min(
    _aq: bool,
    _rl: bool,
    funct3: usize,
    x: &mut RvRegisters,
    rd: usize,
    rs1: usize,
    rs2: usize,
    bus: &mut Bus,
) -> (r: Option<RvException>)
    requires
        old(x).wf(),
        funct3 == 2 || funct3 == 3,
        funct3 == 3 ==> old(x).xlen >= 64,
        rd < old(x).count,
        rs1 < old(x).count,
        rs2 < old(x).count,
        crate::bus::bus_inv(old(bus)@),
    ensures
        final(x).wf(),
        crate::bus::bus_inv(final(bus)@),
        amo_rmw_post(
            16,
            old(x),
            final(x),
            old(bus)@,
            final(bus)@,
            funct3 as nat,
            rd as int,
            rs1 as int,
            rs2 as int,
            r,
        ),
{
    amo_rmw(16, funct3, x, rd, rs1, rs2, bus)
}

/// `amomax`: signed maximum of the memory word and `rs2`.
pub fn max(
    _aq: bool,
    _rl: bool,
    funct3: usize,
    x: &mut RvRegisters,
    rd: usize,
    rs1: usize,
    rs2: usize,
    bus: &mut Bus,
) -> (r: Option<RvException>)
    requires
        old(x).wf(),
        funct3 == 2 || funct3 == 3,
        funct3 == 3 ==> old(x).xlen >= 64,
        rd < old(x).count,
        rs1 < old(x).count,
        rs2 < old(x).count,
        crate::bus::bus_inv(old(bus)@),
    ensures
        final(x).wf(),
        crate::bus::bus_inv(final(bus)@),
        amo_rmw_post(
            20,
            old(x),
            final(x),
            old(bus)@,
            final(bus)@,
            funct3 as nat,
            rd as int,
            rs1 as int,
            rs2 as int,
            r,
        ),
{
    amo_rmw(20, funct3, x, rd, rs1, rs2, bus)
}

/// `amominu`: unsigned minimum of the memory word and `rs2`.
pub fn minu(
    _aq: bool,
    _rl: bool,
    funct3: usize,
    x: &mut RvRegisters,
    rd: usize,
    rs1: usize,
    rs2: usize,
    bus: &mut Bus,
) -> (r: Option<RvException>)
    requires
        old(x).wf(),
        funct3 == 2 || funct3 == 3,
        funct3 == 3 ==> old(x).xlen >= 64,
        rd < old(x).count,
        rs1 < old(x).count,
        rs2 < old(x).count,
        crate::bus::bus_inv(old(bus)@),
    ensures
        final(x).wf(),
        crate::bus::bus_inv(final(bus)@),
        amo_rmw_post(
            24,
            old(x),
            final(x),
            old(bus)@,
            final(bus)@,
            funct3 as nat,
            rd as int,
            rs1 as int,
            rs2 as int,
            r,
        ),
{
    amo_rmw(24, funct3, x, rd, rs1, rs2, bus)
}

/// `amomaxu`: unsigned maximum of the memory word and `rs2`.
pub fn maxu(
    _aq: bool,
    _rl: bool,
    funct3: usize,
    x: &mut RvRegisters,
    rd: usize,
    rs1: usize,
    rs2: usize,
    bus: &mut Bus,
) -> (r: Option<RvException>)
    requires
        old(x).wf(),
        funct3 == 2 || funct3 == 3,
        funct3 == 3 ==> old(x).xlen >= 64,
        rd < old(x).count,
        rs1 < old(x).count,
        rs2 < old(x).count,
        crate::bus::bus_inv(old(bus)@),
    ensures
        final(x).wf(),
        crate::bus::bus_inv(final(bus)@),
        amo_rmw_post(
            28,
            old(x),
            final(x),
            old(bus)@,
            final(bus)@,
            funct3 as nat,
            rd as int,
            rs1 as int,
            rs2 as int,
            r,
        ),
{
    amo_rmw(28, funct3, x, rd, rs1, rs2, bus)
}

/// The state and outcome of a single-width compare-and-swap.
pub open spec fn cas_single_spec(
    bus: BusView0,
    addr: u64,
    wb: nat,
    xlen: nat,
    comp: nat,
    swap_v: nat,
) -> (BusView0, Result<(nat, bool), crate::exception::BusException>) {
    let (b1, r1) = bus_fetch_spec(bus, wb, addr);
    match r1 {
        Err(e) => (b1, Err(e)),
        Ok(bytes) => {
            let t0 = amo_loaded(bytes, wb, xlen);
            if t0 == comp {
                let (b2, s1) = bus_store_spec(b1, wb, addr, le_bytes(swap_v % pow2(8 * wb), wb));
                match s1 {
                    Some(e) => (b2, Err(e)),
                    None => (b2, Ok((t0, true))),
                }
            } else {
                (b1, Ok((t0, false)))
            }
        },
    }
}

/// The state and outcome of a register-pair compare-and-swap: two register
/// width accesses at consecutive addresses, compared and swapped together.
pub open spec fn cas_pair_spec(
    bus: BusView0,
    addr: u64,
    xlen: nat,
    comp0: nat,
    comp1: nat,
    swap0: nat,
    swap1: nat,
) -> (BusView0, Result<(nat, nat, bool), crate::exception::BusException>) {
    let wb = xlen / 8;
    let addr2 = crate::instr::load::eff_addr(addr as nat, wb as int) as u64;
    let (b1, r1) = bus_fetch_spec(bus, wb, addr);
    match r1 {
        Err(e) => (b1, Err(e)),
        Ok(v0) => {
            let (b2, r2) = bus_fetch_spec(b1, wb, addr2);
            match r2 {
                Err(e) => (b2, Err(e)),
                Ok(v1) => {
                    let t0 = amo_loaded(v0, wb, xlen);
                    let t1 = amo_loaded(v1, wb, xlen);
                    if t0 == comp0 && t1 == comp1 {
                        let (b3, s1) = bus_store_spec(b2, wb, addr, amo_stored(swap0, xlen));
                        match s1 {
                            Some(e) => (b3, Err(e)),
                            None => {
                                let (b4, s2) = bus_store_spec(
                                    b3,
                                    wb,
                                    addr2,
                                    amo_stored(swap1, xlen),
                                );
                                match s2 {
                                    Some(e) => (b4, Err(e)),
                                    None => (b4, Ok((t0, t1, true))),
                                }
                            },
                        }
                    } else {
                        (b2, Ok((t0, t1, false)))
                    }
                },
            }
        },
    }
}

/// What `cas` does: the single form per [`cas_single_spec`] when the access
/// width fits the register, the register-pair form per [`cas_pair_spec`]
/// when it is twice the register width (`amocas.q` on a 64-bit hart).
pub open spec fn cas_post(
    pre_x: &RvRegisters,
    post_x: &RvRegisters,
    pre_bus: BusView0,
    post_bus: BusView0,
    funct3: nat,
    rd: int,
    rs1: int,
    rs2: int,
    r: Option<RvException>,
) -> bool {
    let addr = amo_addr(pre_x.val(rs1)) as u64;
    let cw = cas_width(funct3);
    if 8 * cw == 2 * pre_x.xlen {
        if rd + 1 >= pre_x.count || rs2 + 1 >= pre_x.count {
            r == Some(RvException::InstructionIllegal) && *post_x == *pre_x && post_bus == pre_bus
        } else {
            let (b2, out) = cas_pair_spec(
                pre_bus,
                addr,
                pre_x.xlen as nat,
                pre_x.val(rd),
                pre_x.val(rd + 1),
                pre_x.val(rs2),
                pre_x.val(rs2 + 1),
            );
            post_bus == b2 && match out {
                Err(e) => r == Some(from_bus_spec(e)) && *post_x == *pre_x,
                Ok((t0, t1, _)) => r is None && if rd != rs1 {
                    RvRegisters::others_unchanged2(pre_x, post_x, rd, rd + 1) && post_x.val(rd)
                        == t0 && post_x.val(rd + 1) == t1
                } else {
                    *post_x == *pre_x
                },
            }
        }
    } else {
        let (b2, out) = cas_single_spec(
            pre_bus,
            addr,
            cw,
            pre_x.xlen as nat,
            pre_x.val(rd),
            pre_x.val(rs2),
        );
        post_bus == b2 && match out {
            Err(e) => r == Some(from_bus_spec(e)) && *post_x == *pre_x,
            Ok((t0, _)) => r is None && if rd != rs1 {
                RvRegisters::others_unchanged(pre_x, post_x, rd) && post_x.val(rd) == t0
            } else {
                *post_x == *pre_x
            },
        }
    }
}

/// `amocas` at the access width (word or double-word): compares the memory
/// word with `rd` and, when equal, stores `rs2`; `rd` receives the prior
/// memory value unless `rd == rs1`.
pub fn cas(
    _aq: bool,
    _rl: bool,
    funct3: usize,
    x: &mut RvRegisters,
    rd: usize,
    rs1: usize,
    rs2: usize,
    bus: &mut Bus,
) -> (r: Option<RvException>)
    requires
        old(x).wf(),
        funct3 == 2 || funct3 == 3 || funct3 == 4,
        funct3 == 3 ==> old(x).xlen >= 64,
        funct3 == 4 ==> old(x).xlen >= 64,
        rd < old(x).count,
        rs1 < old(x).count,
        rs2 < old(x).count,
        crate::bus::bus_inv(old(bus)@),
    ensures
        final(x).wf(),
        crate::bus::bus_inv(final(bus)@),
        cas_post(
            old(x),
            final(x),
            old(bus)@,
            final(bus)@,
            funct3 as nat,
            rd as int,
            rs1 as int,
            rs2 as int,
            r,
        ),
{
    let wb: usize = if funct3 == 2 {
        4
    } else if funct3 == 3 {
        8
    } else {
        16
    };
    let addr = amo_addr_calc(x, rs1);
    let w = x.len();
    proof {
        lemma_pow2_pos(w as nat);
        lemma_pow2_pos((8 * wb) as nat);
    }
    if 8 * wb == 2 * w {
        return cas_pair(x, rd, rs1, rs2, bus, addr);
    }
    let temp0 = match amo_fetch(bus, addr, wb, w) {
        Ok(v) => v,
        Err(e) => {
            return Some(e);
        },
    };
    let comp0 = x.get_u128(rd);
    let swap0 = x.get_u128(rs2);
    if temp0 == comp0 {
        let low = mod_pow2_u128(swap0, 8 * wb);
        let bytes = u128_to_le_bytes(low, wb);
        proof {
            lemma_mod_pow2_collapse(old(x).val(rs2 as int) as int, (8 * wb) as nat);
            lemma_mod_bound(swap0 as int, pow2((8 * wb) as nat) as int);
            lemma_small_mod(low as nat, pow2((8 * wb) as nat));
            lemma_le_bytes_exact(
                bytes@,
                (old(x).val(rs2 as int) % pow2((8 * wb) as nat)) as nat,
                wb as nat,
            );
        }
        match bus.store(wb, addr, &bytes) {
            None => (),
            Some(e) => {
                return Some(RvException::from_bus(e));
            },
        }
    }
    if rd != rs1 {
        x.set_u128(rd, temp0);
        proof {
            lemma_small_mod(temp0 as nat, pow2(w as nat));
        }
    }
    None
}

/// The register-pair compare-and-swap: two consecutive register-width words
/// against the register pairs at `rd` and `rs2`.
fn cas_pair(
    x: &mut RvRegisters,
    rd: usize,
    rs1: usize,
    rs2: usize,
    bus: &mut Bus,
    addr: u64,
) -> (r: Option<RvException>)
    requires
        old(x).wf(),
        rd < old(x).count,
        rs1 < old(x).count,
        rs2 < old(x).count,
        addr as nat == amo_addr(old(x).val(rs1 as int)),
        crate::bus::bus_inv(old(bus)@),
    ensures
        final(x).wf(),
        crate::bus::bus_inv(final(bus)@),
        ({
            let xlen = old(x).xlen as nat;
            if rd + 1 >= old(x).count || rs2 + 1 >= old(x).count {
                r == Some(RvException::InstructionIllegal) && *final(x) == *old(x) && final(bus)@
                    == old(bus)@
            } else {
                let (b2, out) = cas_pair_spec(
                    old(bus)@,
                    addr,
                    xlen,
                    old(x).val(rd as int),
                    old(x).val(rd as int + 1),
                    old(x).val(rs2 as int),
                    old(x).val(rs2 as int + 1),
                );
                final(bus)@ == b2 && match out {
                    Err(e) => r == Some(from_bus_spec(e)) && *final(x) == *old(x),
                    Ok((t0, t1, _)) => r is None && if rd != rs1 {
                        RvRegisters::others_unchanged2(old(x), final(x), rd as int, rd as int + 1)
                            && final(x).val(rd as int) == t0 && final(x).val(rd as int + 1) == t1
                    } else {
                        *final(x) == *old(x)
                    },
                }
            }
        }),
{
    if rd + 1 >= x.count || rs2 + 1 >= x.count {
        return Some(RvException::InstructionIllegal);
    }
    let w = x.len();
    let wbh = w / 8;
    proof {
        lemma_pow2_pos(w as nat);
        crate::uint::lemma_pow2_halves();
        lemma_small_mod(addr as nat, pow2(64));
    }
    let addr2 = crate::instr::load::eff_addr_calc(addr, (w / 8) as i32);
    let temp0 = match amo_fetch(bus, addr, wbh, w) {
        Ok(v) => v,
        Err(e) => {
            return Some(e);
        },
    };
    let temp1 = match amo_fetch(bus, addr2, wbh, w) {
        Ok(v) => v,
        Err(e) => {
            return Some(e);
        },
    };
    let comp0 = x.get_u128(rd);
    let comp1 = x.get_u128(rd + 1);
    let swap0 = x.get_u128(rs2);
    let swap1 = x.get_u128(rs2 + 1);
    if temp0 == comp0 && temp1 == comp1 {
        let bytes0 = amo_store_bytes(swap0, w);
        match bus.store(wbh, addr, &bytes0) {
            None => (),
            Some(e) => {
                return Some(RvException::from_bus(e));
            },
        }
        let bytes1 = amo_store_bytes(swap1, w);
        match bus.store(wbh, addr2, &bytes1) {
            None => (),
            Some(e) => {
                return Some(RvException::from_bus(e));
            },
        }
    }
    if rd != rs1 {
        x.set_u128(rd, temp0);
        x.set_u128(rd + 1, temp1);
        proof {
            lemma_small_mod(temp0 as nat, pow2(w as nat));
            lemma_small_mod(temp1 as nat, pow2(w as nat));
        }
    }
    None
}

} // verus!
