//! The SYSTEM family: environment calls, breakpoints, trap returns and the
//! CSR read-modify-write instructions.
//!
//! `ecall` and `xret` are architectural no-ops in this core (documented
//! placeholders); `ebreak` always raises a breakpoint.  The CSR instructions
//! read the addressed CSR into `rd` and write back a replaced, set-bits or
//! cleared-bits value; the read-modify forms skip the write when `rs1` is 0.

use vstd::prelude::*;

verus! {

use vstd::arithmetic::power2::{pow2, lemma_pow2_pos};
use vstd::arithmetic::div_mod::{lemma_small_mod, lemma_mod_bound};
use crate::registers::RvRegisters;
use crate::csr::{Csr, FFLAGS, FRM, FCSR, write_allowed_spec, fflags_wval, frm_wval};
use crate::exception::RvException;
use crate::uint::{Uint, lemma_pow2_halves, lemma_bitop_bound, lemma_u128_and_le};

/// `ecall`: an environment call; trap entry is not modeled, so this is a
/// documented no-op placeholder.
pub fn ecall(_reg: &mut RvRegisters) -> (r: Option<RvException>)
    ensures
        r is None,
        *final(_reg) == *old(_reg),
{
    None
}

/// `ebreak`: always raises a breakpoint exception.
pub fn ebreak(_reg: &mut RvRegisters) -> (r: Option<RvException>)
    ensures
        r == Some(RvException::Breakpoint),
        *final(_reg) == *old(_reg),
{
    Some(RvException::Breakpoint)
}

/// `xret` (sret/mret/mnret): trap return is not modeled, so this is a
/// documented no-op placeholder.
pub fn xret(_reg: &mut RvRegisters, _rd: usize, _rs1: usize, _funct12: usize, _csr: &mut Csr) -> (r:
    Option<RvException>)
    ensures
        r is None,
        *final(_reg) == *old(_reg),
        *final(_csr) == *old(_csr),
{
    None
}

/// The condition under which the fcsr-backed values stay as [`Csr::set`] says:
/// restated here so the CSR instructions carry the full write semantics.
pub open spec fn csr_write_post(pre: &Csr, post: &Csr, addr: int, v: nat) -> bool {
    &&& post.width == pre.width
    &&& !write_allowed_spec(addr) ==> forall|j: int| 0 <= j < 4096 ==> post.val(j) == pre.val(j)
    &&& write_allowed_spec(addr) && addr == FFLAGS ==> Csr::others_unchanged(pre, post, FCSR as int)
        && post.val(FCSR as int) == fflags_wval(pre.val(FCSR as int), v)
    &&& write_allowed_spec(addr) && addr == FRM ==> Csr::others_unchanged(pre, post, FCSR as int)
        && post.val(FCSR as int) == frm_wval(pre.val(FCSR as int), v)
    &&& write_allowed_spec(addr) && addr != FFLAGS && addr != FRM ==> Csr::others_unchanged(
        pre,
        post,
        addr,
    ) && post.val(addr) == v % pow2(8 * (pre.width as nat / 8))
}

/// What `csrrw`/`csrrwi` does: `rd` receives the CSR's readable value and the
/// CSR receives `rs1`'s value (or the zero-extended 5-bit immediate).
pub open spec fn csrrw_post(
    pre: &RvRegisters,
    post: &RvRegisters,
    cpre: &Csr,
    cpost: &Csr,
    rd: int,
    rs1: int,
    funct3: nat,
    funct12: int,
    r: Option<RvException>,
) -> bool {
    &&& funct3 != 1 && funct3 != 5 ==> r == Some(RvException::InstructionIllegal) && *post == *pre
        && *cpost == *cpre
    &&& funct3 == 1 || funct3 == 5 ==> ({
        let v = if funct3 == 1 {
            pre.val(rs1)
        } else {
            rs1 as nat
        };
        r is None && csr_write_post(cpre, cpost, funct12, v) && RvRegisters::others_unchanged(
            pre,
            post,
            rd,
        ) && post.val(rd) == cpre.read_val(funct12)
    })
}

/// What `csrrs`/`csrrsi` does: a pure read when `rs1` is zero, else the CSR
/// receives its value with the mask's bits set.
pub open spec fn csrrs_post(
    pre: &RvRegisters,
    post: &RvRegisters,
    cpre: &Csr,
    cpost: &Csr,
    rd: int,
    rs1: int,
    funct3: nat,
    funct12: int,
    r: Option<RvException>,
) -> bool {
    &&& rs1 != 0 && funct3 != 2 && funct3 != 6 ==> r == Some(RvException::InstructionIllegal)
        && *post == *pre && *cpost == *cpre
    &&& rs1 == 0 ==> (r is None && *cpost == *cpre && RvRegisters::others_unchanged(pre, post, rd)
        && post.val(rd) == cpre.read_val(funct12))
    &&& rs1 != 0 && (funct3 == 2 || funct3 == 6) ==> ({
        let dest = cpre.read_val(funct12);
        let m = if funct3 == 2 {
            pre.val(rs1)
        } else {
            rs1 as nat
        };
        let v = ((dest as u128) | (m as u128)) as nat;
        r is None && csr_write_post(cpre, cpost, funct12, v) && RvRegisters::others_unchanged(
            pre,
            post,
            rd,
        ) && post.val(rd) == dest
    })
}

/// What `csrrc`/`csrrci` does: a pure read when `rs1` is zero, else the CSR
/// receives its value with the mask's bits cleared.
pub open spec fn csrrc_post(
    pre: &RvRegisters,
    post: &RvRegisters,
    cpre: &Csr,
    cpost: &Csr,
    rd: int,
    rs1: int,
    funct3: nat,
    funct12: int,
    r: Option<RvException>,
) -> bool {
    &&& rs1 != 0 && funct3 != 3 && funct3 != 7 ==> r == Some(RvException::InstructionIllegal)
        && *post == *pre && *cpost == *cpre
    &&& rs1 == 0 ==> (r is None && *cpost == *cpre && RvRegisters::others_unchanged(pre, post, rd)
        && post.val(rd) == cpre.read_val(funct12))
    &&& rs1 != 0 && (funct3 == 3 || funct3 == 7) ==> ({
        let dest = cpre.read_val(funct12);
        let m = if funct3 == 3 {
            pre.val(rs1)
        } else {
            rs1 as nat
        };
        let v = ((dest as u128) & !(m as u128)) as nat;
        r is None && csr_write_post(cpre, cpost, funct12, v) && RvRegisters::others_unchanged(
            pre,
            post,
            rd,
        ) && post.val(rd) == dest
    })
}

/// `csrrw`/`csrrwi`: reads the CSR into `rd` and replaces it with `rs1`'s
/// value (or the 5-bit `rs1` field as a zero-extended immediate).
pub fn csrrw(
    reg: &mut RvRegisters,
    rd: usize,
    rs1: usize,
    funct3: usize,
    funct12: usize,
    csr: &mut Csr,
) -> (r: Option<RvException>)
    requires
        old(reg).wf(),
        old(csr).wf(),
        old(reg).xlen == old(csr).width,
        rd < old(reg).count,
        rs1 < old(reg).count,
        rs1 < 32,
        funct12 < 4096,
    ensures
        final(reg).wf(),
        final(csr).wf(),
        csrrw_post(
            old(reg),
            final(reg),
            old(csr),
            final(csr),
            rd as int,
            rs1 as int,
            funct3 as nat,
            funct12 as int,
            r,
        ),
{
    let w = reg.len();
    proof {
        lemma_pow2_pos(w as nat);
        lemma_pow2_halves();
    }
    let dest = match csr.get(funct12) {
        Some(d) => d,
        None => {
            return Some(RvException::InstructionIllegal);
        },
    };
    if funct3 == 1 {
        let v = reg.get(rs1);
        proof {
            crate::uint::lemma_own_val_exact(&v);
            lemma_small_mod(v.val(), pow2((8 * (w / 8)) as nat));
        }
        csr.set(funct12, &v);
    } else if funct3 == 5 {
        proof {
            lemma_small_mod(rs1 as nat, pow2((8 * (w / 8)) as nat));
        }
        let v = Uint::from_low_u128(rs1 as u128, w / 8);
        csr.set(funct12, &v);
    } else {
        return Some(RvException::InstructionIllegal);
    }
    proof {
        crate::uint::lemma_own_val_exact(&dest);
    }
    reg.set(rd, &dest);
    None
}

/// `csrrs`/`csrrsi`: reads the CSR into `rd` and, unless `rs1` is zero, sets
/// the bits of `rs1`'s value (or of the immediate) in it.
pub fn csrrs(
    reg: &mut RvRegisters,
    rd: usize,
    rs1: usize,
    funct3: usize,
    funct12: usize,
    csr: &mut Csr,
) -> (r: Option<RvException>)
    requires
        old(reg).wf(),
        old(csr).wf(),
        old(reg).xlen == old(csr).width,
        rd < old(reg).count,
        rs1 < old(reg).count,
        rs1 < 32,
        funct12 < 4096,
    ensures
        final(reg).wf(),
        final(csr).wf(),
        csrrs_post(
            old(reg),
            final(reg),
            old(csr),
            final(csr),
            rd as int,
            rs1 as int,
            funct3 as nat,
            funct12 as int,
            r,
        ),
{
    let w = reg.len();
    proof {
        lemma_pow2_pos(w as nat);
        lemma_pow2_halves();
    }
    let dest = match csr.get(funct12) {
        Some(d) => d,
        None => {
            return Some(RvException::InstructionIllegal);
        },
    };
    proof {
        crate::uint::lemma_own_val_exact(&dest);
        crate::uint::lemma_val_u128_exact(&dest);
    }
    if rs1 != 0 {
        let d = dest.low_u128(16);
        let m: u128 = if funct3 == 2 {
            reg.get_u128(rs1)
        } else if funct3 == 6 {
            rs1 as u128
        } else {
            return Some(RvException::InstructionIllegal);
        };
        let nv = d | m;
        proof {
            lemma_bitop_bound(d, m, w as nat);
            lemma_small_mod(nv as nat, pow2((8 * (w / 8)) as nat));
        }
        let u = Uint::from_low_u128(nv, w / 8);
        csr.set(funct12, &u);
    }
    reg.set(rd, &dest);
    None
}

/// `csrrc`/`csrrci`: reads the CSR into `rd` and, unless `rs1` is zero,
/// clears the bits of `rs1`'s value (or of the immediate) in it.
pub fn csrrc(
    reg: &mut RvRegisters,
    rd: usize,
    rs1: usize,
    funct3: usize,
    funct12: usize,
    csr: &mut Csr,
) -> (r: Option<RvException>)
    requires
        old(reg).wf(),
        old(csr).wf(),
        old(reg).xlen == old(csr).width,
        rd < old(reg).count,
        rs1 < old(reg).count,
        rs1 < 32,
        funct12 < 4096,
    ensures
        final(reg).wf(),
        final(csr).wf(),
        csrrc_post(
            old(reg),
            final(reg),
            old(csr),
            final(csr),
            rd as int,
            rs1 as int,
            funct3 as nat,
            funct12 as int,
            r,
        ),
{
    let w = reg.len();
    proof {
        lemma_pow2_pos(w as nat);
        lemma_pow2_halves();
    }
    let dest = match csr.get(funct12) {
        Some(d) => d,
        None => {
            return Some(RvException::InstructionIllegal);
        },
    };
    proof {
        crate::uint::lemma_own_val_exact(&dest);
        crate::uint::lemma_val_u128_exact(&dest);
    }
    if rs1 != 0 {
        let d = dest.low_u128(16);
        let m: u128 = if funct3 == 3 {
            reg.get_u128(rs1)
        } else if funct3 == 7 {
            rs1 as u128
        } else {
            return Some(RvException::InstructionIllegal);
        };
        let nv = d & !m;
        proof {
            lemma_u128_and_le(d, !m);
            lemma_small_mod(nv as nat, pow2((8 * (w / 8)) as nat));
        }
        let u = Uint::from_low_u128(nv, w / 8);
        csr.set(funct12, &u);
    }
    reg.set(rd, &dest);
    None
}

} // verus!
