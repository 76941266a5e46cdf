//! Register-immediate arithmetic and logic: the OP-IMM and OP-IMM-32
//! families.  The sign-extended I-immediate (or the raw shift amount) is the
//! second operand; the W-suffixed variants compute in 32 bits and sign-extend.

use vstd::prelude::*;

verus! {

use vstd::arithmetic::power2::{pow2, lemma_pow2_pos, lemma2_to64};
use vstd::arithmetic::div_mod::{lemma_small_mod, lemma_mod_bound, lemma_add_mod_noop_right,
    lemma_div_nonincreasing};
use crate::registers::RvRegisters;
use crate::uint::{to_signed, sext_val, pow2_u128};
use crate::alu::{enc, add_mod, sext_u128, signed_lt, mod_pow2_u128, mul_mod, imm_to_enc,
    lemma_enc_signed};
use crate::instr::op::sra_enc;

/// `addi`: wrapping sum of `rs1` and the sign-extended immediate.
pub fn addi(x: &mut RvRegisters, rd: usize, rs1: usize, imm: i32)
    requires
        old(x).wf(),
        rd < old(x).count,
        rs1 < old(x).count,
    ensures
        final(x).wf(),
        RvRegisters::others_unchanged(old(x), final(x), rd as int),
        final(x).val(rd as int) == enc(
            old(x).val(rs1 as int) + imm,
            old(x).xlen as nat,
        ),
{
    let a = x.get_u128(rs1);
    let w = x.len();
    let e = imm_to_enc(imm, w);
    let r = add_mod(a, e, w);
    proof {
        lemma_pow2_pos(w as nat);
        lemma_add_mod_noop_right(a as int, imm as int, pow2(w as nat) as int);
        lemma_small_mod(r as nat, pow2(w as nat));
    }
    x.set_u128(rd, r);
}

/// `addiw`: 32-bit wrapping sum with the immediate, sign-extended.
pub fn addiw(x: &mut RvRegisters, rd: usize, rs1: usize, imm: i32)
    requires
        old(x).wf(),
        old(x).xlen == 64 || old(x).xlen == 128,
        rd < old(x).count,
        rs1 < old(x).count,
    ensures
        final(x).wf(),
        RvRegisters::others_unchanged(old(x), final(x), rd as int),
        final(x).val(rd as int) == sext_val(
            enc(old(x).val(rs1 as int) + imm, 32),
            32,
            old(x).xlen as nat,
        ),
{
    let a = x.get_u128(rs1);
    let w = x.len();
    let e = imm_to_enc(imm, 32);
    let r32 = add_mod(a, e, 32);
    proof {
        lemma2_to64();
        lemma_add_mod_noop_right(a as int, imm as int, pow2(32) as int);
        lemma_small_mod(r32 as nat, pow2(32));
    }
    let r = sext_u128(r32, 32, w);
    x.set_u128(rd, r);
    proof {
        lemma_pow2_pos(w as nat);
        lemma_small_mod(r as nat, pow2(w as nat));
    }
}

/// `slti`: signed set-on-less-than against the immediate.
pub fn slti(x: &mut RvRegisters, rd: usize, rs1: usize, imm: i32)
    requires
        old(x).wf(),
        rd < old(x).count,
        rs1 < old(x).count,
    ensures
        final(x).wf(),
        RvRegisters::others_unchanged(old(x), final(x), rd as int),
        final(x).val(rd as int) == if to_signed(old(x).val(rs1 as int), old(x).xlen as nat)
            < imm as int {
            1nat
        } else {
            0nat
        },
{
    let a = x.get_u128(rs1);
    let w = x.len();
    let e = imm_to_enc(imm, w);
    proof {
        crate::uint::lemma_pow2_halves();
        lemma_enc_signed(imm as int, w as nat);
    }
    let r: u128 = if signed_lt(a, e, w) {
        1
    } else {
        0
    };
    proof {
        lemma_pow2_pos(w as nat);
        lemma_small_mod(r as nat, pow2(w as nat));
    }
    x.set_u128(rd, r);
}

/// `sltiu`: unsigned set-on-less-than against the sign-extended immediate.
pub fn sltiu(x: &mut RvRegisters, rd: usize, rs1: usize, imm: i32)
    requires
        old(x).wf(),
        rd < old(x).count,
        rs1 < old(x).count,
    ensures
        final(x).wf(),
        RvRegisters::others_unchanged(old(x), final(x), rd as int),
        final(x).val(rd as int) == if old(x).val(rs1 as int) < enc(imm as int, old(x).xlen as nat) {
            1nat
        } else {
            0nat
        },
{
    let a = x.get_u128(rs1);
    let w = x.len();
    let e = imm_to_enc(imm, w);
    let r: u128 = if a < e {
        1
    } else {
        0
    };
    proof {
        crate::uint::lemma_pow2_halves();
        lemma_pow2_pos(w as nat);
        lemma_small_mod(r as nat, pow2(w as nat));
    }
    x.set_u128(rd, r);
}

/// `andi`: bitwise conjunction with the sign-extended immediate.
pub fn andi(x: &mut RvRegisters, rd: usize, rs1: usize, imm: i32)
    requires
        old(x).wf(),
        rd < old(x).count,
        rs1 < old(x).count,
    ensures
        final(x).wf(),
        RvRegisters::others_unchanged(old(x), final(x), rd as int),
        final(x).val(rd as int) as u128 == (old(x).val(rs1 as int) as u128) & (enc(
            imm as int,
            old(x).xlen as nat,
        ) as u128),
{
    let a = x.get_u128(rs1);
    let w = x.len();
    let e = imm_to_enc(imm, w);
    let r = a & e;
    proof {
        crate::uint::lemma_u128_and_le(a, e);
        lemma_pow2_pos(w as nat);
        lemma_small_mod(r as nat, pow2(w as nat));
    }
    x.set_u128(rd, r);
}

/// `ori`: bitwise disjunction with the sign-extended immediate.
pub fn ori(x: &mut RvRegisters, rd: usize, rs1: usize, imm: i32)
    requires
        old(x).wf(),
        rd < old(x).count,
        rs1 < old(x).count,
    ensures
        final(x).wf(),
        RvRegisters::others_unchanged(old(x), final(x), rd as int),
        final(x).val(rd as int) as u128 == (old(x).val(rs1 as int) as u128) | (enc(
            imm as int,
            old(x).xlen as nat,
        ) as u128),
{
    let a = x.get_u128(rs1);
    let w = x.len();
    let e = imm_to_enc(imm, w);
    let r = a | e;
    proof {
        crate::uint::lemma_bitop_bound(a, e, w as nat);
        lemma_small_mod(r as nat, pow2(w as nat));
    }
    x.set_u128(rd, r);
}

/// `xori`: bitwise exclusive or with the sign-extended immediate.
pub fn xori(x: &mut RvRegisters, rd: usize, rs1: usize, imm: i32)
    requires
        old(x).wf(),
        rd < old(x).count,
        rs1 < old(x).count,
    ensures
        final(x).wf(),
        RvRegisters::others_unchanged(old(x), final(x), rd as int),
        final(x).val(rd as int) as u128 == (old(x).val(rs1 as int) as u128) ^ (enc(
            imm as int,
            old(x).xlen as nat,
        ) as u128),
{
    let a = x.get_u128(rs1);
    let w = x.len();
    let e = imm_to_enc(imm, w);
    let r = a ^ e;
    proof {
        crate::uint::lemma_bitop_bound(a, e, w as nat);
        lemma_small_mod(r as nat, pow2(w as nat));
    }
    x.set_u128(rd, r);
}

/// `slli`: logical left shift by the width-masked shift amount.
pub fn slli(x: &mut RvRegisters, rd: usize, rs1: usize, shamt: usize)
    requires
        old(x).wf(),
        rd < old(x).count,
        rs1 < old(x).count,
    ensures
        final(x).wf(),
        RvRegisters::others_unchanged(old(x), final(x), rd as int),
        final(x).val(rd as int) == (old(x).val(rs1 as int) * pow2(
            (shamt as nat) % (old(x).xlen as nat),
        )) % pow2(old(x).xlen as nat),
{
    let a = x.get_u128(rs1);
    let w = x.len();
    let sh = shamt % w;
    let p = pow2_u128(sh);
    let r = mul_mod(a, p, w);
    x.set_u128(rd, r);
    proof {
        lemma_pow2_pos(w as nat);
        lemma_small_mod(r as nat, pow2(w as nat));
    }
}

/// `srli`: logical right shift by the width-masked shift amount.
pub fn srli(x: &mut RvRegisters, rd: usize, rs1: usize, shamt: usize)
    requires
        old(x).wf(),
        rd < old(x).count,
        rs1 < old(x).count,
    ensures
        final(x).wf(),
        RvRegisters::others_unchanged(old(x), final(x), rd as int),
        final(x).val(rd as int) == old(x).val(rs1 as int) / pow2(
            (shamt as nat) % (old(x).xlen as nat),
        ),
{
    let a = x.get_u128(rs1);
    let w = x.len();
    let sh = shamt % w;
    let p = pow2_u128(sh);
    proof {
        lemma_pow2_pos(sh as nat);
    }
    let r = a / p;
    proof {
        lemma_pow2_pos(w as nat);
        lemma_div_nonincreasing(a as int, p as int);
        lemma_small_mod(r as nat, pow2(w as nat));
    }
    x.set_u128(rd, r);
}

/// `srai`: arithmetic right shift by the width-masked shift amount.
pub fn srai(x: &mut RvRegisters, rd: usize, rs1: usize, shamt: usize)
    requires
        old(x).wf(),
        rd < old(x).count,
        rs1 < old(x).count,
    ensures
        final(x).wf(),
        RvRegisters::others_unchanged(old(x), final(x), rd as int),
        final(x).val(rd as int) == enc(
            to_signed(old(x).val(rs1 as int), old(x).xlen as nat) / (pow2(
                (shamt as nat) % (old(x).xlen as nat),
            ) as int),
            old(x).xlen as nat,
        ),
{
    let a = x.get_u128(rs1);
    let w = x.len();
    let sh = shamt % w;
    let r = sra_enc(a, sh, w);
    x.set_u128(rd, r);
    proof {
        lemma_pow2_pos(w as nat);
        lemma_small_mod(r as nat, pow2(w as nat));
    }
}

/// `slliw`: 32-bit logical left shift, sign-extended to the active width.
pub fn slliw(x: &mut RvRegisters, rd: usize, rs1: usize, shamt: usize)
    requires
        old(x).wf(),
        old(x).xlen == 64 || old(x).xlen == 128,
        rd < old(x).count,
        rs1 < old(x).count,
    ensures
        final(x).wf(),
        RvRegisters::others_unchanged(old(x), final(x), rd as int),
        final(x).val(rd as int) == sext_val(
            (old(x).val(rs1 as int) * pow2((shamt as nat) % 32)) % pow2(32),
            32,
            old(x).xlen as nat,
        ),
{
    let a = x.get_u128(rs1);
    let w = x.len();
    let sh = shamt % 32;
    let p = pow2_u128(sh);
    let r32 = mul_mod(a, p, 32);
    proof {
        lemma2_to64();
        lemma_small_mod(r32 as nat, pow2(32));
    }
    let r = sext_u128(r32, 32, w);
    x.set_u128(rd, r);
    proof {
        lemma_pow2_pos(w as nat);
        lemma_small_mod(r as nat, pow2(w as nat));
    }
}

/// `srliw`: logical right shift of the low 32 bits, sign-extended.
pub fn srliw(x: &mut RvRegisters, rd: usize, rs1: usize, shamt: usize)
    requires
        old(x).wf(),
        old(x).xlen == 64 || old(x).xlen == 128,
        rd < old(x).count,
        rs1 < old(x).count,
    ensures
        final(x).wf(),
        RvRegisters::others_unchanged(old(x), final(x), rd as int),
        final(x).val(rd as int) == sext_val(
            (old(x).val(rs1 as int) % pow2(32)) / pow2((shamt as nat) % 32),
            32,
            old(x).xlen as nat,
        ),
{
    let a = x.get_u128(rs1);
    let w = x.len();
    let sh = shamt % 32;
    let a32 = mod_pow2_u128(a, 32);
    let p = pow2_u128(sh);
    proof {
        lemma_pow2_pos(sh as nat);
    }
    let r32 = a32 / p;
    proof {
        lemma2_to64();
        lemma_div_nonincreasing(a32 as int, p as int);
        lemma_small_mod(r32 as nat, pow2(32));
    }
    let r = sext_u128(r32, 32, w);
    x.set_u128(rd, r);
    proof {
        lemma_pow2_pos(w as nat);
        lemma_small_mod(r as nat, pow2(w as nat));
    }
}

/// `sraiw`: arithmetic right shift of the low 32 bits, sign-extended.
pub fn sraiw(x: &mut RvRegisters, rd: usize, rs1: usize, shamt: usize)
    requires
        old(x).wf(),
        old(x).xlen == 64 || old(x).xlen == 128,
        rd < old(x).count,
        rs1 < old(x).count,
    ensures
        final(x).wf(),
        RvRegisters::others_unchanged(old(x), final(x), rd as int),
        final(x).val(rd as int) == sext_val(
            enc(
                to_signed(old(x).val(rs1 as int) % pow2(32), 32) / (pow2(
                    (shamt as nat) % 32,
                ) as int),
                32,
            ),
            32,
            old(x).xlen as nat,
        ),
{
    let a = x.get_u128(rs1);
    let w = x.len();
    let sh = shamt % 32;
    let a32 = mod_pow2_u128(a, 32);
    let r32 = sra_enc(a32, sh, 32);
    proof {
        lemma2_to64();
        lemma_small_mod(r32 as nat, pow2(32));
    }
    let r = sext_u128(r32, 32, w);
    x.set_u128(rd, r);
    proof {
        lemma_pow2_pos(w as nat);
        lemma_small_mod(r as nat, pow2(w as nat));
    }
}

} // verus!
