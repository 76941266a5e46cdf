//! `lui`: loads the U-immediate into the destination register, sign-extended
//! from 32 bits to the active width.

use vstd::prelude::*;

verus! {

use vstd::arithmetic::power2::{pow2, lemma_pow2_pos};
use vstd::arithmetic::div_mod::lemma_small_mod;
use crate::registers::RvRegisters;
use crate::uint::sext_val;
use crate::alu::{enc, sext_u128, imm_to_enc};

/// `lui`: the upper-immediate constant, widened to the register width.
pub fn lui(x: &mut RvRegisters, rd: usize, imm: i32)
    requires
        old(x).wf(),
        rd < old(x).count,
    ensures
        final(x).wf(),
        RvRegisters::others_unchanged(old(x), final(x), rd as int),
        final(x).val(rd as int) == sext_val(enc(imm as int, 32), 32, old(x).xlen as nat),
{
    let w = x.len();
    let e32 = imm_to_enc(imm, 32);
    proof {
        vstd::arithmetic::power2::lemma2_to64();
        lemma_small_mod(e32 as nat, pow2(32));
    }
    let r = sext_u128(e32, 32, w);
    x.set_u128(rd, r);
    proof {
        lemma_pow2_pos(w as nat);
        lemma_small_mod(r as nat, pow2(w as nat));
    }
}

} // verus!
