//! `auipc`: adds the U-immediate to the current program counter and stores
//! the wrapped result in the destination register.

use vstd::prelude::*;

verus! {

use vstd::arithmetic::power2::{pow2, lemma_pow2_pos};
use vstd::arithmetic::div_mod::{lemma_small_mod, lemma_add_mod_noop_right};
use crate::registers::RvRegisters;
use crate::uint::{Uint, lemma_val_u128_exact};
use crate::alu::{enc, add_mod, imm_to_enc};

/// `auipc`: pc plus the upper immediate, wrapping at the active width.
pub fn auipc(reg: &mut RvRegisters, rd: usize, pc: &Uint, imm: i32)
    requires
        old(reg).wf(),
        rd < old(reg).count,
        pc.nbytes() == old(reg).xlen / 8,
    ensures
        final(reg).wf(),
        RvRegisters::others_unchanged(old(reg), final(reg), rd as int),
        final(reg).val(rd as int) == enc(pc.val() + imm, old(reg).xlen as nat),
{
    let w = reg.len();
    proof {
        lemma_val_u128_exact(pc);
        crate::uint::lemma_own_val_exact(pc);
    }
    let p = pc.low_u128(16);
    let e = imm_to_enc(imm, w);
    let r = add_mod(p, e, w);
    proof {
        lemma_pow2_pos(w as nat);
        lemma_add_mod_noop_right(p as int, imm as int, pow2(w as nat) as int);
        lemma_small_mod(r as nat, pow2(w as nat));
    }
    reg.set_u128(rd, r);
}

} // verus!
