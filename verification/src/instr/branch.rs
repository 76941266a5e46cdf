//! Branch conditions: equality, signed and unsigned order, evaluated on the
//! full register width.  The handlers only decide whether the branch is
//! taken; the dispatcher turns that into a program-counter offset.

use vstd::prelude::*;

verus! {

use crate::registers::RvRegisters;
use crate::exception::RvException;
use crate::uint::to_signed;
use crate::alu::signed_lt;

/// `beq`: taken when the operands are equal.
pub fn beq(x: &mut RvRegisters, rs1: usize, rs2: usize) -> (r: Result<bool, RvException>)
    requires
        old(x).wf(),
        rs1 < old(x).count,
        rs2 < old(x).count,
    ensures
        *final(x) == *old(x),
        r matches Ok(t) && t == (old(x).val(rs1 as int) == old(x).val(rs2 as int)),
{
    let a = x.get_u128(rs1);
    let b = x.get_u128(rs2);
    Ok(a == b)
}

/// `bne`: taken when the operands differ.
pub fn bne(x: &mut RvRegisters, rs1: usize, rs2: usize) -> (r: Result<bool, RvException>)
    requires
        old(x).wf(),
        rs1 < old(x).count,
        rs2 < old(x).count,
    ensures
        *final(x) == *old(x),
        r matches Ok(t) && t == (old(x).val(rs1 as int) != old(x).val(rs2 as int)),
{
    let a = x.get_u128(rs1);
    let b = x.get_u128(rs2);
    Ok(a != b)
}

/// `blt`: taken on signed less-than.
pub fn blt(x: &mut RvRegisters, rs1: usize, rs2: usize) -> (r: Result<bool, RvException>)
    requires
        old(x).wf(),
        rs1 < old(x).count,
        rs2 < old(x).count,
    ensures
        *final(x) == *old(x),
        r matches Ok(t) && t == (to_signed(old(x).val(rs1 as int), old(x).xlen as nat) < to_signed(
            old(x).val(rs2 as int),
            old(x).xlen as nat,
        )),
{
    let a = x.get_u128(rs1);
    let b = x.get_u128(rs2);
    let w = x.len();
    Ok(signed_lt(a, b, w))
}

/// `bge`: taken on signed greater-or-equal.
pub fn bge(x: &mut RvRegisters, rs1: usize, rs2: usize) -> (r: Result<bool, RvException>)
    requires
        old(x).wf(),
        rs1 < old(x).count,
        rs2 < old(x).count,
    ensures
        *final(x) == *old(x),
        r matches Ok(t) && t == (to_signed(old(x).val(rs1 as int), old(x).xlen as nat)
            >= to_signed(old(x).val(rs2 as int), old(x).xlen as nat)),
{
    let a = x.get_u128(rs1);
    let b = x.get_u128(rs2);
    let w = x.len();
    Ok(!signed_lt(a, b, w))
}

/// `bltu`: taken on unsigned less-than.
pub fn bltu(x: &mut RvRegisters, rs1: usize, rs2: usize) -> (r: Result<bool, RvException>)
    requires
        old(x).wf(),
        rs1 < old(x).count,
        rs2 < old(x).count,
    ensures
        *final(x) == *old(x),
        r matches Ok(t) && t == (old(x).val(rs1 as int) < old(x).val(rs2 as int)),
{
    let a = x.get_u128(rs1);
    let b = x.get_u128(rs2);
    Ok(a < b)
}

/// `bgeu`: taken on unsigned greater-or-equal.
pub fn bgeu(x: &mut RvRegisters, rs1: usize, rs2: usize) -> (r: Result<bool, RvException>)
    requires
        old(x).wf(),
        rs1 < old(x).count,
        rs2 < old(x).count,
    ensures
        *final(x) == *old(x),
        r matches Ok(t) && t == (old(x).val(rs1 as int) >= old(x).val(rs2 as int)),
{
    let a = x.get_u128(rs1);
    let b = x.get_u128(rs2);
    Ok(a >= b)
}

} // verus!
