//! Register-register arithmetic and logic: the OP and OP-32 families,
//! including the M-extension multiply and divide instructions.
//!
//! Every handler reads its operands at the active width `w`, computes the
//! RISC-V result, and writes it back to `rd`; all other registers are
//! unchanged.  The W-suffixed variants compute in 32 bits and sign-extend.

use vstd::prelude::*;

verus! {

use vstd::arithmetic::power2::{pow2, lemma_pow2_pos, lemma_pow2_adds, lemma2_to64,
    lemma_pow2_strictly_increases};
use vstd::arithmetic::div_mod::{lemma_small_mod, lemma_mod_bound, lemma_mod_multiples_vanish,
    lemma_div_nonincreasing};
use vstd::arithmetic::mul::{lemma_mul_inequality, lemma_mul_is_commutative, lemma_mul_basics};
use crate::registers::RvRegisters;
use crate::uint::{to_signed, sext_val, lemma_pow2_val_128, pow2_u128};
use crate::alu::{enc, tdiv, trem, add_mod, sub_mod, mul_mod, sext_u128, is_neg, signed_lt,
    magnitude, sdiv_enc, srem_enc, mod_pow2_u128};

/// The RISC-V `div` result: all-ones on division by zero, the dividend on
/// signed overflow, else the quotient truncated towards zero.
pub open spec fn div_val(a: nat, b: nat, w: nat) -> nat {
    if b == 0 {
        (pow2(w) - 1) as nat
    } else if a == pow2((w - 1) as nat) && b == (pow2(w) - 1) as nat {
        a
    } else {
        enc(tdiv(to_signed(a, w), to_signed(b, w)), w)
    }
}

/// The RISC-V `rem` result: the dividend on division by zero, zero on signed
/// overflow, else the remainder with the dividend's sign.
pub open spec fn rem_val(a: nat, b: nat, w: nat) -> nat {
    if b == 0 {
        a
    } else if a == pow2((w - 1) as nat) && b == (pow2(w) - 1) as nat {
        0
    } else {
        enc(trem(to_signed(a, w), to_signed(b, w)), w)
    }
}

/// The RISC-V `divu` result: all-ones on division by zero.
pub open spec fn divu_val(a: nat, b: nat, w: nat) -> nat {
    if b == 0 {
        (pow2(w) - 1) as nat
    } else {
        a / b
    }
}

/// The RISC-V `remu` result: the dividend on division by zero.
pub open spec fn remu_val(a: nat, b: nat, w: nat) -> nat {
    if b == 0 {
        a
    } else {
        a % b
    }
}

/// The upper half of the signed double-width product.
pub open spec fn mulh_val(a: nat, b: nat, w: nat) -> nat {
    (((to_signed(a, w) * to_signed(b, w)) % (pow2(2 * w) as int)) / (pow2(w) as int)) as nat
}

/// The upper half of the unsigned double-width product.
pub open spec fn mulhu_val(a: nat, b: nat, w: nat) -> nat {
    (a * b) / pow2(w)
}

/// The upper half of the signed-times-unsigned double-width product.
pub open spec fn mulhsu_val(a: nat, b: nat, w: nat) -> nat {
    (((to_signed(a, w) * b) % (pow2(2 * w) as int)) / (pow2(w) as int)) as nat
}

/// The division edge cases: dividing by zero yields all-ones for `div` and
/// the dividend for `rem`; dividing the minimum signed value by minus one
/// yields the dividend for `div` and zero for `rem`.
pub proof fn lemma_div_rem_edge_cases(w: nat)
    requires
        w == 32 || w == 64 || w == 128,
    ensures
        div_val(pow2((w - 1) as nat), (pow2(w) - 1) as nat, w) == pow2((w - 1) as nat),
        rem_val(pow2((w - 1) as nat), (pow2(w) - 1) as nat, w) == 0,
        forall|a: nat| #[trigger] div_val(a, 0, w) == pow2(w) - 1,
        forall|a: nat| #[trigger] rem_val(a, 0, w) == a,
{
    lemma_pow2_pos(w);
    lemma_pow2_pos((w - 1) as nat);
    lemma_pow2_adds((w - 1) as nat, 1);
    lemma2_to64();
}

/// Common bounds: `2^(w-1) * 2^(w-1)` and friends stay below `2^(2w) <= 2^128`.
proof fn lemma_product_bounds(w: nat)
    requires
        w == 32 || w == 64 || w == 128,
    ensures
        pow2((w - 1) as nat) * pow2((w - 1) as nat) < pow2(2 * w),
        pow2((w - 1) as nat) * pow2(w) == pow2(2 * w) / 2,
        w <= 64 ==> pow2(2 * w) <= pow2(128),
        pow2(128) == 0x100000000000000000000000000000000,
        pow2(w) * pow2(w) == pow2(2 * w),
        0 < pow2(w),
        0 < pow2((w - 1) as nat),
        0 < pow2(2 * w),
{
    lemma_pow2_adds((w - 1) as nat, (w - 1) as nat);
    lemma_pow2_adds((w - 1) as nat, w);
    lemma_pow2_adds(w, w);
    lemma_pow2_adds((2 * w - 1) as nat, 1);
    lemma2_to64();
    lemma_pow2_pos(w);
    lemma_pow2_pos((w - 1) as nat);
    lemma_pow2_pos(2 * w);
    lemma_pow2_strictly_increases((2 * w - 2) as nat, 2 * w);
    if 2 * w < 128 {
        lemma_pow2_strictly_increases(2 * w, 128);
    }
    lemma_pow2_val_128();
}

/// The product of two values below 2^w stays below 2^(2w).
proof fn lemma_prod_lt(a: int, b: int, w: nat)
    requires
        w == 32 || w == 64 || w == 128,
        0 <= a < pow2(w),
        0 <= b < pow2(w),
    ensures
        0 <= a * b,
        a * b < pow2(2 * w),
{
    lemma_product_bounds(w);
    let p = pow2(w) as int;
    vstd::arithmetic::mul::lemma_mul_upper_bound(a, p - 1, b, p - 1);
    lemma_mul_inequality(p - 1, p, p - 1);
    lemma_mul_is_commutative(p, p - 1);
    vstd::arithmetic::mul::lemma_mul_strict_inequality(p - 1, p, p);
    lemma_mul_is_commutative(p - 1, p);
    vstd::arithmetic::mul::lemma_mul_nonnegative(a, b);
}

/// The signed upper halves follow from the unsigned one: subtracting each
/// operand where the other reads negative corrects the two's-complement
/// product, because `to_signed(x) == x - 2^w` exactly on the negatives.
proof fn lemma_mulh_from_mulhu(a: nat, b: nat, w: nat)
    requires
        crate::alu::valid_width(w),
        a < pow2(w),
        b < pow2(w),
    ensures
        mulhu_val(a, b, w) < pow2(w),
        mulh_val(a, b, w) == enc(
            mulhu_val(a, b, w) as int - (if to_signed(b, w) < 0 {
                a as int
            } else {
                0
            }) - (if to_signed(a, w) < 0 {
                b as int
            } else {
                0
            }),
            w,
        ),
        mulhsu_val(a, b, w) == enc(
            mulhu_val(a, b, w) as int - (if to_signed(a, w) < 0 {
                b as int
            } else {
                0
            }),
            w,
        ),
{
    lemma_product_bounds(w);
    let pp = pow2(w) as int;
    let pp2 = pow2(2 * w) as int;
    let sa = to_signed(a, w);
    let sb = to_signed(b, w);
    let na: int = if sa < 0 {
        1
    } else {
        0
    };
    let nb: int = if sb < 0 {
        1
    } else {
        0
    };
    lemma_prod_lt(a as int, b as int, w);
    vstd::arithmetic::div_mod::lemma_fundamental_div_mod((a * b) as int, pp);
    vstd::arithmetic::div_mod::lemma_mod_bound((a * b) as int, pp);
    let h = (a * b) as int / pp;
    let l = (a * b) as int % pp;
    assert(mulhu_val(a, b, w) == h);
    lemma_upper_half_bound((a * b) as int, w);
    assert(sa == a - pp * na);
    assert(sb == b - pp * nb);
    let k = h - a * nb - b * na + pp * (na * nb);
    lemma_mul_basics(a as int);
    lemma_mul_basics(b as int);
    lemma_mul_basics(pp);
    assert(sa * sb == k * pp + l) by {
        if na == 0 && nb == 0 {
            lemma_mul_is_commutative(h, pp);
        } else if na == 1 && nb == 0 {
            // (a - pp) * b == a * b - pp * b
            lemma_mul_is_commutative(a - pp, b as int);
            vstd::arithmetic::mul::lemma_mul_is_distributive_sub(b as int, a as int, pp);
            lemma_mul_is_commutative(b as int, a as int);
            lemma_mul_is_commutative(b as int, pp);
            vstd::arithmetic::mul::lemma_mul_is_distributive_sub(pp, h, b as int);
            lemma_mul_is_commutative(pp, h - b);
        } else if na == 0 && nb == 1 {
            vstd::arithmetic::mul::lemma_mul_is_distributive_sub(a as int, b as int, pp);
            lemma_mul_is_commutative(a as int, pp);
            vstd::arithmetic::mul::lemma_mul_is_distributive_sub(pp, h, a as int);
            lemma_mul_is_commutative(pp, h - a);
        } else {
            // (a - pp) * (b - pp) == a*b - pp*b - pp*a + pp*pp
            vstd::arithmetic::mul::lemma_mul_is_distributive_sub(a - pp, b as int, pp);
            lemma_mul_is_commutative(a - pp, b as int);
            vstd::arithmetic::mul::lemma_mul_is_distributive_sub(b as int, a as int, pp);
            lemma_mul_is_commutative(b as int, a as int);
            lemma_mul_is_commutative(b as int, pp);
            lemma_mul_is_commutative(a - pp, pp);
            vstd::arithmetic::mul::lemma_mul_is_distributive_sub(pp, a as int, pp);
            lemma_mul_is_commutative(pp, a as int);
            vstd::arithmetic::mul::lemma_mul_is_distributive_sub(pp, h - a - b + pp, 0);
            lemma_mul_is_commutative(pp, h - a - b + pp);
            vstd::arithmetic::mul::lemma_mul_is_distributive_add(pp, h - a - b, pp);
            vstd::arithmetic::mul::lemma_mul_is_distributive_sub(pp, h - a, b as int);
            vstd::arithmetic::mul::lemma_mul_is_distributive_sub(pp, h, a as int);
        }
    }
    let k2 = h - b * na;
    assert(sa * b == k2 * pp + l) by {
        if na == 0 {
            lemma_mul_is_commutative(h, pp);
        } else {
            lemma_mul_is_commutative(a - pp, b as int);
            vstd::arithmetic::mul::lemma_mul_is_distributive_sub(b as int, a as int, pp);
            lemma_mul_is_commutative(b as int, a as int);
            lemma_mul_is_commutative(b as int, pp);
            vstd::arithmetic::mul::lemma_mul_is_distributive_sub(pp, h, b as int);
            lemma_mul_is_commutative(pp, h - b);
        }
    }
    lemma_high_word(k, l, w);
    lemma_high_word(k2, l, w);
    // the 2^w * na * nb correction vanishes modulo 2^w
    vstd::arithmetic::div_mod::lemma_mod_multiples_vanish(na * nb, h - a * nb - b * na, pp);
    // and a negative partner turns the subtracted a * nb into a (or 0)
    assert(a * nb == if sb < 0 {
        a as int
    } else {
        0
    }) by {
        lemma_mul_basics(a as int);
    }
    assert(b * na == if sa < 0 {
        b as int
    } else {
        0
    }) by {
        lemma_mul_basics(b as int);
    }
}

/// The upper word of `k * 2^w + l` taken modulo 2^(2w) is `k mod 2^w`.
proof fn lemma_high_word(k: int, l: int, w: nat)
    requires
        crate::alu::valid_width(w),
        0 <= l < pow2(w),
    ensures
        ((k * (pow2(w) as int) + l) % (pow2(2 * w) as int)) / (pow2(w) as int) == k % (pow2(
            w,
        ) as int),
{
    let pp = pow2(w) as int;
    let pp2 = pow2(2 * w) as int;
    lemma_product_bounds(w);
    vstd::arithmetic::div_mod::lemma_fundamental_div_mod(k, pp);
    vstd::arithmetic::div_mod::lemma_mod_bound(k, pp);
    let kd = k / pp;
    let km = k % pp;
    assert(k * pp + l == kd * pp2 + (km * pp + l)) by (nonlinear_arith)
        requires
            k == pp * kd + km,
            pp2 == pp * pp,
    ;
    assert(0 <= km * pp + l < pp2) by (nonlinear_arith)
        requires
            0 <= km < pp,
            0 <= l < pp,
            pp2 == pp * pp,
    ;
    vstd::arithmetic::div_mod::lemma_mod_multiples_vanish(kd, km * pp + l, pp2);
    vstd::arithmetic::div_mod::lemma_small_mod((km * pp + l) as nat, pp2 as nat);
    vstd::arithmetic::div_mod::lemma_fundamental_div_mod_converse_div(km * pp + l, pp, km, l);
}

/// The upper 128 bits of the full 128-by-128-bit product, by 64-bit limbs.
fn mulhu_wide(a: u128, b: u128) -> (r: u128)
    ensures
        r as nat == (a as nat * b as nat) / pow2(128),
{
    proof {
        lemma2_to64();
        lemma_pow2_adds(64, 64);
        lemma_pow2_val_128();
        lemma_pow2_pos(64);
    }
    let p64 = pow2_u128(64);
    let a0 = a % p64;
    let a1 = a / p64;
    let b0 = b % p64;
    let b1 = b / p64;
    proof {
        lemma_mod_bound(a as int, p64 as int);
        lemma_mod_bound(b as int, p64 as int);
        vstd::arithmetic::div_mod::lemma_multiply_divide_lt(a as int, p64 as int, p64 as int);
        vstd::arithmetic::div_mod::lemma_multiply_divide_lt(b as int, p64 as int, p64 as int);
        lemma_limb_bounds(a0 as int, b0 as int, p64 as int);
        lemma_limb_bounds(a0 as int, b1 as int, p64 as int);
        lemma_limb_bounds(a1 as int, b0 as int, p64 as int);
        lemma_limb_bounds(a1 as int, b1 as int, p64 as int);
    }
    let ll = a0 * b0;
    let lh = a0 * b1;
    let hl = a1 * b0;
    let hh = a1 * b1;
    proof {
        vstd::arithmetic::div_mod::lemma_multiply_divide_lt(
            ll as int,
            p64 as int,
            p64 as int - 1,
        );
        vstd::arithmetic::div_mod::lemma_multiply_divide_lt(
            lh as int,
            p64 as int,
            p64 as int - 1,
        );
        vstd::arithmetic::div_mod::lemma_multiply_divide_lt(
            hl as int,
            p64 as int,
            p64 as int - 1,
        );
        lemma_mod_bound(lh as int, p64 as int);
        lemma_mod_bound(hl as int, p64 as int);
    }
    let t = (ll / p64) + (lh % p64) + (hl % p64);
    proof {
        vstd::arithmetic::div_mod::lemma_multiply_divide_lt(t as int, p64 as int, 3);
    }
    let r = hh + (lh / p64) + (hl / p64) + (t / p64);
    proof {
        let ppi = p64 as int;
        let pp2 = pow2(128) as int;
        vstd::arithmetic::div_mod::lemma_fundamental_div_mod(a as int, ppi);
        vstd::arithmetic::div_mod::lemma_fundamental_div_mod(b as int, ppi);
        assert((a * b) as int == hh * pp2 + (lh + hl) * ppi + ll) by (nonlinear_arith)
            requires
                a as int == ppi * (a1 as int) + a0,
                b as int == ppi * (b1 as int) + b0,
                hh == (a1 as int) * (b1 as int),
                lh == (a0 as int) * (b1 as int),
                hl == (a1 as int) * (b0 as int),
                ll == (a0 as int) * (b0 as int),
                pp2 == ppi * ppi,
        ;
        vstd::arithmetic::div_mod::lemma_fundamental_div_mod(ll as int, ppi);
        vstd::arithmetic::div_mod::lemma_fundamental_div_mod(lh as int, ppi);
        vstd::arithmetic::div_mod::lemma_fundamental_div_mod(hl as int, ppi);
        vstd::arithmetic::div_mod::lemma_fundamental_div_mod(t as int, ppi);
        lemma_mod_bound(ll as int, ppi);
        lemma_mod_bound(t as int, ppi);
        let c = ll as int / ppi;
        let d = ll as int % ppi;
        let e = lh as int / ppi;
        let f = lh as int % ppi;
        let g = hl as int / ppi;
        let h2 = hl as int % ppi;
        let u = t as int / ppi;
        let v = t as int % ppi;
        assert((a * b) as int == (r as int) * pp2 + (v * ppi + d)) by (nonlinear_arith)
            requires
                (a * b) as int == (hh as int) * pp2 + ((lh + hl) as int) * ppi + ll,
                ll as int == ppi * c + d,
                lh as int == ppi * e + f,
                hl as int == ppi * g + h2,
                t as int == c + f + h2,
                t as int == ppi * u + v,
                r as int == hh + e + g + u,
                pp2 == ppi * ppi,
        ;
        assert(0 <= v * ppi + d < pp2) by (nonlinear_arith)
            requires
                0 <= v < ppi,
                0 <= d < ppi,
                pp2 == ppi * ppi,
        ;
        vstd::arithmetic::div_mod::lemma_fundamental_div_mod_converse_div(
            (a * b) as int,
            pp2,
            r as int,
            v * ppi + d,
        );
    }
    r
}

/// Two limbs below 2^64 multiply to below 2^64 * (2^64 - 1).
proof fn lemma_limb_bounds(x: int, y: int, p: int)
    requires
        p == pow2(64),
        0 <= x < p,
        0 <= y < p,
    ensures
        0 <= x * y,
        x * y < p * (p - 1) || y == p - 1,
        x * y <= (p - 1) * (p - 1),
        x * y < p * p,
{
    lemma2_to64();
    vstd::arithmetic::mul::lemma_mul_nonnegative(x, y);
    vstd::arithmetic::mul::lemma_mul_upper_bound(x, p - 1, y, p - 1);
    assert((p - 1) * (p - 1) < p * (p - 1)) by (nonlinear_arith)
        requires
            p > 1,
    ;
    assert(p * (p - 1) < p * p) by (nonlinear_arith)
        requires
            p > 1,
    ;
    if y != p - 1 {
        assert(x * y < p * (p - 1)) by (nonlinear_arith)
            requires
                0 <= x < p,
                0 <= y < p - 1,
        ;
    }
}

/// The upper half of the double-width signed product, as an encoding.
fn mulh_enc(a: u128, b: u128, w: usize) -> (r: u128)
    requires
        crate::alu::valid_width(w as nat),
        a < pow2(w as nat),
        b < pow2(w as nat),
    ensures
        r as nat == mulh_val(a as nat, b as nat, w as nat),
        r < pow2(w as nat),
{
    let h = mulhu_enc(a, b, w);
    proof {
        lemma_mulh_from_mulhu(a as nat, b as nat, w as nat);
        lemma_pow2_pos(w as nat);
        lemma_pow2_pos((w - 1) as nat);
        lemma_pow2_adds((w - 1) as nat, 1);
        lemma2_to64();
        lemma_small_mod(a as nat, pow2(w as nat));
        lemma_small_mod(b as nat, pow2(w as nat));
        lemma_small_mod(h as nat, pow2(w as nat));
    }
    let mut r = h;
    if is_neg(b, w) {
        r = crate::alu::sub_mod(r, a, w);
    }
    if is_neg(a, w) {
        proof {
            vstd::arithmetic::div_mod::lemma_sub_mod_noop(
                h as int - (if to_signed(b as nat, w as nat) < 0 {
                    a as int
                } else {
                    0
                }),
                b as int,
                pow2(w as nat) as int,
            );
        }
        r = crate::alu::sub_mod(r, b, w);
    }
    r
}

/// The upper half of the double-width unsigned product.
fn mulhu_enc(a: u128, b: u128, w: usize) -> (r: u128)
    requires
        crate::alu::valid_width(w as nat),
        a < pow2(w as nat),
        b < pow2(w as nat),
    ensures
        r as nat == mulhu_val(a as nat, b as nat, w as nat),
        r < pow2(w as nat),
{
    if w == 128 {
        proof {
            lemma_pow2_val_128();
        }
        mulhu_wide(a, b)
    } else {
        proof {
            lemma_product_bounds(w as nat);
            lemma_prod_lt(a as int, b as int, w as nat);
            lemma_upper_half_bound((a * b) as int, w as nat);
        }
        let p = a * b;
        let r = p / pow2_u128(w);
        r
    }
}

/// The upper half of the signed-times-unsigned double-width product.
fn mulhsu_enc(a: u128, b: u128, w: usize) -> (r: u128)
    requires
        crate::alu::valid_width(w as nat),
        a < pow2(w as nat),
        b < pow2(w as nat),
    ensures
        r as nat == mulhsu_val(a as nat, b as nat, w as nat),
        r < pow2(w as nat),
{
    let h = mulhu_enc(a, b, w);
    proof {
        lemma_mulh_from_mulhu(a as nat, b as nat, w as nat);
        lemma_pow2_pos(w as nat);
        lemma_pow2_pos((w - 1) as nat);
        lemma_pow2_adds((w - 1) as nat, 1);
        lemma2_to64();
        lemma_small_mod(b as nat, pow2(w as nat));
        lemma_small_mod(h as nat, pow2(w as nat));
    }
    if is_neg(a, w) {
        crate::alu::sub_mod(h, b, w)
    } else {
        proof {
            lemma_small_mod(h as nat, pow2(w as nat));
        }
        h
    }
}

/// `add`: wrapping sum at the active width.
pub fn add(x: &mut RvRegisters, rd: usize, rs1: usize, rs2: usize)
    requires
        old(x).wf(),
        rd < old(x).count,
        rs1 < old(x).count,
        rs2 < old(x).count,
    ensures
        final(x).wf(),
        RvRegisters::others_unchanged(old(x), final(x), rd as int),
        final(x).val(rd as int) == (old(x).val(rs1 as int) + old(x).val(rs2 as int)) % pow2(
            old(x).xlen as nat,
        ),
{
    let a = x.get_u128(rs1);
    let b = x.get_u128(rs2);
    let w = x.len();
    let r = add_mod(a, b, w);
    x.set_u128(rd, r);
    proof {
        lemma_small_mod(r as nat, pow2(w as nat));
    }
}

/// `sub`: wrapping difference at the active width.
pub fn sub(x: &mut RvRegisters, rd: usize, rs1: usize, rs2: usize)
    requires
        old(x).wf(),
        rd < old(x).count,
        rs1 < old(x).count,
        rs2 < old(x).count,
    ensures
        final(x).wf(),
        RvRegisters::others_unchanged(old(x), final(x), rd as int),
        final(x).val(rd as int) == enc(
            old(x).val(rs1 as int) - old(x).val(rs2 as int),
            old(x).xlen as nat,
        ),
{
    let a = x.get_u128(rs1);
    let b = x.get_u128(rs2);
    let w = x.len();
    let r = sub_mod(a, b, w);
    x.set_u128(rd, r);
    proof {
        lemma_small_mod(r as nat, pow2(w as nat));
    }
}

/// `addw`: 32-bit wrapping sum, sign-extended to the active width.
pub fn addw(x: &mut RvRegisters, rd: usize, rs1: usize, rs2: usize)
    requires
        old(x).wf(),
        old(x).xlen == 64 || old(x).xlen == 128,
        rd < old(x).count,
        rs1 < old(x).count,
        rs2 < old(x).count,
    ensures
        final(x).wf(),
        RvRegisters::others_unchanged(old(x), final(x), rd as int),
        final(x).val(rd as int) == sext_val(
            (old(x).val(rs1 as int) + old(x).val(rs2 as int)) % pow2(32),
            32,
            old(x).xlen as nat,
        ),
{
    let a = x.get_u128(rs1);
    let b = x.get_u128(rs2);
    let w = x.len();
    let r32 = add_mod(a, b, 32);
    proof {
        lemma_small_mod(r32 as nat, pow2(32));
    }
    let r = sext_u128(r32, 32, w);
    x.set_u128(rd, r);
    proof {
        lemma_small_mod(r as nat, pow2(w as nat));
    }
}

/// `subw`: 32-bit wrapping difference, sign-extended to the active width.
pub fn subw(x: &mut RvRegisters, rd: usize, rs1: usize, rs2: usize)
    requires
        old(x).wf(),
        old(x).xlen == 64 || old(x).xlen == 128,
        rd < old(x).count,
        rs1 < old(x).count,
        rs2 < old(x).count,
    ensures
        final(x).wf(),
        RvRegisters::others_unchanged(old(x), final(x), rd as int),
        final(x).val(rd as int) == sext_val(
            enc(old(x).val(rs1 as int) - old(x).val(rs2 as int), 32),
            32,
            old(x).xlen as nat,
        ),
{
    let a = x.get_u128(rs1);
    let b = x.get_u128(rs2);
    let w = x.len();
    let r32 = sub_mod(a, b, 32);
    proof {
        lemma_small_mod(r32 as nat, pow2(32));
    }
    let r = sext_u128(r32, 32, w);
    x.set_u128(rd, r);
    proof {
        lemma_small_mod(r as nat, pow2(w as nat));
    }
}

/// `slt`: signed set-on-less-than.
pub fn slt(x: &mut RvRegisters, rd: usize, rs1: usize, rs2: usize)
    requires
        old(x).wf(),
        rd < old(x).count,
        rs1 < old(x).count,
        rs2 < old(x).count,
    ensures
        final(x).wf(),
        RvRegisters::others_unchanged(old(x), final(x), rd as int),
        final(x).val(rd as int) == if to_signed(old(x).val(rs1 as int), old(x).xlen as nat)
            < to_signed(old(x).val(rs2 as int), old(x).xlen as nat) {
            1nat
        } else {
            0nat
        },
{
    let a = x.get_u128(rs1);
    let b = x.get_u128(rs2);
    let w = x.len();
    let r: u128 = if signed_lt(a, b, w) {
        1
    } else {
        0
    };
    proof {
        crate::uint::lemma_pow2_halves();
        lemma_pow2_pos(w as nat);
        lemma_small_mod(r as nat, pow2(w as nat));
    }
    x.set_u128(rd, r);
}

/// `sltu`: unsigned set-on-less-than.
pub fn sltu(x: &mut RvRegisters, rd: usize, rs1: usize, rs2: usize)
    requires
        old(x).wf(),
        rd < old(x).count,
        rs1 < old(x).count,
        rs2 < old(x).count,
    ensures
        final(x).wf(),
        RvRegisters::others_unchanged(old(x), final(x), rd as int),
        final(x).val(rd as int) == if old(x).val(rs1 as int) < old(x).val(rs2 as int) {
            1nat
        } else {
            0nat
        },
{
    let a = x.get_u128(rs1);
    let b = x.get_u128(rs2);
    let w = x.len();
    let r: u128 = if a < b {
        1
    } else {
        0
    };
    proof {
        crate::uint::lemma_pow2_halves();
        lemma_pow2_pos(w as nat);
        lemma_small_mod(r as nat, pow2(w as nat));
    }
    x.set_u128(rd, r);
}

/// `and`: bitwise conjunction.
pub fn and(x: &mut RvRegisters, rd: usize, rs1: usize, rs2: usize)
    requires
        old(x).wf(),
        rd < old(x).count,
        rs1 < old(x).count,
        rs2 < old(x).count,
    ensures
        final(x).wf(),
        RvRegisters::others_unchanged(old(x), final(x), rd as int),
        final(x).val(rd as int) as u128 == (old(x).val(rs1 as int) as u128) & (old(x).val(
            rs2 as int,
        ) as u128),
{
    let a = x.get_u128(rs1);
    let b = x.get_u128(rs2);
    let w = x.len();
    let r = a & b;
    proof {
        crate::uint::lemma_u128_and_le(a, b);
        lemma_pow2_pos(w as nat);
        lemma_small_mod(r as nat, pow2(w as nat));
    }
    x.set_u128(rd, r);
}

/// `or`: bitwise disjunction.
pub fn or(x: &mut RvRegisters, rd: usize, rs1: usize, rs2: usize)
    requires
        old(x).wf(),
        rd < old(x).count,
        rs1 < old(x).count,
        rs2 < old(x).count,
    ensures
        final(x).wf(),
        RvRegisters::others_unchanged(old(x), final(x), rd as int),
        final(x).val(rd as int) as u128 == (old(x).val(rs1 as int) as u128) | (old(x).val(
            rs2 as int,
        ) as u128),
{
    let a = x.get_u128(rs1);
    let b = x.get_u128(rs2);
    let w = x.len();
    let r = a | b;
    proof {
        crate::uint::lemma_bitop_bound(a, b, w as nat);
        lemma_small_mod(r as nat, pow2(w as nat));
    }
    x.set_u128(rd, r);
}

/// `xor`: bitwise exclusive or.
pub fn xor(x: &mut RvRegisters, rd: usize, rs1: usize, rs2: usize)
    requires
        old(x).wf(),
        rd < old(x).count,
        rs1 < old(x).count,
        rs2 < old(x).count,
    ensures
        final(x).wf(),
        RvRegisters::others_unchanged(old(x), final(x), rd as int),
        final(x).val(rd as int) as u128 == (old(x).val(rs1 as int) as u128) ^ (old(x).val(
            rs2 as int,
        ) as u128),
{
    let a = x.get_u128(rs1);
    let b = x.get_u128(rs2);
    let w = x.len();
    let r = a ^ b;
    proof {
        crate::uint::lemma_bitop_bound(a, b, w as nat);
        lemma_small_mod(r as nat, pow2(w as nat));
    }
    x.set_u128(rd, r);
}

/// `sll`: logical left shift by the width-masked low bits of `rs2`.
pub fn sll(x: &mut RvRegisters, rd: usize, rs1: usize, rs2: usize)
    requires
        old(x).wf(),
        rd < old(x).count,
        rs1 < old(x).count,
        rs2 < old(x).count,
    ensures
        final(x).wf(),
        RvRegisters::others_unchanged(old(x), final(x), rd as int),
        final(x).val(rd as int) == (old(x).val(rs1 as int) * pow2(
            old(x).val(rs2 as int) % (old(x).xlen as nat),
        )) % pow2(old(x).xlen as nat),
{
    let a = x.get_u128(rs1);
    let b = x.get_u128(rs2);
    let w = x.len();
    proof {
        lemma_pow2_pos(w as nat);
        lemma_mod_bound(b as int, w as int);
    }
    let sh = (b % (w as u128)) as usize;
    let p = pow2_u128(sh);
    let r = mul_mod(a, p, w);
    x.set_u128(rd, r);
    proof {
        lemma_small_mod(r as nat, pow2(w as nat));
    }
}

/// `srl`: logical right shift by the width-masked low bits of `rs2`.
pub fn srl(x: &mut RvRegisters, rd: usize, rs1: usize, rs2: usize)
    requires
        old(x).wf(),
        rd < old(x).count,
        rs1 < old(x).count,
        rs2 < old(x).count,
    ensures
        final(x).wf(),
        RvRegisters::others_unchanged(old(x), final(x), rd as int),
        final(x).val(rd as int) == old(x).val(rs1 as int) / pow2(
            old(x).val(rs2 as int) % (old(x).xlen as nat),
        ),
{
    let a = x.get_u128(rs1);
    let b = x.get_u128(rs2);
    let w = x.len();
    proof {
        lemma_pow2_pos(w as nat);
        lemma_mod_bound(b as int, w as int);
    }
    let sh = (b % (w as u128)) as usize;
    let p = pow2_u128(sh);
    proof {
        lemma_pow2_pos(sh as nat);
    }
    let r = a / p;
    proof {
        lemma_div_nonincreasing(a as int, p as int);
        lemma_small_mod(r as nat, pow2(w as nat));
    }
    x.set_u128(rd, r);
}

/// `sra`: arithmetic right shift by the width-masked low bits of `rs2`.
pub fn sra(x: &mut RvRegisters, rd: usize, rs1: usize, rs2: usize)
    requires
        old(x).wf(),
        rd < old(x).count,
        rs1 < old(x).count,
        rs2 < old(x).count,
    ensures
        final(x).wf(),
        RvRegisters::others_unchanged(old(x), final(x), rd as int),
        final(x).val(rd as int) == enc(
            to_signed(old(x).val(rs1 as int), old(x).xlen as nat) / (pow2(
                old(x).val(rs2 as int) % (old(x).xlen as nat),
            ) as int),
            old(x).xlen as nat,
        ),
{
    let a = x.get_u128(rs1);
    let b = x.get_u128(rs2);
    let w = x.len();
    proof {
        lemma_pow2_pos(w as nat);
        lemma_mod_bound(b as int, w as int);
    }
    let sh = (b % (w as u128)) as usize;
    let r = sra_enc(a, sh, w);
    x.set_u128(rd, r);
    proof {
        lemma_small_mod(r as nat, pow2(w as nat));
    }
}

/// The arithmetic right shift of a `w`-bit encoding, as an encoding.
pub fn sra_enc(a: u128, sh: usize, w: usize) -> (r: u128)
    requires
        crate::alu::valid_width(w as nat),
        a < pow2(w as nat),
        sh < w,
    ensures
        r as nat == enc(to_signed(a as nat, w as nat) / (pow2(sh as nat) as int), w as nat),
        r < pow2(w as nat),
{
    let p = pow2_u128(sh);
    proof {
        lemma_pow2_pos(sh as nat);
        lemma_pow2_pos(w as nat);
        lemma_pow2_pos((w - 1) as nat);
        lemma_pow2_adds((w - 1) as nat, 1);
        lemma2_to64();
    }
    if is_neg(a, w) {
        let m = magnitude(a, w);
        proof {
            if (sh as nat) < (w - 1) as nat {
                lemma_pow2_strictly_increases(sh as nat, (w - 1) as nat);
            }
            if (w as nat) < 128 {
                lemma_pow2_strictly_increases(w as nat, 128);
            }
            lemma_pow2_val_128();
        }
        // -m / 2^sh rounds away from zero under Euclidean division
        let q = (m + (p - 1)) / p;
        proof {
            crate::alu::lemma_neg_div(m as nat, p as nat);
            lemma_div_nonincreasing((m + (p - 1)) as int, p as int);
            assert(q as nat <= pow2(w as nat));
            assert(to_signed(a as nat, w as nat) == -(m as int));
        }
        crate::alu::neg_encode(q, w)
    } else {
        let r = a / p;
        proof {
            lemma_div_nonincreasing(a as int, p as int);
            lemma_small_mod(r as nat, pow2(w as nat));
            assert(to_signed(a as nat, w as nat) == a as int);
            vstd::arithmetic::div_mod::lemma_div_is_ordered(0, a as int, p as int);
        }
        r
    }
}

/// `sllw`: 32-bit logical left shift, sign-extended to the active width.
pub fn sllw(x: &mut RvRegisters, rd: usize, rs1: usize, rs2: usize)
    requires
        old(x).wf(),
        old(x).xlen == 64 || old(x).xlen == 128,
        rd < old(x).count,
        rs1 < old(x).count,
        rs2 < old(x).count,
    ensures
        final(x).wf(),
        RvRegisters::others_unchanged(old(x), final(x), rd as int),
        final(x).val(rd as int) == sext_val(
            (old(x).val(rs1 as int) * pow2(old(x).val(rs2 as int) % 32)) % pow2(32),
            32,
            old(x).xlen as nat,
        ),
{
    let a = x.get_u128(rs1);
    let b = x.get_u128(rs2);
    let w = x.len();
    proof {
        lemma2_to64();
        lemma_mod_bound(b as int, 32);
    }
    let sh = (b % 32) as usize;
    let p = pow2_u128(sh);
    let r32 = mul_mod(a, p, 32);
    proof {
        lemma_small_mod(r32 as nat, pow2(32));
    }
    let r = sext_u128(r32, 32, w);
    x.set_u128(rd, r);
    proof {
        lemma_small_mod(r as nat, pow2(w as nat));
    }
}

/// `srlw`: logical right shift of the low 32 bits, sign-extended.
pub fn srlw(x: &mut RvRegisters, rd: usize, rs1: usize, rs2: usize)
    requires
        old(x).wf(),
        old(x).xlen == 64 || old(x).xlen == 128,
        rd < old(x).count,
        rs1 < old(x).count,
        rs2 < old(x).count,
    ensures
        final(x).wf(),
        RvRegisters::others_unchanged(old(x), final(x), rd as int),
        final(x).val(rd as int) == sext_val(
            (old(x).val(rs1 as int) % pow2(32)) / pow2(old(x).val(rs2 as int) % 32),
            32,
            old(x).xlen as nat,
        ),
{
    let a = x.get_u128(rs1);
    let b = x.get_u128(rs2);
    let w = x.len();
    proof {
        lemma2_to64();
        lemma_mod_bound(b as int, 32);
    }
    let sh = (b % 32) as usize;
    let a32 = mod_pow2_u128(a, 32);
    let p = pow2_u128(sh);
    proof {
        lemma_pow2_pos(sh as nat);
    }
    let r32 = a32 / p;
    proof {
        lemma_div_nonincreasing(a32 as int, p as int);
        lemma_small_mod(r32 as nat, pow2(32));
    }
    let r = sext_u128(r32, 32, w);
    x.set_u128(rd, r);
    proof {
        lemma_small_mod(r as nat, pow2(w as nat));
    }
}

/// `sraw`: arithmetic right shift of the low 32 bits, sign-extended.
pub fn sraw(x: &mut RvRegisters, rd: usize, rs1: usize, rs2: usize)
    requires
        old(x).wf(),
        old(x).xlen == 64 || old(x).xlen == 128,
        rd < old(x).count,
        rs1 < old(x).count,
        rs2 < old(x).count,
    ensures
        final(x).wf(),
        RvRegisters::others_unchanged(old(x), final(x), rd as int),
        final(x).val(rd as int) == sext_val(
            enc(
                to_signed(old(x).val(rs1 as int) % pow2(32), 32) / (pow2(
                    old(x).val(rs2 as int) % 32,
                ) as int),
                32,
            ),
            32,
            old(x).xlen as nat,
        ),
{
    let a = x.get_u128(rs1);
    let b = x.get_u128(rs2);
    let w = x.len();
    proof {
        lemma2_to64();
        lemma_mod_bound(b as int, 32);
    }
    let sh = (b % 32) as usize;
    let a32 = mod_pow2_u128(a, 32);
    let r32 = sra_enc(a32, sh, 32);
    proof {
        lemma_small_mod(r32 as nat, pow2(32));
    }
    let r = sext_u128(r32, 32, w);
    x.set_u128(rd, r);
    proof {
        lemma_small_mod(r as nat, pow2(w as nat));
    }
}

/// `mul`: the low half of the product at the active width.
pub fn mul(x: &mut RvRegisters, rd: usize, rs1: usize, rs2: usize)
    requires
        old(x).wf(),
        rd < old(x).count,
        rs1 < old(x).count,
        rs2 < old(x).count,
    ensures
        final(x).wf(),
        RvRegisters::others_unchanged(old(x), final(x), rd as int),
        final(x).val(rd as int) == (old(x).val(rs1 as int) * old(x).val(rs2 as int)) % pow2(
            old(x).xlen as nat,
        ),
{
    let a = x.get_u128(rs1);
    let b = x.get_u128(rs2);
    let w = x.len();
    let r = mul_mod(a, b, w);
    x.set_u128(rd, r);
    proof {
        lemma_small_mod(r as nat, pow2(w as nat));
    }
}

/// `mulw`: the low 32 bits of the product, sign-extended.
pub fn mulw(x: &mut RvRegisters, rd: usize, rs1: usize, rs2: usize)
    requires
        old(x).wf(),
        old(x).xlen == 64 || old(x).xlen == 128,
        rd < old(x).count,
        rs1 < old(x).count,
        rs2 < old(x).count,
    ensures
        final(x).wf(),
        RvRegisters::others_unchanged(old(x), final(x), rd as int),
        final(x).val(rd as int) == sext_val(
            (old(x).val(rs1 as int) * old(x).val(rs2 as int)) % pow2(32),
            32,
            old(x).xlen as nat,
        ),
{
    let a = x.get_u128(rs1);
    let b = x.get_u128(rs2);
    let w = x.len();
    let r32 = mul_mod(a, b, 32);
    proof {
        lemma_small_mod(r32 as nat, pow2(32));
    }
    let r = sext_u128(r32, 32, w);
    x.set_u128(rd, r);
    proof {
        lemma_small_mod(r as nat, pow2(w as nat));
    }
}

/// `mulh`: upper half of the double-width signed product.
pub fn mulh(x: &mut RvRegisters, rd: usize, rs1: usize, rs2: usize)
    requires
        old(x).wf(),
        rd < old(x).count,
        rs1 < old(x).count,
        rs2 < old(x).count,
    ensures
        final(x).wf(),
        RvRegisters::others_unchanged(old(x), final(x), rd as int),
        final(x).val(rd as int) == mulh_val(
            old(x).val(rs1 as int),
            old(x).val(rs2 as int),
            old(x).xlen as nat,
        ),
{
    let a = x.get_u128(rs1);
    let b = x.get_u128(rs2);
    let w = x.len();
    let r = mulh_enc(a, b, w);
    proof {
        lemma_small_mod(r as nat, pow2(w as nat));
    }
    x.set_u128(rd, r);
}

/// `mulhu`: upper half of the double-width unsigned product.
pub fn mulhu(x: &mut RvRegisters, rd: usize, rs1: usize, rs2: usize)
    requires
        old(x).wf(),
        rd < old(x).count,
        rs1 < old(x).count,
        rs2 < old(x).count,
    ensures
        final(x).wf(),
        RvRegisters::others_unchanged(old(x), final(x), rd as int),
        final(x).val(rd as int) == mulhu_val(
            old(x).val(rs1 as int),
            old(x).val(rs2 as int),
            old(x).xlen as nat,
        ),
{
    let a = x.get_u128(rs1);
    let b = x.get_u128(rs2);
    let w = x.len();
    let r = mulhu_enc(a, b, w);
    proof {
        lemma_small_mod(r as nat, pow2(w as nat));
    }
    x.set_u128(rd, r);
}

/// `mulhsu`: upper half of the signed-times-unsigned product.
pub fn mulhsu(x: &mut RvRegisters, rd: usize, rs1: usize, rs2: usize)
    requires
        old(x).wf(),
        rd < old(x).count,
        rs1 < old(x).count,
        rs2 < old(x).count,
    ensures
        final(x).wf(),
        RvRegisters::others_unchanged(old(x), final(x), rd as int),
        final(x).val(rd as int) == mulhsu_val(
            old(x).val(rs1 as int),
            old(x).val(rs2 as int),
            old(x).xlen as nat,
        ),
{
    let a = x.get_u128(rs1);
    let b = x.get_u128(rs2);
    let w = x.len();
    let r = mulhsu_enc(a, b, w);
    proof {
        lemma_small_mod(r as nat, pow2(w as nat));
    }
    x.set_u128(rd, r);
}

/// A value below 2^(2w), divided by 2^w, lies below 2^w.
proof fn lemma_upper_half_bound(p: int, w: nat)
    requires
        w == 32 || w == 64 || w == 128,
        0 <= p < pow2(2 * w),
    ensures
        p / (pow2(w) as int) < pow2(w),
        0 <= p / (pow2(w) as int),
{
    lemma_pow2_adds(w, w);
    lemma_pow2_pos(w);
    vstd::arithmetic::div_mod::lemma_multiply_divide_lt(p, pow2(w) as int, pow2(w) as int);
    vstd::arithmetic::div_mod::lemma_div_pos_is_pos(p, pow2(w) as int);
}

/// `div`: signed division with the RISC-V zero and overflow results.
pub fn div(x: &mut RvRegisters, rd: usize, rs1: usize, rs2: usize)
    requires
        old(x).wf(),
        rd < old(x).count,
        rs1 < old(x).count,
        rs2 < old(x).count,
    ensures
        final(x).wf(),
        RvRegisters::others_unchanged(old(x), final(x), rd as int),
        final(x).val(rd as int) == div_val(
            old(x).val(rs1 as int),
            old(x).val(rs2 as int),
            old(x).xlen as nat,
        ),
        old(x).val(rs2 as int) == 0 ==> final(x).val(rd as int) == pow2(old(x).xlen as nat) - 1,
{
    let a = x.get_u128(rs1);
    let b = x.get_u128(rs2);
    let w = x.len();
    proof {
        lemma_pow2_pos(w as nat);
        lemma_pow2_pos((w - 1) as nat);
        lemma_pow2_adds((w - 1) as nat, 1);
        lemma2_to64();
        if (w as nat) < 128 {
            lemma_pow2_strictly_increases(w as nat, 128);
        }
        lemma_pow2_val_128();
    }
    if b == 0 {
        let ones = if w == 128 {
            u128::MAX
        } else {
            pow2_u128(w) - 1
        };
        proof {
            lemma_small_mod(ones as nat, pow2(w as nat));
        }
        x.set_u128(rd, ones);
        return ;
    }
    let half = pow2_u128(w - 1);
    let ones = if w == 128 {
        u128::MAX
    } else {
        pow2_u128(w) - 1
    };
    if a == half && b == ones {
        proof {
            lemma_small_mod(a as nat, pow2(w as nat));
        }
        x.set_u128(rd, a);
        return ;
    }
    let r = sdiv_enc(a, b, w);
    x.set_u128(rd, r);
    proof {
        lemma_small_mod(r as nat, pow2(w as nat));
    }
}

/// `divu`: unsigned division; division by zero yields all-ones.
pub fn divu(x: &mut RvRegisters, rd: usize, rs1: usize, rs2: usize)
    requires
        old(x).wf(),
        rd < old(x).count,
        rs1 < old(x).count,
        rs2 < old(x).count,
    ensures
        final(x).wf(),
        RvRegisters::others_unchanged(old(x), final(x), rd as int),
        final(x).val(rd as int) == divu_val(
            old(x).val(rs1 as int),
            old(x).val(rs2 as int),
            old(x).xlen as nat,
        ),
        old(x).val(rs2 as int) == 0 ==> final(x).val(rd as int) == pow2(old(x).xlen as nat) - 1,
{
    let a = x.get_u128(rs1);
    let b = x.get_u128(rs2);
    let w = x.len();
    proof {
        lemma_pow2_pos(w as nat);
        if (w as nat) < 128 {
            lemma_pow2_strictly_increases(w as nat, 128);
        }
        lemma_pow2_val_128();
    }
    if b == 0 {
        let ones = if w == 128 {
            u128::MAX
        } else {
            pow2_u128(w) - 1
        };
        proof {
            lemma_small_mod(ones as nat, pow2(w as nat));
        }
        x.set_u128(rd, ones);
        return ;
    }
    let r = a / b;
    proof {
        lemma_div_nonincreasing(a as int, b as int);
        lemma_small_mod(r as nat, pow2(w as nat));
    }
    x.set_u128(rd, r);
}

/// `rem`: signed remainder with the RISC-V zero and overflow results.
pub fn rem(x: &mut RvRegisters, rd: usize, rs1: usize, rs2: usize)
    requires
        old(x).wf(),
        rd < old(x).count,
        rs1 < old(x).count,
        rs2 < old(x).count,
    ensures
        final(x).wf(),
        RvRegisters::others_unchanged(old(x), final(x), rd as int),
        final(x).val(rd as int) == rem_val(
            old(x).val(rs1 as int),
            old(x).val(rs2 as int),
            old(x).xlen as nat,
        ),
        old(x).val(rs2 as int) == 0 ==> final(x).val(rd as int) == old(x).val(rs1 as int),
{
    let a = x.get_u128(rs1);
    let b = x.get_u128(rs2);
    let w = x.len();
    proof {
        lemma_pow2_pos(w as nat);
        lemma_pow2_pos((w - 1) as nat);
        lemma_pow2_adds((w - 1) as nat, 1);
        lemma2_to64();
        if (w as nat) < 128 {
            lemma_pow2_strictly_increases(w as nat, 128);
        }
        lemma_pow2_val_128();
    }
    if b == 0 {
        proof {
            lemma_small_mod(a as nat, pow2(w as nat));
        }
        x.set_u128(rd, a);
        return ;
    }
    let half = pow2_u128(w - 1);
    let ones = if w == 128 {
        u128::MAX
    } else {
        pow2_u128(w) - 1
    };
    if a == half && b == ones {
        proof {
            lemma_small_mod(0nat, pow2(w as nat));
        }
        x.set_u128(rd, 0);
        return ;
    }
    let r = srem_enc(a, b, w);
    x.set_u128(rd, r);
    proof {
        lemma_small_mod(r as nat, pow2(w as nat));
    }
}

/// `remu`: unsigned remainder; division by zero yields the dividend.
pub fn remu(x: &mut RvRegisters, rd: usize, rs1: usize, rs2: usize)
    requires
        old(x).wf(),
        rd < old(x).count,
        rs1 < old(x).count,
        rs2 < old(x).count,
    ensures
        final(x).wf(),
        RvRegisters::others_unchanged(old(x), final(x), rd as int),
        final(x).val(rd as int) == remu_val(
            old(x).val(rs1 as int),
            old(x).val(rs2 as int),
            old(x).xlen as nat,
        ),
        old(x).val(rs2 as int) == 0 ==> final(x).val(rd as int) == old(x).val(rs1 as int),
{
    let a = x.get_u128(rs1);
    let b = x.get_u128(rs2);
    let w = x.len();
    proof {
        lemma_pow2_pos(w as nat);
    }
    if b == 0 {
        proof {
            lemma_small_mod(a as nat, pow2(w as nat));
        }
        x.set_u128(rd, a);
        return ;
    }
    let r = a % b;
    proof {
        lemma_mod_bound(a as int, b as int);
        lemma_small_mod(r as nat, pow2(w as nat));
    }
    x.set_u128(rd, r);
}

/// `divw`: 32-bit signed division, sign-extended to the active width.
pub fn divw(x: &mut RvRegisters, rd: usize, rs1: usize, rs2: usize)
    requires
        old(x).wf(),
        old(x).xlen == 64 || old(x).xlen == 128,
        rd < old(x).count,
        rs1 < old(x).count,
        rs2 < old(x).count,
    ensures
        final(x).wf(),
        RvRegisters::others_unchanged(old(x), final(x), rd as int),
        final(x).val(rd as int) == sext_val(
            div_val(old(x).val(rs1 as int) % pow2(32), old(x).val(rs2 as int) % pow2(32), 32),
            32,
            old(x).xlen as nat,
        ),
{
    let a = x.get_u128(rs1);
    let b = x.get_u128(rs2);
    let w = x.len();
    let a32 = mod_pow2_u128(a, 32);
    let b32 = mod_pow2_u128(b, 32);
    let r32 = div32(a32, b32);
    let r = sext_u128(r32, 32, w);
    x.set_u128(rd, r);
    proof {
        lemma_pow2_pos(w as nat);
        lemma_small_mod(r as nat, pow2(w as nat));
    }
}

/// `divuw`: 32-bit unsigned division, sign-extended to the active width.
pub fn divuw(x: &mut RvRegisters, rd: usize, rs1: usize, rs2: usize)
    requires
        old(x).wf(),
        old(x).xlen == 64 || old(x).xlen == 128,
        rd < old(x).count,
        rs1 < old(x).count,
        rs2 < old(x).count,
    ensures
        final(x).wf(),
        RvRegisters::others_unchanged(old(x), final(x), rd as int),
        final(x).val(rd as int) == sext_val(
            divu_val(old(x).val(rs1 as int) % pow2(32), old(x).val(rs2 as int) % pow2(32), 32),
            32,
            old(x).xlen as nat,
        ),
{
    let a = x.get_u128(rs1);
    let b = x.get_u128(rs2);
    let w = x.len();
    let a32 = mod_pow2_u128(a, 32);
    let b32 = mod_pow2_u128(b, 32);
    proof {
        lemma2_to64();
    }
    let r32: u128 = if b32 == 0 {
        0xffffffffu128
    } else {
        proof {
            lemma_div_nonincreasing(a32 as int, b32 as int);
        }
        a32 / b32
    };
    let r = sext_u128(r32, 32, w);
    x.set_u128(rd, r);
    proof {
        lemma_pow2_pos(w as nat);
        lemma_small_mod(r as nat, pow2(w as nat));
    }
}

/// `remw`: 32-bit signed remainder, sign-extended to the active width.
pub fn remw(x: &mut RvRegisters, rd: usize, rs1: usize, rs2: usize)
    requires
        old(x).wf(),
        old(x).xlen == 64 || old(x).xlen == 128,
        rd < old(x).count,
        rs1 < old(x).count,
        rs2 < old(x).count,
    ensures
        final(x).wf(),
        RvRegisters::others_unchanged(old(x), final(x), rd as int),
        final(x).val(rd as int) == sext_val(
            rem_val(old(x).val(rs1 as int) % pow2(32), old(x).val(rs2 as int) % pow2(32), 32),
            32,
            old(x).xlen as nat,
        ),
{
    let a = x.get_u128(rs1);
    let b = x.get_u128(rs2);
    let w = x.len();
    let a32 = mod_pow2_u128(a, 32);
    let b32 = mod_pow2_u128(b, 32);
    let r32 = rem32(a32, b32);
    let r = sext_u128(r32, 32, w);
    x.set_u128(rd, r);
    proof {
        lemma_pow2_pos(w as nat);
        lemma_small_mod(r as nat, pow2(w as nat));
    }
}

/// `remuw`: 32-bit unsigned remainder, sign-extended to the active width.
pub fn remuw(x: &mut RvRegisters, rd: usize, rs1: usize, rs2: usize)
    requires
        old(x).wf(),
        old(x).xlen == 64 || old(x).xlen == 128,
        rd < old(x).count,
        rs1 < old(x).count,
        rs2 < old(x).count,
    ensures
        final(x).wf(),
        RvRegisters::others_unchanged(old(x), final(x), rd as int),
        final(x).val(rd as int) == sext_val(
            remu_val(old(x).val(rs1 as int) % pow2(32), old(x).val(rs2 as int) % pow2(32), 32),
            32,
            old(x).xlen as nat,
        ),
{
    let a = x.get_u128(rs1);
    let b = x.get_u128(rs2);
    let w = x.len();
    let a32 = mod_pow2_u128(a, 32);
    let b32 = mod_pow2_u128(b, 32);
    let r32: u128 = if b32 == 0 {
        a32
    } else {
        proof {
            lemma_mod_bound(a32 as int, b32 as int);
        }
        a32 % b32
    };
    let r = sext_u128(r32, 32, w);
    x.set_u128(rd, r);
    proof {
        lemma_pow2_pos(w as nat);
        lemma_small_mod(r as nat, pow2(w as nat));
    }
}

/// The 32-bit `div` result including its zero and overflow cases.
fn div32(a: u128, b: u128) -> (r: u128)
    requires
        a < pow2(32),
        b < pow2(32),
    ensures
        r as nat == div_val(a as nat, b as nat, 32),
        r < pow2(32),
{
    proof {
        lemma2_to64();
        lemma_pow2_pos(32);
    }
    if b == 0 {
        return 0xffffffffu128;
    }
    if a == 0x80000000 && b == 0xffffffff {
        return a;
    }
    sdiv_enc(a, b, 32)
}

/// The 32-bit `rem` result including its zero and overflow cases.
fn rem32(a: u128, b: u128) -> (r: u128)
    requires
        a < pow2(32),
        b < pow2(32),
    ensures
        r as nat == rem_val(a as nat, b as nat, 32),
        r < pow2(32),
{
    proof {
        lemma2_to64();
        lemma_pow2_pos(32);
    }
    if b == 0 {
        return a;
    }
    if a == 0x80000000 && b == 0xffffffff {
        return 0;
    }
    srem_enc(a, b, 32)
}

} // verus!
