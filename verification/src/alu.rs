//! Width-generic arithmetic on register values.
//!
//! Register values are carried as `u128` naturals below 2^w for an active
//! width `w` of 32, 64 or 128 bits.  Signed semantics go through
//! [`to_signed`]; results are re-encoded with [`enc`], the value modulo 2^w.

use vstd::prelude::*;

verus! {

use vstd::arithmetic::power2::{pow2, lemma_pow2_pos, lemma_pow2_adds, lemma2_to64,
    lemma_pow2_strictly_increases};
use vstd::arithmetic::div_mod::{lemma_small_mod, lemma_mod_bound, lemma_mod_multiples_vanish,
    lemma_fundamental_div_mod, lemma_fundamental_div_mod_converse_mod,
    lemma_fundamental_div_mod_converse_div, lemma_div_nonincreasing};
use vstd::arithmetic::mul::{lemma_mul_inequality, lemma_mul_is_commutative,
    lemma_mul_unary_negation, lemma_mul_is_distributive_add, lemma_mul_basics};
use crate::uint::{to_signed, sext_val, lemma_pow2_val_128, lemma_pow2_halves, pow2_u128};

/// A (possibly negative) integer encoded as a `w`-bit two's-complement value.
pub open spec fn enc(x: int, w: nat) -> nat {
    (x % (pow2(w) as int)) as nat
}

/// The magnitude of an integer, as a natural number.
pub open spec fn abs_n(x: int) -> nat {
    if x >= 0 {
        x as nat
    } else {
        (-x) as nat
    }
}

/// Division truncated towards zero, the RISC-V `div` rounding rule.
pub open spec fn tdiv(x: int, y: int) -> int
    recommends
        y != 0,
{
    if (x >= 0) == (y >= 0) {
        (abs_n(x) / abs_n(y)) as int
    } else {
        -((abs_n(x) / abs_n(y)) as int)
    }
}

/// The remainder matching [`tdiv`]: it carries the sign of the dividend.
pub open spec fn trem(x: int, y: int) -> int
    recommends
        y != 0,
{
    if x >= 0 {
        (abs_n(x) % abs_n(y)) as int
    } else {
        -((abs_n(x) % abs_n(y)) as int)
    }
}

/// A supported register width.
pub open spec fn valid_width(w: nat) -> bool {
    w == 32 || w == 64 || w == 128
}

/// Reduces a value modulo 2^w.
pub fn mod_pow2_u128(c: u128, w: usize) -> (r: u128)
    requires
        w <= 128,
    ensures
        r as nat == c as nat % pow2(w as nat),
        r < pow2(w as nat),
{
    if w == 128 {
        proof {
            lemma_pow2_val_128();
            lemma_small_mod(c as nat, pow2(128));
        }
        c
    } else {
        let p = pow2_u128(w);
        proof {
            lemma_pow2_pos(w as nat);
            lemma_mod_bound(c as int, p as int);
        }
        c % p
    }
}

/// The wrapping sum at width `w`: `(a + b) mod 2^w`.
pub fn add_mod(a: u128, b: u128, w: usize) -> (r: u128)
    requires
        w <= 128,
    ensures
        r as nat == (a + b) as nat % pow2(w as nat),
        r < pow2(w as nat),
{
    let c = a.wrapping_add(b);
    proof {
        crate::uint::lemma_wrapping_add_is_mod(a, b);
        crate::uint::lemma_mod_pow2_collapse((a + b) as int, w as nat);
    }
    mod_pow2_u128(c, w)
}

/// The wrapping difference at width `w`: `(a - b) mod 2^w`, as an encoding.
pub fn sub_mod(a: u128, b: u128, w: usize) -> (r: u128)
    requires
        w <= 128,
    ensures
        r as nat == enc(a as int - b as int, w as nat),
        r < pow2(w as nat),
{
    let c = a.wrapping_sub(b);
    proof {
        lemma_pow2_val_128();
        if a >= b {
            lemma_small_mod((a - b) as nat, pow2(128));
        } else {
            lemma_mod_multiples_vanish(1, a - b, pow2(128) as int);
            lemma_small_mod((a - b + pow2(128)) as nat, pow2(128));
        }
        assert(c as int == (a as int - b as int) % (pow2(128) as int));
        crate::uint::lemma_mod_pow2_collapse(a as int - b as int, w as nat);
    }
    mod_pow2_u128(c, w)
}

/// The wrapping product at width `w`: `(a * b) mod 2^w`.
pub fn mul_mod(a: u128, b: u128, w: usize) -> (r: u128)
    requires
        w <= 128,
    ensures
        r as nat == (a * b) as nat % pow2(w as nat),
        r < pow2(w as nat),
{
    let c = a.wrapping_mul(b);
    proof {
        lemma_pow2_val_128();
        crate::uint::lemma_mod_pow2_collapse((a * b) as int, w as nat);
    }
    mod_pow2_u128(c, w)
}

/// Sign-extends the low `from` bits of `v` to a `to`-bit encoding.
pub fn sext_u128(v: u128, from: usize, to: usize) -> (r: u128)
    requires
        1 <= from <= to <= 128,
    ensures
        r as nat == sext_val(v as nat, from as nat, to as nat),
        r < pow2(to as nat),
{
    if from == 128 {
        proof {
            lemma_pow2_val_128();
            lemma_small_mod(v as nat, pow2(128));
        }
        return v;
    }
    let m = mod_pow2_u128(v, from);
    let half = pow2_u128(from - 1);
    proof {
        lemma_pow2_pos((from - 1) as nat);
        lemma_pow2_pos(from as nat);
    }
    if m >= half {
        let t: u128 = if to == 128 {
            proof {
                lemma_pow2_val_128();
            }
            u128::MAX - pow2_u128(from) + 1
        } else {
            proof {
                if (from as nat) < (to as nat) {
                    lemma_pow2_strictly_increases(from as nat, to as nat);
                }
            }
            pow2_u128(to) - pow2_u128(from)
        };
        proof {
            if (to as nat) < 128 {
                lemma_pow2_strictly_increases(to as nat, 128);
            } else {
                lemma_pow2_val_128();
            }
        }
        m + t
    } else {
        proof {
            if (from as nat) < (to as nat) {
                lemma_pow2_strictly_increases(from as nat, to as nat);
            }
        }
        m
    }
}

/// True exactly when `a` encodes a negative `w`-bit integer.
pub fn is_neg(a: u128, w: usize) -> (r: bool)
    requires
        1 <= w <= 128,
        a < pow2(w as nat),
    ensures
        r == (to_signed(a as nat, w as nat) < 0),
{
    let half = pow2_u128(w - 1);
    proof {
        lemma_pow2_pos((w - 1) as nat);
    }
    a >= half
}

/// Signed comparison of two `w`-bit encodings.
pub fn signed_lt(a: u128, b: u128, w: usize) -> (r: bool)
    requires
        1 <= w <= 128,
        a < pow2(w as nat),
        b < pow2(w as nat),
    ensures
        r == (to_signed(a as nat, w as nat) < to_signed(b as nat, w as nat)),
{
    let na = is_neg(a, w);
    let nb = is_neg(b, w);
    if na != nb {
        na
    } else {
        a < b
    }
}

/// The magnitude of the `w`-bit integer encoded by `a`.
pub fn magnitude(a: u128, w: usize) -> (r: u128)
    requires
        1 <= w <= 128,
        a < pow2(w as nat),
    ensures
        r as nat == abs_n(to_signed(a as nat, w as nat)),
        r as nat <= pow2((w - 1) as nat),
{
    proof {
        lemma_pow2_pos((w - 1) as nat);
        if (w as nat) < 128 {
            lemma_pow2_strictly_increases(w as nat, 128);
        }
        lemma_pow2_val_128();
        lemma_pow2_adds((w - 1) as nat, 1);
        lemma2_to64();
    }
    if is_neg(a, w) {
        if w == 128 {
            (u128::MAX - a) + 1
        } else {
            pow2_u128(w) - a
        }
    } else {
        a
    }
}

/// Encodes `-m` as a `w`-bit two's-complement value.
pub fn neg_encode(m: u128, w: usize) -> (r: u128)
    requires
        1 <= w <= 128,
        m as nat <= pow2(w as nat),
    ensures
        r as nat == enc(-(m as int), w as nat),
        r < pow2(w as nat),
        m == 0 ==> r == 0,
{
    proof {
        lemma_pow2_pos(w as nat);
        if (w as nat) < 128 {
            lemma_pow2_strictly_increases(w as nat, 128);
        }
        lemma_pow2_val_128();
    }
    if m == 0 {
        proof {
            vstd::arithmetic::div_mod::lemma_mod_self_0(pow2(w as nat) as int);
        }
        0
    } else {
        let r: u128 = if w == 128 {
            (u128::MAX - m) + 1
        } else {
            pow2_u128(w) - m
        };
        proof {
            lemma_mod_multiples_vanish(1, -(m as int), pow2(w as nat) as int);
            lemma_small_mod((pow2(w as nat) - m) as nat, pow2(w as nat));
        }
        r
    }
}

/// Encodes a signed 32-bit immediate at width `w`.
pub fn imm_to_enc(imm: i32, w: usize) -> (r: u128)
    requires
        32 <= w <= 128,
    ensures
        r as nat == enc(imm as int, w as nat),
        r < pow2(w as nat),
{
    proof {
        lemma_pow2_pos(w as nat);
        crate::uint::lemma_pow2_halves();
        if 32 < w {
            lemma_pow2_strictly_increases(32, w as nat);
        }
        if (w as nat) < 128 {
            lemma_pow2_strictly_increases(w as nat, 128);
        }
        lemma_pow2_val_128();
    }
    if imm >= 0 {
        proof {
            lemma_small_mod(imm as nat, pow2(w as nat));
        }
        imm as u128
    } else {
        let m: u128 = ((-(imm + 1)) as u128) + 1;
        let r: u128 = if w == 128 {
            (u128::MAX - m) + 1
        } else {
            pow2_u128(w) - m
        };
        proof {
            lemma_mod_multiples_vanish(1, imm as int, pow2(w as nat) as int);
            lemma_small_mod((pow2(w as nat) + imm) as nat, pow2(w as nat));
        }
        r
    }
}

/// A small signed value surives the encode/decode round trip at width `w`.
pub proof fn lemma_enc_signed(v: int, w: nat)
    requires
        32 <= w <= 128,
        -(pow2((w - 1) as nat) as int) <= v < pow2((w - 1) as nat),
    ensures
        to_signed(enc(v, w), w) == v,
        enc(v, w) < pow2(w),
{
    lemma_pow2_pos(w);
    lemma_pow2_pos((w - 1) as nat);
    lemma_pow2_adds((w - 1) as nat, 1);
    lemma2_to64();
    if v >= 0 {
        lemma_small_mod(v as nat, pow2(w));
    } else {
        lemma_mod_multiples_vanish(1, v, pow2(w) as int);
        lemma_small_mod((pow2(w) + v) as nat, pow2(w));
    }
}

/// Decodes a `w`-bit encoding into its signed value as an `i128`.
pub fn decode_signed(d: u128, w: usize) -> (r: i128)
    requires
        valid_width(w as nat),
        d < pow2(w as nat),
    ensures
        r as int == to_signed(d as nat, w as nat),
{
    proof {
        lemma_pow2_pos((w - 1) as nat);
        lemma_pow2_adds((w - 1) as nat, 1);
        lemma2_to64();
        crate::uint::lemma_pow2_halves();
    }
    if is_neg(d, w) {
        let m = magnitude(d, w);
        -((m - 1) as i128) - 1
    } else {
        d as i128
    }
}

/// Encodes a signed 128-bit offset at width `w`.
pub fn i128_to_enc(x: i128, w: usize) -> (r: u128)
    requires
        32 <= w <= 128,
    ensures
        r as nat == enc(x as int, w as nat),
        r < pow2(w as nat),
{
    proof {
        lemma_pow2_pos(w as nat);
    }
    if x >= 0 {
        let r = mod_pow2_u128(x as u128, w);
        r
    } else {
        let m: u128 = ((-(x + 1)) as u128) + 1;
        let mm = mod_pow2_u128(m, w);
        proof {
            vstd::arithmetic::div_mod::lemma_fundamental_div_mod(m as int, pow2(w as nat) as int);
            lemma_mul_is_commutative(pow2(w as nat) as int, m as int / pow2(w as nat) as int);
            lemma_mul_unary_negation(m as int / pow2(w as nat) as int, pow2(w as nat) as int);
            lemma_mod_multiples_vanish(
                -(m as int / pow2(w as nat) as int),
                -(mm as int),
                pow2(w as nat) as int,
            );
            lemma_mul_is_commutative(
                -(m as int / pow2(w as nat) as int),
                pow2(w as nat) as int,
            );
            assert((-(m as int)) % (pow2(w as nat) as int) == (-(mm as int)) % (pow2(
                w as nat,
            ) as int));
        }
        neg_encode(mm, w)
    }
}

/// Encoding a decoded value gives the encoding back.
pub proof fn lemma_enc_to_signed(d: nat, w: nat)
    requires
        1 <= w,
        d < pow2(w),
    ensures
        enc(to_signed(d, w), w) == d,
{
    lemma_pow2_pos(w);
    if d < pow2((w - 1) as nat) {
        lemma_small_mod(d, pow2(w));
    } else {
        lemma_mod_multiples_vanish(1, d - pow2(w), pow2(w) as int);
        lemma_small_mod(d, pow2(w));
    }
}

/// Euclidean division of a negative integer rounds away from zero:
/// `(-m) / d` is the negated ceiling of `m / d`.
pub proof fn lemma_neg_div(m: nat, d: nat)
    requires
        m >= 1,
        d >= 1,
    ensures
        (-(m as int)) / (d as int) == -((m + d - 1) / (d as int)),
        (-(m as int)) % (d as int) == (d as int) * ((m + d - 1) / (d as int)) - m,
{
    let q = (m + d - 1) / (d as int);
    lemma_fundamental_div_mod((m + d - 1) as int, d as int);
    lemma_mod_bound((m + d - 1) as int, d as int);
    let rp = (m + d - 1) as int % d as int;
    lemma_mul_is_commutative(d as int, q);
    assert(m + d - 1 == q * d + rp);
    // d*q lies in [m, m + d)
    let r2 = q * d - m;
    assert(0 <= r2 < d);
    lemma_mul_unary_negation(q, d as int);
    assert((-q) * d == -(q * d));
    lemma_fundamental_div_mod_converse_mod(-(m as int), d as int, -q, r2);
    lemma_fundamental_div_mod_converse_div(-(m as int), d as int, -q, r2);
    lemma_mul_is_commutative(d as int, q);
}

/// Truncated signed division of `w`-bit encodings, excluding the divide-by-zero
/// and overflow cases (handled by the instruction semantics directly).
pub fn sdiv_enc(a: u128, b: u128, w: usize) -> (r: u128)
    requires
        valid_width(w as nat),
        a < pow2(w as nat),
        b < pow2(w as nat),
        to_signed(b as nat, w as nat) != 0,
        !(to_signed(a as nat, w as nat) == -(pow2((w - 1) as nat) as int) && to_signed(
            b as nat,
            w as nat,
        ) == -1),
    ensures
        r as nat == enc(tdiv(to_signed(a as nat, w as nat), to_signed(b as nat, w as nat)), w as nat),
        r < pow2(w as nat),
{
    let na = magnitude(a, w);
    let nb = magnitude(b, w);
    let sa = is_neg(a, w);
    let sb = is_neg(b, w);
    proof {
        lemma_pow2_pos((w - 1) as nat);
        lemma_pow2_pos(w as nat);
        lemma_pow2_adds((w - 1) as nat, 1);
        lemma2_to64();
    }
    let q = na / nb;
    proof {
        lemma_div_nonincreasing(na as int, nb as int);
    }
    if sa == sb {
        // the quotient is nonnegative and, with the overflow case excluded,
        // fits below 2^(w-1)
        proof {
            let sav = to_signed(a as nat, w as nat);
            let sbv = to_signed(b as nat, w as nat);
            if na as nat == pow2((w - 1) as nat) && nb == 1 {
                assert(sav == -(pow2((w - 1) as nat) as int));
                assert(sbv == -1);
            }
            if nb >= 2 {
                vstd::arithmetic::div_mod::lemma_div_is_ordered_by_denominator(na as int, 2, nb as int);
                assert(na as int / nb as int <= na as int / 2);
            }
            lemma_small_mod(q as nat, pow2(w as nat));
        }
        q
    } else {
        proof {
            lemma_small_mod(q as nat, pow2(w as nat));
        }
        neg_encode(q, w)
    }
}

/// The remainder matching [`sdiv_enc`]; its sign follows the dividend.
pub fn srem_enc(a: u128, b: u128, w: usize) -> (r: u128)
    requires
        valid_width(w as nat),
        a < pow2(w as nat),
        b < pow2(w as nat),
        to_signed(b as nat, w as nat) != 0,
    ensures
        r as nat == enc(trem(to_signed(a as nat, w as nat), to_signed(b as nat, w as nat)), w as nat),
        r < pow2(w as nat),
{
    let na = magnitude(a, w);
    let nb = magnitude(b, w);
    let sa = is_neg(a, w);
    proof {
        lemma_pow2_pos((w - 1) as nat);
        lemma_pow2_pos(w as nat);
        lemma_pow2_adds((w - 1) as nat, 1);
        lemma2_to64();
    }
    let m = na % nb;
    proof {
        lemma_mod_bound(na as int, nb as int);
        lemma_small_mod(m as nat, pow2(w as nat));
    }
    if sa {
        neg_encode(m, w)
    } else {
        m
    }
}

} // verus!
