//! Width-generic integer values backed by little-endian byte vectors.
//!
//! A [`Uint`] carries its own width (the byte length of its vector), so the
//! register file, CSR bank and bus code can stay width-agnostic.  The
//! mathematical model of a value is [`le_val`]: the natural number its bytes
//! denote in base 256, least-significant byte first.

use vstd::prelude::*;

verus! {

use vstd::arithmetic::power2::{pow2, lemma_pow2_adds, lemma_pow2_pos, lemma2_to64,
    lemma2_to64_rest, lemma_pow2_strictly_increases};
use vstd::arithmetic::div_mod::{lemma_fundamental_div_mod_converse_mod,
    lemma_fundamental_div_mod_converse_div};
use vstd::arithmetic::mul::{lemma_mul_inequality, lemma_mul_is_distributive_add,
    lemma_mul_is_associative, lemma_mul_is_commutative};

/// The natural number denoted by a little-endian byte sequence.
pub open spec fn le_val(s: Seq<u8>) -> nat
    decreases s.len(),
{
    if s.len() == 0 {
        0
    } else {
        (s[0] + 256 * le_val(s.skip(1))) as nat
    }
}

/// A value `n`, read as a `w`-bit two's-complement integer.
pub open spec fn to_signed(n: nat, w: nat) -> int
    recommends
        w >= 1,
        n < pow2(w),
{
    if n < pow2((w - 1) as nat) {
        n as int
    } else {
        n - pow2(w)
    }
}

/// Sign extension: the low `bits` of `n` read as signed, re-encoded in `width` bits.
pub open spec fn sext_val(n: nat, bits: nat, width: nat) -> nat
    recommends
        1 <= bits <= width,
{
    let m = n % pow2(bits);
    if m < pow2((bits - 1) as nat) {
        m
    } else {
        (m + pow2(width) - pow2(bits)) as nat
    }
}

/// A little-endian byte sequence denotes less than 256^len.
pub proof fn lemma_le_val_bound(s: Seq<u8>)
    ensures
        le_val(s) < pow2(8 * s.len()),
    decreases s.len(),
{
    if s.len() == 0 {
        lemma2_to64();
    } else {
        let rest = s.skip(1);
        lemma_le_val_bound(rest);
        lemma_pow2_adds(8, 8 * rest.len());
        lemma2_to64();
        assert(le_val(rest) <= pow2(8 * rest.len()) - 1);
        lemma_mul_inequality(le_val(rest) as int, pow2(8 * rest.len()) - 1, 256);
        assert(8 * s.len() == 8 + 8 * rest.len());
    }
}

/// Splitting a byte sequence at `k` splits its value at the base 256^k.
pub proof fn lemma_le_val_split(s: Seq<u8>, k: int)
    requires
        0 <= k <= s.len(),
    ensures
        le_val(s) == le_val(s.take(k)) + pow2((8 * k) as nat) * le_val(s.skip(k)),
    decreases k,
{
    if k == 0 {
        assert(s.take(0) =~= Seq::<u8>::empty());
        assert(s.skip(0) =~= s);
        lemma2_to64();
        assert(le_val(Seq::<u8>::empty()) == 0);
        lemma_mul_is_commutative(1, le_val(s) as int);
        assert(1 * le_val(s) == le_val(s)) by {
            vstd::arithmetic::mul::lemma_mul_basics(le_val(s) as int);
        }
    } else {
        let rest = s.skip(1);
        lemma_le_val_split(rest, k - 1);
        assert(s.take(k).skip(1) =~= rest.take(k - 1));
        assert(s.skip(k) =~= rest.skip(k - 1));
        assert(s.take(k)[0] == s[0]);
        lemma_pow2_adds(8, (8 * (k - 1)) as nat);
        lemma2_to64();
        let a = le_val(rest.take(k - 1)) as int;
        let p = pow2((8 * (k - 1)) as nat) as int;
        let b = le_val(rest.skip(k - 1)) as int;
        assert(le_val(s) == s[0] + 256 * (a + p * b));
        lemma_mul_is_distributive_add(256, a, p * b);
        lemma_mul_is_associative(256, p, b);
        assert(256 * (a + p * b) == 256 * a + (256 * p) * b);
        assert(le_val(s.take(k)) == s[0] + 256 * a);
        assert((8 * k) as nat == (8 + 8 * (k - 1)) as nat);
        assert(pow2((8 * k) as nat) == 256 * p);
        assert(le_val(s.skip(k)) == b);
        assert(le_val(s) == s[0] + 256 * a + (256 * p) * b);
        assert(pow2((8 * k) as nat) * le_val(s.skip(k)) == (256 * p) * b);
    }
}

/// The first `k` bytes denote the value modulo 256^k; the rest denote the quotient.
pub proof fn lemma_le_val_prefix(s: Seq<u8>, k: int)
    requires
        0 <= k <= s.len(),
    ensures
        le_val(s.take(k)) == le_val(s) % pow2((8 * k) as nat),
        le_val(s.skip(k)) == le_val(s) / pow2((8 * k) as nat),
{
    lemma_le_val_split(s, k);
    lemma_le_val_bound(s.take(k));
    lemma_pow2_pos((8 * k) as nat);
    assert(s.take(k).len() == k);
    assert(8 * s.take(k).len() == (8 * k) as nat);
    assert(le_val(s) == le_val(s.skip(k)) * pow2((8 * k) as nat) + le_val(s.take(k))) by {
        lemma_mul_is_commutative(
            pow2((8 * k) as nat) as int,
            le_val(s.skip(k)) as int,
        );
    }
    lemma_fundamental_div_mod_converse_mod(
        le_val(s) as int,
        pow2((8 * k) as nat) as int,
        le_val(s.skip(k)) as int,
        le_val(s.take(k)) as int,
    );
    lemma_fundamental_div_mod_converse_div(
        le_val(s) as int,
        pow2((8 * k) as nat) as int,
        le_val(s.skip(k)) as int,
        le_val(s.take(k)) as int,
    );
}

/// Appending one byte adds it at the next base-256 position.
pub proof fn lemma_le_val_snoc(s: Seq<u8>, b: u8)
    ensures
        le_val(s.push(b)) == le_val(s) + pow2(8 * s.len()) * b,
    decreases s.len(),
{
    if s.len() == 0 {
        assert(s.push(b).skip(1) =~= Seq::<u8>::empty());
        assert(s.push(b)[0] == b);
        lemma2_to64();
        assert(le_val(Seq::<u8>::empty()) == 0);
        assert(le_val(s.push(b)) == b);
        assert(le_val(s) == 0);
        assert(pow2(8 * s.len()) == 1);
    } else {
        let rest = s.skip(1);
        lemma_le_val_snoc(rest, b);
        assert(le_val(s) == s[0] + 256 * le_val(rest));
        assert(s.push(b).skip(1) =~= rest.push(b));
        assert(s.push(b)[0] == s[0]);
        lemma_pow2_adds(8, 8 * rest.len());
        lemma2_to64();
        let p = pow2(8 * rest.len()) as int;
        assert(le_val(s.push(b)) == s[0] + 256 * le_val(rest.push(b)));
        assert(le_val(rest.push(b)) == le_val(rest) + p * (b as int));
        lemma_mul_is_distributive_add(256, le_val(rest) as int, p * (b as int));
        lemma_mul_is_associative(256, p, b as int);
        assert(256 * le_val(rest.push(b)) == 256 * le_val(rest) + (256 * p) * (b as int));
        assert(8 * s.len() == 8 + 8 * rest.len());
        assert(pow2(8 * s.len()) == 256 * p);
    }
}

/// A sequence of equal bytes `b` denotes b * (256^len - 1) / 255.
pub proof fn lemma_le_val_repeat_zero(s: Seq<u8>)
    requires
        forall|i: int| 0 <= i < s.len() ==> s[i] == 0u8,
    ensures
        le_val(s) == 0,
    decreases s.len(),
{
    if s.len() > 0 {
        lemma_le_val_repeat_zero(s.skip(1));
    }
}

/// A sequence of 0xff bytes denotes 256^len - 1, the all-ones value.
pub proof fn lemma_le_val_repeat_ff(s: Seq<u8>)
    requires
        forall|i: int| 0 <= i < s.len() ==> s[i] == 0xffu8,
    ensures
        le_val(s) == pow2(8 * s.len()) - 1,
    decreases s.len(),
{
    if s.len() == 0 {
        lemma2_to64();
    } else {
        let rest = s.skip(1);
        lemma_le_val_repeat_ff(rest);
        lemma_pow2_adds(8, 8 * rest.len());
        lemma2_to64();
        let p = pow2(8 * rest.len()) as int;
        assert(256 * (p - 1) == 256 * p - 256) by {
            lemma_mul_is_distributive_add(256, p, -1);
        }
    }
}

/// 2^n for exponents below 128, as a `u128`.
pub fn pow2_u128(n: usize) -> (r: u128)
    requires
        n < 128,
    ensures
        r == pow2(n as nat),
{
    proof {
        lemma2_to64();
    }
    let mut r: u128 = 1;
    let mut i: usize = 0;
    while i < n
        invariant
            i <= n < 128,
            r == pow2(i as nat),
        decreases n - i,
    {
        proof {
            lemma_pow2_adds(i as nat, 1);
            lemma2_to64();
            if i + 1 < 128 {
                lemma_pow2_strictly_increases((i + 1) as nat, 128);
            }
            lemma_pow2_val_128();
        }
        r = r * 2;
        i = i + 1;
    }
    r
}

/// 2^128 written out, for overflow bounds on `u128` arithmetic.
pub proof fn lemma_pow2_val_128()
    ensures
        pow2(128) == 0x100000000000000000000000000000000,
{
    lemma_pow2_adds(64, 64);
    lemma2_to64();
}

/// The value of the low `nbytes` bytes of `v`: `le_val(v) mod 256^nbytes`.
pub fn le_low128(v: &Vec<u8>, nbytes: usize) -> (r: u128)
    requires
        nbytes <= 16,
    ensures
        r as nat == le_val(v@) % pow2((8 * nbytes) as nat),
        r as nat == le_val(v@.take(if nbytes <= v@.len() { nbytes as int } else { v@.len() as int })),
{
    let n = if v.len() < nbytes { v.len() } else { nbytes };
    let mut acc: u128 = 0;
    let mut i: usize = 0;
    while i < n
        invariant
            i <= n <= 16,
            n <= v.len(),
            n <= nbytes,
            acc as nat == le_val(v@.take(i as int)),
        decreases n - i,
    {
        let p = pow2_u128(8 * i);
        proof {
            lemma_le_val_bound(v@.take(i as int));
            assert(v@.take(i as int).len() == i);
            lemma_mul_inequality(v@[i as int] as int, 255, p as int);
            lemma_pow2_adds((8 * i) as nat, 8);
            lemma2_to64();
            if 8 * i + 8 < 128 {
                lemma_pow2_strictly_increases((8 * i + 8) as nat, 128);
            }
            lemma_pow2_val_128();
            assert(acc + (v@[i as int] as u128) * p < 256 * pow2((8 * i) as nat));
            lemma_le_val_snoc(v@.take(i as int), v@[i as int]);
            assert(v@.take(i + 1) =~= v@.take(i as int).push(v@[i as int]));
            lemma_mul_is_commutative(pow2((8 * i) as nat) as int, v@[i as int] as int);
            assert(le_val(v@.take(i + 1)) == acc as nat + (v@[i as int] as u128) * p);
        }
        acc = acc + (v[i] as u128) * p;
        i = i + 1;
    }
    proof {
        if n < nbytes {
            // the whole vector was consumed: its value is below 256^nbytes
            assert(v@.take(n as int) =~= v@);
            lemma_le_val_bound(v@);
            lemma_pow2_strictly_increases((8 * n) as nat, (8 * nbytes) as nat);
            lemma_pow2_pos((8 * nbytes) as nat);
            vstd::arithmetic::div_mod::lemma_small_mod(le_val(v@), pow2((8 * nbytes) as nat));
        } else {
            lemma_le_val_prefix(v@, n as int);
        }
    }
    acc
}

/// The low `nbytes` little-endian bytes of `x`.
pub fn u128_to_le_bytes(x: u128, nbytes: usize) -> (r: Vec<u8>)
    requires
        nbytes <= 16,
    ensures
        r@.len() == nbytes,
        le_val(r@) == x as nat % pow2((8 * nbytes) as nat),
{
    let mut r: Vec<u8> = Vec::new();
    let mut cur: u128 = x;
    let mut i: usize = 0;
    proof {
        lemma2_to64();
        lemma_fundamental_div_mod_converse_mod(x as int, 1, x as int, 0);
        lemma_fundamental_div_mod_converse_div(x as int, 1, x as int, 0);
    }
    while i < nbytes
        invariant
            i <= nbytes <= 16,
            r@.len() == i,
            le_val(r@) == x as nat % pow2((8 * i) as nat),
            cur as nat == x as nat / pow2((8 * i) as nat),
        decreases nbytes - i,
    {
        let b: u8 = (cur % 256) as u8;
        proof {
            lemma_le_val_snoc(r@, b);
            lemma_pow2_adds((8 * i) as nat, 8);
            lemma2_to64();
            lemma_pow2_pos((8 * i) as nat);
            // x % 2^(8(i+1)) == x % 2^(8i) + 2^(8i) * ((x / 2^(8i)) % 256)
            vstd::arithmetic::div_mod::lemma_breakdown(
                x as int,
                pow2((8 * i) as nat) as int,
                256,
            );
            vstd::arithmetic::div_mod::lemma_div_denominator(
                x as int,
                pow2((8 * i) as nat) as int,
                256,
            );
        }
        r.push(b);
        cur = cur / 256;
        i = i + 1;
    }
    r
}

/// The byte of `s` at position `i`, reading positions past the end as zero.
pub open spec fn byte_at(s: Seq<u8>, i: int) -> u8 {
    if 0 <= i < s.len() {
        s[i]
    } else {
        0
    }
}

/// `s` padded with zero bytes up to length `n`.
pub open spec fn padded(s: Seq<u8>, n: int) -> Seq<u8>
    recommends
        s.len() <= n,
{
    s + Seq::new((n - s.len()) as nat, |i: int| 0u8)
}

/// Concatenation splits the value at the base 256^|s|.
pub proof fn lemma_le_val_append(s: Seq<u8>, t: Seq<u8>)
    ensures
        le_val(s + t) == le_val(s) + pow2(8 * s.len()) * le_val(t),
{
    lemma_le_val_split(s + t, s.len() as int);
    assert((s + t).take(s.len() as int) =~= s);
    assert((s + t).skip(s.len() as int) =~= t);
}

/// Zero padding does not change the value.
pub proof fn lemma_le_val_padded(s: Seq<u8>, n: int)
    requires
        s.len() <= n,
    ensures
        le_val(padded(s, n)) == le_val(s),
        padded(s, n).len() == n,
        forall|i: int| 0 <= i < n ==> padded(s, n)[i] == byte_at(s, i),
{
    let z = Seq::new((n - s.len()) as nat, |i: int| 0u8);
    lemma_le_val_append(s, z);
    lemma_le_val_repeat_zero(z);
}

/// Every byte is a base-256 digit of the value: `s[i] == (le_val(s) / 256^i) % 256`.
pub proof fn lemma_le_val_byte_at(s: Seq<u8>, i: int)
    requires
        0 <= i,
    ensures
        byte_at(s, i) == (le_val(s) / pow2((8 * i) as nat)) % 256,
{
    lemma_pow2_pos((8 * i) as nat);
    lemma2_to64();
    if i < s.len() {
        lemma_le_val_prefix(s, i);
        let rest = s.skip(i);
        lemma_le_val_prefix(rest, 1);
        assert(rest.take(1) =~= seq![s[i]]);
        assert(seq![s[i]].skip(1) =~= Seq::<u8>::empty());
        assert(le_val(seq![s[i]]) == s[i]);
        vstd::arithmetic::div_mod::lemma_mod_bound(le_val(rest) as int, 256);
        vstd::arithmetic::div_mod::lemma_small_mod(s[i] as nat, 256);
    } else {
        lemma_le_val_bound(s);
        if 8 * s.len() < 8 * i {
            lemma_pow2_strictly_increases(8 * s.len(), (8 * i) as nat);
        }
        vstd::arithmetic::div_mod::lemma_basic_div(le_val(s) as int, pow2((8 * i) as nat) as int);
        vstd::arithmetic::div_mod::lemma_small_mod(0, 256);
    }
}

/// If the digits agree above position `i` and differ at `i`, the value with the
/// smaller digit at `i` is smaller, whatever the digits below.
pub proof fn lemma_le_val_msb_lt(s: Seq<u8>, t: Seq<u8>, i: int, n: int)
    requires
        0 <= i < n,
        s.len() <= n,
        t.len() <= n,
        byte_at(s, i) < byte_at(t, i),
        forall|j: int| i < j < n ==> byte_at(s, j) == byte_at(t, j),
    ensures
        le_val(s) < le_val(t),
{
    let sp = padded(s, n);
    let tp = padded(t, n);
    lemma_le_val_padded(s, n);
    lemma_le_val_padded(t, n);
    lemma_le_val_split(sp, i);
    lemma_le_val_split(tp, i);
    let ss = sp.skip(i);
    let ts = tp.skip(i);
    assert(ss.skip(1) =~= sp.skip(i + 1));
    assert forall|j: int| 0 <= j < sp.skip(i + 1).len() implies #[trigger] sp.skip(i + 1)[j]
        == tp.skip(i + 1)[j] by {
        assert(sp[i + 1 + j] == byte_at(s, i + 1 + j));
        assert(tp[i + 1 + j] == byte_at(t, i + 1 + j));
        assert(byte_at(s, i + 1 + j) == byte_at(t, i + 1 + j));
    }
    assert(sp.skip(i + 1) =~= tp.skip(i + 1));
    assert(ts.skip(1) =~= tp.skip(i + 1));
    assert(ss[0] == sp[i] && ts[0] == tp[i]);
    assert(le_val(ss) == sp[i] + 256 * le_val(ss.skip(1)));
    assert(le_val(ts) == tp[i] + 256 * le_val(ts.skip(1)));
    assert(le_val(ss.skip(1)) == le_val(ts.skip(1)));
    assert(le_val(ss) + 1 <= le_val(ts));
    let p = pow2((8 * i) as nat) as int;
    lemma_le_val_bound(sp.take(i));
    assert(sp.take(i).len() == i);
    lemma_pow2_pos((8 * i) as nat);
    assert(le_val(sp) < p + p * le_val(ss)) by {
        assert(le_val(sp.take(i)) < p);
    }
    assert(p + p * le_val(ss) == p * (le_val(ss) + 1)) by {
        lemma_mul_is_distributive_add(p, le_val(ss) as int, 1);
    }
    assert(p * (le_val(ss) + 1) <= p * le_val(ts)) by {
        lemma_mul_inequality(le_val(ss) as int + 1, le_val(ts) as int, p);
        lemma_mul_is_commutative(p, le_val(ss) as int + 1);
        lemma_mul_is_commutative(p, le_val(ts) as int);
    }
    assert(p * le_val(ts) <= le_val(tp));
}

/// Collapsing a modulus of 2^128 onto a smaller power of two.
pub proof fn lemma_mod_pow2_collapse(x: int, w: nat)
    requires
        w <= 128,
    ensures
        (x % (pow2(128) as int)) % (pow2(w) as int) == x % (pow2(w) as int),
{
    lemma_pow2_adds(w, (128 - w) as nat);
    lemma_pow2_pos(w);
    lemma_pow2_pos((128 - w) as nat);
    vstd::arithmetic::div_mod::lemma_mod_mod(x, pow2(w) as int, pow2((128 - w) as nat) as int);
    assert(pow2(w) * pow2((128 - w) as nat) == pow2(128));
}

/// A `u128` wrapping sum is the sum modulo 2^128.
pub proof fn lemma_wrapping_add_is_mod(a: u128, b: u128)
    ensures
        vstd::wrapping::u128_specs::wrapping_add(a, b) as nat == (a + b) as nat % pow2(128),
{
    lemma_pow2_val_128();
    if a + b > u128::MAX {
        lemma_fundamental_div_mod_converse_mod(a + b, pow2(128) as int, 1, a + b - pow2(128));
    } else {
        vstd::arithmetic::div_mod::lemma_small_mod((a + b) as nat, pow2(128));
    }
}

/// A byte-vector-backed integer with a declared width of `8 * len` bits.
///
/// All operands of a binary operation are expected to share a width; a value
/// is created from a native integer (which fixes the width) or from raw bytes.
#[derive(Debug)]
pub struct Uint {
    value: Vec<u8>,
}

impl View for Uint {
    type V = Seq<u8>;

    closed spec fn view(&self) -> Seq<u8> {
        self.value@
    }
}

impl Clone for Uint {
    fn clone(&self) -> (r: Self)
        ensures
            r@ == self@,
    {
        Uint { value: self.value.clone() }
    }
}

impl Uint {
    /// The natural number this value denotes.
    pub open spec fn val(&self) -> nat {
        le_val(self@)
    }

    /// The width in bytes.
    pub open spec fn nbytes(&self) -> nat {
        self@.len()
    }

    /// The width in bits.
    pub open spec fn wbits(&self) -> nat {
        8 * self@.len()
    }

    /// Wraps raw little-endian bytes as a value.
    pub fn new(value: Vec<u8>) -> (r: Self)
        ensures
            r@ == value@,
    {
        Uint { value }
    }

    /// The all-zero value of the given bit width.
    pub fn zero(width: usize) -> (r: Self)
        ensures
            r.nbytes() == width / 8,
            r.val() == 0,
    {
        let value: Vec<u8> = vec![0u8; width / 8];
        proof {
            lemma_le_val_repeat_zero(value@);
        }
        Uint { value }
    }

    /// The value one, of the given bit width.
    pub fn one(width: usize) -> (r: Self)
        requires
            width >= 8,
        ensures
            r.nbytes() == width / 8,
            r.val() == 1,
    {
        let mut value: Vec<u8> = vec![0u8; width / 8];
        value.set(0, 1u8);
        proof {
            assert(forall|i: int| 0 <= i < value@.skip(1).len() ==> value@.skip(1)[i] == 0u8);
            lemma_le_val_repeat_zero(value@.skip(1));
        }
        Uint { value }
    }

    /// The all-ones value of the given bit width.
    pub fn ff_ff(width: usize) -> (r: Self)
        ensures
            r.nbytes() == width / 8,
            r.val() == pow2((8 * (width / 8)) as nat) - 1,
    {
        let value: Vec<u8> = vec![0xffu8; width / 8];
        proof {
            lemma_le_val_repeat_ff(value@);
        }
        Uint { value }
    }

    /// The underlying little-endian bytes.
    pub fn into_bytes(self) -> (r: Vec<u8>)
        ensures
            r@ == self@,
    {
        self.value
    }

    /// The value, reduced to the low `nbytes` bytes, as a `u128`.
    pub fn low_u128(&self, nbytes: usize) -> (r: u128)
        requires
            nbytes <= 16,
        ensures
            r as nat == self.val() % pow2((8 * nbytes) as nat),
    {
        le_low128(&self.value, nbytes)
    }

    /// A value of exactly `nbytes` bytes holding `x mod 256^nbytes`.
    pub fn from_low_u128(x: u128, nbytes: usize) -> (r: Self)
        requires
            nbytes <= 16,
        ensures
            r.nbytes() == nbytes,
            r.val() == x as nat % pow2((8 * nbytes) as nat),
    {
        Uint { value: u128_to_le_bytes(x, nbytes) }
    }

    pub fn from_u8(x: u8) -> (r: Self)
        ensures
            r.nbytes() == 1,
            r.val() == x,
    {
        proof { lemma_small_fits(x as nat, 8); }
        Self::from_low_u128(x as u128, 1)
    }

    pub fn from_u16(x: u16) -> (r: Self)
        ensures
            r.nbytes() == 2,
            r.val() == x,
    {
        proof { lemma_small_fits(x as nat, 16); }
        Self::from_low_u128(x as u128, 2)
    }

    pub fn from_u32(x: u32) -> (r: Self)
        ensures
            r.nbytes() == 4,
            r.val() == x,
    {
        proof { lemma_small_fits(x as nat, 32); }
        Self::from_low_u128(x as u128, 4)
    }

    pub fn from_u64(x: u64) -> (r: Self)
        ensures
            r.nbytes() == 8,
            r.val() == x,
    {
        proof { lemma_small_fits(x as nat, 64); }
        Self::from_low_u128(x as u128, 8)
    }

    pub fn from_u128(x: u128) -> (r: Self)
        ensures
            r.nbytes() == 16,
            r.val() == x,
    {
        proof { lemma_small_fits(x as nat, 128); }
        Self::from_low_u128(x, 16)
    }

    pub fn from_i8(x: i8) -> (r: Self)
        ensures
            r.nbytes() == 1,
            to_signed(r.val(), 8) == x,
            r.val() == if x >= 0 { x as nat } else { (x + pow2(8)) as nat },
    {
        let u: u8 = if x >= 0 { x as u8 } else { u8::MAX - ((-(x + 1)) as u8) };
        proof { lemma_pow2_halves(); }
        Self::from_u8(u)
    }

    pub fn from_i16(x: i16) -> (r: Self)
        ensures
            r.nbytes() == 2,
            to_signed(r.val(), 16) == x,
            r.val() == if x >= 0 { x as nat } else { (x + pow2(16)) as nat },
    {
        let u: u16 = if x >= 0 { x as u16 } else { u16::MAX - ((-(x + 1)) as u16) };
        proof { lemma_pow2_halves(); }
        Self::from_u16(u)
    }

    pub fn from_i32(x: i32) -> (r: Self)
        ensures
            r.nbytes() == 4,
            to_signed(r.val(), 32) == x,
            r.val() == if x >= 0 { x as nat } else { (x + pow2(32)) as nat },
    {
        let u: u32 = if x >= 0 { x as u32 } else { u32::MAX - ((-(x + 1)) as u32) };
        proof { lemma_pow2_halves(); }
        Self::from_u32(u)
    }

    pub fn from_i64(x: i64) -> (r: Self)
        ensures
            r.nbytes() == 8,
            to_signed(r.val(), 64) == x,
            r.val() == if x >= 0 { x as nat } else { (x + pow2(64)) as nat },
    {
        let u: u64 = if x >= 0 { x as u64 } else { u64::MAX - ((-(x + 1)) as u64) };
        proof { lemma_pow2_halves(); }
        Self::from_u64(u)
    }

    pub fn from_i128(x: i128) -> (r: Self)
        ensures
            r.nbytes() == 16,
            to_signed(r.val(), 128) == x,
            r.val() == if x >= 0 { x as nat } else { (x + pow2(128)) as nat },
    {
        let u: u128 = if x >= 0 { x as u128 } else { u128::MAX - ((-(x + 1)) as u128) };
        proof { lemma_pow2_halves(); }
        Self::from_u128(u)
    }

    /// Narrows (or zero-extends) to the low 8 bits.
    pub fn to_u8(&self) -> (r: u8)
        ensures
            r as nat == self.val() % pow2(8),
    {
        proof { lemma_mod_fits(self.val(), 8); }
        self.low_u128(1) as u8
    }

    pub fn to_u16(&self) -> (r: u16)
        ensures
            r as nat == self.val() % pow2(16),
    {
        proof { lemma_mod_fits(self.val(), 16); }
        self.low_u128(2) as u16
    }

    pub fn to_u32(&self) -> (r: u32)
        ensures
            r as nat == self.val() % pow2(32),
    {
        proof { lemma_mod_fits(self.val(), 32); }
        self.low_u128(4) as u32
    }

    pub fn to_u64(&self) -> (r: u64)
        ensures
            r as nat == self.val() % pow2(64),
    {
        proof { lemma_mod_fits(self.val(), 64); }
        self.low_u128(8) as u64
    }

    pub fn to_u128(&self) -> (r: u128)
        ensures
            r as nat == self.val() % pow2(128),
    {
        self.low_u128(16)
    }

    /// Narrows to 8 bits and reads them as a two's-complement integer.
    pub fn to_i8(&self) -> (r: i8)
        ensures
            r as int == to_signed(self.val() % pow2(8), 8),
    {
        let u = self.to_u8();
        proof { lemma_pow2_halves(); }
        if u < 0x80 {
            u as i8
        } else {
            -((u8::MAX - u) as i8) - 1
        }
    }

    pub fn to_i16(&self) -> (r: i16)
        ensures
            r as int == to_signed(self.val() % pow2(16), 16),
    {
        let u = self.to_u16();
        proof { lemma_pow2_halves(); }
        if u < 0x8000 {
            u as i16
        } else {
            -((u16::MAX - u) as i16) - 1
        }
    }

    pub fn to_i32(&self) -> (r: i32)
        ensures
            r as int == to_signed(self.val() % pow2(32), 32),
    {
        let u = self.to_u32();
        proof { lemma_pow2_halves(); }
        if u < 0x8000_0000 {
            u as i32
        } else {
            -((u32::MAX - u) as i32) - 1
        }
    }

    pub fn to_i64(&self) -> (r: i64)
        ensures
            r as int == to_signed(self.val() % pow2(64), 64),
    {
        let u = self.to_u64();
        proof { lemma_pow2_halves(); }
        if u < 0x8000_0000_0000_0000 {
            u as i64
        } else {
            -((u64::MAX - u) as i64) - 1
        }
    }

    pub fn to_i128(&self) -> (r: i128)
        ensures
            r as int == to_signed(self.val() % pow2(128), 128),
    {
        let u = self.to_u128();
        proof {
            lemma_pow2_halves();
            vstd::arithmetic::div_mod::lemma_mod_bound(self.val() as int, pow2(128) as int);
        }
        if u < 0x8000_0000_0000_0000_0000_0000_0000_0000 {
            u as i128
        } else {
            -((u128::MAX - u) as i128) - 1
        }
    }

    /// Drops all bytes beyond the first `len` (a byte count), keeping the low part.
    pub fn truncate(&mut self, len: usize)
        ensures
            final(self)@ == if len <= old(self)@.len() {
                old(self)@.take(len as int)
            } else {
                old(self)@
            },
    {
        self.value.truncate(len);
    }

    /// Pads with zero bytes up to `width` bits; shorter of the two stays unchanged.
    pub fn extend(&mut self, width: usize)
        ensures
            final(self)@ == if old(self)@.len() < width / 8 {
                padded(old(self)@, (width / 8) as int)
            } else {
                old(self)@
            },
            final(self).val() == old(self).val(),
    {
        self.extend_with(width, 0);
        proof {
            if old(self)@.len() < width / 8 {
                lemma_le_val_padded(old(self)@, (width / 8) as int);
                assert(self@ =~= padded(old(self)@, (width / 8) as int));
            }
        }
    }

    /// Pads with the given fill byte up to `width` bits (used to materialize
    /// all-ones results such as the division-by-zero value).
    pub fn extend_with(&mut self, width: usize, v: u8)
        ensures
            final(self)@ == old(self)@ + Seq::new(
                if old(self)@.len() < width / 8 {
                    ((width / 8) - old(self)@.len()) as nat
                } else {
                    0
                },
                |i: int| v,
            ),
    {
        let target = width / 8;
        let ghost orig = self@;
        proof {
            assert(self@.take(orig.len() as int) =~= orig);
        }
        while self.value.len() < target
            invariant
                orig.len() <= self@.len(),
                self@.take(orig.len() as int) == orig,
                forall|j: int| orig.len() <= j < self@.len() ==> self@[j] == v,
                orig.len() < target ==> self@.len() <= target,
                orig.len() >= target ==> self@ == orig,
            decreases target - self.value.len(),
        {
            self.value.push(v);
            proof {
                assert(self@.take(orig.len() as int) =~= orig);
            }
        }
        proof {
            assert(self@ =~= old(self)@ + Seq::new(
                if old(self)@.len() < width / 8 {
                    ((width / 8) - old(self)@.len()) as nat
                } else {
                    0
                },
                |j: int| v,
            ));
        }
    }

    /// Reads the low `bits` of this value as signed and re-encodes the same
    /// integer in `width` bits.  The receiver itself is only zero-padded.
    pub fn sextend(&mut self, width: usize, bits: usize) -> (r: Self)
        requires
            width == 32 || width == 64 || width == 128,
            1 <= bits <= width,
        ensures
            r.nbytes() == width / 8,
            r.val() == sext_val(old(self).val(), bits as nat, width as nat),
            final(self).val() == old(self).val(),
    {
        self.extend(width);
        let m128 = le_low128(&self.value, 16);
        let m = crate::alu::mod_pow2_u128(m128, bits);
        proof {
            lemma_mod_pow2_collapse(old(self).val() as int, bits as nat);
        }
        let r128 = crate::alu::sext_u128(m, bits, width);
        proof {
            lemma_pow2_pos(width as nat);
            vstd::arithmetic::div_mod::lemma_small_mod(r128 as nat, pow2(width as nat));
            // the reduced operand and the original agree modulo 2^bits
            lemma_pow2_pos(bits as nat);
            vstd::arithmetic::div_mod::lemma_mod_bound(
                old(self).val() as int,
                pow2(bits as nat) as int,
            );
            vstd::arithmetic::div_mod::lemma_small_mod(
                (old(self).val() % pow2(bits as nat)) as nat,
                pow2(bits as nat),
            );
            assert(8 * (width as nat / 8) == width as nat);
        }
        Uint::from_low_u128(r128, width / 8)
    }
}

impl Uint {
    /// Width-respecting wrapping sum: `(a + b) mod 2^w`.
    pub fn wrapping_add(&self, rhs: &Uint) -> (r: Self)
        requires
            self.nbytes() == 4 || self.nbytes() == 8 || self.nbytes() == 16,
        ensures
            r.nbytes() == self.nbytes(),
            r.val() == (self.val() + rhs.val()) % pow2(self.wbits()),
    {
        let n = self.value.len();
        let a = le_low128(&self.value, n);
        let b = le_low128(&rhs.value, n);
        let c = a.wrapping_add(b);
        proof {
            lemma_wrapping_add_is_mod(a, b);
            lemma_mod_pow2_collapse((a + b) as int, (8 * n) as nat);
            lemma_pow2_pos((8 * n) as nat);
            vstd::arithmetic::div_mod::lemma_add_mod_noop(
                self.val() as int,
                rhs.val() as int,
                pow2((8 * n) as nat) as int,
            );
        }
        Self::from_low_u128(c, n)
    }

    /// Bitwise conjunction of equal-width values.
    pub fn bitand(&self, rhs: &Uint) -> (r: Self)
        requires
            self.nbytes() == 4 || self.nbytes() == 8 || self.nbytes() == 16,
        ensures
            r.nbytes() == self.nbytes(),
            r.val() == (self.val() as u128 & (rhs.val() % pow2(self.wbits())) as u128) as nat,
    {
        let n = self.value.len();
        let a = le_low128(&self.value, n);
        let b = le_low128(&rhs.value, n);
        let c = a & b;
        proof {
            lemma_own_val_exact(self);
            lemma_bitop_bound(a, b, (8 * n) as nat);
            vstd::arithmetic::div_mod::lemma_small_mod(c as nat, pow2((8 * n) as nat));
        }
        Self::from_low_u128(c, n)
    }

    /// Bitwise disjunction of equal-width values.
    pub fn bitor(&self, rhs: &Uint) -> (r: Self)
        requires
            self.nbytes() == 4 || self.nbytes() == 8 || self.nbytes() == 16,
        ensures
            r.nbytes() == self.nbytes(),
            r.val() == (self.val() as u128 | (rhs.val() % pow2(self.wbits())) as u128) as nat,
    {
        let n = self.value.len();
        let a = le_low128(&self.value, n);
        let b = le_low128(&rhs.value, n);
        let c = a | b;
        proof {
            lemma_own_val_exact(self);
            lemma_bitop_bound(a, b, (8 * n) as nat);
            vstd::arithmetic::div_mod::lemma_small_mod(c as nat, pow2((8 * n) as nat));
        }
        Self::from_low_u128(c, n)
    }

    /// Bitwise exclusive or of equal-width values.
    pub fn bitxor(&self, rhs: &Uint) -> (r: Self)
        requires
            self.nbytes() == 4 || self.nbytes() == 8 || self.nbytes() == 16,
        ensures
            r.nbytes() == self.nbytes(),
            r.val() == (self.val() as u128 ^ (rhs.val() % pow2(self.wbits())) as u128) as nat,
    {
        let n = self.value.len();
        let a = le_low128(&self.value, n);
        let b = le_low128(&rhs.value, n);
        let c = a ^ b;
        proof {
            lemma_own_val_exact(self);
            lemma_bitop_bound(a, b, (8 * n) as nat);
            vstd::arithmetic::div_mod::lemma_small_mod(c as nat, pow2((8 * n) as nat));
        }
        Self::from_low_u128(c, n)
    }

    /// Bitwise complement within the value's width: `2^w - 1 - a`.
    pub fn not(&self) -> (r: Self)
        requires
            self.nbytes() == 4 || self.nbytes() == 8 || self.nbytes() == 16,
        ensures
            r.nbytes() == self.nbytes(),
            r.val() == pow2(self.wbits()) - 1 - self.val(),
    {
        let n = self.value.len();
        let a = le_low128(&self.value, n);
        let c = !a;
        proof {
            lemma_own_val_exact(self);
            let w = (8 * n) as nat;
            assert(!a == u128::MAX - a) by (bit_vector);
            lemma_pow2_val_128();
            lemma_pow2_pos(w);
            lemma_pow2_adds(w, (128 - w) as nat);
            // 2^128 - 1 - a lies (2^w * (2^(128-w) - 1)) above 2^w - 1 - a
            lemma_mul_is_distributive_add(
                pow2(w) as int,
                pow2((128 - w) as nat) as int,
                -1,
            );
            vstd::arithmetic::div_mod::lemma_mod_multiples_vanish(
                pow2((128 - w) as nat) - 1,
                pow2(w) - 1 - self.val(),
                pow2(w) as int,
            );
            vstd::arithmetic::div_mod::lemma_small_mod(
                (pow2(w) - 1 - self.val()) as nat,
                pow2(w),
            );
        }
        Self::from_low_u128(c, n)
    }

    /// Logical left shift; the shift count is the low 32 bits of `rhs`,
    /// reduced modulo the width.
    pub fn shl(&self, rhs: &Uint) -> (r: Self)
        requires
            self.nbytes() == 4 || self.nbytes() == 8 || self.nbytes() == 16,
        ensures
            r.nbytes() == self.nbytes(),
            r.val() == shl_val(self.val(), rhs.val() % pow2(32), self.wbits()),
    {
        let n = self.value.len();
        let w = 8 * n;
        let a = le_low128(&self.value, n);
        let sh32 = le_low128(&rhs.value, 4);
        let sh = (sh32 % (w as u128)) as usize;
        proof {
            lemma_own_val_exact(self);
            vstd::arithmetic::div_mod::lemma_mod_bound(sh32 as int, w as int);
        }
        let p = pow2_u128(sh);
        let c = a.wrapping_mul(p);
        proof {
            lemma_pow2_val_128();
            assert(c as nat == (a * p) as nat % pow2(128));
            lemma_mod_pow2_collapse((a * p) as int, (8 * n) as nat);
            lemma_pow2_pos((8 * n) as nat);
            vstd::arithmetic::div_mod::lemma_mul_mod_noop_left(
                self.val() as int,
                p as int,
                pow2((8 * n) as nat) as int,
            );
        }
        Self::from_low_u128(c, n)
    }

    /// Logical right shift; the shift count is the low 32 bits of `rhs`,
    /// reduced modulo the width.
    pub fn shr(&self, rhs: &Uint) -> (r: Self)
        requires
            self.nbytes() == 4 || self.nbytes() == 8 || self.nbytes() == 16,
        ensures
            r.nbytes() == self.nbytes(),
            r.val() == shr_val(self.val(), rhs.val() % pow2(32), self.wbits()),
    {
        let n = self.value.len();
        let w = 8 * n;
        let a = le_low128(&self.value, n);
        let sh32 = le_low128(&rhs.value, 4);
        let sh = (sh32 % (w as u128)) as usize;
        proof {
            lemma_own_val_exact(self);
            vstd::arithmetic::div_mod::lemma_mod_bound(sh32 as int, w as int);
        }
        let p = pow2_u128(sh);
        proof {
            lemma_pow2_pos(sh as nat);
        }
        let c = a / p;
        proof {
            lemma_pow2_pos((8 * n) as nat);
            vstd::arithmetic::div_mod::lemma_div_nonincreasing(a as int, p as int);
            vstd::arithmetic::div_mod::lemma_small_mod(c as nat, pow2((8 * n) as nat));
        }
        Self::from_low_u128(c, n)
    }
}

/// Left-shift semantics on values: `(a * 2^(sh mod w)) mod 2^w`.
pub open spec fn shl_val(a: nat, sh: nat, w: nat) -> nat
    recommends
        w >= 1,
{
    (a * pow2(sh % w)) % pow2(w)
}

/// Logical right-shift semantics on values: `(a mod 2^w) / 2^(sh mod w)`.
pub open spec fn shr_val(a: nat, sh: nat, w: nat) -> nat
    recommends
        w >= 1,
{
    (a % pow2(w)) / pow2(sh % w)
}

/// A whole-width reduction of a value to its own width is the value itself.
pub proof fn lemma_own_val_exact(u: &Uint)
    ensures
        u.val() % pow2(u.wbits()) == u.val(),
        u.val() < pow2(u.wbits()),
{
    lemma_le_val_bound(u@);
    vstd::arithmetic::div_mod::lemma_small_mod(u.val(), pow2(u.wbits()));
}

/// The little-endian byte sequence of length `len` denoting `n`.
pub open spec fn le_bytes(n: nat, len: nat) -> Seq<u8> {
    Seq::new(len, |i: int| ((n / pow2((8 * i) as nat)) % 256) as u8)
}

/// A byte sequence of the right length and value is exactly `le_bytes`.
pub proof fn lemma_le_bytes_exact(s: Seq<u8>, n: nat, len: nat)
    requires
        s.len() == len,
        le_val(s) == n,
    ensures
        s == le_bytes(n, len),
{
    assert forall|i: int| 0 <= i < len implies s[i] == le_bytes(n, len)[i] by {
        lemma_le_val_byte_at(s, i);
    }
    assert(s =~= le_bytes(n, len));
}

/// Sign extension fills every bit position above the source width with the
/// source's top bit: the extended high part is all ones exactly when the
/// top bit is set and all zeros when it is clear, and the low part is kept.
pub proof fn lemma_sext_fills(n: nat, bits: nat, width: nat)
    requires
        1 <= bits <= width,
    ensures
        n % pow2(bits) >= pow2((bits - 1) as nat) ==> sext_val(n, bits, width) / pow2(bits) == pow2(
            (width - bits) as nat,
        ) - 1,
        n % pow2(bits) < pow2((bits - 1) as nat) ==> sext_val(n, bits, width) / pow2(bits) == 0,
        sext_val(n, bits, width) % pow2(bits) == n % pow2(bits),
{
    lemma_pow2_pos(bits);
    lemma_pow2_pos((bits - 1) as nat);
    lemma_pow2_pos((width - bits) as nat);
    lemma_pow2_adds(bits, (width - bits) as nat);
    let m = n % pow2(bits);
    vstd::arithmetic::div_mod::lemma_mod_bound(n as int, pow2(bits) as int);
    if bits < width {
        lemma_pow2_strictly_increases(bits, width);
    }
    if m >= pow2((bits - 1) as nat) {
        let k = (pow2((width - bits) as nat) - 1) as int;
        assert(sext_val(n, bits, width) == m + pow2(width) - pow2(bits));
        assert(pow2(width) - pow2(bits) == pow2(bits) * k) by {
            lemma_mul_is_distributive_add(pow2(bits) as int, pow2((width - bits) as nat) as int, -1);
        }
        vstd::arithmetic::div_mod::lemma_fundamental_div_mod_converse_div(
            m + pow2(bits) * k,
            pow2(bits) as int,
            k,
            m as int,
        );
        vstd::arithmetic::div_mod::lemma_fundamental_div_mod_converse_mod(
            m + pow2(bits) * k,
            pow2(bits) as int,
            k,
            m as int,
        );
    } else {
        assert(sext_val(n, bits, width) == m);
        vstd::arithmetic::div_mod::lemma_basic_div(m as int, pow2(bits) as int);
        vstd::arithmetic::div_mod::lemma_small_mod(m, pow2(bits));
    }
}

/// A value created from a `w`-bit native integer reads back unchanged: the
/// constructors make `val` the integer itself and a width-sized vector, and
/// the narrowing readers reduce modulo 2^w, which such a value survives.
pub proof fn lemma_native_round_trip(u: &Uint, x: nat, w: nat)
    requires
        w == 8 || w == 16 || w == 32 || w == 64 || w == 128,
        x < pow2(w),
        u.val() == x,
        u.nbytes() == w / 8,
    ensures
        u.val() % pow2(w) == x,
{
    lemma_pow2_pos(w);
    vstd::arithmetic::div_mod::lemma_small_mod(x, pow2(w));
}

/// A value of at most 16 bytes is unchanged by reduction modulo 2^128.
pub proof fn lemma_val_u128_exact(u: &Uint)
    requires
        u.nbytes() <= 16,
    ensures
        u.val() % pow2(128) == u.val(),
        u.val() < pow2(128),
{
    lemma_own_val_exact(u);
    if u.wbits() < 128 {
        lemma_pow2_strictly_increases(u.wbits(), 128);
    }
    lemma_pow2_pos(128);
    vstd::arithmetic::div_mod::lemma_small_mod(u.val(), pow2(128));
}

/// A masked value is bounded by both operands.
pub proof fn lemma_u128_and_le(a: u128, b: u128)
    ensures
        (a & b) <= a,
        (a & b) <= b,
{
    assert((a & b) <= a && (a & b) <= b) by (bit_vector);
}

/// Bitwise combinations of `w`-bit values stay below 2^w.
pub proof fn lemma_bitop_bound(a: u128, b: u128, w: nat)
    requires
        w == 32 || w == 64 || w == 128,
        a < pow2(w),
        b < pow2(w),
    ensures
        (a & b) < pow2(w),
        (a | b) < pow2(w),
        (a ^ b) < pow2(w),
{
    lemma_pow2_halves();
    if w == 32 {
        assert((a < 0x100000000 && b < 0x100000000) ==> ((a & b) < 0x100000000 && (a | b)
            < 0x100000000 && (a ^ b) < 0x100000000)) by (bit_vector);
    } else if w == 64 {
        assert((a < 0x10000000000000000 && b < 0x10000000000000000) ==> ((a & b)
            < 0x10000000000000000 && (a | b) < 0x10000000000000000 && (a ^ b)
            < 0x10000000000000000)) by (bit_vector);
    }
}

impl PartialEq for Uint {
    /// Values compare by their denoted numbers; operands are expected to
    /// share a width, and a shorter operand reads as zero-extended.
    fn eq(&self, other: &Self) -> (r: bool) {
        matches!(self.partial_cmp(other), Some(core::cmp::Ordering::Equal))
    }
}

impl vstd::std_specs::cmp::PartialEqSpecImpl for Uint {
    open spec fn obeys_eq_spec() -> bool {
        true
    }

    open spec fn eq_spec(&self, other: &Uint) -> bool {
        self.val() == other.val()
    }
}

impl PartialOrd for Uint {
    /// Unsigned comparison by denoted number, most significant byte first.
    fn partial_cmp(&self, other: &Self) -> (r: Option<core::cmp::Ordering>) {
        let la = self.value.len();
        let lb = other.value.len();
        let n = if la < lb { lb } else { la };
        let mut i: usize = n;
        while i > 0
            invariant
                i <= n,
                la == self@.len(),
                lb == other@.len(),
                n == if la < lb { lb } else { la },
                forall|j: int| i <= j < n ==> byte_at(self@, j) == byte_at(other@, j),
            decreases i,
        {
            i = i - 1;
            let ba: u8 = if i < la {
                self.value[i]
            } else {
                0
            };
            let bb: u8 = if i < lb {
                other.value[i]
            } else {
                0
            };
            if ba < bb {
                proof {
                    lemma_le_val_msb_lt(self@, other@, i as int, n as int);
                }
                return Some(core::cmp::Ordering::Less);
            }
            if ba > bb {
                proof {
                    lemma_le_val_msb_lt(other@, self@, i as int, n as int);
                }
                return Some(core::cmp::Ordering::Greater);
            }
        }
        proof {
            lemma_le_val_padded(self@, n as int);
            lemma_le_val_padded(other@, n as int);
            assert forall|j: int| 0 <= j < n implies #[trigger] padded(self@, n as int)[j]
                == padded(other@, n as int)[j] by {
                assert(byte_at(self@, j) == byte_at(other@, j));
            }
            assert(padded(self@, n as int) =~= padded(other@, n as int));
        }
        Some(core::cmp::Ordering::Equal)
    }
}

impl vstd::std_specs::cmp::PartialOrdSpecImpl for Uint {
    open spec fn obeys_partial_cmp_spec() -> bool {
        true
    }

    open spec fn partial_cmp_spec(&self, other: &Uint) -> Option<core::cmp::Ordering> {
        if self.val() < other.val() {
            Some(core::cmp::Ordering::Less)
        } else if self.val() == other.val() {
            Some(core::cmp::Ordering::Equal)
        } else {
            Some(core::cmp::Ordering::Greater)
        }
    }
}

/// The sign-bit thresholds 2^(w-1) for the five native widths.
pub proof fn lemma_pow2_halves()
    ensures
        pow2(7) == 0x80,
        pow2(15) == 0x8000,
        pow2(31) == 0x80000000,
        pow2(63) == 0x8000000000000000,
        pow2(127) == 0x80000000000000000000000000000000,
        pow2(8) == 0x100,
        pow2(16) == 0x10000,
        pow2(32) == 0x100000000,
        pow2(64) == 0x10000000000000000,
        pow2(128) == 0x100000000000000000000000000000000,
{
    lemma2_to64();
    lemma2_to64_rest();
    lemma_pow2_adds(63, 64);
    lemma_pow2_adds(64, 64);
}

/// `x < 2^w` when `x` came from a `w`-bit integer type.
proof fn lemma_small_fits(x: nat, w: nat)
    requires
        w == 8 ==> x < 0x100,
        w == 16 ==> x < 0x10000,
        w == 32 ==> x < 0x100000000,
        w == 64 ==> x < 0x10000000000000000,
        w == 128 ==> x < 0x100000000000000000000000000000000,
        w == 8 || w == 16 || w == 32 || w == 64 || w == 128,
    ensures
        x % pow2(w) == x,
{
    lemma2_to64();
    lemma_pow2_val_128();
    vstd::arithmetic::div_mod::lemma_small_mod(x, pow2(w));
}

/// A value reduced modulo 2^w fits the `w`-bit unsigned type.
proof fn lemma_mod_fits(x: nat, w: nat)
    requires
        w == 8 || w == 16 || w == 32 || w == 64,
    ensures
        x % pow2(w) < pow2(w),
        pow2(8) == 0x100,
        pow2(16) == 0x10000,
        pow2(32) == 0x100000000,
        pow2(64) == 0x10000000000000000,
{
    lemma2_to64();
    lemma_pow2_pos(w);
    vstd::arithmetic::div_mod::lemma_mod_bound(x as int, pow2(w) as int);
}

} // verus!
