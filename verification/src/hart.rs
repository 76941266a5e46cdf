//! The RISC-V hart: architectural state, construction from an
//! architecture-description string, and the fetch-decode-execute step.

use vstd::prelude::*;

verus! {

use vstd::arithmetic::power2::{pow2, lemma_pow2_pos, lemma2_to64};
use vstd::arithmetic::div_mod::{lemma_small_mod, lemma_mod_bound, lemma_mod_multiples_vanish,
    lemma_add_mod_noop_right};
use vstd::string::StrSliceExecFns;
use crate::atomic::AtomicCtx;
use crate::csr::{Csr, MISA};
use crate::exception::{RvException, BusException};
use crate::ext::{RvExtensions, EXT_A, EXT_C, EXT_D, EXT_E, EXT_F, EXT_H, EXT_I, EXT_M, EXT_Q,
    EXT_S, EXT_U};
use crate::instr::{Instr, classify_spec};
use crate::registers::RvRegisters;
use crate::bus::{Bus, bus_inv, bus_fetch_spec};
use crate::uint::{Uint, le_val, lemma_pow2_halves, lemma_val_u128_exact, lemma_own_val_exact};
use crate::alu::{enc, add_mod};

/// The length of the leading token of the description (up to the first `_`).
pub open spec fn tok_len(s: Seq<char>) -> nat
    decreases s.len(),
{
    if s.len() == 0 || s[0] == '_' {
        0
    } else {
        1 + tok_len(s.skip(1))
    }
}

/// The register width named by the description's leading token.
pub open spec fn width_of(s: Seq<char>) -> nat {
    let t = s.take(tok_len(s) as int);
    if t.len() >= 4 && t[0] == 'r' && t[1] == 'v' && t[2] == '3' && t[3] == '2' {
        32
    } else if t.len() >= 4 && t[0] == 'r' && t[1] == 'v' && t[2] == '6' && t[3] == '4' {
        64
    } else if t.len() >= 5 && t[0] == 'r' && t[1] == 'v' && t[2] == '1' && t[3] == '2' && t[4]
        == '8' {
        128
    } else {
        0
    }
}

/// True when the leading token names the single-letter extension `c`.
pub open spec fn tok_has(s: Seq<char>, c: char) -> bool {
    exists|i: int| 0 <= i < tok_len(s) && s[i] == c
}

/// True when `t` occurs in `s` as a contiguous substring.
pub open spec fn has_substr(s: Seq<char>, t: Seq<char>) -> bool {
    exists|i: int| 0 <= i <= s.len() - t.len() && #[trigger] s.subrange(i, i + t.len()) == t
}

/// A well-formed architecture description: a supported width token, and the
/// floating-point and counter extensions only together with Zicsr.
pub open spec fn valid_arch(s: Seq<char>) -> bool {
    &&& width_of(s) != 0
    &&& tok_has(s, 'f') ==> has_substr(s, "zicsr"@)
    &&& has_substr(s, "zicntr"@) ==> has_substr(s, "zicsr"@)
    &&& has_substr(s, "zihpm"@) ==> has_substr(s, "zicsr"@)
}

/// The extension set selected by a description string.
pub open spec fn ext_of(s: Seq<char>) -> RvExtensions {
    let i = tok_has(s, 'i');
    let m = tok_has(s, 'm');
    let f = tok_has(s, 'f');
    let d = f && tok_has(s, 'd');
    RvExtensions {
        i,
        e: !i,
        m,
        f,
        d,
        q: d && tok_has(s, 'q'),
        s: tok_has(s, 's'),
        h: tok_has(s, 'h'),
        u: tok_has(s, 'u'),
        c: tok_has(s, 'c'),
        zalrsc: tok_has(s, 'a') || has_substr(s, "zalrsc"@),
        zamo: tok_has(s, 'a') || has_substr(s, "zamo"@),
        zacas: tok_has(s, 'a') || has_substr(s, "zacas"@),
        zicsr: has_substr(s, "zicsr"@),
        zifencei: has_substr(s, "zifencei"@),
        zmmul: m && has_substr(s, "zmmul"@),
        zicntr: has_substr(s, "zicntr"@),
        zihpm: has_substr(s, "zihpm"@),
    }
}

/// The MISA bit mask reported for an extension set.
pub open spec fn misa_of(s: Seq<char>) -> u32 {
    let e = ext_of(s);
    (if e.i {
        EXT_I
    } else {
        EXT_E
    }) | (if e.m {
        EXT_M
    } else {
        0
    }) | (if tok_has(s, 'a') {
        EXT_A
    } else {
        0
    }) | (if e.h {
        EXT_H
    } else {
        0
    }) | (if e.c {
        EXT_C
    } else {
        0
    }) | (if e.s {
        EXT_S
    } else {
        0
    }) | (if e.u {
        EXT_U
    } else {
        0
    }) | (if e.f {
        EXT_F
    } else {
        0
    }) | (if e.d {
        EXT_D
    } else {
        0
    }) | (if e.q {
        EXT_Q
    } else {
        0
    })
}

/// Computes the leading token's length.
fn tok_len_calc(s: &str) -> (r: usize)
    ensures
        r == tok_len(s@),
        r <= s@.len(),
{
    let n = s.unicode_len();
    let mut i: usize = 0;
    proof {
        assert(s@.skip(0) =~= s@);
    }
    while i < n
        invariant
            i <= n == s@.len(),
            tok_len(s@) == i + tok_len(s@.skip(i as int)),
        decreases n - i,
    {
        if s.get_char(i) == '_' {
            proof {
                assert(tok_len(s@.skip(i as int)) == 0);
            }
            return i;
        }
        proof {
            assert(s@.skip(i as int).skip(1) =~= s@.skip(i as int + 1));
            assert(s@.skip(i as int)[0] == s@[i as int]);
        }
        i = i + 1;
    }
    proof {
        assert(s@.skip(i as int).len() == 0);
    }
    n
}

/// Scans the leading token for a single-letter extension flag.
fn tok_has_calc(s: &str, tok: usize, c: char) -> (r: bool)
    requires
        tok == tok_len(s@),
        tok <= s@.len(),
    ensures
        r == tok_has(s@, c),
{
    let mut i: usize = 0;
    while i < tok
        invariant
            i <= tok <= s@.len(),
            tok == tok_len(s@),
            forall|j: int| 0 <= j < i ==> s@[j] != c,
        decreases tok - i,
    {
        if s.get_char(i) == c {
            return true;
        }
        i = i + 1;
    }
    false
}

/// Searches for `t` as a substring of `s`.
fn has_substr_calc(s: &str, t: &str) -> (r: bool)
    ensures
        r == has_substr(s@, t@),
{
    let n = s.unicode_len();
    let m = t.unicode_len();
    if m > n {
        proof {
            assert forall|i: int| !(0 <= i <= s@.len() - t@.len() && #[trigger] s@.subrange(
                i,
                i + t@.len(),
            ) == t@) by {}
        }
        return false;
    }
    let mut i: usize = 0;
    while i <= n - m
        invariant
            m <= n == s@.len(),
            m == t@.len(),
            i <= n - m + 1,
            forall|k: int| 0 <= k < i ==> #[trigger] s@.subrange(k, k + t@.len()) != t@,
        decreases n + 1 - i,
    {
        let mut j: usize = 0;
        let mut hit = true;
        while j < m
            invariant
                m <= n == s@.len(),
                m == t@.len(),
                i + m <= n,
                j <= m,
                hit == (forall|l: int| 0 <= l < j ==> s@[i + l] == #[trigger] t@[l]),
            decreases m - j,
        {
            if s.get_char(i + j) != t.get_char(j) {
                hit = false;
                proof {
                    assert(!(forall|l: int| 0 <= l < j + 1 ==> s@[i + l] == #[trigger] t@[l]));
                }
                j = m;
            } else {
                proof {
                    if hit {
                        assert(forall|l: int| 0 <= l < j + 1 ==> s@[i + l] == #[trigger] t@[l]);
                    }
                }
                j = j + 1;
            }
        }
        if hit {
            proof {
                assert(s@.subrange(i as int, i + t@.len()) =~= t@);
            }
            return true;
        }
        proof {
            if s@.subrange(i as int, i + t@.len()) == t@ {
                assert(forall|l: int| 0 <= l < m ==> s@.subrange(i as int, i + t@.len())[l]
                    == #[trigger] t@[l]);
                assert(forall|l: int| 0 <= l < m ==> s@[i + l] == #[trigger] t@[l]);
                assert(false);
            }
        }
        i = i + 1;
    }
    proof {
        assert forall|k: int| !(0 <= k <= s@.len() - t@.len() && #[trigger] s@.subrange(
            k,
            k + t@.len(),
        ) == t@) by {
            if 0 <= k <= s@.len() - t@.len() {
                assert(k < i);
            }
        }
    }
    false
}

/// Checks a description string: a driver calls this before building the
/// system, since construction requires a well-formed description.
pub fn arch_is_valid(arch: &str) -> (r: bool)
    ensures
        r == valid_arch(arch@),
{
    let tok = tok_len_calc(arch);
    let w = parse_width(arch, tok);
    if w == 0 {
        return false;
    }
    let zicsr = has_substr_calc(arch, "zicsr");
    if tok_has_calc(arch, tok, 'f') && !zicsr {
        return false;
    }
    if has_substr_calc(arch, "zicntr") && !zicsr {
        return false;
    }
    if has_substr_calc(arch, "zihpm") && !zicsr {
        return false;
    }
    true
}

/// Reads the width named by the leading token.
fn parse_width(s: &str, tok: usize) -> (r: usize)
    requires
        tok == tok_len(s@),
        tok <= s@.len(),
    ensures
        r == width_of(s@),
{
    proof {
        assert(s@.take(tok as int).len() == tok);
        assert(forall|j: int| 0 <= j < tok ==> s@.take(tok as int)[j] == s@[j]);
    }
    if tok >= 4 && s.get_char(0) == 'r' && s.get_char(1) == 'v' && s.get_char(2) == '3'
        && s.get_char(3) == '2' {
        32
    } else if tok >= 4 && s.get_char(0) == 'r' && s.get_char(1) == 'v' && s.get_char(2) == '6'
        && s.get_char(3) == '4' {
        64
    } else if tok >= 5 && s.get_char(0) == 'r' && s.get_char(1) == 'v' && s.get_char(2) == '1'
        && s.get_char(3) == '2' && s.get_char(4) == '8' {
        128
    } else {
        0
    }
}

/// Reads the full extension set out of a description string.
fn parse_ext(arch: &str, tok: usize) -> (e: RvExtensions)
    requires
        tok == tok_len(arch@),
        tok <= arch@.len(),
    ensures
        e == ext_of(arch@),
{
    let has_i = tok_has_calc(arch, tok, 'i');
    let has_m = tok_has_calc(arch, tok, 'm');
    let has_a = tok_has_calc(arch, tok, 'a');
    let has_f = tok_has_calc(arch, tok, 'f');
    let has_d = has_f && tok_has_calc(arch, tok, 'd');
    let has_q = has_d && tok_has_calc(arch, tok, 'q');
    let mut ext = RvExtensions::none();
    ext.i = has_i;
    ext.e = !has_i;
    ext.m = has_m;
    ext.f = has_f;
    ext.d = has_d;
    ext.q = has_q;
    ext.s = tok_has_calc(arch, tok, 's');
    ext.h = tok_has_calc(arch, tok, 'h');
    ext.u = tok_has_calc(arch, tok, 'u');
    ext.c = tok_has_calc(arch, tok, 'c');
    ext.zalrsc = has_a || has_substr_calc(arch, "zalrsc");
    ext.zamo = has_a || has_substr_calc(arch, "zamo");
    ext.zacas = has_a || has_substr_calc(arch, "zacas");
    ext.zicsr = has_substr_calc(arch, "zicsr");
    ext.zifencei = has_substr_calc(arch, "zifencei");
    ext.zmmul = has_m && has_substr_calc(arch, "zmmul");
    ext.zicntr = has_substr_calc(arch, "zicntr");
    ext.zihpm = has_substr_calc(arch, "zihpm");
    ext
}

/// Assembles the MISA extension mask for a description string.
fn misa_calc(arch: &str, tok: usize, ext: &RvExtensions) -> (m: u32)
    requires
        tok == tok_len(arch@),
        tok <= arch@.len(),
        *ext == ext_of(arch@),
    ensures
        m == misa_of(arch@),
{
    let has_a = tok_has_calc(arch, tok, 'a');
    let mut misa: u32 = if ext.i {
        EXT_I
    } else {
        EXT_E
    };
    misa = misa | (if ext.m {
        EXT_M
    } else {
        0
    });
    misa = misa | (if has_a {
        EXT_A
    } else {
        0
    });
    misa = misa | (if ext.h {
        EXT_H
    } else {
        0
    });
    misa = misa | (if ext.c {
        EXT_C
    } else {
        0
    });
    misa = misa | (if ext.s {
        EXT_S
    } else {
        0
    });
    misa = misa | (if ext.u {
        EXT_U
    } else {
        0
    });
    misa = misa | (if ext.f {
        EXT_F
    } else {
        0
    });
    misa = misa | (if ext.d {
        EXT_D
    } else {
        0
    });
    misa = misa | (if ext.q {
        EXT_Q
    } else {
        0
    });
    misa
}

/// One RISC-V hardware thread: program counter, register file, CSR bank,
/// extension set and the atomic-reservation context.
///
/// (The step postcondition [`step_post`] is defined below the type.)
#[derive(Debug)]
pub struct Rv {
    pub xlen: usize,
    pub flen: usize,
    pub pc: Uint,
    pub x: RvRegisters,
    pub csr: Option<Csr>,
    pub extensions: RvExtensions,
    pub atomic_ctx: Option<AtomicCtx>,
}

impl Rv {
    /// Structural well-formedness of the hart's architectural state.
    pub open spec fn wf(&self) -> bool {
        &&& self.x.wf()
        &&& self.xlen == self.x.xlen
        &&& self.pc.nbytes() == self.xlen / 8
        &&& (self.csr matches Some(c) ==> c.wf() && c.width == self.xlen)
        &&& (self.csr is Some <==> self.extensions.zicsr)
        &&& (self.atomic_ctx is Some <==> (self.extensions.zalrsc || self.extensions.zamo
            || self.extensions.zacas))
    }

    /// Builds a hart from a well-formed architecture description: width and
    /// register count from the leading token, extension flags as parsed, all
    /// registers zero, and MISA reporting the extension mask when Zicsr is
    /// present.
    pub fn new(arch: &str) -> (r: Rv)
        requires
            valid_arch(arch@),
        ensures
            r.wf(),
            r.xlen == width_of(arch@),
            r.extensions == ext_of(arch@),
            r.pc.val() == 0,
            forall|i: int| 0 <= i < r.x.count ==> r.x.val(i) == 0,
            r.x.count == if ext_of(arch@).i {
                32int
            } else {
                16int
            },
            r.flen == (if ext_of(arch@).q {
                128int
            } else if ext_of(arch@).d {
                64int
            } else if ext_of(arch@).f {
                32int
            } else {
                0int
            }),
            r.atomic_ctx matches Some(c) ==> !c.valid,
            r.csr matches Some(c) ==> c.val(MISA as int) == misa_of(arch@) && (forall|a: int|
                0 <= a < 4096 && a != MISA ==> c.val(a) == 0),
    {
        let tok = tok_len_calc(arch);
        let xlen = parse_width(arch, tok);
        let ext = parse_ext(arch, tok);
        let count: usize = if ext.i {
            32
        } else {
            16
        };
        let registers = RvRegisters::new(xlen, count);
        let misa = misa_calc(arch, tok, &ext);
        let flen: usize = if ext.q {
            128
        } else if ext.d {
            64
        } else if ext.f {
            32
        } else {
            0
        };
        let csr = if ext.zicsr {
            let mut c = Csr::new(xlen, &ext);
            let mut mv = Uint::from_u32(misa);
            mv.extend(xlen);
            proof {
                lemma_pow2_halves();
                crate::uint::lemma_le_val_bound(mv@);
            }
            c.set(MISA, &mv);
            Some(c)
        } else {
            None
        };
        let atomic_ctx = if ext.zalrsc || ext.zamo || ext.zacas {
            Some(AtomicCtx::new(xlen))
        } else {
            None
        };
        Rv {
            xlen,
            flen,
            pc: Uint::zero(xlen),
            x: registers,
            csr,
            extensions: ext,
            atomic_ctx,
        }
    }

    /// Resets the program counter to the low `xlen` bits of `addr`.
    pub fn set_pc(&mut self, addr: u128)
        requires
            old(self).wf(),
        ensures
            final(self).wf(),
            final(self).pc.val() == addr as nat % pow2(old(self).xlen as nat),
            final(self).x == old(self).x,
            final(self).csr == old(self).csr,
            final(self).extensions == old(self).extensions,
            final(self).atomic_ctx == old(self).atomic_ctx,
            final(self).xlen == old(self).xlen,
    {
        self.pc = Uint::from_low_u128(addr, self.xlen / 8);
        proof {
            assert(8 * (old(self).xlen as nat / 8) == old(self).xlen as nat);
        }
    }

    /// One fetch-decode-execute cycle.  Register 0 reads as zero after every
    /// step, whatever the instruction wrote; a fetch fault is reported as the
    /// matching instruction-level exception with the hart otherwise unchanged.
    pub fn step(&mut self, bus: &mut Bus) -> (r: Option<RvException>)
        requires
            old(self).wf(),
            bus_inv(old(bus)@),
        ensures
            final(self).wf(),
            bus_inv(final(bus)@),
            Self::step_post(old(self), final(self), old(bus)@, final(bus)@, r),
    {
        let w = self.xlen;
        proof {
            lemma_pow2_halves();
            lemma_mod_bound(old(self).pc.val() as int, pow2(64) as int);
        }
        let pc64 = self.pc.low_u128(8) as u64;
        let r: Option<RvException> = match bus.fetch(4, pc64) {
            Ok(bytes) => {
                let raw = crate::uint::le_low128(&bytes, 4) as u32;
                proof {
                    lemma_mod_bound(le_val(bytes@) as int, pow2(32) as int);
                }
                let instr = Instr::new(raw);
                let ghost b1 = bus@;
                let res = instr.process(self, bus);
                let ghost h2 = *self;
                let ghost resg = res;
                let out: Option<RvException> = match res {
                    Ok(offset) => {
                        let pcv = self.pc.low_u128(16);
                        proof {
                            lemma_val_u128_exact(&self.pc);
                        }
                        let d = crate::alu::i128_to_enc(offset, w);
                        let np = add_mod(pcv, d, w);
                        self.pc = Uint::from_low_u128(np, w / 8);
                        proof {
                            assert(8 * (w as nat / 8) == w as nat);
                            lemma_pow2_pos(w as nat);
                            lemma_small_mod(np as nat, pow2(w as nat));
                            lemma_add_mod_noop_right(
                                old(self).pc.val() as int,
                                offset as int,
                                pow2(w as nat) as int,
                            );
                            assert(self.pc.val() == enc(
                                old(self).pc.val() as int + offset as int,
                                w as nat,
                            ));
                        }
                        None
                    },
                    Err(e) => Some(e),
                };
                self.reset_x0();
                proof {
                    if classify_spec(raw) is Instr32 {
                        assert(crate::instr::process_post(raw, old(self), &h2, b1, bus@, resg));
                        assert(Self::step_ok_post(old(self), self, b1, bus@, raw, out));
                    }
                }
                out
            },
            Err(e) => {
                let out: Option<RvException> = match e {
                    BusException::LoadAddressMisaligned => Some(
                        RvException::InstructionAddressMisaligned,
                    ),
                    _ => Some(RvException::InstructionAccessFault),
                };
                self.reset_x0();
                out
            },
        };
        r
    }

    /// The value of the hard-wired zero register.
    pub open spec fn val_x0(&self) -> nat {
        self.x.val(0)
    }

    /// Resolves what one step did on a successful fetch of a 32-bit shape:
    /// some execution outcome ties the final hart to the dispatched word via
    /// [`crate::instr::process_post`], the program counter advanced by the
    /// dispatched offset (wrapping at the register width) exactly when no
    /// fault was returned, and register 0 was rewired to zero at the end.
    pub open spec fn step_ok_post(
        pre: &Rv,
        post: &Rv,
        b1: crate::bus::BusView,
        post_bus: crate::bus::BusView,
        word: u32,
        r: Option<RvException>,
    ) -> bool {
        exists|h2: Rv, res: Result<i128, RvException>|
            {
                &&& #[trigger] crate::instr::process_post(word, pre, &h2, b1, post_bus, res)
                &&& crate::instr::hart_frame(pre, &h2)
                &&& post.csr == h2.csr
                &&& post.atomic_ctx == h2.atomic_ctx
                &&& RvRegisters::others_unchanged(&h2.x, &post.x, 0)
                &&& match res {
                    Ok(off) => r is None && post.pc.val() == enc(
                        pre.pc.val() as int + off as int,
                        pre.xlen as nat,
                    ),
                    Err(e) => r == Some(e) && post.pc == pre.pc,
                }
            }
    }

    /// What one fetch-decode-execute step does: register 0 reads zero after
    /// any step; a fetch fault is reported as the matching instruction-level
    /// exception with everything but register 0 untouched; a fetched word
    /// that classifies as compressed or invalid is an illegal instruction;
    /// and a 32-bit word executes per [`Rv::step_ok_post`].
    pub open spec fn step_post(
        pre: &Rv,
        post: &Rv,
        pre_bus: crate::bus::BusView,
        post_bus: crate::bus::BusView,
        r: Option<RvException>,
    ) -> bool {
        let pcv = (pre.pc.val() % pow2(64)) as u64;
        let (b1, fr) = bus_fetch_spec(pre_bus, 4, pcv);
        &&& post.val_x0() == 0
        &&& post.xlen == pre.xlen
        &&& post.extensions == pre.extensions
        &&& post.x.count == pre.x.count
        &&& match fr {
            Err(e) => post_bus == b1 && post.pc == pre.pc && RvRegisters::others_unchanged(
                &pre.x,
                &post.x,
                0,
            ) && post.csr == pre.csr && post.atomic_ctx == pre.atomic_ctx && r == Some(
                match e {
                    BusException::LoadAddressMisaligned => RvException::InstructionAddressMisaligned,
                    _ => RvException::InstructionAccessFault,
                },
            ),
            Ok(bytes) => {
                let word = (le_val(bytes) % pow2(32)) as u32;
                if classify_spec(word) is Instr32 {
                    Self::step_ok_post(pre, post, b1, post_bus, word, r)
                } else {
                    r == Some(RvException::InstructionIllegal) && post_bus == b1 && post.pc
                        == pre.pc && RvRegisters::others_unchanged(&pre.x, &post.x, 0) && post.csr
                        == pre.csr && post.atomic_ctx == pre.atomic_ctx
                }
            },
        }
    }

    /// Rewires register 0 to zero, as the end of every step does.
    fn reset_x0(&mut self)
        requires
            old(self).wf(),
        ensures
            final(self).wf(),
            final(self).val_x0() == 0,
            RvRegisters::others_unchanged(&old(self).x, &final(self).x, 0),
            final(self).pc == old(self).pc,
            final(self).csr == old(self).csr,
            final(self).extensions == old(self).extensions,
            final(self).atomic_ctx == old(self).atomic_ctx,
            final(self).xlen == old(self).xlen,
            final(self).flen == old(self).flen,
    {
        let w = self.xlen;
        self.x.set_u128(0, 0);
        proof {
            lemma_pow2_pos(w as nat);
            lemma_small_mod(0nat, pow2(w as nat));
        }
    }
}

impl crate::interface::ArchInterface for Rv {
    /// The hart's architectural invariant.
    open spec fn arch_inv(&self) -> bool {
        self.wf()
    }

    /// Drives one cycle; callers needing the full step contract use the
    /// inherent method directly.
    fn step(&mut self, bus: &mut Bus) -> Option<RvException> {
        Rv::step(self, bus)
    }
}

} // verus!
