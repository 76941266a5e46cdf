//! The control/status register bank: a 4096-entry address-mapped bank with
//! per-address write permission, extension-gated population, and the
//! fflags/frm sub-fields synthesized from the composite fcsr register.

use vstd::prelude::*;

verus! {

use vstd::arithmetic::power2::pow2;
use vstd::string::StringExecFns;
use crate::uint::{Uint, lemma_own_val_exact, lemma_u128_and_le, lemma_bitop_bound,
    lemma_pow2_halves, lemma_val_u128_exact};
use crate::registers::ArchRegister;
use crate::ext::RvExtensions;

// Unprivileged floating-point CSRs
pub const FFLAGS: usize = 0x001;

pub const FRM: usize = 0x002;

pub const FCSR: usize = 0x003;

// Unprivileged counter/timer CSRs
pub const CYCLE: usize = 0xc00;

pub const TIME: usize = 0xc01;

pub const INSTRET: usize = 0xc02;

pub const HPMCOUNTER3: usize = 0xc03;

pub const CYCLEH: usize = 0xc80;

pub const TIMEH: usize = 0xc81;

pub const INSTRETH: usize = 0xc82;

pub const HPMCOUNTER3H: usize = 0xc83;

// Supervisor trap setup
pub const SSTATUS: usize = 0x100;

pub const SIE: usize = 0x104;

pub const STVEC: usize = 0x105;

pub const SCOUNTEREN: usize = 0x106;

// Supervisor configuration
pub const SENVCFG: usize = 0x10a;

// Supervisor trap handling
pub const SSCRATCH: usize = 0x140;

pub const SEPC: usize = 0x141;

pub const SCAUSE: usize = 0x142;

pub const STVAL: usize = 0x143;

pub const SIP: usize = 0x144;

// Supervisor protection and translation
pub const SATP: usize = 0x180;

// Debug/trace registers
pub const SCONTEXT: usize = 0x5a8;

// Hypervisor trap setup
pub const HSTATUS: usize = 0x600;

pub const HEDELEG: usize = 0x602;

pub const HIDELEG: usize = 0x603;

pub const HIE: usize = 0x604;

pub const HCOUNTEREN: usize = 0x606;

pub const HGEIE: usize = 0x607;

// Hypervisor trap handling
pub const HTVAL: usize = 0x643;

pub const HIP: usize = 0x644;

pub const HVIP: usize = 0x645;

pub const HTINST: usize = 0x64a;

pub const HGEIP: usize = 0xe12;

// Hypervisor configuration
pub const HENVCFG: usize = 0x60a;

pub const HENVCFGH: usize = 0x61a;

// Hypervisor protection and translation
pub const HGATP: usize = 0x680;

// Debug/trace registers
pub const HCONTEXT: usize = 0x6a8;

// Hypervisor counter/timer virtualisation registers
pub const HTIMEDELTA: usize = 0x605;

pub const HTIMEDELTAH: usize = 0x615;

// Virtual supervisor registers
pub const VSSTATUS: usize = 0x200;

pub const VSIE: usize = 0x204;

pub const VSTVEC: usize = 0x205;

pub const VSSCRATCH: usize = 0x240;

pub const VSEPC: usize = 0x241;

pub const VSCAUSE: usize = 0x242;

pub const VSTVAL: usize = 0x243;

pub const VSIP: usize = 0x244;

pub const VSATP: usize = 0x280;

// Machine information registers
pub const MVENDORID: usize = 0xf11;

pub const MARCHID: usize = 0xf12;

pub const MIMPID: usize = 0xf13;

pub const MHARTID: usize = 0xf14;

pub const MCONFIGPTR: usize = 0xf15;

// Machine trap setup
pub const MSTATUS: usize = 0x300;

pub const MISA: usize = 0x301;

pub const MEDELEG: usize = 0x302;

pub const MIDELEG: usize = 0x303;

pub const MIE: usize = 0x304;

pub const MTVEC: usize = 0x305;

pub const MCOUNTEREN: usize = 0x306;

pub const MSTATUSH: usize = 0x310;

// Machine trap handling
pub const MSCRATCH: usize = 0x340;

pub const MEPC: usize = 0x341;

pub const MCAUSE: usize = 0x342;

pub const MTVAL: usize = 0x343;

pub const MIP: usize = 0x344;

pub const MTINST: usize = 0x34a;

pub const MTVAL2: usize = 0x34b;

// Machine configuration
pub const MENVCFG: usize = 0x30a;

pub const MENVCFGH: usize = 0x31a;

pub const MSECCFG: usize = 0x747;

pub const MSECCFGH: usize = 0x757;

// Machine memory protection
pub const PMPCFG0: usize = 0x3a0;

pub const PMPADDR0: usize = 0x3b0;

// Machine non-maskable interrupt handling
pub const MNSCRATCH: usize = 0x740;

pub const MNEPC: usize = 0x741;

pub const MNCAUSE: usize = 0x742;

pub const MNSTATUS: usize = 0x744;

// Machine counter/timers
pub const MCYCLE: usize = 0xb00;

pub const MINSTRET: usize = 0xb02;

pub const MHPMCOUNTER3: usize = 0xb03;

pub const MCYCLEH: usize = 0xb80;

pub const MINSTRETH: usize = 0xb82;

pub const MHPMCOUNTER3H: usize = 0xb83;

// Machine counter setup
pub const MCOUNTINHIBIT: usize = 0x320;

pub const MHPMEVENT3: usize = 0x323;

// Debug/trace registers (shared with debug mode)
pub const TSELECT: usize = 0x7a0;

pub const TDATA1: usize = 0x7a1;

pub const TDATA2: usize = 0x7a2;

pub const TDATA3: usize = 0x7a3;

pub const MCONTEXT: usize = 0x7a8;

// Debug-mode registers
pub const DCSR: usize = 0x7b0;

pub const DPC: usize = 0x7b1;

pub const DSCRATCH0: usize = 0x7b2;

pub const DSCRATCH1: usize = 0x7b3;

/// Software write permission is a pure function of the address: addresses at
/// or above 0xc00 are read-only to software.
pub open spec fn write_allowed_spec(addr: int) -> bool {
    addr < 0xc00
}

/// Every CSR address is readable.
pub open spec fn read_allowed_spec(addr: int) -> bool {
    true
}

/// True exactly when software may write the CSR at `regidx`.
pub fn write_is_allowed(regidx: usize) -> (r: bool)
    ensures
        r == write_allowed_spec(regidx as int),
{
    if regidx < 0xc00 {
        return true;
    }
    false
}

/// True for every CSR address: reads are always permitted.
pub fn read_is_allowed(regidx: usize) -> (r: bool)
    ensures
        r == read_allowed_spec(regidx as int),
{
    true
}

/// The fcsr value after a write of `v` to the fflags sub-field (low 5 bits).
pub open spec fn fflags_wval(fcsr: nat, v: nat) -> nat
    recommends
        fcsr < pow2(128),
        v < pow2(128),
{
    ((fcsr as u128 & !0x1fu128) | (v as u128 & 0x1fu128)) as nat
}

/// The fcsr value after a write of `v` to the frm sub-field (bits 6:5).
pub open spec fn frm_wval(fcsr: nat, v: nat) -> nat
    recommends
        fcsr < pow2(128),
        v < pow2(128),
{
    ((fcsr as u128 & !0x60u128) | ((v as u128 & 0x3u128) << 5)) as nat
}

/// The fflags sub-field read out of the composite fcsr value.
pub open spec fn fflags_rval(fcsr: nat) -> nat
    recommends
        fcsr < pow2(128),
{
    (fcsr as u128 & 0x1fu128) as nat
}

/// The frm sub-field read out of the composite fcsr value.
pub open spec fn frm_rval(fcsr: nat) -> nat
    recommends
        fcsr < pow2(128),
{
    ((fcsr as u128 & 0x60u128) >> 5) as nat
}

/// The 4096-entry control/status register bank.
#[derive(Debug)]
pub struct Csr {
    pub width: usize,
    pub bank: Vec<ArchRegister>,
}

/// All 4096 entries present, zero-valued and of the bank's width.
pub open spec fn bank_zeroed(bank: Seq<ArchRegister>, width: usize) -> bool {
    &&& bank.len() == 4096
    &&& forall|i: int| 0 <= i < 4096 ==> (#[trigger] bank[i]).value.nbytes() == width / 8
        && bank[i].value.val() == 0
}

/// Replaces the name of one zero-valued entry during bank construction; no
/// other entry is touched.
fn put(bank: &mut Vec<ArchRegister>, width: usize, addr: usize, name: String)
    requires
        bank_zeroed(old(bank)@, width),
        addr < 4096,
    ensures
        bank_zeroed(final(bank)@, width),
        final(bank)@[addr as int].name@ == name@,
        forall|j: int| 0 <= j < 4096 && j != addr ==> final(bank)@[j] == old(bank)@[j],
{
    let entry = ArchRegister::new(width, name, addr, Uint::zero(width));
    bank.set(addr, entry);
}

/// Relies on std's `format!` to render a register name with a decimal index
/// (an hpmcounter or pmp entry); the name is diagnostic only and no contract
/// depends on it.
#[verifier::external_body]
fn indexed_name(prefix: &str, n: usize) -> (r: String) {
    format!("{}{}", prefix, n)
}

impl Csr {
    /// Structural well-formedness: a supported width and 4096 entries of it.
    pub open spec fn wf(&self) -> bool {
        &&& (self.width == 32 || self.width == 64 || self.width == 128)
        &&& self.bank@.len() == 4096
        &&& forall|i: int| 0 <= i < 4096 ==> (#[trigger] self.bank@[i]).value.nbytes()
            == self.width / 8
    }

    /// The raw value stored at CSR address `addr`.
    pub open spec fn val(&self, addr: int) -> nat {
        self.bank@[addr].value.val()
    }

    /// The value software observes when reading `addr`: the fflags and frm
    /// sub-fields are carved out of the composite fcsr entry.
    pub open spec fn read_val(&self, addr: int) -> nat {
        if addr == FFLAGS {
            fflags_rval(self.val(FCSR as int))
        } else if addr == FRM {
            frm_rval(self.val(FCSR as int))
        } else {
            self.val(addr)
        }
    }

    /// True when every entry other than `addr` has the same value in `post`.
    pub open spec fn others_unchanged(pre: &Self, post: &Self, addr: int) -> bool {
        &&& post.width == pre.width
        &&& forall|j: int| 0 <= j < 4096 && j != addr ==> pre.val(j) == #[trigger] post.val(j)
    }

    /// Builds the bank: every entry zero, names populated per the extension
    /// set (an absent extension leaves its addresses as readable "invalid"
    /// zero entries).
    pub fn new(width: usize, extensions: &RvExtensions) -> (r: Csr)
        requires
            width == 32 || width == 64 || width == 128,
        ensures
            r.wf(),
            r.width == width,
            forall|a: int| 0 <= a < 4096 ==> r.val(a) == 0,
            r.bank@[MISA as int].name@ == "misa"@,
            r.bank@[MSTATUS as int].name@ == "mstatus"@,
            r.bank@[MEPC as int].name@ == "mepc"@,
            r.bank@[DCSR as int].name@ == "dcsr"@,
            extensions.f ==> r.bank@[FFLAGS as int].name@ == "fflags"@ && r.bank@[FRM as int].name@
                == "frm"@ && r.bank@[FCSR as int].name@ == "fcsr"@,
            extensions.zicntr ==> r.bank@[CYCLE as int].name@ == "cycle"@,
            extensions.s ==> r.bank@[SSTATUS as int].name@ == "sstatus"@ && r.bank@[
                SEPC as int
            ].name@ == "sepc"@,
            extensions.h ==> r.bank@[HSTATUS as int].name@ == "hstatus"@,
    {
        let mut bank: Vec<ArchRegister> = Vec::new();
        let mut i: usize = 0;
        while i < 4096
            invariant
                i <= 4096,
                bank@.len() == i,
                width == 32 || width == 64 || width == 128,
                forall|j: int| 0 <= j < i ==> (#[trigger] bank@[j]).value.nbytes() == width / 8
                    && bank@[j].value.val() == 0,
                forall|j: int| 0 <= j < i ==> (#[trigger] bank@[j]).name@ == "invalid"@,
            decreases 4096 - i,
        {
            bank.push(ArchRegister::new(width, String::from_str("invalid"), i, Uint::zero(width)));
            i = i + 1;
        }
        if extensions.f {
            put(&mut bank, width, FFLAGS, String::from_str("fflags"));
            put(&mut bank, width, FRM, String::from_str("frm"));
            put(&mut bank, width, FCSR, String::from_str("fcsr"));
        }
        if extensions.zicntr {
            put(&mut bank, width, CYCLE, String::from_str("cycle"));
            put(&mut bank, width, TIME, String::from_str("time"));
            put(&mut bank, width, INSTRET, String::from_str("instret"));
            if width == 32 {
                put(&mut bank, width, CYCLEH, String::from_str("cycleh"));
                put(&mut bank, width, TIMEH, String::from_str("timeh"));
                put(&mut bank, width, INSTRETH, String::from_str("instreth"));
            }
        }
        if extensions.zihpm {
            let ghost snap = bank@;
            let mut i: usize = 0;
            while i < 0x1c
                invariant
                    bank_zeroed(bank@, width),
                    i <= 0x1c,
                    forall|j: int|
                        0 <= j < 4096 && !(HPMCOUNTER3 <= j < HPMCOUNTER3 + 0x1c) && !(
                        HPMCOUNTER3H <= j < HPMCOUNTER3H + 0x1c) ==> bank@[j] == snap[j],
                decreases 0x1c - i,
            {
                put(&mut bank, width, HPMCOUNTER3 + i, indexed_name("hpmcounter", i + 3));
                if width == 32 {
                    put(&mut bank, width, HPMCOUNTER3H + i, indexed_name("hpmcounterh", i + 3));
                }
                i = i + 1;
            }
        }
        if extensions.s {
            put(&mut bank, width, SSTATUS, String::from_str("sstatus"));
            put(&mut bank, width, SIE, String::from_str("sie"));
            put(&mut bank, width, STVEC, String::from_str("stvec"));
            put(&mut bank, width, SCOUNTEREN, String::from_str("scounteren"));
            put(&mut bank, width, SENVCFG, String::from_str("senvcfg"));
            put(&mut bank, width, SSCRATCH, String::from_str("sscratch"));
            put(&mut bank, width, SEPC, String::from_str("sepc"));
            put(&mut bank, width, SCAUSE, String::from_str("scause"));
            put(&mut bank, width, STVAL, String::from_str("stval"));
            put(&mut bank, width, SIP, String::from_str("sip"));
            put(&mut bank, width, SATP, String::from_str("satp"));
            put(&mut bank, width, SCONTEXT, String::from_str("scontext"));
        }
        if extensions.h {
            put(&mut bank, width, HSTATUS, String::from_str("hstatus"));
            put(&mut bank, width, HEDELEG, String::from_str("hedeleg"));
            put(&mut bank, width, HIDELEG, String::from_str("hideleg"));
            put(&mut bank, width, HIE, String::from_str("hie"));
            put(&mut bank, width, HCOUNTEREN, String::from_str("hcounteren"));
            put(&mut bank, width, HGEIE, String::from_str("hgeie"));
            put(&mut bank, width, HTVAL, String::from_str("htval"));
            put(&mut bank, width, HIP, String::from_str("hip"));
            put(&mut bank, width, HVIP, String::from_str("hvip"));
            put(&mut bank, width, HTINST, String::from_str("htinst"));
            put(&mut bank, width, HGEIP, String::from_str("hgeip"));
            put(&mut bank, width, HENVCFG, String::from_str("henvcfg"));
            if width == 32 {
                put(&mut bank, width, HENVCFGH, String::from_str("henvcfgh"));
            }
            put(&mut bank, width, HGATP, String::from_str("hgatp"));
            put(&mut bank, width, HCONTEXT, String::from_str("hcontext"));
            put(&mut bank, width, HTIMEDELTA, String::from_str("htimedelta"));
            if width == 32 {
                put(&mut bank, width, HTIMEDELTAH, String::from_str("htimedeltah"));
            }
            put(&mut bank, width, VSSTATUS, String::from_str("vsstatus"));
            put(&mut bank, width, VSIE, String::from_str("vsie"));
            put(&mut bank, width, VSTVEC, String::from_str("vstvec"));
            put(&mut bank, width, VSSCRATCH, String::from_str("vsscratch"));
            put(&mut bank, width, VSEPC, String::from_str("vsepc"));
            put(&mut bank, width, VSCAUSE, String::from_str("vscause"));
            put(&mut bank, width, VSTVAL, String::from_str("vstval"));
            put(&mut bank, width, VSIP, String::from_str("vsip"));
            put(&mut bank, width, VSATP, String::from_str("vsatp"));
        }
        put(&mut bank, width, MVENDORID, String::from_str("mvendorid"));
        put(&mut bank, width, MARCHID, String::from_str("marchid"));
        put(&mut bank, width, MIMPID, String::from_str("mimpid"));
        put(&mut bank, width, MHARTID, String::from_str("mhartid"));
        put(&mut bank, width, MCONFIGPTR, String::from_str("mconfigptr"));
        put(&mut bank, width, MSTATUS, String::from_str("mstatus"));
        if width == 32 {
            put(&mut bank, width, MSTATUSH, String::from_str("mstatush"));
        }
        put(&mut bank, width, MISA, String::from_str("misa"));
        put(&mut bank, width, MEDELEG, String::from_str("medeleg"));
        put(&mut bank, width, MIDELEG, String::from_str("mideleg"));
        put(&mut bank, width, MIE, String::from_str("mie"));
        put(&mut bank, width, MTVEC, String::from_str("mtvec"));
        put(&mut bank, width, MCOUNTEREN, String::from_str("mcounteren"));
        put(&mut bank, width, MSCRATCH, String::from_str("mscratch"));
        put(&mut bank, width, MEPC, String::from_str("mepc"));
        put(&mut bank, width, MCAUSE, String::from_str("mcause"));
        put(&mut bank, width, MTVAL, String::from_str("mtval"));
        put(&mut bank, width, MIP, String::from_str("mip"));
        put(&mut bank, width, MTINST, String::from_str("mtinst"));
        put(&mut bank, width, MTVAL2, String::from_str("mtval2"));
        put(&mut bank, width, MENVCFG, String::from_str("menvcfg"));
        put(&mut bank, width, MSECCFG, String::from_str("mseccfg"));
        if width == 32 {
            put(&mut bank, width, MENVCFGH, String::from_str("menvcfgh"));
            put(&mut bank, width, MSECCFGH, String::from_str("mseccfgh"));
        }
        let ghost snap1 = bank@;
        let mut i: usize = 0;
        while i < 0x0f
            invariant
                bank_zeroed(bank@, width),
                i <= 0x0f,
                forall|j: int|
                    0 <= j < 4096 && !(PMPCFG0 <= j < PMPCFG0 + 0x0f) && !(PMPADDR0 <= j < PMPADDR0
                        + 0x0f) ==> bank@[j] == snap1[j],
            decreases 0x0f - i,
        {
            put(&mut bank, width, PMPCFG0 + i, indexed_name("pmpcfg", i));
            put(&mut bank, width, PMPADDR0 + i, indexed_name("pmpaddr", i));
            i = i + 1;
        }
        put(&mut bank, width, MNSCRATCH, String::from_str("mnscratch"));
        put(&mut bank, width, MNEPC, String::from_str("mnepc"));
        put(&mut bank, width, MNCAUSE, String::from_str("mncause"));
        put(&mut bank, width, MNSTATUS, String::from_str("mnstatus"));
        put(&mut bank, width, MCYCLE, String::from_str("mcycle"));
        put(&mut bank, width, MINSTRET, String::from_str("minstret"));
        if width == 32 {
            put(&mut bank, width, MCYCLEH, String::from_str("mcycleh"));
            put(&mut bank, width, MINSTRETH, String::from_str("minstreth"));
        }
        let ghost snap2 = bank@;
        let mut i: usize = 0;
        while i < 0x1c
            invariant
                bank_zeroed(bank@, width),
                i <= 0x1c,
                forall|j: int|
                    0 <= j < 4096 && !(MHPMCOUNTER3 <= j < MHPMCOUNTER3 + 0x1c) && !(MHPMCOUNTER3H
                        <= j < MHPMCOUNTER3H + 0x1c) ==> bank@[j] == snap2[j],
            decreases 0x1c - i,
        {
            put(&mut bank, width, MHPMCOUNTER3 + i, indexed_name("mhpmcounter", i + 3));
            if width == 32 {
                put(&mut bank, width, MHPMCOUNTER3H + i, indexed_name("mhpmcounterh", i + 3));
            }
            i = i + 1;
        }
        put(&mut bank, width, MCOUNTINHIBIT, String::from_str("mcountinhibit"));
        let ghost snap3 = bank@;
        let mut i: usize = 0;
        while i < 0x1c
            invariant
                bank_zeroed(bank@, width),
                i <= 0x1c,
                forall|j: int|
                    0 <= j < 4096 && !(MHPMEVENT3 <= j < MHPMEVENT3 + 0x1c) ==> bank@[j] == snap3[j],
            decreases 0x1c - i,
        {
            put(&mut bank, width, MHPMEVENT3 + i, indexed_name("mhpmevent", i + 3));
            i = i + 1;
        }
        put(&mut bank, width, TSELECT, String::from_str("tselect"));
        put(&mut bank, width, TDATA1, String::from_str("tdata1"));
        put(&mut bank, width, TDATA2, String::from_str("tdata2"));
        put(&mut bank, width, TDATA3, String::from_str("tdata3"));
        put(&mut bank, width, MCONTEXT, String::from_str("mcontext"));
        put(&mut bank, width, DCSR, String::from_str("dcsr"));
        put(&mut bank, width, DPC, String::from_str("dpc"));
        put(&mut bank, width, DSCRATCH0, String::from_str("dscratch0"));
        put(&mut bank, width, DSCRATCH1, String::from_str("dscratch1"));
        Csr { width, bank }
    }

    /// The populated name at `addr`, or "invalid" for an absent entry; the
    /// names are diagnostic only, no contract of the bank depends on them.
    pub fn name(&self, addr: usize) -> (r: &str)
        requires
            addr < self.bank@.len(),
        ensures
            r@ == self.bank@[addr as int].name@,
    {
        self.bank[addr].name()
    }

    /// Writes `value` at `addr` if the address is software-writable; writes
    /// to the fflags and frm sub-fields land in the composite fcsr entry.
    /// Writes to read-only addresses are rejected silently.
    pub fn set(&mut self, addr: usize, value: &Uint)
        requires
            old(self).wf(),
            addr < 4096,
            value.nbytes() == old(self).width / 8,
        ensures
            final(self).wf(),
            final(self).width == old(self).width,
            !write_allowed_spec(addr as int) ==> forall|j: int| 0 <= j < 4096 ==> final(self).val(j)
                == old(self).val(j),
            write_allowed_spec(addr as int) && addr == FFLAGS ==> Self::others_unchanged(
                old(self),
                final(self),
                FCSR as int,
            ) && final(self).val(FCSR as int) == fflags_wval(old(self).val(FCSR as int), value.val()),
            write_allowed_spec(addr as int) && addr == FRM ==> Self::others_unchanged(
                old(self),
                final(self),
                FCSR as int,
            ) && final(self).val(FCSR as int) == frm_wval(old(self).val(FCSR as int), value.val()),
            write_allowed_spec(addr as int) && addr != FFLAGS && addr != FRM ==> Self::others_unchanged(
                old(self),
                final(self),
                addr as int,
            ) && final(self).val(addr as int) == value.val(),
    {
        if write_is_allowed(addr) {
            if addr == FFLAGS {
                let fc = self.read_u128(FCSR);
                let vv = value.low_u128(16);
                let nv = (fc & !0x1fu128) | (vv & 0x1fu128);
                proof {
                    lemma_u128_and_le(fc, !0x1fu128);
                    lemma_u128_and_le(vv, 0x1fu128);
                    lemma_pow2_halves();
                    lemma_bitop_bound(fc & !0x1fu128, vv & 0x1fu128, (8 * (self.width / 8)) as nat);
                    lemma_val_u128_exact(value);
                }
                self.write_u128(FCSR, nv);
            } else if addr == FRM {
                let fc = self.read_u128(FCSR);
                let vv = value.low_u128(16);
                let nv = (fc & !0x60u128) | ((vv & 0x3u128) << 5);
                proof {
                    lemma_u128_and_le(fc, !0x60u128);
                    lemma_u128_and_le(vv, 0x3u128);
                    assert(((vv & 0x3u128) << 5) <= 0x60u128) by (bit_vector);
                    lemma_pow2_halves();
                    lemma_bitop_bound(fc & !0x60u128, (vv & 0x3u128) << 5, (8 * (self.width / 8)) as nat);
                    lemma_val_u128_exact(value);
                }
                self.write_u128(FCSR, nv);
            } else {
                let name = self.bank[addr].name().to_owned();
                let entry = ArchRegister::new(self.width, name, addr, value.clone());
                self.bank.set(addr, entry);
            }
        }
    }

    /// Reads the CSR at `addr`: `None` past the end of the bank, otherwise
    /// the stored value (with fflags/frm synthesized from fcsr).
    pub fn get(&self, addr: usize) -> (r: Option<Uint>)
        requires
            self.wf(),
        ensures
            addr >= 4096 ==> r is None,
            addr < 4096 ==> (r matches Some(u) && u.nbytes() == self.width / 8 && u.val()
                == self.read_val(addr as int)),
    {
        if addr >= self.bank.len() {
            return None;
        }
        if read_is_allowed(addr) {
            if addr == FFLAGS {
                let fc = self.read_u128(FCSR);
                let rv = fc & 0x1fu128;
                proof {
                    lemma_u128_and_le(fc, 0x1fu128);
                    lemma_pow2_halves();
                    vstd::arithmetic::div_mod::lemma_small_mod(
                        rv as nat,
                        pow2((8 * (self.width / 8)) as nat),
                    );
                }
                Some(Uint::from_low_u128(rv, self.width / 8))
            } else if addr == FRM {
                let fc = self.read_u128(FCSR);
                let rv = (fc & 0x60u128) >> 5;
                proof {
                    assert(((fc & 0x60u128) >> 5) <= 3u128) by (bit_vector);
                    lemma_pow2_halves();
                    vstd::arithmetic::div_mod::lemma_small_mod(
                        rv as nat,
                        pow2((8 * (self.width / 8)) as nat),
                    );
                }
                Some(Uint::from_low_u128(rv, self.width / 8))
            } else {
                Some(self.bank[addr].get())
            }
        } else {
            Some(Uint::zero(self.width))
        }
    }

    /// Reads the raw entry at `addr` as a `u128` (every width fits).
    fn read_u128(&self, addr: usize) -> (r: u128)
        requires
            self.wf(),
            addr < 4096,
        ensures
            r as nat == self.val(addr as int),
            r < pow2((8 * (self.width / 8)) as nat),
    {
        let u = self.bank[addr].get();
        proof {
            lemma_own_val_exact(&u);
            lemma_val_u128_exact(&u);
        }
        u.low_u128(16)
    }

    /// Stores `v` (which must fit the width) into the raw entry at `addr`.
    fn write_u128(&mut self, addr: usize, v: u128)
        requires
            old(self).wf(),
            addr < 4096,
            v < pow2((8 * (old(self).width / 8)) as nat),
        ensures
            final(self).wf(),
            final(self).width == old(self).width,
            Self::others_unchanged(old(self), final(self), addr as int),
            final(self).val(addr as int) == v as nat,
    {
        proof {
            vstd::arithmetic::div_mod::lemma_small_mod(
                v as nat,
                pow2((8 * (old(self).width / 8)) as nat),
            );
        }
        let u = Uint::from_low_u128(v, self.width / 8);
        let name = self.bank[addr].name().to_owned();
        let entry = ArchRegister::new(self.width, name, addr, u);
        self.bank.set(addr, entry);
    }
}

} // verus!
