//! Named architectural registers and the integer register file.

use vstd::prelude::*;

verus! {

use vstd::arithmetic::power2::pow2;
use vstd::string::StringExecFns;
use crate::uint::{Uint, lemma_own_val_exact};

/// One named, addressed register holding a width-generic value.
#[derive(Debug)]
pub struct ArchRegister {
    pub name: String,
    pub addr: usize,
    pub value: Uint,
}

impl ArchRegister {
    pub fn new(_width: usize, name: String, addr: usize, initial_value: Uint) -> (r: Self)
        ensures
            r.name == name,
            r.addr == addr,
            r.value@ == initial_value@,
    {
        ArchRegister { name, addr, value: initial_value }
    }

    pub fn name(&self) -> (r: &str)
        ensures
            r@ == self.name@,
    {
        self.name.as_str()
    }

    pub fn set(&mut self, value: &Uint)
        ensures
            final(self).name == old(self).name,
            final(self).addr == old(self).addr,
            final(self).value@ == value@,
    {
        self.value = value.clone();
    }

    pub fn get(&self) -> (r: Uint)
        ensures
            r@ == self.value@,
    {
        self.value.clone()
    }
}

/// The conventional RISC-V ABI name of integer register `i`.
pub fn x_reg_name(i: usize) -> (r: &'static str) {
    match i {
        0x00 => "zero",
        0x01 => "ra",
        0x02 => "sp",
        0x03 => "gp",
        0x04 => "tp",
        0x05 => "t0",
        0x06 => "t1",
        0x07 => "t2",
        0x08 => "s0/fp",
        0x09 => "s1",
        0x0a => "a0",
        0x0b => "a1",
        0x0c => "a2",
        0x0d => "a3",
        0x0e => "a4",
        0x0f => "a5",
        0x10 => "a6",
        0x11 => "a7",
        0x12 => "s2",
        0x13 => "s3",
        0x14 => "s4",
        0x15 => "s5",
        0x16 => "s6",
        0x17 => "s7",
        0x18 => "s8",
        0x19 => "s9",
        0x1a => "s10",
        0x1b => "s11",
        0x1c => "t3",
        0x1d => "t4",
        0x1e => "t5",
        0x1f => "t6",
        _ => "x",
    }
}

/// The integer register file: `count` registers of `xlen` bits each.
#[derive(Debug)]
pub struct RvRegisters {
    pub xlen: usize,
    pub count: usize,
    pub reg: Vec<ArchRegister>,
}

impl RvRegisters {
    /// Structural well-formedness: a supported width, a base or embedded
    /// register count, and every register exactly `xlen` bits wide.
    pub open spec fn wf(&self) -> bool {
        &&& (self.xlen == 32 || self.xlen == 64 || self.xlen == 128)
        &&& (self.count == 16 || self.count == 32)
        &&& self.reg@.len() == self.count
        &&& forall|i: int| 0 <= i < self.count ==> (#[trigger] self.reg@[i]).value.nbytes()
            == self.xlen / 8
    }

    /// The value of register `i`.
    pub open spec fn val(&self, i: int) -> nat {
        self.reg@[i].value.val()
    }

    /// True when every register other than `i` and `j` is unchanged.
    pub open spec fn others_unchanged2(pre: &Self, post: &Self, i: int, j: int) -> bool {
        &&& post.xlen == pre.xlen
        &&& post.count == pre.count
        &&& post.reg@.len() == pre.reg@.len()
        &&& forall|k: int| 0 <= k < pre.reg@.len() && k != i && k != j ==> post.reg@[k]
            == pre.reg@[k]
    }

    /// True when every register other than `i` is unchanged between `pre` and `post`.
    pub open spec fn others_unchanged(pre: &Self, post: &Self, i: int) -> bool {
        &&& post.xlen == pre.xlen
        &&& post.count == pre.count
        &&& post.reg@.len() == pre.reg@.len()
        &&& forall|j: int| 0 <= j < pre.reg@.len() && j != i ==> post.reg@[j] == pre.reg@[j]
    }

    /// Builds the register file with ABI names and all-zero contents.
    pub fn new(xlen: usize, count: usize) -> (r: Self)
        requires
            xlen == 32 || xlen == 64 || xlen == 128,
            count == 16 || count == 32,
        ensures
            r.wf(),
            r.xlen == xlen,
            r.count == count,
            forall|i: int| 0 <= i < count ==> r.val(i) == 0,
    {
        let mut reg: Vec<ArchRegister> = Vec::new();
        let mut i: usize = 0;
        while i < count
            invariant
                i <= count,
                xlen == 32 || xlen == 64 || xlen == 128,
                reg@.len() == i,
                forall|j: int| 0 <= j < i ==> (#[trigger] reg@[j]).value.nbytes() == xlen / 8
                    && reg@[j].value.val() == 0,
            decreases count - i,
        {
            let name = String::from_str(x_reg_name(i));
            reg.push(ArchRegister::new(xlen, name, i, Uint::zero(xlen)));
            i = i + 1;
        }
        RvRegisters { xlen, count, reg }
    }

    /// The register width in bits.
    pub fn len(&self) -> (r: usize)
        ensures
            r == self.xlen,
    {
        self.xlen
    }

    /// The ABI name of register `regidx`.
    pub fn name(&self, regidx: usize) -> (r: &str)
        requires
            regidx < self.reg@.len(),
        ensures
            r@ == self.reg@[regidx as int].name@,
    {
        self.reg[regidx].name()
    }

    /// Overwrites register `regidx`; all other registers keep their values.
    pub fn set(&mut self, regidx: usize, value: &Uint)
        requires
            old(self).wf(),
            regidx < old(self).count,
            value.nbytes() == old(self).xlen / 8,
        ensures
            final(self).wf(),
            Self::others_unchanged(old(self), final(self), regidx as int),
            final(self).val(regidx as int) == value.val(),
            final(self).reg@[regidx as int].name@ == old(self).reg@[regidx as int].name@,
    {
        let name = self.reg[regidx].name().to_owned();
        let addr = self.reg[regidx].addr;
        let entry = ArchRegister::new(self.xlen, name, addr, value.clone());
        self.reg.set(regidx, entry);
    }

    /// Reads register `regidx` by value.
    pub fn get(&self, regidx: usize) -> (r: Uint)
        requires
            self.wf(),
            regidx < self.count,
        ensures
            r.val() == self.val(regidx as int),
            r.nbytes() == self.xlen / 8,
    {
        self.reg[regidx].get()
    }

    /// Reads register `regidx` as a `u128` (every width fits).
    pub fn get_u128(&self, regidx: usize) -> (r: u128)
        requires
            self.wf(),
            regidx < self.count,
        ensures
            r as nat == self.val(regidx as int),
            r < pow2((self.xlen) as nat),
    {
        let u = self.reg[regidx].get();
        proof {
            lemma_own_val_exact(&u);
        }
        u.low_u128(self.xlen / 8)
    }

    /// A well-formed register's value lies below 2^xlen.
    pub proof fn lemma_val_bound(&self, i: int)
        requires
            self.wf(),
            0 <= i < self.count,
        ensures
            self.val(i) < pow2(self.xlen as nat),
    {
        crate::uint::lemma_le_val_bound(self.reg@[i].value@);
        assert(8 * (self.xlen as nat / 8) == self.xlen as nat);
    }

    /// Writes `v mod 2^xlen` into register `regidx`.
    pub fn set_u128(&mut self, regidx: usize, v: u128)
        requires
            old(self).wf(),
            regidx < old(self).count,
        ensures
            final(self).wf(),
            Self::others_unchanged(old(self), final(self), regidx as int),
            final(self).val(regidx as int) == v as nat % pow2(old(self).xlen as nat),
            final(self).reg@[regidx as int].name@ == old(self).reg@[regidx as int].name@,
    {
        let u = Uint::from_low_u128(v, self.xlen / 8);
        self.set(regidx, &u);
    }
}

} // verus!
