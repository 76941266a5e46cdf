//! A RISC-V instruction-set emulator: a single hart driving an address-space
//! bus with memory-mapped devices, executing one instruction per `step`.
//!
//! Every architectural value (register, CSR, address, immediate) is a
//! [`uint::Uint`]: a little-endian byte vector whose length fixes the width.
//! Contracts are stated over the natural-number value of those bytes.

pub mod alu;
pub mod atomic;
pub mod bus;
pub mod cpu;
pub mod csr;
pub mod exception;
pub mod ext;
pub mod flash;
pub mod hart;
pub mod instr;
pub mod interface;
pub mod interrupt;
pub mod peripheral;
pub mod registers;
pub mod state;
pub mod uart16550;
pub mod uint;
pub mod vsoc;
