//! End-to-end scenarios through the whole system, and the instruction-level
//! edge cases of the divide and atomic families.

use vemu::atomic::AtomicCtx;
use vemu::bus::Bus;
use vemu::cpu::CpuCore;
use vemu::exception::VsocException;
use vemu::flash::Flash;
use vemu::instr::{amo, op, Instr};
use vemu::peripheral::{Device, Peripheral};
use vemu::registers::RvRegisters;
use vemu::uint::Uint;
use vemu::vsoc::{Vsoc, LOAD_ADDR, UART_ADDR};

#[test]
fn addi_then_ebreak() {
    let mut vsoc = Vsoc::new("rv64imac_zicsr_zifencei");
    // addi x1, x0, 5 followed by ebreak
    let mut image: Vec<u8> = Vec::new();
    image.extend_from_slice(&0x00500093u32.to_le_bytes());
    image.extend_from_slice(&0x00100073u32.to_le_bytes());
    vsoc.load(&image);
    assert!(vsoc.step().is_none());
    let CpuCore::CoreRv(hart) = &vsoc.cpu.core;
    assert_eq!(hart.x.get(1).to_u64(), 5);
    assert_eq!(hart.pc.to_u64(), (LOAD_ADDR + 4) as u64);
    match vsoc.step() {
        Some(VsocException::Breakpoint) => (),
        _ => assert!(false),
    }
}

#[test]
fn lui_sets_upper_bits() {
    let mut vsoc = Vsoc::new("rv64imac_zicsr_zifencei");
    // lui x2, 0x12345
    let image = 0x12345137u32.to_le_bytes().to_vec();
    vsoc.load(&image);
    assert!(vsoc.step().is_none());
    let CpuCore::CoreRv(hart) = &vsoc.cpu.core;
    assert_eq!(hart.x.get(2).to_u64(), 0x12345000);
}

#[test]
fn lui_sign_extends_at_rv64() {
    let mut vsoc = Vsoc::new("rv64i");
    // lui x2, 0x80000 (top bit of the 32-bit immediate set)
    let image = 0x80000137u32.to_le_bytes().to_vec();
    vsoc.load(&image);
    assert!(vsoc.step().is_none());
    let CpuCore::CoreRv(hart) = &vsoc.cpu.core;
    assert_eq!(hart.x.get(2).to_u64(), 0xffffffff_80000000);
}

#[test]
fn beq_always_branches() {
    let mut vsoc = Vsoc::new("rv64imac_zicsr_zifencei");
    // beq x0, x0, 8
    let image = 0x00000463u32.to_le_bytes().to_vec();
    vsoc.load(&image);
    assert!(vsoc.step().is_none());
    let CpuCore::CoreRv(hart) = &vsoc.cpu.core;
    assert_eq!(hart.pc.to_u64(), (LOAD_ADDR + 8) as u64);
}

#[test]
fn div_and_rem_by_zero() {
    let mut x = RvRegisters::new(64, 32);
    x.set_u128(1, 42);
    x.set_u128(2, 0);
    op::div(&mut x, 3, 1, 2);
    assert_eq!(x.get_u128(3), u64::MAX as u128);
    op::divu(&mut x, 4, 1, 2);
    assert_eq!(x.get_u128(4), u64::MAX as u128);
    op::rem(&mut x, 5, 1, 2);
    assert_eq!(x.get_u128(5), 42);
    op::remu(&mut x, 6, 1, 2);
    assert_eq!(x.get_u128(6), 42);
}

#[test]
fn div_and_rem_overflow() {
    let mut x = RvRegisters::new(64, 32);
    x.set_u128(1, 1u128 << 63);
    x.set_u128(2, u64::MAX as u128);
    op::div(&mut x, 3, 1, 2);
    assert_eq!(x.get_u128(3), 1u128 << 63);
    op::rem(&mut x, 4, 1, 2);
    assert_eq!(x.get_u128(4), 0);
}

#[test]
fn div_rounds_towards_zero() {
    let mut x = RvRegisters::new(64, 32);
    x.set_u128(1, (-7i64 as u64) as u128);
    x.set_u128(2, 2);
    op::div(&mut x, 3, 1, 2);
    assert_eq!(x.get_u128(3) as u64 as i64, -3);
    op::rem(&mut x, 4, 1, 2);
    assert_eq!(x.get_u128(4) as u64 as i64, -1);
}

#[test]
fn mul_families() {
    let mut x = RvRegisters::new(64, 32);
    x.set_u128(1, (-3i64 as u64) as u128);
    x.set_u128(2, 5);
    op::mul(&mut x, 3, 1, 2);
    assert_eq!(x.get_u128(3) as u64 as i64, -15);
    op::mulh(&mut x, 4, 1, 2);
    assert_eq!(x.get_u128(4) as u64 as i64, -1);
    op::mulhu(&mut x, 5, 1, 2);
    assert_eq!(x.get_u128(5) as u64, 4);
}

#[test]
fn sc_succeeds_only_with_reservation() {
    let mut bus = Bus::new();
    let p = Peripheral::new(String::from("ram"), 0x1000, Device::Flash(Flash::new(0x1000)));
    bus.attach(0, p);
    let mut x = RvRegisters::new(64, 32);
    let mut ctx = AtomicCtx::new(64);
    x.set_u128(1, 0x100);
    x.set_u128(2, 0xdead);
    assert!(amo::lr(&mut ctx, false, false, 3, &mut x, 5, 1, 0, &mut bus).is_none());
    assert_eq!(x.get_u128(5), 0);
    assert!(ctx.check(0x100));
    assert!(amo::sc(&mut ctx, false, false, 3, &mut x, 6, 1, 2, &mut bus).is_none());
    assert_eq!(x.get_u128(6), 0);
    assert!(!ctx.check(0x100));
    let stored = bus.fetch(8, 0x100).unwrap();
    assert_eq!(u64::from_le_bytes(stored.try_into().unwrap()), 0xdead);
    // the reservation was consumed: a second store-conditional fails
    assert!(amo::sc(&mut ctx, false, false, 3, &mut x, 7, 1, 2, &mut bus).is_none());
    assert_eq!(x.get_u128(7), 1);
}

#[test]
fn sc_to_other_address_fails() {
    let mut bus = Bus::new();
    let p = Peripheral::new(String::from("ram"), 0x1000, Device::Flash(Flash::new(0x1000)));
    bus.attach(0, p);
    let mut x = RvRegisters::new(64, 32);
    let mut ctx = AtomicCtx::new(64);
    x.set_u128(1, 0x100);
    x.set_u128(2, 0x108);
    x.set_u128(3, 0x55);
    assert!(amo::lr(&mut ctx, false, false, 3, &mut x, 5, 1, 0, &mut bus).is_none());
    // store-conditional to a different address than the reservation
    assert!(amo::sc(&mut ctx, false, false, 3, &mut x, 6, 2, 3, &mut bus).is_none());
    assert_eq!(x.get_u128(6), 1);
    assert!(!ctx.check(0x100));
}

#[test]
fn amoadd_read_modify_write() {
    let mut bus = Bus::new();
    let p = Peripheral::new(String::from("ram"), 0x1000, Device::Flash(Flash::new(0x1000)));
    bus.attach(0, p);
    let init = 40u64.to_le_bytes().to_vec();
    assert!(bus.store(8, 0x200, &init).is_none());
    let mut x = RvRegisters::new(64, 32);
    x.set_u128(1, 0x200);
    x.set_u128(2, 2);
    assert!(amo::add(false, false, 3, &mut x, 5, 1, 2, &mut bus).is_none());
    assert_eq!(x.get_u128(5), 40);
    let stored = bus.fetch(8, 0x200).unwrap();
    assert_eq!(u64::from_le_bytes(stored.try_into().unwrap()), 42);
}

#[test]
fn uncovered_address_faults() {
    let mut vsoc = Vsoc::new("rv64imac_zicsr_zifencei");
    // fetching and storing far outside every mapping
    assert!(vsoc.bus.fetch(4, 0x1000).is_err());
    let word = vec![0u8; 4];
    assert!(vsoc.bus.store(4, 0x1000, &word).is_some());
}

#[test]
fn uart_transmit_is_logged() {
    let mut vsoc = Vsoc::new("rv64imac_zicsr_zifencei");
    let byte = (b'H' as u32).to_le_bytes().to_vec();
    assert!(vsoc.bus.store(4, UART_ADDR + 0x1000, &byte).is_none());
    let out = vsoc.take_uart_output();
    assert_eq!(out, vec![b'H']);
    let empty = vsoc.take_uart_output();
    assert!(empty.is_empty());
}

#[test]
fn zero_register_stays_zero() {
    let mut vsoc = Vsoc::new("rv64imac_zicsr_zifencei");
    // addi x0, x0, 7: writes the zero register, which must read zero after
    let image = 0x00700013u32.to_le_bytes().to_vec();
    vsoc.load(&image);
    assert!(vsoc.step().is_none());
    let CpuCore::CoreRv(hart) = &vsoc.cpu.core;
    assert_eq!(hart.x.get(0).to_u64(), 0);
}

#[test]
fn csr_instructions_read_and_write() {
    let mut vsoc = Vsoc::new("rv64imac_zicsr_zifencei");
    // csrrwi mscratch, 5 (zimm rs1=5): funct12=0x340, funct3=5, rd=1
    let csrrwi = (0x340u32 << 20) | (5 << 15) | (5 << 12) | (1 << 7) | 0x73;
    // csrrs x2, mscratch, x0 (pure read)
    let csrr = (0x340u32 << 20) | (0 << 15) | (2 << 12) | (2 << 7) | 0x73;
    let mut image: Vec<u8> = Vec::new();
    image.extend_from_slice(&csrrwi.to_le_bytes());
    image.extend_from_slice(&csrr.to_le_bytes());
    vsoc.load(&image);
    assert!(vsoc.step().is_none());
    assert!(vsoc.step().is_none());
    let CpuCore::CoreRv(hart) = &vsoc.cpu.core;
    assert_eq!(hart.x.get(2).to_u64(), 5);
}

#[test]
fn readonly_csr_write_is_silent() {
    let mut vsoc = Vsoc::new("rv64imac_zicsr_zifencei");
    // csrrwi cycle, 5: the target is read-only, the write is dropped
    let csrrwi = (0xc00u32 << 20) | (5 << 15) | (5 << 12) | (1 << 7) | 0x73;
    // csrrs x2, cycle, x0
    let csrr = (0xc00u32 << 20) | (0 << 15) | (2 << 12) | (2 << 7) | 0x73;
    let mut image: Vec<u8> = Vec::new();
    image.extend_from_slice(&csrrwi.to_le_bytes());
    image.extend_from_slice(&csrr.to_le_bytes());
    vsoc.load(&image);
    assert!(vsoc.step().is_none());
    assert!(vsoc.step().is_none());
    let CpuCore::CoreRv(hart) = &vsoc.cpu.core;
    assert_eq!(hart.x.get(2).to_u64(), 0);
}

#[test]
fn illegal_instruction_is_reported() {
    let mut vsoc = Vsoc::new("rv64i");
    // an atomic instruction without the A extension
    let amoadd = (0u32 << 27) | (0 << 20) | (0 << 15) | (3 << 12) | (5 << 7) | 0x2f;
    let image = amoadd.to_le_bytes().to_vec();
    vsoc.load(&image);
    match vsoc.step() {
        Some(VsocException::InstructionIllegal) => (),
        _ => assert!(false),
    }
}

#[test]
fn fetch_outside_memory_faults() {
    let mut vsoc = Vsoc::new("rv64imac_zicsr_zifencei");
    vsoc.cpu.set_pc(0x1000);
    match vsoc.step() {
        Some(VsocException::InstructionAccessFault) => (),
        _ => assert!(false),
    }
}

#[test]
fn arch_descriptions_are_checked() {
    assert!(vemu::hart::arch_is_valid("rv64imac_zicsr_zifencei"));
    assert!(vemu::hart::arch_is_valid("rv32i"));
    assert!(vemu::hart::arch_is_valid("rv128i"));
    assert!(!vemu::hart::arch_is_valid("x86"));
    // floating point requires the CSR bank
    assert!(!vemu::hart::arch_is_valid("rv64if"));
    assert!(vemu::hart::arch_is_valid("rv64if_zicsr"));
}

#[test]
fn loads_extend_and_stores_truncate() {
    let mut bus = Bus::new();
    let p = Peripheral::new(String::from("ram"), 0x1000, Device::Flash(Flash::new(0x1000)));
    bus.attach(0, p);
    let mut x = RvRegisters::new(64, 32);
    x.set_u128(1, 0x20);
    x.set_u128(2, 0xffff_ffff_ffff_ff80u64 as u128);
    assert!(vemu::instr::store::sb(&mut x, 1, 2, 0, &mut bus).is_ok());
    assert!(vemu::instr::load::lb(&mut x, 3, 1, 0, &mut bus).is_ok());
    assert_eq!(x.get_u128(3), 0xffff_ffff_ffff_ff80u64 as u128);
    assert!(vemu::instr::load::lbu(&mut x, 4, 1, 0, &mut bus).is_ok());
    assert_eq!(x.get_u128(4), 0x80);
}

#[test]
fn store_outside_memory_faults() {
    let mut vsoc = Vsoc::new("rv64imac_zicsr_zifencei");
    // sb x1, 16(x0): address 16 is covered by no mapping
    let sb = (0u32 << 25) | (1 << 20) | (0 << 15) | (0 << 12) | (16 << 7) | 0x23;
    let image = sb.to_le_bytes().to_vec();
    vsoc.load(&image);
    match vsoc.step() {
        Some(VsocException::StoreAccessFault) => (),
        _ => assert!(false),
    }
}

#[test]
fn wide_hart_executes() {
    let mut vsoc = Vsoc::new("rv128i");
    // addi x1, x0, 5 at the 128-bit register width
    let image = 0x00500093u32.to_le_bytes().to_vec();
    vsoc.load(&image);
    assert!(vsoc.step().is_none());
    let CpuCore::CoreRv(hart) = &vsoc.cpu.core;
    assert_eq!(hart.x.get(1).to_u128(), 5);
    assert_eq!(hart.pc.to_u128(), (LOAD_ADDR + 4) as u128);
}

#[test]
fn embedded_register_file_has_sixteen_registers() {
    let mut vsoc = Vsoc::new("rv32e");
    // addi x1, x0, 5 still works with the embedded register file
    let image = 0x00500093u32.to_le_bytes().to_vec();
    vsoc.load(&image);
    assert!(vsoc.step().is_none());
    let CpuCore::CoreRv(hart) = &vsoc.cpu.core;
    assert_eq!(hart.x.count, 16);
    assert_eq!(hart.x.get(1).to_u32(), 5);
}

#[test]
fn raw_bytes_wrap_as_instruction_words() {
    let word = vec![0x93u8, 0x00, 0x50, 0x00];
    match Instr::from_bytes(&word) {
        Instr::Instr32(raw) => assert_eq!(raw, 0x00500093),
        _ => assert!(false),
    }
    let short = vec![0x93u8, 0x00];
    assert!(matches!(Instr::from_bytes(&short), Instr::Invalid));
}

#[test]
fn compressed_shapes_classify_and_signal_illegal() {
    let mut vsoc = Vsoc::new("rv64imac_zicsr_zifencei");
    // a 16-bit compressed encoding (low bits 01): execution is unimplemented
    let image = 0x00000001u32.to_le_bytes().to_vec();
    vsoc.load(&image);
    match vsoc.step() {
        Some(VsocException::InstructionIllegal) => (),
        _ => assert!(false),
    }
}

#[test]
fn sc_fault_consumes_reservation() {
    let mut bus = Bus::new();
    let p = Peripheral::new(String::from("ram"), 0x1000, Device::Flash(Flash::new(0x1000)));
    bus.attach(0, p);
    let mut x = RvRegisters::new(64, 32);
    let mut ctx = AtomicCtx::new(64);
    // reserve an address no mapping covers: the load faults but reserves
    x.set_u128(1, 0x2000);
    x.set_u128(2, 0x55);
    assert!(amo::lr(&mut ctx, false, false, 3, &mut x, 5, 1, 0, &mut bus).is_some());
    assert!(ctx.check(0x2000));
    // the store-conditional faults too, and still consumes the reservation
    assert!(amo::sc(&mut ctx, false, false, 3, &mut x, 6, 1, 2, &mut bus).is_some());
    assert!(!ctx.check(0x2000));
}

#[test]
fn sextend_handles_sub_byte_widths() {
    // a 3-bit source: 0b101 reads as -3 and widens to 32 bits
    let mut v = Uint::from_u8(0b101);
    let v = v.sextend(32, 3);
    assert_eq!(v.to_i32(), -3);
    let mut v = Uint::from_u8(0b001);
    let v = v.sextend(32, 3);
    assert_eq!(v.to_u32(), 1);
}

#[test]
fn mulh_families_at_wide_width() {
    let mut x = RvRegisters::new(128, 32);
    x.set_u128(1, (-3i128) as u128);
    x.set_u128(2, 5);
    op::mulh(&mut x, 3, 1, 2);
    // the 256-bit product of -3 and 5 is -15: its upper half is all-ones
    assert_eq!(x.get_u128(3), u128::MAX);
    op::mulhu(&mut x, 4, 1, 2);
    // (2^128 - 3) * 5 == 5 * 2^128 - 15: the unsigned upper half is 4
    assert_eq!(x.get_u128(4), 4);
    op::mulhsu(&mut x, 5, 1, 2);
    assert_eq!(x.get_u128(5), u128::MAX);
    x.set_u128(1, u128::MAX);
    x.set_u128(2, u128::MAX);
    op::mulhu(&mut x, 6, 1, 2);
    // (2^128 - 1)^2 == 2^256 - 2^129 + 1: the upper half is 2^128 - 2
    assert_eq!(x.get_u128(6), u128::MAX - 1);
    op::mulh(&mut x, 7, 1, 2);
    // (-1) * (-1) == 1: the signed upper half is zero
    assert_eq!(x.get_u128(7), 0);
}

#[test]
fn cas_word_swaps_on_match() {
    let mut bus = Bus::new();
    let p = Peripheral::new(String::from("ram"), 0x1000, Device::Flash(Flash::new(0x1000)));
    bus.attach(0, p);
    let init = 7u32.to_le_bytes().to_vec();
    assert!(bus.store(4, 0x40, &init).is_none());
    let mut x = RvRegisters::new(64, 32);
    x.set_u128(1, 0x40);
    x.set_u128(2, 7);  // expected value
    x.set_u128(3, 9);  // replacement
    assert!(amo::cas(false, false, 2, &mut x, 2, 1, 3, &mut bus).is_none());
    assert_eq!(x.get_u128(2), 7);
    let stored = bus.fetch(4, 0x40).unwrap();
    assert_eq!(u32::from_le_bytes(stored.try_into().unwrap()), 9);
    // a second attempt with a stale expectation leaves memory alone
    x.set_u128(2, 7);
    assert!(amo::cas(false, false, 2, &mut x, 2, 1, 3, &mut bus).is_none());
    assert_eq!(x.get_u128(2), 9);
    let stored = bus.fetch(4, 0x40).unwrap();
    assert_eq!(u32::from_le_bytes(stored.try_into().unwrap()), 9);
}

#[test]
fn cas_quad_uses_register_pairs() {
    let mut bus = Bus::new();
    let p = Peripheral::new(String::from("ram"), 0x1000, Device::Flash(Flash::new(0x1000)));
    bus.attach(0, p);
    let lo = 0x1111u64.to_le_bytes().to_vec();
    let hi = 0x2222u64.to_le_bytes().to_vec();
    assert!(bus.store(8, 0x100, &lo).is_none());
    assert!(bus.store(8, 0x108, &hi).is_none());
    let mut x = RvRegisters::new(64, 32);
    x.set_u128(1, 0x100);
    x.set_u128(4, 0x1111);
    x.set_u128(5, 0x2222);
    x.set_u128(6, 0xaaaa);
    x.set_u128(7, 0xbbbb);
    // amocas.q on a 64-bit hart: both halves compared and swapped together
    assert!(amo::cas(false, false, 4, &mut x, 4, 1, 6, &mut bus).is_none());
    assert_eq!(x.get_u128(4), 0x1111);
    assert_eq!(x.get_u128(5), 0x2222);
    let w0 = bus.fetch(8, 0x100).unwrap();
    assert_eq!(u64::from_le_bytes(w0.try_into().unwrap()), 0xaaaa);
    let w1 = bus.fetch(8, 0x108).unwrap();
    assert_eq!(u64::from_le_bytes(w1.try_into().unwrap()), 0xbbbb);
    // a mismatched pair only reads the current values back
    x.set_u128(4, 0x1111);
    x.set_u128(5, 0x2222);
    assert!(amo::cas(false, false, 4, &mut x, 4, 1, 6, &mut bus).is_none());
    assert_eq!(x.get_u128(4), 0xaaaa);
    assert_eq!(x.get_u128(5), 0xbbbb);
    let w0 = bus.fetch(8, 0x100).unwrap();
    assert_eq!(u64::from_le_bytes(w0.try_into().unwrap()), 0xaaaa);
}

#[test]
fn cas_quad_rejected_on_narrow_hart() {
    let mut vsoc = Vsoc::new("rv32imac_zicsr");
    // amocas.q x2, x3, (x1): the quad width needs at least a 64-bit hart
    let word = (0x14u32 << 25) | (3 << 20) | (1 << 15) | (4 << 12) | (2 << 7) | 0x2f;
    let image = word.to_le_bytes().to_vec();
    vsoc.load(&image);
    match vsoc.step() {
        Some(VsocException::InstructionIllegal) => (),
        _ => assert!(false),
    }
}

#[test]
fn mulh_executes_on_wide_hart() {
    let mut vsoc = Vsoc::new("rv128im_zicsr");
    // addi x1, x0, -3; addi x2, x0, 5; mulh x3, x1, x2
    let addi1 = (0xffdu32 << 20) | (0 << 15) | (0 << 12) | (1 << 7) | 0x13;
    let addi2 = (5u32 << 20) | (0 << 15) | (0 << 12) | (2 << 7) | 0x13;
    let mulh = (1u32 << 25) | (2 << 20) | (1 << 15) | (1 << 12) | (3 << 7) | 0x33;
    let mut image: Vec<u8> = Vec::new();
    image.extend_from_slice(&addi1.to_le_bytes());
    image.extend_from_slice(&addi2.to_le_bytes());
    image.extend_from_slice(&mulh.to_le_bytes());
    vsoc.load(&image);
    assert!(vsoc.step().is_none());
    assert!(vsoc.step().is_none());
    assert!(vsoc.step().is_none());
    let CpuCore::CoreRv(hart) = &vsoc.cpu.core;
    assert_eq!(hart.x.get(3).to_u128(), u128::MAX);
}
