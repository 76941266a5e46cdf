//! Tests for the width-generic integer value type.

use vemu::uint::Uint;

#[test]
fn test_uint_from_num() {
    let value = Uint::from_i32(42);
    assert_eq!(value.to_u8(), 42);
    let value = Uint::from_u16(42u16);
    assert_eq!(value.to_u16(), 42);
    let value = Uint::from_u32(42u32);
    assert_eq!(value.to_u32(), 42);
    let value = Uint::from_u64(42u64);
    assert_eq!(value.to_u64(), 42);
    let value = Uint::from_u128(42u128);
    assert_eq!(value.to_u128(), 42);
    let value = Uint::from_i8(42i8);
    assert_eq!(value.to_i8(), 42);
    let value = Uint::from_i16(42i16);
    assert_eq!(value.to_i16(), 42);
    let value = Uint::from_i32(42i32);
    assert_eq!(value.to_i32(), 42);
    let value = Uint::from_i64(42i64);
    assert_eq!(value.to_i64(), 42);
    let value = Uint::from_i128(42i128);
    assert_eq!(value.to_i128(), 42);
}

#[test]
fn test_uint_from_uint() {
    let value = Uint::from_u8(42u8);
    assert_eq!(value.to_u8(), 42);
    let value = Uint::from_u16(42u16);
    assert_eq!(value.to_u16(), 42);
    let value = Uint::from_u32(42u32);
    assert_eq!(value.to_u32(), 42);
    let value = Uint::from_u64(42u64);
    assert_eq!(value.to_u64(), 42);
    let value = Uint::from_u128(42u128);
    assert_eq!(value.to_u128(), 42);
    let value = Uint::from_i8(42i8);
    assert_eq!(value.to_i8(), 42);
    let value = Uint::from_i16(42i16);
    assert_eq!(value.to_i16(), 42);
    let value = Uint::from_i32(42i32);
    assert_eq!(value.to_i32(), 42);
    let value = Uint::from_i64(42i64);
    assert_eq!(value.to_i64(), 42);
    let value = Uint::from_i128(42i128);
    assert_eq!(value.to_i128(), 42);
}

#[test]
fn test_uint_sextend() {
    let mut value = Uint::from_i32(42);
    let value = value.sextend(64, 32);
    assert_eq!(value.to_u64(), 42);

    let mut value = Uint::from_i32(42);
    let mut value = value.sextend(64, 32);
    let value = value.sextend(128, 64);
    assert_eq!(value.to_u128(), 42);

    let mut value = Uint::from_u8(0x80u8);
    let value = value.sextend(32, 8);
    assert_eq!(value.to_u32(), 0xffffff80);

    let mut value = Uint::from_u8(0x80u8);
    let value = value.sextend(64, 8);
    assert_eq!(value.to_u64(), 0xffffffffffffff80);

    let mut value = Uint::from_u8(0x80u8);
    let value = value.sextend(128, 8);
    assert_eq!(value.to_u128(), 0xffffffffffffffffffffffffffffff80);
}

#[test]
fn test_uint_truncate() {
    let mut value = Uint::from_i32(42);
    value.truncate(32);
    assert_eq!(value.to_u32(), 42);

    let mut value = Uint::from_i32(42);
    value.truncate(64);
    assert_eq!(value.to_u64(), 42);

    let mut value = Uint::from_i32(42);
    value.truncate(128);
    assert_eq!(value.to_u128(), 42);

    let mut value = Uint::from_u8(0x80u8);
    value.truncate(8);
    assert_eq!(value.to_u8(), 0x80);

    let mut value = Uint::from_u8(0x80u8);
    value.truncate(32);
    assert_eq!(value.to_u32(), 0x80);

    let mut value = Uint::from_u8(0x80u8);
    value.truncate(64);
    assert_eq!(value.to_u64(), 0x80);

    let mut value = Uint::from_u8(0x80u8);
    value.truncate(128);
    assert_eq!(value.to_u128(), 0x80);
}

#[test]
fn test_partial_eq() {
    let value = Uint::from_u32(256u32);

    assert_eq!(value, Uint::from_u32(256u32));
    assert_ne!(value, Uint::from_u32(257u32));

    assert_eq!(value, Uint::from_u32(256u32));
    assert_ne!(value, Uint::from_u32(0xfffffu32));
}

#[test]
fn test_partial_ord_ge() {
    let value = Uint::from_u32(256u32);

    assert!(value >= Uint::from_u32(255u32));
    assert!(value >= Uint::from_u32(254u32));
    assert!(value >= Uint::from_u32(253u32));
    assert!(value >= Uint::from_u32(252u32));
    assert!(value >= Uint::from_u32(251u32));
    assert!(value >= Uint::from_u32(250u32));
    assert!(value >= Uint::from_u32(249u32));
    assert!(value >= Uint::from_u32(248u32));
    assert!(value >= Uint::from_u32(247u32));
    assert!(value >= Uint::from_u32(246u32));
    assert!(value >= Uint::from_u32(245u32));
    assert!(value >= Uint::from_u32(244u32));
    assert!(value >= Uint::from_u32(243u32));
    assert!(value >= Uint::from_u32(242u32));
    assert!(value >= Uint::from_u32(241u32));
    assert!(value >= Uint::from_u32(240u32));
    assert!(value >= Uint::from_u32(239u32));
    assert!(value >= Uint::from_u32(238u32));
    assert!(value >= Uint::from_u32(237u32));
    assert!(value >= Uint::from_u32(236u32));
}

#[test]
fn test_partial_ord_lt() {
    let value = Uint::from_u32(255u32);

    assert!(value < Uint::from_u32(256u32));
    assert!(value < Uint::from_u32(257u32));
    assert!(value < Uint::from_u32(0xfffffu32));
}

#[test]
fn test_add() {
    let value = Uint::from_u32(42u32).wrapping_add(&Uint::from_u32(42u32));
    assert_eq!(value.to_u32(), 84);

    let value = Uint::from_u64(42u64).wrapping_add(&Uint::from_u64(42u64));
    assert_eq!(value.to_u64(), 84);

    let value = Uint::from_u128(42u128).wrapping_add(&Uint::from_u128(42u128));
    assert_eq!(value.to_u128(), 84);

    let value = Uint::from_i32(42i32).wrapping_add(&Uint::from_i32(42i32));
    assert_eq!(value.to_i32(), 84);

    let value = Uint::from_i64(42i64).wrapping_add(&Uint::from_i64(42i64));
    assert_eq!(value.to_i64(), 84);

    let value = Uint::from_i128(42i128).wrapping_add(&Uint::from_i128(42i128));
    assert_eq!(value.to_i128(), 84);

    let value = Uint::from_u32(255u32).wrapping_add(&Uint::from_u32(1u32));
    assert_eq!(value.to_u32(), 256u32);
}

#[test]
fn test_roundtrip_negative() {
    let value = Uint::from_i8(-5i8);
    assert_eq!(value.to_i8(), -5);
    let value = Uint::from_i16(-300i16);
    assert_eq!(value.to_i16(), -300);
    let value = Uint::from_i32(i32::MIN);
    assert_eq!(value.to_i32(), i32::MIN);
    let value = Uint::from_i64(i64::MIN);
    assert_eq!(value.to_i64(), i64::MIN);
    let value = Uint::from_i128(i128::MIN);
    assert_eq!(value.to_i128(), i128::MIN);
    let value = Uint::from_u64(u64::MAX);
    assert_eq!(value.to_u64(), u64::MAX);
}

#[test]
fn test_wrapping_add_overflow() {
    let value = Uint::from_u32(u32::MAX).wrapping_add(&Uint::from_u32(1u32));
    assert_eq!(value.to_u32(), 0);
    let value = Uint::from_u64(u64::MAX).wrapping_add(&Uint::from_u64(2u64));
    assert_eq!(value.to_u64(), 1);
}

#[test]
fn test_bit_operations() {
    let a = Uint::from_u32(0xf0f0_1234);
    let b = Uint::from_u32(0x0ff0_00ff);
    assert_eq!(a.bitand(&b).to_u32(), 0xf0f0_1234 & 0x0ff0_00ff);
    assert_eq!(a.bitor(&b).to_u32(), 0xf0f0_1234 | 0x0ff0_00ff);
    assert_eq!(a.bitxor(&b).to_u32(), 0xf0f0_1234 ^ 0x0ff0_00ff);
    assert_eq!(a.not().to_u32(), !0xf0f0_1234u32);
    let sh = Uint::from_u32(4);
    assert_eq!(a.shl(&sh).to_u32(), 0xf0f0_1234u32 << 4);
    assert_eq!(a.shr(&sh).to_u32(), 0xf0f0_1234u32 >> 4);
}

#[test]
fn test_zero_one_ones() {
    assert_eq!(Uint::zero(64).to_u64(), 0);
    assert_eq!(Uint::one(64).to_u64(), 1);
    assert_eq!(Uint::ff_ff(64).to_u64(), u64::MAX);
    assert_eq!(Uint::ff_ff(32).to_u32(), u32::MAX);
}
