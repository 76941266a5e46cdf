//! Tests for the cell-backed memory device.

use vemu::exception::BusException;
use vemu::flash::Flash;
use vemu::peripheral::PeripheralInterface;

#[test]
fn getters() {
    let flash: Flash = Flash::new(16);

    assert_eq!(flash.size(), 16);
}

#[test]
fn fetch_above_length() {
    let mut flash: Flash = Flash::new(16);

    assert!(flash.fetch(1, 0x10).is_err());
    assert!(flash.fetch(2, 0x10).is_err());
    assert!(flash.fetch(4, 0x10).is_err());
    assert!(flash.fetch(8, 0x10).is_err());

    assert!(flash.fetch(1, 0x10).is_err());
    assert!(flash.fetch(2, 0x0f).is_err());
    assert!(flash.fetch(4, 0x0d).is_err());
    assert!(flash.fetch(8, 0x09).is_err());
}

#[test]
fn store_fetch_width1() {
    let mut flash: Flash = Flash::new(16);

    assert!(flash.store(1, 0x0, &[0x78; 1].to_vec()).is_none());
    assert_eq!(u8::from_le_bytes(flash.fetch(1, 0x0).unwrap().try_into().unwrap()), 0x78);

    assert!(flash.store(1, 0x1, &[0x78; 1].to_vec()).is_none());
    assert_eq!(u8::from_le_bytes(flash.fetch(1, 0x1).unwrap().try_into().unwrap()), 0x78);

    assert!(flash.store(1, 0x2, &[0x78; 1].to_vec()).is_none());
    assert_eq!(u8::from_le_bytes(flash.fetch(1, 0x2).unwrap().try_into().unwrap()), 0x78);

    assert!(flash.store(1, 0x3, &[0x78; 1].to_vec()).is_none());
    assert_eq!(u8::from_le_bytes(flash.fetch(1, 0x3).unwrap().try_into().unwrap()), 0x78);
}

#[test]
fn store_fetch_width2() {
    let mut flash: Flash = Flash::new(16);

    assert!(flash.store(2, 0x0, &u16::to_le_bytes(0x5678).to_vec()).is_none());
    assert_eq!(u16::from_le_bytes(flash.fetch(2, 0x0).unwrap().try_into().unwrap()), 0x5678);

    match flash.store(2, 0x1, &u16::to_le_bytes(0x5678).to_vec()) {
        Some(BusException::StoreAddressMisaligned) => (),
        _ => assert!(false),
    }
    assert!(flash.fetch(2, 0x1).is_err());

    assert!(flash.store(2, 0x2, &u16::to_le_bytes(0x5678).to_vec()).is_none());
    assert_eq!(u16::from_le_bytes(flash.fetch(2, 0x2).unwrap().try_into().unwrap()), 0x5678);

    match flash.store(2, 0x3, &u16::to_le_bytes(0x5678).to_vec()) {
        Some(BusException::StoreAddressMisaligned) => (),
        _ => assert!(false),
    }
    assert!(flash.fetch(2, 0x3).is_err());

    assert!(flash.store(2, 0x4, &u16::to_le_bytes(0x5678).to_vec()).is_none());
    assert_eq!(u16::from_le_bytes(flash.fetch(2, 0x4).unwrap().try_into().unwrap()), 0x5678);
}

#[test]
fn store_fetch_width4() {
    let mut flash: Flash = Flash::new(16);

    assert!(flash.store(4, 0x0, &u32::to_le_bytes(0x12345678).to_vec()).is_none());
    assert_eq!(u32::from_le_bytes(flash.fetch(4, 0x0).unwrap().try_into().unwrap()), 0x12345678);

    match flash.store(4, 0x1, &u32::to_le_bytes(0x12345678).to_vec()) {
        Some(BusException::StoreAddressMisaligned) => (),
        _ => assert!(false),
    }
    assert!(flash.fetch(4, 0x1).is_err());

    match flash.store(4, 0x2, &u32::to_le_bytes(0x12345678).to_vec()) {
        Some(BusException::StoreAddressMisaligned) => (),
        _ => assert!(false),
    }
    assert!(flash.fetch(4, 0x2).is_err());

    match flash.store(4, 0x3, &u32::to_le_bytes(0x12345678).to_vec()) {
        Some(BusException::StoreAddressMisaligned) => (),
        _ => assert!(false),
    }
    assert!(flash.fetch(4, 0x3).is_err());

    assert!(flash.store(4, 0x4, &u32::to_le_bytes(0x12345678).to_vec()).is_none());
    assert_eq!(u32::from_le_bytes(flash.fetch(4, 0x4).unwrap().try_into().unwrap()), 0x12345678);
}

#[test]
fn store_fetch_width8() {
    let mut flash: Flash = Flash::new(16);

    assert!(flash.store(8, 0x0, &u64::to_le_bytes(0x1234567812345678).to_vec()).is_none());
    assert_eq!(
        u64::from_le_bytes(flash.fetch(8, 0x0).unwrap().try_into().unwrap()),
        0x1234567812345678
    );

    match flash.store(8, 0x1, &u64::to_le_bytes(0x1234567812345678).to_vec()) {
        Some(BusException::StoreAddressMisaligned) => (),
        _ => assert!(false),
    }
    assert!(flash.fetch(8, 0x1).is_err());

    match flash.store(8, 0x2, &u64::to_le_bytes(0x1234567812345678).to_vec()) {
        Some(BusException::StoreAddressMisaligned) => (),
        _ => assert!(false),
    }
    assert!(flash.fetch(8, 0x2).is_err());

    match flash.store(8, 0x3, &u64::to_le_bytes(0x1234567812345678).to_vec()) {
        Some(BusException::StoreAddressMisaligned) => (),
        _ => assert!(false),
    }
    assert!(flash.fetch(8, 0x3).is_err());

    assert!(flash.store(8, 0x4, &u64::to_le_bytes(0x1234567812345678).to_vec()).is_none());
    assert_eq!(
        u64::from_le_bytes(flash.fetch(8, 0x4).unwrap().try_into().unwrap()),
        0x1234567812345678
    );

    match flash.store(8, 0x5, &u64::to_le_bytes(0x1234567812345678).to_vec()) {
        Some(BusException::StoreAddressMisaligned) => (),
        _ => assert!(false),
    }
    assert!(flash.fetch(8, 0x5).is_err());

    match flash.store(8, 0x6, &u64::to_le_bytes(0x1234567812345678).to_vec()) {
        Some(BusException::StoreAddressMisaligned) => (),
        _ => assert!(false),
    }
    assert!(flash.fetch(8, 0x6).is_err());

    match flash.store(8, 0x7, &u64::to_le_bytes(0x1234567812345678).to_vec()) {
        Some(BusException::StoreAddressMisaligned) => (),
        _ => assert!(false),
    }
    assert!(flash.fetch(8, 0x7).is_err());

    assert!(flash.store(8, 0x8, &u64::to_le_bytes(0x1234567812345678).to_vec()).is_none());
    assert_eq!(
        u64::from_le_bytes(flash.fetch(8, 0x8).unwrap().try_into().unwrap()),
        0x1234567812345678
    );
}

#[test]
fn store_fetch_width_illegal() {
    let mut flash: Flash = Flash::new(16);

    assert!(flash.store(0x0, 0x0, &u64::to_le_bytes(0x1234567812345678).to_vec()).is_some());
    assert!(flash.store(3, 0x0, &u64::to_le_bytes(0x1234567812345678).to_vec()).is_some());
    assert!(flash.store(7, 0x0, &u64::to_le_bytes(0x1234567812345678).to_vec()).is_some());
    assert!(flash.fetch(0x0, 0x0).is_err());
    assert!(flash.fetch(3, 0x0).is_err());
    assert!(flash.fetch(7, 0x0).is_err());
}
