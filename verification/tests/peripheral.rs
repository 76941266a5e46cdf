//! Tests for the peripheral wrapper's bounds checks.

use vemu::flash::Flash;
use vemu::peripheral::{Device, Peripheral, PeripheralInterface};

#[test]
fn test_store_peripheral() {
    let io = Flash::new(0x1000);
    let mut p: Peripheral = Peripheral::new(String::from("test"), 0x1000, Device::Flash(io));

    assert!(p.store(1, 0x0, &[0u8; 1].to_vec()).is_none());
    assert!(p.store(1, 0x1000, &[0u8; 1].to_vec()).is_some());
}

#[test]
fn test_fetch_peripheral() {
    let io = Flash::new(0x1000);
    let mut p: Peripheral = Peripheral::new(String::from("test"), 0x1000, Device::Flash(io));

    assert!(p.store(8, 0x0, &u64::to_le_bytes(0xfee1c001fee1c001).to_vec()).is_none());
    assert_eq!(
        u64::from_le_bytes(p.fetch(8, 0x0).unwrap().try_into().unwrap()),
        0xfee1c001fee1c001
    );
    assert!(p.fetch(8, 0x1000).is_err());
}
