//! Tests for bus routing: covered and uncovered addresses, and unaligned
//! access decomposition.

use vemu::bus::Bus;
use vemu::flash::Flash;
use vemu::peripheral::{Device, Peripheral};

#[test]
fn test_fetch() {
    let mut b: Bus = Bus::new();
    let p = Peripheral::new(String::from("test"), 0x1000, Device::Flash(Flash::new(0x1000)));

    b.attach(0x8000_0000, p);

    let one = vec![0x01u8];
    assert!(b.store(1, 0x8000_0000, &one).is_none());
    assert!(b.fetch(1, 0x8000_0000 - 1).is_err());
    assert_eq!(
        u8::from_le_bytes(b.fetch(1, 0x8000_0000).unwrap().try_into().unwrap()),
        0x01
    );
    assert!(b.fetch(1, 0x8000_1000).is_err());
}

#[test]
fn test_store() {
    let mut b: Bus = Bus::new();
    let p = Peripheral::new(String::from("test"), 0x1000, Device::Flash(Flash::new(0x1000)));

    b.attach(0x8000_0000, p);

    let one = vec![1u8];
    let zero = vec![0u8];
    assert!(b.store(1, 0x8000_0000 - 1, &one).is_some());
    assert!(b.store(1, 0x8000_0000, &zero).is_none());
    assert!(b.store(1, 0x8000_1000, &zero).is_some());
}

#[test]
fn unaligned_fetch_decomposes() {
    let mut b: Bus = Bus::new();
    let p = Peripheral::new(String::from("test"), 0x1000, Device::Flash(Flash::new(0x1000)));
    b.attach(0, p);
    let word = vec![0x11u8, 0x22, 0x33, 0x44];
    assert!(b.store(4, 0, &word).is_none());
    let half = b.fetch(2, 1).unwrap();
    assert_eq!(half, vec![0x22u8, 0x33]);
}
