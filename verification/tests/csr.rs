//! Tests for the CSR bank's permissions and composite sub-fields.

use vemu::csr;
use vemu::csr::Csr;
use vemu::ext::RvExtensions;
use vemu::uint::Uint;

#[test]
fn test_write_allowed() {
    assert_eq!(csr::write_is_allowed(0x000), true);
    assert_eq!(csr::write_is_allowed(0xc00), false);
    assert_eq!(csr::write_is_allowed(0xfff), false);
}

#[test]
fn test_read_allowed() {
    assert_eq!(csr::read_is_allowed(0x000), true);
    assert_eq!(csr::read_is_allowed(0xc00), true);
    assert_eq!(csr::read_is_allowed(0xfff), true);
}

#[test]
fn readonly_address_rejects_write_but_reads() {
    let mut bank = Csr::new(64, &RvExtensions::none());
    bank.set(0xc01, &Uint::from_u64(5));
    let v = bank.get(0xc01).unwrap();
    assert_eq!(v.to_u64(), 0);
    bank.set(csr::MSCRATCH, &Uint::from_u64(7));
    assert_eq!(bank.get(csr::MSCRATCH).unwrap().to_u64(), 7);
}

#[test]
fn composite_fcsr_fields() {
    let mut bank = Csr::new(64, &RvExtensions::none());
    bank.set(csr::FCSR, &Uint::from_u64(0x63));
    assert_eq!(bank.get(csr::FFLAGS).unwrap().to_u64(), 0x03);
    assert_eq!(bank.get(csr::FRM).unwrap().to_u64(), 0x3);
    bank.set(csr::FFLAGS, &Uint::from_u64(0x1f));
    assert_eq!(bank.get(csr::FCSR).unwrap().to_u64(), 0x7f);
    bank.set(csr::FRM, &Uint::from_u64(0x1));
    assert_eq!(bank.get(csr::FCSR).unwrap().to_u64(), 0x3f);
    assert_eq!(bank.get(csr::FRM).unwrap().to_u64(), 0x1);
}
