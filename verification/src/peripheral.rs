//! The device contract and the peripheral wrapper the bus attaches.
//!
//! Every device implements [`PeripheralInterface`]: a byte-addressable
//! `fetch`/`store` pair whose exact behavior is given by the trait's spec
//! functions over the device's abstract state.  [`Peripheral`] wraps a device
//! with a name and an extent and enforces the bounds and width rules before
//! delegating.

use vstd::prelude::*;

verus! {

use vstd::arithmetic::power2::{pow2, lemma_pow2_pos, lemma2_to64};
use vstd::arithmetic::div_mod::{lemma_small_mod, lemma_mod_bound};
use crate::exception::BusException;
use crate::flash::{Flash, FlashView, flash_inv, flash_fetch_err, flash_fetch_val,
    flash_store_err, flash_store_cells};
use crate::uart16550::{Uart16550, UartView, uart_fetch_result, uart_store_result, REG_RBR,
    REG_THR, REG_LSR, LSR_DR, LSR_THRE, LSR_TEMT};
use crate::uint::{le_val, le_bytes, le_low128, u128_to_le_bytes, lemma_le_bytes_exact,
    lemma_pow2_halves, lemma_le_val_prefix};

/// True when the executable outcome of a fetch matches the specified one.
pub open spec fn fetch_out_matches(
    spec_r: Result<Seq<u8>, BusException>,
    r: Result<Vec<u8>, BusException>,
) -> bool {
    match (spec_r, r) {
        (Ok(s), Ok(v)) => v@ == s,
        (Err(a), Err(b)) => a == b,
        _ => false,
    }
}

/// The byte-addressable device contract: `fetch` and `store` behave exactly
/// as the implementor's spec functions say, on its abstract state.
pub trait PeripheralInterface: View + Sized {
    /// The device's structural invariant.
    spec fn inv(v: Self::V) -> bool;

    /// The device state and outcome of a fetch of `width` bytes at `addr`.
    spec fn fetch_spec(v: Self::V, width: nat, addr: nat) -> (Self::V, Result<
        Seq<u8>,
        BusException,
    >);

    /// The device state and outcome of a store of `value` at `addr`.
    spec fn store_spec(v: Self::V, width: nat, addr: nat, value: Seq<u8>) -> (Self::V, Option<
        BusException,
    >);

    /// Reads `width` bytes at device offset `addr`.
    fn fetch(&mut self, width: usize, addr: usize) -> (r: Result<Vec<u8>, BusException>)
        requires
            Self::inv(old(self)@),
        ensures
            Self::inv(final(self)@),
            final(self)@ == Self::fetch_spec(old(self)@, width as nat, addr as nat).0,
            fetch_out_matches(Self::fetch_spec(old(self)@, width as nat, addr as nat).1, r),
    ;

    /// Writes the low `width` bytes of `value` at device offset `addr`.
    fn store(&mut self, width: usize, addr: usize, value: &Vec<u8>) -> (r: Option<BusException>)
        requires
            Self::inv(old(self)@),
            value@.len() >= width,
        ensures
            Self::inv(final(self)@),
            final(self)@ == Self::store_spec(old(self)@, width as nat, addr as nat, value@).0,
            r == Self::store_spec(old(self)@, width as nat, addr as nat, value@).1,
    ;
}

impl PeripheralInterface for Flash {
    open spec fn inv(v: FlashView) -> bool {
        flash_inv(v)
    }

    open spec fn fetch_spec(v: FlashView, width: nat, addr: nat) -> (FlashView, Result<
        Seq<u8>,
        BusException,
    >) {
        match flash_fetch_err(v, width, addr) {
            Some(e) => (v, Err(e)),
            None => (v, Ok(le_bytes(flash_fetch_val(v, width, addr as int), width))),
        }
    }

    open spec fn store_spec(v: FlashView, width: nat, addr: nat, value: Seq<u8>) -> (FlashView,
    Option<BusException>) {
        match flash_store_err(v, width, addr) {
            Some(e) => (v, Some(e)),
            None => (
                FlashView {
                    length: v.length,
                    cells: flash_store_cells(v, width, addr as int, le_val(value.take(width as int))),
                },
                None,
            ),
        }
    }

    fn fetch(&mut self, width: usize, addr: usize) -> (r: Result<Vec<u8>, BusException>) {
        proof {
            lemma_pow2_halves();
        }
        if width > self.length || addr > self.length - width {
            return Err(BusException::LoadAccessFault);
        }
        let align: usize = if width > 4 {
            4
        } else {
            width
        };
        if align > 1 && (addr % align > 0 || (addr + width) % align > 0) {
            return Err(BusException::LoadAddressMisaligned);
        }
        match width {
            1 => {
                let b = self.fetch8(addr);
                let v = u128_to_le_bytes(b as u128, 1);
                proof {
                    lemma_small_mod(b as nat, pow2(8));
                    lemma_le_bytes_exact(v@, b as nat, 1);
                }
                Ok(v)
            },
            2 => {
                let h = self.fetch16(addr);
                let v = u128_to_le_bytes(h as u128, 2);
                proof {
                    lemma_small_mod(h as nat, pow2(16));
                    lemma_le_bytes_exact(v@, h as nat, 2);
                }
                Ok(v)
            },
            4 => {
                let wv = self.fetch32(addr);
                let v = u128_to_le_bytes(wv as u128, 4);
                proof {
                    lemma_small_mod(wv as nat, pow2(32));
                    lemma_le_bytes_exact(v@, wv as nat, 4);
                }
                Ok(v)
            },
            8 => {
                let dv = self.fetch64(addr);
                let v = u128_to_le_bytes(dv as u128, 8);
                proof {
                    lemma_small_mod(dv as nat, pow2(64));
                    lemma_le_bytes_exact(v@, dv as nat, 8);
                }
                Ok(v)
            },
            _ => Err(BusException::LoadAccessFault),
        }
    }

    fn store(&mut self, width: usize, addr: usize, value: &Vec<u8>) -> (r: Option<BusException>) {
        proof {
            lemma_pow2_halves();
        }
        if width > self.length || addr > self.length - width {
            return Some(BusException::StoreAccessFault);
        }
        let align: usize = if width > 4 {
            4
        } else {
            width
        };
        if align > 1 && (addr % align > 0 || (addr + width) % align > 0) {
            return Some(BusException::StoreAddressMisaligned);
        }
        let x = le_low128(value, if width <= 16 {
            width
        } else {
            16
        });
        match width {
            1 => {
                proof {
                    lemma_le_val_prefix(value@, 1);
                    lemma_mod_bound(le_val(value@) as int, pow2(8) as int);
                }
                self.store8(addr, (x % 256) as u8);
                None
            },
            2 => {
                proof {
                    lemma_le_val_prefix(value@, 2);
                    lemma_mod_bound(le_val(value@) as int, pow2(16) as int);
                }
                self.store16(addr, (x % 0x10000) as u16);
                None
            },
            4 => {
                proof {
                    lemma_le_val_prefix(value@, 4);
                    lemma_mod_bound(le_val(value@) as int, pow2(32) as int);
                }
                self.store32(addr, (x % 0x100000000) as u32);
                None
            },
            8 => {
                proof {
                    lemma_le_val_prefix(value@, 8);
                    lemma_mod_bound(le_val(value@) as int, pow2(64) as int);
                }
                self.store64(addr, (x % 0x10000000000000000) as u64);
                None
            },
            _ => Some(BusException::StoreAccessFault),
        }
    }
}

impl PeripheralInterface for Uart16550 {
    open spec fn inv(v: UartView) -> bool {
        true
    }

    open spec fn fetch_spec(v: UartView, width: nat, addr: nat) -> (UartView, Result<
        Seq<u8>,
        BusException,
    >) {
        uart_fetch_result(v, width, addr)
    }

    open spec fn store_spec(v: UartView, width: nat, addr: nat, value: Seq<u8>) -> (UartView,
    Option<BusException>) {
        uart_store_result(v, width, addr, value)
    }

    fn fetch(&mut self, width: usize, addr: usize) -> (r: Result<Vec<u8>, BusException>) {
        proof {
            lemma_pow2_halves();
        }
        if width != 4 && addr % 4 != 0 {
            return Err(BusException::LoadAddressMisaligned);
        }
        if addr == REG_RBR {
            self.lsr = self.lsr & !LSR_DR;
            let v = u128_to_le_bytes(self.rbr as u128, 4);
            proof {
                lemma_small_mod(self.rbr as nat, pow2(32));
                lemma_le_bytes_exact(v@, self.rbr as nat, 4);
            }
            Ok(v)
        } else if addr == REG_LSR {
            let v = u128_to_le_bytes(self.lsr as u128, 4);
            proof {
                lemma_small_mod(self.lsr as nat, pow2(32));
                lemma_le_bytes_exact(v@, self.lsr as nat, 4);
            }
            Ok(v)
        } else {
            let v = u128_to_le_bytes(0u128, 4);
            proof {
                lemma_small_mod(0nat, pow2(32));
                lemma_le_bytes_exact(v@, 0nat, 4);
            }
            Ok(v)
        }
    }

    fn store(&mut self, width: usize, addr: usize, value: &Vec<u8>) -> (r: Option<BusException>) {
        if width != 4 && addr % 4 != 0 {
            return Some(BusException::StoreAddressMisaligned);
        }
        if addr == REG_THR {
            if self.lsr & LSR_THRE == LSR_THRE {
                let t = le_low128(value, 4) as u32;
                proof {
                    lemma_pow2_halves();
                    lemma_mod_bound(le_val(value@) as int, pow2(32) as int);
                }
                self.thr = t;
                self.tx.push((t % 256) as u8);
                self.lsr = self.lsr | LSR_THRE | LSR_TEMT;
            }
            None
        } else if addr == REG_LSR {
            self.lsr = self.lsr & 0xff;
            None
        } else {
            None
        }
    }
}

/// One attached device: the memory regions and the UART of the default
/// system-on-chip wiring.
#[derive(Debug)]
pub enum Device {
    Flash(Flash),
    Uart(Uart16550),
}

/// The abstract state of an attached device.
pub enum DeviceView {
    Flash(FlashView),
    Uart(UartView),
}

impl View for Device {
    type V = DeviceView;

    open spec fn view(&self) -> DeviceView {
        match self {
            Device::Flash(f) => DeviceView::Flash(f@),
            Device::Uart(u) => DeviceView::Uart(u@),
        }
    }
}

impl PeripheralInterface for Device {
    open spec fn inv(v: DeviceView) -> bool {
        match v {
            DeviceView::Flash(f) => flash_inv(f),
            DeviceView::Uart(_) => true,
        }
    }

    open spec fn fetch_spec(v: DeviceView, width: nat, addr: nat) -> (DeviceView, Result<
        Seq<u8>,
        BusException,
    >) {
        match v {
            DeviceView::Flash(f) => {
                let (f2, r) = <Flash as PeripheralInterface>::fetch_spec(f, width, addr);
                (DeviceView::Flash(f2), r)
            },
            DeviceView::Uart(u) => {
                let (u2, r) = <Uart16550 as PeripheralInterface>::fetch_spec(u, width, addr);
                (DeviceView::Uart(u2), r)
            },
        }
    }

    open spec fn store_spec(v: DeviceView, width: nat, addr: nat, value: Seq<u8>) -> (DeviceView,
    Option<BusException>) {
        match v {
            DeviceView::Flash(f) => {
                let (f2, r) = <Flash as PeripheralInterface>::store_spec(f, width, addr, value);
                (DeviceView::Flash(f2), r)
            },
            DeviceView::Uart(u) => {
                let (u2, r) = <Uart16550 as PeripheralInterface>::store_spec(u, width, addr, value);
                (DeviceView::Uart(u2), r)
            },
        }
    }

    fn fetch(&mut self, width: usize, addr: usize) -> (r: Result<Vec<u8>, BusException>) {
        match self {
            Device::Flash(f) => f.fetch(width, addr),
            Device::Uart(u) => u.fetch(width, addr),
        }
    }

    fn store(&mut self, width: usize, addr: usize, value: &Vec<u8>) -> (r: Option<BusException>) {
        match self {
            Device::Flash(f) => f.store(width, addr, value),
            Device::Uart(u) => u.store(width, addr, value),
        }
    }
}

/// A named, sized device as attached to the bus.
#[derive(Debug)]
pub struct Peripheral {
    pub name: String,
    pub size: usize,
    pub io: Device,
}

/// The abstract state of an attached peripheral.
pub struct PeripheralView {
    pub name: Seq<char>,
    pub size: nat,
    pub io: DeviceView,
}

impl View for Peripheral {
    type V = PeripheralView;

    open spec fn view(&self) -> PeripheralView {
        PeripheralView { name: self.name@, size: self.size as nat, io: self.io@ }
    }
}

impl Peripheral {
    /// Wraps a device with its name and extent.
    pub fn new(name: String, size: usize, peripheral: Device) -> (r: Peripheral)
        ensures
            r@.name == name@,
            r@.size == size,
            r@.io == peripheral@,
    {
        Peripheral { name, size, io: peripheral }
    }

    /// The peripheral's extent in bytes.
    pub fn size(&self) -> (r: usize)
        ensures
            r as nat == self@.size,
    {
        self.size
    }
}

impl PeripheralInterface for Peripheral {
    open spec fn inv(v: PeripheralView) -> bool {
        <Device as PeripheralInterface>::inv(v.io)
    }

    open spec fn fetch_spec(v: PeripheralView, width: nat, addr: nat) -> (PeripheralView, Result<
        Seq<u8>,
        BusException,
    >) {
        if addr + width > v.size {
            (v, Err(BusException::LoadAccessFault))
        } else if width != 1 && width != 2 && width != 4 && width != 8 && width != 16 {
            (v, Err(BusException::LoadAccessFault))
        } else {
            let (d2, r) = <Device as PeripheralInterface>::fetch_spec(v.io, width, addr);
            (PeripheralView { io: d2, ..v }, r)
        }
    }

    open spec fn store_spec(v: PeripheralView, width: nat, addr: nat, value: Seq<u8>) -> (
        PeripheralView,
        Option<BusException>,
    ) {
        if addr + width > v.size {
            // out-of-range and bad-width stores report the load-fault kind
            (v, Some(BusException::LoadAccessFault))
        } else if width != 1 && width != 2 && width != 4 && width != 8 {
            (v, Some(BusException::LoadAccessFault))
        } else {
            let (d2, r) = <Device as PeripheralInterface>::store_spec(v.io, width, addr, value);
            (PeripheralView { io: d2, ..v }, r)
        }
    }

    fn fetch(&mut self, width: usize, addr: usize) -> (r: Result<Vec<u8>, BusException>) {
        if width > self.size || addr > self.size - width {
            return Err(BusException::LoadAccessFault);
        }
        if width != 1 && width != 2 && width != 4 && width != 8 && width != 16 {
            return Err(BusException::LoadAccessFault);
        }
        self.io.fetch(width, addr)
    }

    fn store(&mut self, width: usize, addr: usize, value: &Vec<u8>) -> (r: Option<BusException>) {
        if width > self.size || addr > self.size - width {
            return Some(BusException::LoadAccessFault);
        }
        if width != 1 && width != 2 && width != 4 && width != 8 {
            return Some(BusException::LoadAccessFault);
        }
        self.io.store(width, addr, value)
    }
}

} // verus!
