//! A 16550-style UART device: a receive/transmit holding register and a line
//! status register at fixed byte offsets.  A store to the transmit register
//! appends the byte to the transmit log, which the embedding host drains and
//! prints; all other offsets read as zero and ignore writes.

use vstd::prelude::*;

verus! {

use crate::exception::BusException;
use crate::uint::{le_val, le_bytes, le_low128, u128_to_le_bytes, lemma_le_bytes_exact,
    lemma_pow2_halves};

/// Receive holding register offset.
pub const REG_RBR: usize = 0x1000;

/// Transmit holding register offset (shared with RBR).
pub const REG_THR: usize = 0x1000;

/// Line status register offset.
pub const REG_LSR: usize = 0x1014;

/// Line status: data ready.
pub const LSR_DR: u32 = 1 << 0;

/// Line status: overrun error.
pub const LSR_OE: u32 = 1 << 1;

/// Line status: transmit holding register empty.
pub const LSR_THRE: u32 = 1 << 5;

/// Line status: transmitter empty.
pub const LSR_TEMT: u32 = 1 << 6;

/// The abstract state of the UART.
pub struct UartView {
    pub length: nat,
    pub rbr: u32,
    pub thr: u32,
    pub lsr: u32,
    pub tx: Seq<u8>,
}

/// The UART device state.
#[derive(Debug)]
pub struct Uart16550 {
    pub length: usize,
    pub rbr: u32,
    pub thr: u32,
    pub lsr: u32,
    /// Bytes written to the transmit register, in order; the host drains
    /// this log and prints it.
    pub tx: Vec<u8>,
}

impl View for Uart16550 {
    type V = UartView;

    open spec fn view(&self) -> UartView {
        UartView {
            length: self.length as nat,
            rbr: self.rbr,
            thr: self.thr,
            lsr: self.lsr,
            tx: self.tx@,
        }
    }
}

/// The UART's width-4-or-aligned rule: other accesses are misaligned.
pub open spec fn uart_misaligned(width: nat, addr: nat) -> bool {
    width != 4 && addr % 4 != 0
}

/// The state and outcome of a UART fetch: reading RBR clears the data-ready
/// bit; reading LSR returns the line status; other offsets read as zero.
/// Whatever the accepted access width, the device hands back the four bytes
/// of the addressed 32-bit register.
pub open spec fn uart_fetch_result(v: UartView, width: nat, addr: nat) -> (UartView, Result<
    Seq<u8>,
    BusException,
>) {
    if uart_misaligned(width, addr) {
        (v, Err(BusException::LoadAddressMisaligned))
    } else if addr == REG_RBR {
        (
            UartView { lsr: v.lsr & !LSR_DR, ..v },
            Ok(le_bytes(v.rbr as nat, 4)),
        )
    } else if addr == REG_LSR {
        (v, Ok(le_bytes(v.lsr as nat, 4)))
    } else {
        (v, Ok(le_bytes(0, 4)))
    }
}

/// The state and outcome of a UART store: a store to THR (when the holding
/// register is empty) latches the low 32 bits, logs the low byte, and sets
/// the empty bits; a store to LSR keeps its low byte; others are ignored.
pub open spec fn uart_store_result(v: UartView, width: nat, addr: nat, value: Seq<u8>) -> (
    UartView,
    Option<BusException>,
) {
    if uart_misaligned(width, addr) {
        (v, Some(BusException::StoreAddressMisaligned))
    } else if addr == REG_THR {
        if v.lsr & LSR_THRE == LSR_THRE {
            let t = (le_val(value) % 0x100000000) as u32;
            (
                UartView {
                    thr: t,
                    lsr: v.lsr | LSR_THRE | LSR_TEMT,
                    tx: v.tx.push((t % 256) as u8),
                    ..v
                },
                None,
            )
        } else {
            (v, None)
        }
    } else if addr == REG_LSR {
        (UartView { lsr: v.lsr & 0xff, ..v }, None)
    } else {
        (v, None)
    }
}

impl Uart16550 {
    /// A fresh UART with an empty transmit holding register.
    pub fn new(length: usize) -> (r: Uart16550)
        ensures
            r@.length == length,
            r@.rbr == 0,
            r@.thr == 0xff,
            r@.lsr == LSR_THRE | LSR_TEMT,
            r@.tx == Seq::<u8>::empty(),
    {
        let r = Uart16550 { length, rbr: 0, thr: 0xff, lsr: LSR_THRE | LSR_TEMT, tx: Vec::new() };
        proof {
            assert(r@.tx =~= Seq::<u8>::empty());
        }
        r
    }

    /// The extent of the device in bytes.
    pub fn size(&self) -> (r: usize)
        ensures
            r as nat == self@.length,
    {
        self.length
    }

    /// Drains the transmit log, handing the buffered bytes to the caller.
    pub fn take_tx(&mut self) -> (r: Vec<u8>)
        ensures
            r@ == old(self)@.tx,
            final(self)@ == (UartView { tx: Seq::<u8>::empty(), ..old(self)@ }),
    {
        let mut out: Vec<u8> = Vec::new();
        core::mem::swap(&mut out, &mut self.tx);
        proof {
            assert(final(self)@ =~= (UartView { tx: Seq::<u8>::empty(), ..old(self)@ }));
        }
        out
    }
}

} // verus!
