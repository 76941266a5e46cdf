//! The virtual system-on-chip: a CPU and a bus with the default wiring of
//! a flash region, a RAM region and a UART.

use vstd::prelude::*;

verus! {

use vstd::string::StringExecFns;
use crate::bus::{Bus, BusView, bus_inv, bus_store_spec};
use crate::peripheral::{DeviceView, PeripheralView};
use crate::uart16550::{UartView, LSR_THRE, LSR_TEMT};
use crate::cpu::Cpu;
use crate::exception::{RvException, VsocException, convert_spec};
use crate::hart::Rv;
use crate::flash::Flash;
use crate::hart::valid_arch;
use crate::peripheral::{Device, Peripheral, PeripheralInterface};
use crate::uart16550::Uart16550;

/// The fixed load address and program entry point: the RAM region's origin.
pub const LOAD_ADDR: u64 = 0x8000_0000;

/// The flash/ROM region's origin in the default wiring.
pub const FLASH_ADDR: u64 = 0x2000_0000;

/// The UART's origin in the default wiring.
pub const UART_ADDR: u64 = 0x4001_3c00;

/// The index of the first UART mapping on the bus, if any.
pub open spec fn first_uart(v: BusView) -> Option<int>
    decreases v.len(),
{
    if v.len() == 0 {
        None
    } else if v[0].1.io is Uart {
        Some(0)
    } else {
        match first_uart(v.skip(1)) {
            None => None,
            Some(i) => Some(i + 1),
        }
    }
}

/// A UART behind a UART-free prefix is the first UART.
proof fn lemma_first_uart_at(v: BusView, i: int)
    requires
        0 <= i < v.len(),
        v[i].1.io is Uart,
        forall|j: int| 0 <= j < i ==> !((#[trigger] v[j]).1.io is Uart),
    ensures
        first_uart(v) == Some(i),
    decreases v.len(),
{
    if i > 0 {
        let tail = v.skip(1);
        assert(tail[i - 1] == v[i]);
        assert forall|j: int| 0 <= j < i - 1 implies !((#[trigger] tail[j]).1.io is Uart) by {
            assert(tail[j] == v[j + 1]);
        }
        lemma_first_uart_at(tail, i - 1);
    }
}

/// A bus with no UART mapping has no first UART.
proof fn lemma_first_uart_none(v: BusView)
    requires
        forall|j: int| 0 <= j < v.len() ==> !((#[trigger] v[j]).1.io is Uart),
    ensures
        first_uart(v) is None,
    decreases v.len(),
{
    if v.len() > 0 {
        let tail = v.skip(1);
        assert forall|j: int| 0 <= j < tail.len() implies !((#[trigger] tail[j]).1.io is Uart) by {
            assert(tail[j] == v[j + 1]);
        }
        lemma_first_uart_none(tail);
    }
}

/// The bus state after storing the first `n` bytes of the image one byte at
/// a time from the load address; a byte's fault leaves that byte unstored.
pub open spec fn load_spec(bus: BusView, binary: Seq<u8>, n: nat) -> BusView
    decreases n,
{
    if n == 0 {
        bus
    } else {
        let prev = load_spec(bus, binary, (n - 1) as nat);
        bus_store_spec(
            prev,
            1,
            ((LOAD_ADDR + (n - 1)) % 0x10000000000000000) as u64,
            seq![binary[n - 1]],
        ).0
    }
}

/// The whole simulated system: one CPU and its exclusively owned bus.
#[derive(Debug)]
pub struct Vsoc {
    pub cpu: Cpu,
    pub bus: Bus,
}

impl Vsoc {
    /// Structural well-formedness of the whole system.
    pub open spec fn wf(&self) -> bool {
        &&& self.cpu.wf()
        &&& bus_inv(self.bus@)
    }

    /// Builds the default system: 128 KiB flash at the flash origin,
    /// 128 KiB RAM at the load address, a UART at the UART origin, and a
    /// CPU whose program counter starts at the load address.
    pub fn new(arch: &str) -> (r: Vsoc)
        requires
            valid_arch(arch@),
        ensures
            r.wf(),
            r.cpu.hart().xlen == crate::hart::width_of(arch@),
            r.cpu.hart().extensions == crate::hart::ext_of(arch@),
            r.cpu.hart().pc.val() == LOAD_ADDR as nat % vstd::arithmetic::power2::pow2(
                crate::hart::width_of(arch@) as nat,
            ),
            r.bus@.len() == 3,
            r.bus@[0].0 == FLASH_ADDR && r.bus@[0].1.size == 0x20000 && (r.bus@[0].1.io matches
                DeviceView::Flash(f) && f.length == 0x20000 && forall|i: int|
                0 <= i < f.cells.len() ==> f.cells[i] == 0),
            r.bus@[1].0 == UART_ADDR && r.bus@[1].1.size == 0x2000 && (r.bus@[1].1.io matches
                DeviceView::Uart(u) && u.length == 0x2000 && u.tx == Seq::<u8>::empty() && u.lsr
                == (LSR_THRE | LSR_TEMT)),
            r.bus@[2].0 == LOAD_ADDR && r.bus@[2].1.size == 0x20000 && (r.bus@[2].1.io matches
                DeviceView::Flash(f) && f.length == 0x20000 && forall|i: int|
                0 <= i < f.cells.len() ==> f.cells[i] == 0),
    {
        let mut bus = Bus::new();
        let flash = Flash::new(128 * 1024);
        let sram = Flash::new(128 * 1024);
        let uart = Uart16550::new(0x2000);
        let flash_size = flash.size();
        let sram_size = sram.size();
        let uart_size = uart.size();
        let p_flash = Peripheral::new(String::from_str("flash"), flash_size, Device::Flash(flash));
        let p_sram = Peripheral::new(String::from_str("sram"), sram_size, Device::Flash(sram));
        let p_uart = Peripheral::new(String::from_str("uart"), uart_size, Device::Uart(uart));
        let ghost fp = p_flash@;
        let ghost sp = p_sram@;
        let ghost up = p_uart@;
        bus.attach(FLASH_ADDR, p_flash);
        let ghost b1 = bus@;
        proof {
            assert(b1.len() == 1 && b1[0] == (FLASH_ADDR, fp));
        }
        bus.attach(LOAD_ADDR, p_sram);
        let ghost b2 = bus@;
        proof {
            assert(b1.skip(1) =~= Seq::<(u64, crate::peripheral::PeripheralView)>::empty());
            assert(crate::bus::attach_pos(b1.skip(1), LOAD_ADDR) == 0);
            assert(crate::bus::attach_pos(b1, LOAD_ADDR) == 1);
            assert(b2.len() == 2);
            assert(b2[0] == (FLASH_ADDR, fp));
            assert(b2[1] == (LOAD_ADDR, sp));
        }
        bus.attach(UART_ADDR, p_uart);
        proof {
            assert(b2.skip(1) =~= seq![(LOAD_ADDR, sp)]);
            assert(b2.skip(1).skip(1) =~= Seq::<(u64, crate::peripheral::PeripheralView)>::empty());
            assert(crate::bus::attach_pos(b2.skip(1), UART_ADDR) == 0);
            assert(crate::bus::attach_pos(b2, UART_ADDR) == 1);
            assert(bus@.len() == 3);
            assert(bus@[0] == (FLASH_ADDR, fp));
            assert(bus@[1] == (UART_ADDR, up));
            assert(bus@[2] == (LOAD_ADDR, sp));
        }
        let mut cpu = Cpu::new(arch.to_owned());
        cpu.set_pc(LOAD_ADDR as u128);
        Vsoc { cpu, bus }
    }

    /// Stores the binary image byte by byte from the load address; a byte
    /// the bus faults on (past the RAM region) is dropped.
    pub fn load(&mut self, binary: &Vec<u8>)
        requires
            old(self).wf(),
        ensures
            final(self).wf(),
            final(self).cpu == old(self).cpu,
            final(self).bus@ == load_spec(old(self).bus@, binary@, binary@.len()),
    {
        let n = binary.len();
        let mut i: usize = 0;
        while i < n
            invariant
                n == binary@.len(),
                i <= n,
                bus_inv(self.bus@),
                self.cpu == old(self).cpu,
                self.cpu.wf(),
                self.bus@ == load_spec(old(self).bus@, binary@, i as nat),
            decreases n - i,
        {
            let mut one: Vec<u8> = Vec::new();
            one.push(binary[i]);
            let addr = LOAD_ADDR.wrapping_add(i as u64);
            proof {
                assert(one@ =~= seq![binary@[i as int]]);
                assert(addr == ((LOAD_ADDR + i) % 0x10000000000000000) as u64);
            }
            let res = self.bus.store(1, addr, &one);
            match res {
                None => (),
                Some(_) => (),
            }
            i = i + 1;
        }
    }

    /// One instruction cycle against the system's own bus: the hart steps
    /// per [`Rv::step_post`] and any architectural exception comes back in
    /// the system taxonomy.  Register 0 reads zero after any step.
    pub fn step(&mut self) -> (r: Option<VsocException>)
        requires
            old(self).wf(),
        ensures
            final(self).wf(),
            final(self).cpu.hart().val_x0() == 0,
            final(self).cpu.state == old(self).cpu.state,
            exists|rr: Option<RvException>|
                #[trigger] Rv::step_post(
                    &old(self).cpu.hart(),
                    &final(self).cpu.hart(),
                    old(self).bus@,
                    final(self).bus@,
                    rr,
                ) && r == (match rr {
                    Some(e) => Some(convert_spec(e)),
                    None => None::<VsocException>,
                }),
    {
        let r = self.cpu.step(&mut self.bus);
        proof {
            let rr = choose|rr: Option<RvException>|
                Rv::step_post(
                    &old(self).cpu.hart(),
                    &self.cpu.hart(),
                    old(self).bus@,
                    self.bus@,
                    rr,
                ) && r == (match rr {
                    Some(e) => Some(convert_spec(e)),
                    None => None::<VsocException>,
                });
            assert(Rv::step_post(
                &old(self).cpu.hart(),
                &self.cpu.hart(),
                old(self).bus@,
                self.bus@,
                rr,
            ));
        }
        r
    }

    /// Drains and returns the bytes the first UART has transmitted so far;
    /// the embedding host prints them.  The UART keeps its registers, only
    /// its transmit log empties; everything else is untouched.
    pub fn take_uart_output(&mut self) -> (r: Vec<u8>)
        requires
            old(self).wf(),
        ensures
            final(self).wf(),
            final(self).cpu == old(self).cpu,
            ({
                match first_uart(old(self).bus@) {
                    None => r@ == Seq::<u8>::empty() && final(self).bus@ == old(self).bus@,
                    Some(j) => (old(self).bus@[j].1.io matches DeviceView::Uart(u) && r@ == u.tx
                        && final(self).bus@ == old(self).bus@.update(
                        j,
                        (
                            old(self).bus@[j].0,
                            PeripheralView {
                                io: DeviceView::Uart(UartView { tx: Seq::<u8>::empty(), ..u }),
                                ..old(self).bus@[j].1
                            },
                        ),
                    )),
                }
            }),
    {
        let mut out: Vec<u8> = Vec::new();
        proof {
            assert(out@ =~= Seq::<u8>::empty());
        }
        let n = self.bus.map.len();
        let mut i: usize = 0;
        while i < n
            invariant
                bus_inv(self.bus@),
                self.cpu == old(self).cpu,
                self.cpu.wf(),
                self.bus@ == old(self).bus@,
                out@ == Seq::<u8>::empty(),
                n == self.bus.map@.len(),
                i <= n,
                forall|j: int| 0 <= j < i ==> !((#[trigger] old(self).bus@[j]).1.io is Uart),
            decreases n - i,
        {
            let is_uart = match &self.bus.map[i].1.io {
                Device::Uart(_) => true,
                Device::Flash(_) => false,
            };
            proof {
                assert(old(self).bus@[i as int] == (
                    self.bus.map@[i as int].0,
                    self.bus.map@[i as int].1@,
                ));
            }
            if is_uart {
                proof {
                    lemma_first_uart_at(old(self).bus@, i as int);
                }
                let ghost pre = self.bus@;
                let (o, mut p) = self.bus.map.remove(i);
                match &mut p.io {
                    Device::Uart(u) => {
                        let mut tx = u.take_tx();
                        out.append(&mut tx);
                    },
                    Device::Flash(_) => (),
                }
                self.bus.map.insert(i, (o, p));
                proof {
                    assert(self.bus@ =~= pre.update(i as int, (o, p@)));
                    assert(<Peripheral as PeripheralInterface>::inv(p@));
                    assert forall|j: int|
                        0 <= j < self.bus@.len() implies <Peripheral as PeripheralInterface>::inv(
                        (#[trigger] self.bus@[j]).1,
                    ) by {
                        if j != i {
                            assert(self.bus@[j] == pre[j]);
                        }
                    }
                }
                return out;
            }
            i = i + 1;
        }
        proof {
            lemma_first_uart_none(old(self).bus@);
        }
        out
    }
}

} // verus!
