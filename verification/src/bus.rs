//! The address-space bus: an ordered list of (origin, peripheral) mappings.
//!
//! A fetch or store is routed to the first mapping whose half-open range
//! covers the address.  Width-aligned accesses are delegated directly;
//! unaligned multi-byte accesses are decomposed into single-byte accesses
//! within the owning device.  An uncovered address is an access fault.

use vstd::prelude::*;

verus! {

use crate::exception::BusException;
use crate::peripheral::{Peripheral, PeripheralView, PeripheralInterface, fetch_out_matches};
use crate::uint::byte_at;

/// The abstract state of the bus: the attached mappings in order.
pub type BusView = Seq<(u64, PeripheralView)>;

/// Every attached peripheral satisfies its invariant.
pub open spec fn bus_inv(v: BusView) -> bool {
    forall|i: int| 0 <= i < v.len() ==> <Peripheral as PeripheralInterface>::inv(
        (#[trigger] v[i]).1,
    )
}

/// The mappings are sorted by origin, ascending.
pub open spec fn bus_sorted(v: BusView) -> bool {
    forall|i: int, j: int| 0 <= i < j < v.len() ==> (#[trigger] v[i]).0 <= (#[trigger] v[j]).0
}

/// `addr` lies in the half-open range of the mapping `e`.
pub open spec fn covers(e: (u64, PeripheralView), addr: u64) -> bool {
    e.0 <= addr < e.0 + e.1.size
}

/// The index of the first mapping covering `addr`, if any.
pub open spec fn route(v: BusView, addr: u64) -> Option<int>
    decreases v.len(),
{
    if v.len() == 0 {
        None
    } else if covers(v[0], addr) {
        Some(0)
    } else {
        match route(v.skip(1), addr) {
            None => None,
            Some(i) => Some(i + 1),
        }
    }
}

/// What routing means: the routed index is the first covering mapping, and a
/// failed route means no mapping covers the address.
pub proof fn lemma_route_props(v: BusView, addr: u64)
    ensures
        route(v, addr) matches Some(i) ==> 0 <= i < v.len() && covers(v[i], addr) && (forall|j: int|
            0 <= j < i ==> !covers(v[j], addr)),
        route(v, addr) is None ==> forall|j: int| 0 <= j < v.len() ==> !covers(v[j], addr),
    decreases v.len(),
{
    if v.len() > 0 {
        let tail = v.skip(1);
        lemma_route_props(tail, addr);
        if !covers(v[0], addr) {
            match route(tail, addr) {
                None => {
                    assert forall|j: int| 0 <= j < v.len() implies !covers(v[j], addr) by {
                        if j > 0 {
                            assert(tail[j - 1] == v[j]);
                            assert(!covers(tail[j - 1], addr));
                        }
                    }
                },
                Some(i) => {
                    assert(tail[i] == v[i + 1]);
                    assert(covers(v[i + 1], addr));
                    assert forall|j: int| 0 <= j < i + 1 implies !covers(v[j], addr) by {
                        if j > 0 {
                            assert(tail[j - 1] == v[j]);
                            assert(!covers(tail[j - 1], addr));
                        }
                    }
                },
            }
        }
    }
}

/// The converse: a covering index behind a non-covering prefix is the route.
pub proof fn lemma_route_at(v: BusView, addr: u64, i: int)
    requires
        0 <= i < v.len(),
        covers(v[i], addr),
        forall|j: int| 0 <= j < i ==> !covers(v[j], addr),
    ensures
        route(v, addr) == Some(i),
    decreases v.len(),
{
    if i == 0 {
    } else {
        let tail = v.skip(1);
        assert(tail[i - 1] == v[i]);
        assert forall|j: int| 0 <= j < i - 1 implies !covers(tail[j], addr) by {
            assert(tail[j] == v[j + 1]);
        }
        lemma_route_at(tail, addr, i - 1);
    }
}

/// The position a new mapping with the given origin is inserted at: right
/// after the leading mappings whose origins do not exceed it.
pub open spec fn attach_pos(v: BusView, origin: u64) -> int
    decreases v.len(),
{
    if v.len() == 0 {
        0
    } else if v[0].0 <= origin {
        1 + attach_pos(v.skip(1), origin)
    } else {
        0
    }
}

/// A fetch decomposed into `n` byte accesses returns `n` bytes when it
/// returns at all.
pub proof fn lemma_fetch_bytes_len(p: PeripheralView, base: nat, n: nat)
    ensures
        fetch_bytes_spec(p, base, n).1 matches Ok(s) ==> s.len() == n,
    decreases n,
{
    if n > 0 {
        lemma_fetch_bytes_len(p, base, (n - 1) as nat);
    }
}

/// The device state and outcome of fetching `n` single bytes starting at
/// device offset `base`, in ascending order, stopping at the first fault.
pub open spec fn fetch_bytes_spec(p: PeripheralView, base: nat, n: nat) -> (PeripheralView, Result<
    Seq<u8>,
    BusException,
>)
    decreases n,
{
    if n == 0 {
        (p, Ok(Seq::<u8>::empty()))
    } else {
        let (p1, r1) = fetch_bytes_spec(p, base, (n - 1) as nat);
        match r1 {
            Err(e) => (p1, Err(e)),
            Ok(s) => {
                let (p2, r2) = <Peripheral as PeripheralInterface>::fetch_spec(
                    p1,
                    1,
                    (base + n - 1) as nat,
                );
                match r2 {
                    Err(e) => (p2, Err(e)),
                    Ok(b) => (p2, Ok(s.push(byte_at(b, 0)))),
                }
            },
        }
    }
}

/// The device state and outcome of storing the first `n` bytes of `value`
/// one byte at a time starting at device offset `base`.
pub open spec fn store_bytes_spec(p: PeripheralView, base: nat, value: Seq<u8>, n: nat) -> (
    PeripheralView,
    Option<BusException>,
)
    decreases n,
{
    if n == 0 {
        (p, None)
    } else {
        let (p1, r1) = store_bytes_spec(p, base, value, (n - 1) as nat);
        match r1 {
            Some(e) => (p1, Some(e)),
            None => <Peripheral as PeripheralInterface>::store_spec(
                p1,
                1,
                (base + n - 1) as nat,
                seq![value[n - 1]],
            ),
        }
    }
}

/// The bus state and outcome of a fetch: route, then delegate directly when
/// width-aligned, else decompose into bytes; no route is an access fault.
pub open spec fn bus_fetch_spec(v: BusView, width: nat, addr: u64) -> (BusView, Result<
    Seq<u8>,
    BusException,
>)
    recommends
        width >= 1,
{
    match route(v, addr) {
        None => (v, Err(BusException::LoadAccessFault)),
        Some(i) => {
            let origin = v[i].0;
            let p = v[i].1;
            let base = (addr - origin) as nat;
            if addr as nat % width == 0 {
                let (p2, r) = <Peripheral as PeripheralInterface>::fetch_spec(p, width, base);
                (v.update(i, (origin, p2)), r)
            } else {
                let (p2, r) = fetch_bytes_spec(p, base, width);
                (v.update(i, (origin, p2)), r)
            }
        },
    }
}

/// The bus state and outcome of a store, mirroring [`bus_fetch_spec`].
pub open spec fn bus_store_spec(v: BusView, width: nat, addr: u64, value: Seq<u8>) -> (
    BusView,
    Option<BusException>,
)
    recommends
        width >= 1,
{
    match route(v, addr) {
        None => (v, Some(BusException::StoreAccessFault)),
        Some(i) => {
            let origin = v[i].0;
            let p = v[i].1;
            let base = (addr - origin) as nat;
            if width == 1 || addr as nat % width == 0 {
                let (p2, r) = <Peripheral as PeripheralInterface>::store_spec(p, width, base, value);
                (v.update(i, (origin, p2)), r)
            } else {
                let (p2, r) = store_bytes_spec(p, base, value, width);
                (v.update(i, (origin, p2)), r)
            }
        },
    }
}

/// Once a byte in the sequence faults, fetching more bytes changes nothing.
proof fn lemma_fetch_bytes_err(p: PeripheralView, base: nat, k: nat, n: nat)
    requires
        k <= n,
        fetch_bytes_spec(p, base, k).1 is Err,
    ensures
        fetch_bytes_spec(p, base, n) == fetch_bytes_spec(p, base, k),
    decreases n,
{
    if n > k {
        lemma_fetch_bytes_err(p, base, k, (n - 1) as nat);
    }
}

/// Once a byte store in the sequence faults, storing more changes nothing.
proof fn lemma_store_bytes_err(p: PeripheralView, base: nat, value: Seq<u8>, k: nat, n: nat)
    requires
        k <= n,
        store_bytes_spec(p, base, value, k).1 is Some,
    ensures
        store_bytes_spec(p, base, value, n) == store_bytes_spec(p, base, value, k),
    decreases n,
{
    if n > k {
        lemma_store_bytes_err(p, base, value, k, (n - 1) as nat);
    }
}

/// A single-byte access past any representable offset faults without
/// touching the device.
proof fn lemma_oob_byte_fetch(p: PeripheralView, off: nat)
    requires
        off > usize::MAX,
        p.size <= usize::MAX,
    ensures
        <Peripheral as PeripheralInterface>::fetch_spec(p, 1, off) == (p, Err::<
            Seq<u8>,
            BusException,
        >(BusException::LoadAccessFault)),
{
}

/// A single-byte store past any representable offset faults likewise.
proof fn lemma_oob_byte_store(p: PeripheralView, off: nat, value: Seq<u8>)
    requires
        off > usize::MAX,
        p.size <= usize::MAX,
    ensures
        <Peripheral as PeripheralInterface>::store_spec(p, 1, off, value) == (p, Some(
            BusException::LoadAccessFault,
        )),
{
}

/// The address-space router owning every attached peripheral.
#[derive(Debug)]
pub struct Bus {
    pub map: Vec<(u64, Peripheral)>,
}

impl View for Bus {
    type V = BusView;

    open spec fn view(&self) -> BusView {
        Seq::new(self.map@.len(), |i: int| (self.map@[i].0, self.map@[i].1@))
    }
}

impl Bus {
    /// An empty bus with no devices attached.
    pub fn new() -> (r: Bus)
        ensures
            r@ == Seq::<(u64, PeripheralView)>::empty(),
            bus_inv(r@),
            bus_sorted(r@),
    {
        let r = Bus { map: Vec::new() };
        proof {
            assert(r@ =~= Seq::<(u64, PeripheralView)>::empty());
        }
        r
    }

    /// Attaches a device at `origin`, keeping the mappings sorted by origin:
    /// the new mapping lands right after those with origins up to its own.
    pub fn attach(&mut self, origin: u64, p: Peripheral)
        requires
            bus_inv(old(self)@),
            <Peripheral as PeripheralInterface>::inv(p@),
        ensures
            bus_inv(final(self)@),
            bus_sorted(old(self)@) ==> bus_sorted(final(self)@),
            final(self)@ == old(self)@.insert(attach_pos(old(self)@, origin), (origin, p@)),
    {
        let ghost oldv = self@;
        let ghost pv = p@;
        let mut j: usize = 0;
        proof {
            assert(oldv.skip(0) =~= oldv);
        }
        while j < self.map.len() && self.map[j].0 <= origin
            invariant
                j <= self.map@.len(),
                forall|k: int| 0 <= k < j ==> (#[trigger] self.map@[k]).0 <= origin,
                self@ == oldv,
                self.map@.len() == oldv.len(),
                attach_pos(oldv, origin) == j + attach_pos(oldv.skip(j as int), origin),
            decreases self.map@.len() - j,
        {
            proof {
                assert(oldv.skip(j as int).skip(1) =~= oldv.skip(j as int + 1));
                assert(oldv.skip(j as int)[0] == oldv[j as int]);
            }
            j = j + 1;
        }
        let ghost pos = j as int;
        proof {
            if j < oldv.len() {
                assert(oldv.skip(pos)[0] == oldv[pos]);
                assert(attach_pos(oldv.skip(pos), origin) == 0);
            } else {
                assert(oldv.skip(pos).len() == 0);
            }
        }
        self.map.insert(j, (origin, p));
        proof {
            assert(self@ =~= oldv.insert(pos, (origin, pv)));
            assert(forall|k: int| 0 <= k < pos ==> (#[trigger] oldv[k]).0 <= origin);
            if bus_sorted(oldv) {
                assert forall|a: int, b: int|
                    0 <= a < b < self@.len() implies (#[trigger] self@[a]).0 <= (
                #[trigger] self@[b]).0 by {
                    if a < pos && b == pos {
                    } else if a == pos && b > pos {
                        assert(self@[b] == oldv[b - 1]);
                        if pos < oldv.len() {
                            assert(origin < oldv[pos].0);
                        }
                        assert(oldv[pos].0 <= oldv[b - 1].0 || pos == b - 1);
                    } else if a < pos && b > pos {
                        assert(self@[a] == oldv[a] && self@[b] == oldv[b - 1]);
                    } else {
                    }
                }
            }
        }
    }

    /// Fetches `width` bytes at `addr`: exactly [`bus_fetch_spec`]; an
    /// address no mapping covers is a load access fault.
    pub fn fetch(&mut self, width: usize, addr: u64) -> (r: Result<Vec<u8>, BusException>)
        requires
            bus_inv(old(self)@),
            1 <= width <= 16,
        ensures
            bus_inv(final(self)@),
            final(self)@ == bus_fetch_spec(old(self)@, width as nat, addr).0,
            fetch_out_matches(bus_fetch_spec(old(self)@, width as nat, addr).1, r),
            route(old(self)@, addr) is None ==> r == Err::<Vec<u8>, BusException>(
                BusException::LoadAccessFault,
            ),
            addr as nat % (width as nat) != 0 ==> (r matches Ok(v) ==> v@.len() == width),
    {
        let ghost oldv = self@;
        let mut i: usize = 0;
        while i < self.map.len()
            invariant
                bus_inv(self@),
                i <= self.map@.len(),
                self@ == oldv,
                oldv == old(self)@,
                forall|j: int| 0 <= j < i ==> !covers(oldv[j], addr),
                1 <= width <= 16,
            decreases self.map@.len() - i,
        {
            let origin = self.map[i].0;
            let size = self.map[i].1.size();
            if origin <= addr && addr - origin < size as u64 {
                proof {
                    assert(oldv[i as int] == (self.map@[i as int].0, self.map@[i as int].1@));
                    lemma_route_at(oldv, addr, i as int);
                    lemma_fetch_bytes_len(
                        oldv[i as int].1,
                        (addr - origin) as nat,
                        width as nat,
                    );
                }
                let (o, mut p) = self.map.remove(i);
                let ghost p0 = p@;
                proof {
                    assert(p@ == oldv[i as int].1);
                    assert(<Peripheral as PeripheralInterface>::inv(p@));
                }
                let base = (addr - origin) as usize;
                proof {
                    assert(base as nat == (addr - origin) as nat);
                }
                let res: Result<Vec<u8>, BusException>;
                if addr % (width as u64) == 0 {
                    proof {
                        assert(addr as nat % (width as nat) == 0);
                    }
                    res = p.fetch(width, base);
                    proof {
                        assert(p@ == <Peripheral as PeripheralInterface>::fetch_spec(
                            p0,
                            width as nat,
                            base as nat,
                        ).0);
                        assert(fetch_out_matches(
                            bus_fetch_spec(oldv, width as nat, addr).1,
                            res,
                        ));
                    }
                } else {
                    proof {
                        assert(addr as nat % (width as nat) != 0);
                    }
                    res = Self::fetch_decomposed(&mut p, base, width);
                    proof {
                        assert(p@ == fetch_bytes_spec(p0, base as nat, width as nat).0);
                        assert(fetch_out_matches(
                            bus_fetch_spec(oldv, width as nat, addr).1,
                            res,
                        ));
                    }
                }
                self.map.insert(i, (o, p));
                proof {
                    assert(self@ =~= oldv.update(i as int, (origin, p@)));
                    assert(self@ =~= bus_fetch_spec(oldv, width as nat, addr).0);
                }
                return res;
            }
            i = i + 1;
        }
        proof {
            lemma_route_props(oldv, addr);
            match route(oldv, addr) {
                Some(k) => {
                    assert(covers(oldv[k], addr));
                    assert(false);
                },
                None => {},
            }
        }
        Err(BusException::LoadAccessFault)
    }

    /// Decomposes an unaligned fetch into byte accesses within one device.
    fn fetch_decomposed(p: &mut Peripheral, base: usize, width: usize) -> (r: Result<
        Vec<u8>,
        BusException,
    >)
        requires
            <Peripheral as PeripheralInterface>::inv(old(p)@),
            width <= 16,
            old(p)@.size <= usize::MAX,
        ensures
            <Peripheral as PeripheralInterface>::inv(final(p)@),
            final(p)@ == fetch_bytes_spec(old(p)@, base as nat, width as nat).0,
            fetch_out_matches(fetch_bytes_spec(old(p)@, base as nat, width as nat).1, r),
    {
        let mut value: Vec<u8> = Vec::new();
        let mut k: usize = 0;
        proof {
            assert(value@ =~= Seq::<u8>::empty());
        }
        while k < width
            invariant
                k <= width <= 16,
                <Peripheral as PeripheralInterface>::inv(p@),
                p@.size == old(p)@.size,
                p@.size <= usize::MAX,
                p@ == fetch_bytes_spec(old(p)@, base as nat, k as nat).0,
                fetch_bytes_spec(old(p)@, base as nat, k as nat).1 matches Ok(s) && s == value@,
            decreases width - k,
        {
            let ghost pk = p@;
            let off = match base.checked_add(k) {
                Some(o) => o,
                None => {
                    // the offset is past any device extent: the byte access faults
                    proof {
                        lemma_oob_byte_fetch(p@, (base + k) as nat);
                        lemma_fetch_bytes_err(old(p)@, base as nat, (k + 1) as nat, width as nat);
                    }
                    return Err(BusException::LoadAccessFault);
                },
            };
            match p.fetch(1, off) {
                Ok(b) => {
                    let byte: u8 = if b.len() > 0 {
                        b[0]
                    } else {
                        0
                    };
                    value.push(byte);
                    proof {
                        assert(fetch_bytes_spec(old(p)@, base as nat, (k + 1) as nat).0 == p@);
                    }
                },
                Err(e) => {
                    proof {
                        lemma_fetch_bytes_err(old(p)@, base as nat, (k + 1) as nat, width as nat);
                    }
                    return Err(e);
                },
            }
            k = k + 1;
        }
        Ok(value)
    }

    /// Stores the low `width` bytes of `value` at `addr`: exactly
    /// [`bus_store_spec`]; an uncovered address is a store access fault.
    pub fn store(&mut self, width: usize, addr: u64, value: &Vec<u8>) -> (r: Option<BusException>)
        requires
            bus_inv(old(self)@),
            1 <= width <= 16,
            value@.len() >= width,
        ensures
            bus_inv(final(self)@),
            final(self)@ == bus_store_spec(old(self)@, width as nat, addr, value@).0,
            r == bus_store_spec(old(self)@, width as nat, addr, value@).1,
            route(old(self)@, addr) is None ==> r == Some(BusException::StoreAccessFault),
    {
        let ghost oldv = self@;
        let mut i: usize = 0;
        while i < self.map.len()
            invariant
                bus_inv(self@),
                i <= self.map@.len(),
                self@ == oldv,
                oldv == old(self)@,
                forall|j: int| 0 <= j < i ==> !covers(oldv[j], addr),
                1 <= width <= 16,
                value@.len() >= width,
            decreases self.map@.len() - i,
        {
            let origin = self.map[i].0;
            let size = self.map[i].1.size();
            if origin <= addr && addr - origin < size as u64 {
                proof {
                    assert(oldv[i as int] == (self.map@[i as int].0, self.map@[i as int].1@));
                    lemma_route_at(oldv, addr, i as int);
                }
                let (o, mut p) = self.map.remove(i);
                let ghost p0 = p@;
                proof {
                    assert(p@ == oldv[i as int].1);
                    assert(<Peripheral as PeripheralInterface>::inv(p@));
                }
                let base = (addr - origin) as usize;
                proof {
                    assert(base as nat == (addr - origin) as nat);
                }
                let res: Option<BusException>;
                if width == 1 || addr % (width as u64) == 0 {
                    proof {
                        assert(width == 1 || addr as nat % (width as nat) == 0);
                    }
                    res = p.store(width, base, value);
                    proof {
                        assert(p@ == <Peripheral as PeripheralInterface>::store_spec(
                            p0,
                            width as nat,
                            base as nat,
                            value@,
                        ).0);
                        assert(res == bus_store_spec(oldv, width as nat, addr, value@).1);
                    }
                } else {
                    res = Self::store_decomposed(&mut p, base, width, value);
                    proof {
                        assert(p@ == store_bytes_spec(p0, base as nat, value@, width as nat).0);
                        assert(res == bus_store_spec(oldv, width as nat, addr, value@).1);
                    }
                }
                self.map.insert(i, (o, p));
                proof {
                    assert(self@ =~= oldv.update(i as int, (origin, p@)));
                    assert(self@ =~= bus_store_spec(oldv, width as nat, addr, value@).0);
                }
                return res;
            }
            i = i + 1;
        }
        proof {
            lemma_route_props(oldv, addr);
            match route(oldv, addr) {
                Some(k) => {
                    assert(covers(oldv[k], addr));
                    assert(false);
                },
                None => {},
            }
        }
        Some(BusException::StoreAccessFault)
    }

    /// Decomposes an unaligned store into byte accesses within one device.
    fn store_decomposed(p: &mut Peripheral, base: usize, width: usize, value: &Vec<u8>) -> (r:
        Option<BusException>)
        requires
            <Peripheral as PeripheralInterface>::inv(old(p)@),
            width <= 16,
            value@.len() >= width,
            old(p)@.size <= usize::MAX,
        ensures
            <Peripheral as PeripheralInterface>::inv(final(p)@),
            final(p)@ == store_bytes_spec(old(p)@, base as nat, value@, width as nat).0,
            r == store_bytes_spec(old(p)@, base as nat, value@, width as nat).1,
    {
        let mut k: usize = 0;
        while k < width
            invariant
                k <= width <= 16,
                value@.len() >= width,
                <Peripheral as PeripheralInterface>::inv(p@),
                p@.size == old(p)@.size,
                p@.size <= usize::MAX,
                p@ == store_bytes_spec(old(p)@, base as nat, value@, k as nat).0,
                store_bytes_spec(old(p)@, base as nat, value@, k as nat).1 is None,
            decreases width - k,
        {
            let mut bv: Vec<u8> = Vec::new();
            bv.push(value[k]);
            proof {
                assert(bv@ =~= seq![value@[k as int]]);
            }
            let off = match base.checked_add(k) {
                Some(o) => o,
                None => {
                    proof {
                        lemma_oob_byte_store(p@, (base + k) as nat, bv@);
                        lemma_store_bytes_err(
                            old(p)@,
                            base as nat,
                            value@,
                            (k + 1) as nat,
                            width as nat,
                        );
                    }
                    return Some(BusException::LoadAccessFault);
                },
            };
            match p.store(1, off, &bv) {
                Some(e) => {
                    proof {
                        lemma_store_bytes_err(
                            old(p)@,
                            base as nat,
                            value@,
                            (k + 1) as nat,
                            width as nat,
                        );
                    }
                    return Some(e);
                },
                None => (),
            }
            k = k + 1;
        }
        None
    }
}

} // verus!
