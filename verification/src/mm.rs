//! Virtual addresses, page numbers, mapping permissions and the per-task
//! set of mapped user pages with the bytes they hold.
use std::collections::BTreeMap;
use vstd::prelude::*;

use crate::config::PAGE_SIZE;

verus! {

/// Addresses are kept to the low 39 bits of SV39 when turned into a `VirtAddr`.
pub const VA_RANGE: u64 = 0x80_0000_0000;

/// Readable page.
pub const MAP_PERM_R: u8 = 0x2;
/// Writable page.
pub const MAP_PERM_W: u8 = 0x4;
/// Executable page.
pub const MAP_PERM_X: u8 = 0x8;
/// Page accessible from user mode.
pub const MAP_PERM_U: u8 = 0x10;

/// The virtual address that a raw `usize` denotes (its low 39 bits).
pub open spec fn va_of(v: int) -> int {
    v % (VA_RANGE as int)
}

/// The page number of the page that contains `va`.
pub open spec fn floor_vpn(va: int) -> int {
    va / (PAGE_SIZE as int)
}

/// The page number just past the last page that `[0, va)` touches.
pub open spec fn ceil_vpn(va: int) -> int {
    if va == 0 {
        0
    } else {
        (va - 1 + PAGE_SIZE as int) / (PAGE_SIZE as int)
    }
}

/// Keeps the low 39 bits of `v`, as `VirtAddr::from` does.
pub fn virt_addr(v: u64) -> (va: u64)
    ensures
        va == va_of(v as int),
        va < VA_RANGE,
{
    let r = v & 0x7f_ffff_ffff;
    assert(v & 0x7f_ffff_ffff == v % 0x80_0000_0000) by (bit_vector);
    r
}

/// The page number that contains `va`.
pub fn floor(va: u64) -> (vpn: u64)
    ensures
        vpn == floor_vpn(va as int),
{
    va / PAGE_SIZE
}

/// The page number just past the pages that `[0, va)` touches.
pub fn ceil(va: u64) -> (vpn: u64)
    requires
        va < u64::MAX - PAGE_SIZE,
    ensures
        vpn == ceil_vpn(va as int),
{
    if va == 0 {
        0
    } else {
        (va - 1 + PAGE_SIZE) / PAGE_SIZE
    }
}

/// The permission that `mmap` gives to pages for a protection argument `port`
/// whose bits are read (bit 0), write (bit 1) and execute (bit 2): those bits
/// moved up by one, plus the user bit.
pub open spec fn perm_of_port(port: u64) -> u8 {
    (port * 2 + MAP_PERM_U) as u8
}

/// Builds the page permission for a valid `mmap` protection argument.
pub fn map_permission_from_port(port: u64) -> (perm: u8)
    requires
        port < 8,
    ensures
        perm == perm_of_port(port),
{
    let shifted: u8 = (port << 1) as u8;
    let perm: u8 = (shifted & 0x1e) | MAP_PERM_U;
    assert(port < 8 ==> (((port << 1) as u8) & 0x1e) | 0x10u8 == (port * 2 + 16) as u8)
        by (bit_vector);
    perm
}

/// A mapped user page: its permission bits and the bytes it holds.
pub struct Page {
    pub perm: u8,
    pub bytes: Seq<u8>,
}

/// The contents of a freshly allocated page: every byte zero.
pub open spec fn zero_page() -> Seq<u8> {
    Seq::new(PAGE_SIZE as nat, |i: int| 0u8)
}

/// A fresh page with permission `perm`.
pub open spec fn fresh_page(perm: u8) -> Page {
    Page { perm, bytes: zero_page() }
}

/// `m` with every page of `[lo, hi)` mapped afresh with permission `perm`.
pub open spec fn map_range(m: Map<u64, Page>, lo: int, hi: int, perm: u8) -> Map<u64, Page> {
    Map::new(
        |v: u64| m.contains_key(v) || lo <= v < hi,
        |v: u64|
            if lo <= v < hi {
                fresh_page(perm)
            } else {
                m[v]
            },
    )
}

/// `m` without the pages of `[lo, hi)`.
pub open spec fn unmap_range(m: Map<u64, Page>, lo: int, hi: int) -> Map<u64, Page> {
    Map::new(|v: u64| m.contains_key(v) && !(lo <= v < hi), |v: u64| m[v])
}

/// No page of `[lo, hi)` is mapped in `m`.
pub open spec fn range_free(m: Map<u64, Page>, lo: int, hi: int) -> bool {
    forall|v: u64| lo <= v < hi ==> !#[trigger] m.contains_key(v)
}

/// Every page of `[lo, hi)` is mapped in `m`.
pub open spec fn range_mapped(m: Map<u64, Page>, lo: int, hi: int) -> bool {
    forall|v: u64| lo <= v < hi ==> #[trigger] m.contains_key(v)
}

/// Permission of the heap pages: readable, writable, user-accessible.
pub const HEAP_PERM: u8 = 0x16;

/// The heap area of an address space, `Some((start, end))` (page numbers),
/// is the one that `start_va` names: it starts at the page of `start_va`.
pub open spec fn heap_found(heap: Option<(u64, u64)>, start_va: u64) -> bool {
    heap matches Some((st, e)) && st as int == floor_vpn(start_va as int)
}

/// The user pages of a task's address space: each mapped virtual page
/// number with its permission bits and the bytes of its frame, and the
/// area that the heap grows in.
pub struct MemorySet {
    pages: BTreeMap<u64, (u8, Vec<u8>)>,
    heap_area: Option<(u64, u64)>,
}

impl View for MemorySet {
    type V = Map<u64, Page>;

    closed spec fn view(&self) -> Map<u64, Page> {
        Map::new(
            |v: u64| self.pages@.contains_key(v),
            |v: u64| Page { perm: self.pages@[v].0, bytes: self.pages@[v].1@ },
        )
    }
}

impl MemorySet {
    /// The heap area: its first page and the page just past it, if the
    /// address space has one.
    pub closed spec fn heap(&self) -> Option<(u64, u64)> {
        self.heap_area
    }

    /// The heap area: its first page and the page just past it.
    pub fn heap_area(&self) -> (area: Option<(u64, u64)>)
        ensures
            area == self.heap(),
    {
        self.heap_area
    }

    /// An address space with no user page and no heap area.
    pub fn new_bare() -> (ms: Self)
        ensures
            ms@ == Map::<u64, Page>::empty(),
            ms.heap() is None,
    {
        let ms = MemorySet { pages: BTreeMap::new(), heap_area: None };
        assert(ms@ =~= Map::<u64, Page>::empty());
        ms
    }

    /// A copy of another address space, page by page: the same mappings
    /// and permissions, each page's bytes copied, and the same heap area.
    pub fn from_existed_user(user_space: &MemorySet) -> (ms: Self)
        ensures
            ms@ == user_space@,
            ms.heap() == user_space.heap(),
    {
        let ms = MemorySet { pages: user_space.pages.clone(), heap_area: user_space.heap_area };
        assert(ms@ =~= user_space@);
        ms
    }

    /// The permission of page `vpn`, if it is mapped.
    pub fn translate(&self, vpn: u64) -> (perm: Option<u8>)
        ensures
            perm == (if self@.contains_key(vpn) {
                Some(self@[vpn].perm)
            } else {
                None::<u8>
            }),
    {
        match self.pages.get(&vpn) {
            Some(p) => Some(p.0),
            None => None,
        }
    }

    /// The byte at `offset` in page `vpn`, if the page is mapped and holds
    /// that offset.
    pub fn read_byte(&self, vpn: u64, offset: usize) -> (b: Option<u8>)
        ensures
            b == (if self@.contains_key(vpn) && offset < self@[vpn].bytes.len() {
                Some(self@[vpn].bytes[offset as int])
            } else {
                None::<u8>
            }),
    {
        match self.pages.get(&vpn) {
            Some(p) => {
                assert(self@.contains_key(vpn));
                if offset < p.1.len() {
                    Some(p.1[offset])
                } else {
                    None
                }
            },
            None => None,
        }
    }

    /// Writes `byte` at `offset` in page `vpn`; returns false, changing
    /// nothing, when the page is not mapped or does not hold that offset.
    pub fn write_byte(&mut self, vpn: u64, offset: usize, byte: u8) -> (done: bool)
        ensures
            done == (old(self)@.contains_key(vpn) && offset < old(self)@[vpn].bytes.len()),
            final(self)@ == (if done {
                old(self)@.insert(
                    vpn,
                    Page { bytes: old(self)@[vpn].bytes.update(offset as int, byte), ..old(self)@[vpn] },
                )
            } else {
                old(self)@
            }),
            final(self).heap() == old(self).heap(),
    {
        let ghost m0 = self@;
        match self.pages.remove(&vpn) {
            Some(p) => {
                assert(m0.contains_key(vpn));
                let (perm, mut bytes) = p;
                let done = offset < bytes.len();
                if done {
                    bytes.set(offset, byte);
                }
                self.pages.insert(vpn, (perm, bytes));
                if done {
                    assert(self@ =~= m0.insert(
                        vpn,
                        Page { bytes: m0[vpn].bytes.update(offset as int, byte), ..m0[vpn] },
                    ));
                } else {
                    assert(self@ =~= m0);
                }
                done
            },
            None => {
                assert(self@ =~= m0);
                false
            },
        }
    }

    /// Maps page `vpn` with permission `perm` onto a fresh, zeroed frame.
    pub fn map_page(&mut self, vpn: u64, perm: u8)
        ensures
            final(self)@ == old(self)@.insert(vpn, fresh_page(perm)),
            final(self).heap() == old(self).heap(),
    {
        let ghost m0 = self@;
        let bytes: Vec<u8> = vec![0u8; 4096];
        assert(bytes@ =~= zero_page());
        self.pages.insert(vpn, (perm, bytes));
        assert(self@ =~= m0.insert(vpn, fresh_page(perm)));
    }

    /// Unmaps page `vpn`.
    pub fn unmap_page(&mut self, vpn: u64)
        ensures
            final(self)@ == old(self)@.remove(vpn),
            final(self).heap() == old(self).heap(),
    {
        let ghost m0 = self@;
        self.pages.remove(&vpn);
        assert(self@ =~= m0.remove(vpn));
    }

    /// Releases every user page and area.
    pub fn recycle_data_pages(&mut self)
        ensures
            final(self)@ == Map::<u64, Page>::empty(),
            final(self).heap() is None,
    {
        self.pages.clear();
        self.heap_area = None;
        assert(self@ =~= Map::<u64, Page>::empty());
    }

    /// Adds the heap area `[start_va, start_va)` as a program is loaded:
    /// its pages, those that the empty address range touches, are mapped
    /// readable and writable.
    pub fn insert_heap_area(&mut self, start_va: u64)
        requires
            start_va < u64::MAX - PAGE_SIZE,
            range_free(old(self)@, floor_vpn(start_va as int), ceil_vpn(start_va as int)),
        ensures
            final(self)@ == map_range(old(self)@, floor_vpn(start_va as int), ceil_vpn(start_va as int), HEAP_PERM),
            final(self).heap() == Some((floor_vpn(start_va as int) as u64, ceil_vpn(start_va as int) as u64)),
    {
        let lo = floor(start_va);
        let hi = ceil(start_va);
        self.map_range_pages(lo, hi, HEAP_PERM);
        self.heap_area = Some((lo, hi));
    }

    /// Maps the pages `[lo, hi)` with permission `perm`.
    fn map_range_pages(&mut self, lo: u64, hi: u64, perm: u8)
        ensures
            final(self)@ == map_range(old(self)@, lo as int, hi as int, perm),
            final(self).heap() == old(self).heap(),
    {
        let ghost m0 = self@;
        let mut vpn = lo;
        while vpn < hi
            invariant
                lo <= vpn,
                lo < hi ==> vpn <= hi,
                lo >= hi ==> vpn == lo,
                self@ == map_range(m0, lo as int, vpn as int, perm),
                self.heap() == old(self).heap(),
            decreases hi - vpn,
        {
            self.map_page(vpn, perm);
            assert(self@ =~= map_range(m0, lo as int, vpn + 1, perm));
            vpn = vpn + 1;
        }
        assert(self@ =~= map_range(m0, lo as int, hi as int, perm));
    }

    /// Unmaps the pages `[lo, hi)`.
    fn unmap_range_pages(&mut self, lo: u64, hi: u64)
        ensures
            final(self)@ == unmap_range(old(self)@, lo as int, hi as int),
            final(self).heap() == old(self).heap(),
    {
        let ghost m0 = self@;
        let mut vpn = lo;
        while vpn < hi
            invariant
                lo <= vpn,
                lo < hi ==> vpn <= hi,
                lo >= hi ==> vpn == lo,
                self@ == unmap_range(m0, lo as int, vpn as int),
                self.heap() == old(self).heap(),
            decreases hi - vpn,
        {
            self.unmap_page(vpn);
            assert(self@ =~= unmap_range(m0, lo as int, vpn + 1));
            vpn = vpn + 1;
        }
        assert(self@ =~= unmap_range(m0, lo as int, hi as int));
    }

    /// Grows the area that starts at the page of `start_va` up to the page
    /// that holds `new_end_va`, mapping the new pages with the heap's
    /// permission; returns false, changing nothing, when no such area exists.
    pub fn append_to(&mut self, start_va: u64, new_end_va: u64) -> (found: bool)
        requires
            new_end_va < u64::MAX - PAGE_SIZE,
            heap_found(old(self).heap(), start_va) ==> {
                let (st, e) = old(self).heap().unwrap();
                &&& e <= ceil_vpn(new_end_va as int)
                &&& st <= ceil_vpn(new_end_va as int)
                &&& range_free(old(self)@, e as int, ceil_vpn(new_end_va as int))
            },
        ensures
            found == heap_found(old(self).heap(), start_va),
            !found ==> final(self)@ == old(self)@ && final(self).heap() == old(self).heap(),
            found ==> {
                let (st, e) = old(self).heap().unwrap();
                &&& final(self)@ == map_range(old(self)@, e as int, ceil_vpn(new_end_va as int), HEAP_PERM)
                &&& final(self).heap() == Some((st, ceil_vpn(new_end_va as int) as u64))
            },
    {
        let start_vpn = floor(start_va);
        match self.heap_area {
            Some((st, e)) => {
                if st == start_vpn {
                    let new_end = ceil(new_end_va);
                    self.map_range_pages(e, new_end, HEAP_PERM);
                    self.heap_area = Some((st, new_end));
                    true
                } else {
                    false
                }
            },
            None => false,
        }
    }

    /// Shrinks the area that starts at the page of `start_va` down to the
    /// page that holds `new_end_va`, unmapping the pages past it; returns
    /// false, changing nothing, when no such area exists.
    pub fn shrink_to(&mut self, start_va: u64, new_end_va: u64) -> (found: bool)
        requires
            new_end_va < u64::MAX - PAGE_SIZE,
            heap_found(old(self).heap(), start_va) ==> {
                let (st, e) = old(self).heap().unwrap();
                &&& st <= ceil_vpn(new_end_va as int) <= e
                &&& range_mapped(old(self)@, ceil_vpn(new_end_va as int), e as int)
            },
        ensures
            found == heap_found(old(self).heap(), start_va),
            !found ==> final(self)@ == old(self)@ && final(self).heap() == old(self).heap(),
            found ==> {
                let (st, e) = old(self).heap().unwrap();
                &&& final(self)@ == unmap_range(old(self)@, ceil_vpn(new_end_va as int), e as int)
                &&& final(self).heap() == Some((st, ceil_vpn(new_end_va as int) as u64))
            },
    {
        let start_vpn = floor(start_va);
        match self.heap_area {
            Some((st, e)) => {
                if st == start_vpn {
                    let new_end = ceil(new_end_va);
                    self.unmap_range_pages(new_end, e);
                    self.heap_area = Some((st, new_end));
                    true
                } else {
                    false
                }
            },
            None => false,
        }
    }
}

} // verus!
