//! A page table over an address type and an entry format of a consumer's own.

use kpte::{
    AddrRange, FrameAllocator, MemoryAddr, NoFlush, PageSize, PageTable, PageTableEntry,
    PageTableEntryKind, PageTableWalker, PagingError, PagingMetaData, PagingResult, PhysAddr,
    PhysAddrRange,
};
use std::collections::HashMap;

/// An address that a device uses.
#[derive(Clone, Copy, Debug, PartialEq, Eq)]
struct Iova(u64);

impl MemoryAddr for Iova {
    fn as_u64(self) -> u64 {
        self.0
    }

    fn from_u64(addr: u64) -> Self {
        Iova(addr)
    }
}

/// Table pointers carry the level of the table they point at in bits 11:9, and
/// leaves carry zero there.
#[derive(Clone, Copy, Debug, PartialEq, Eq)]
struct LevelledPte(u64);

const ADDR: u64 = 0x000f_ffff_ffff_f000;

impl PageTableEntry for LevelledPte {
    type Flags = bool;

    fn new_leaf(paddr: PhysAddr, flags: bool, _size: PageSize) -> Self {
        LevelledPte((paddr.as_u64() & ADDR) | 1 | ((flags as u64) << 1))
    }

    fn new_table(paddr: PhysAddr, level: u8) -> Self {
        LevelledPte((paddr.as_u64() & ADDR) | 1 | ((level as u64 - 1) << 9))
    }

    fn paddr(&self) -> PhysAddr {
        PhysAddr::from_u64(self.0 & ADDR)
    }

    fn flags(&self) -> bool {
        self.0 & 2 != 0
    }

    fn is_present(&self) -> bool {
        self.0 & 1 != 0
    }

    fn entry_kind(&self, level: u8) -> PageTableEntryKind {
        match (self.0 >> 9) & 7 {
            0 => PageTableEntryKind::Leaf,
            next if next == level as u64 - 1 => PageTableEntryKind::Table,
            _ => PageTableEntryKind::Invalid,
        }
    }

    fn clear(&mut self) {
        self.0 = 0;
    }

    fn bits(&self) -> u64 {
        self.0
    }

    fn from_bits(bits: u64) -> Self {
        LevelledPte(bits)
    }
}

/// Six levels, the tallest tree there is.
struct TallMeta;

impl PagingMetaData for TallMeta {
    const LEVELS: usize = 6;
    const PA_MAX_BITS: usize = 52;
    const VA_MAX_BITS: usize = 64;

    type VirtAddr = Iova;

    fn level_shift(level: u8) -> u32 {
        12 + ((level as u32) - 1) * 9
    }

    fn level_index_bits(level: u8) -> u32 {
        if level == 6 { 7 } else { 9 }
    }

    fn level_supports_leaf(level: u8, size: PageSize) -> bool {
        Self::leaf_size_at_level(level) == Some(size)
    }

    fn vaddr_is_valid(vaddr: Iova) -> bool {
        kpte::paging::linear_in_range(vaddr.as_u64(), Self::VA_MAX_BITS)
    }
}

#[derive(Debug, Default)]
struct Pool {
    frames: HashMap<u64, Vec<u64>>,
    next: u64,
}

impl FrameAllocator for Pool {
    fn allocate(&mut self, size: u64, _align: PageSize) -> PagingResult<PhysAddrRange> {
        self.next += size;
        self.frames.insert(self.next, vec![0; (size / 8) as usize]);
        Ok(PhysAddrRange::from_start_size(PhysAddr::from_u64(self.next), size))
    }

    fn deallocate(&mut self, range: PhysAddrRange) -> PagingResult {
        match self.frames.remove(&range.start.as_u64()) {
            Some(_) => Ok(()),
            None => Err(PagingError::AddressOutOfRange),
        }
    }

    fn read_entry(&self, paddr: PhysAddr, idx: usize) -> u64 {
        self.frames[&paddr.as_u64()][idx]
    }

    fn write_entry(&mut self, paddr: PhysAddr, idx: usize, bits: u64) {
        self.frames.get_mut(&paddr.as_u64()).unwrap()[idx] = bits;
    }
}

type Pt = PageTableWalker<TallMeta, LevelledPte, Pool>;

#[test]
fn consumer_address_type_and_format() {
    assert!(kpte::plan::walker_layout_ok::<TallMeta>());
    let mut pt = Pt::try_new(Pool::default()).unwrap();
    let far = Iova(0xfedc_ba98_7654_3000);
    let page = AddrRange::from_start_size(far, 0x1000);
    pt.map(page, PhysAddr::from_u64(0x7000), true, &mut NoFlush).unwrap();
    let found = PageTable::query(&pt, far).unwrap();
    assert_eq!((found.range, found.paddr, found.flags), (page, PhysAddr::from_u64(0x7000), true));
    let alloc = pt.reclaim();
    assert!(alloc.frames.is_empty());
}

#[test]
fn entry_of_another_level_is_refused() {
    let mut pool = Pool::default();
    let root = pool.allocate(0x1000, PageSize::Size4K).unwrap().start;
    let child = pool.allocate(0x1000, PageSize::Size4K).unwrap().start;
    // A pointer that names level 3 where level 5 is due.
    pool.write_entry(root, 0, LevelledPte::new_table(child, 4).bits());
    let mut pt = Pt::adopt(root, pool);
    let page = AddrRange::from_start_size(Iova(0x1000), 0x1000);
    assert_eq!(pt.query(Iova(0x1000)), Err(PagingError::InvalidEntryKind));
    assert_eq!(
        pt.map(page, PhysAddr::from_u64(0x7000), true, &mut NoFlush),
        Err(PagingError::InvalidEntryKind)
    );
    assert_eq!(pt.unmap(page, &mut NoFlush), Err(PagingError::InvalidEntryKind));
}
