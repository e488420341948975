//! Walker behaviour on a simple entry format and a host-side allocator.

use kpte::cursor::PageTableCursor;
use kpte::flush::FLUSH_RANGE_CAP;
use kpte::plan::walker_layout_ok;
use kpte::{
    AccessFlags, CachePolicy, FrameAllocator, MappingContiguity, MappingFlags, NoFlush, PageSize,
    PageTable, PageTableEntry, PageTableEntryKind, PageTableWalker, PagingError, PagingMetaData,
    PagingResult, PhysAddr, PhysAddrRange, TlbInvalidation, VirtAddr, VirtAddrRange,
};
use std::cell::{Cell, RefCell};
use std::collections::HashMap;
use std::rc::Rc;

/// Bit layout:
/// - bit 0 = present
/// - bit 1 = leaf
/// - bits 2..6 = access flags
/// - bits 6..8 = cache policy
/// - bits 12..52 = physical address
#[derive(Clone, Copy, Debug, Default, PartialEq, Eq)]
struct MockPte(u64);

const MOCK_PRESENT: u64 = 1 << 0;
const MOCK_LEAF: u64 = 1 << 1;
const MOCK_INVALID: u64 = 1 << 63;
const MOCK_PADDR_MASK: u64 = 0x000f_ffff_ffff_f000;

#[derive(Clone, Copy, Debug, Default, PartialEq, Eq)]
struct MockFlags {
    access: AccessFlags,
    cache: CachePolicy,
}

impl PageTableEntry for MockPte {
    type Flags = MockFlags;

    fn new_leaf(paddr: PhysAddr, flags: MockFlags, _size: PageSize) -> Self {
        let mut bits = paddr.as_u64() & MOCK_PADDR_MASK;
        bits |= MOCK_PRESENT | MOCK_LEAF;
        bits |= ((flags.access.bits() as u64) & 0xf) << 2;
        bits |= ((flags.cache as u64) & 0x3) << 6;
        Self(bits)
    }

    fn new_table(paddr: PhysAddr, _level: u8) -> Self {
        Self((paddr.as_u64() & MOCK_PADDR_MASK) | MOCK_PRESENT)
    }

    fn paddr(&self) -> PhysAddr {
        PhysAddr::from_u64(self.0 & MOCK_PADDR_MASK)
    }

    fn flags(&self) -> MockFlags {
        let access = AccessFlags::from_bits_truncate(((self.0 >> 2) & 0xf) as u8);
        let cache = match (self.0 >> 6) & 0x3 {
            0 => CachePolicy::Writeback,
            1 => CachePolicy::Uncached,
            2 => CachePolicy::WriteCombine,
            _ => CachePolicy::WriteThrough,
        };
        MockFlags { access, cache }
    }

    fn is_present(&self) -> bool {
        self.0 & MOCK_PRESENT != 0
    }

    fn entry_kind(&self, level: u8) -> PageTableEntryKind {
        if self.0 & MOCK_INVALID != 0 {
            PageTableEntryKind::Invalid
        } else if level == 1 || self.0 & MOCK_LEAF != 0 {
            PageTableEntryKind::Leaf
        } else {
            PageTableEntryKind::Table
        }
    }

    fn clear(&mut self) {
        self.0 = 0;
    }

    fn bits(&self) -> u64 {
        self.0
    }

    fn from_bits(bits: u64) -> Self {
        Self(bits)
    }
}

struct MockMeta;

impl PagingMetaData for MockMeta {
    const LEVELS: usize = 4;
    const PA_MAX_BITS: usize = 52;
    const VA_MAX_BITS: usize = 48;
    const INDEX_BITS: u32 = 9;
    const BASE_PAGE_SIZE: PageSize = PageSize::Size4K;
    const TABLE_FRAME_SIZE: PageSize = PageSize::Size4K;
    const ENTRIES_PER_TABLE: usize = 512;

    type VirtAddr = VirtAddr;

    fn level_shift(level: u8) -> u32 {
        12 + ((level as u32) - 1) * 9
    }

    fn level_index_bits(_level: u8) -> u32 {
        Self::INDEX_BITS
    }

    fn level_supports_leaf(level: u8, size: PageSize) -> bool {
        matches!(
            (level, size),
            (1, PageSize::Size4K) | (2, PageSize::Size2M) | (3, PageSize::Size1G)
        )
    }

    fn vaddr_is_valid(vaddr: VirtAddr) -> bool {
        kpte::paging::linear_in_range(vaddr.as_u64(), Self::VA_MAX_BITS)
    }
}

struct WideTableMeta;

impl PagingMetaData for WideTableMeta {
    const LEVELS: usize = 2;
    const PA_MAX_BITS: usize = 52;
    const VA_MAX_BITS: usize = 48;
    const INDEX_BITS: u32 = 11;
    const BASE_PAGE_SIZE: PageSize = PageSize::Size16K;
    const TABLE_FRAME_SIZE: PageSize = PageSize::Size16K;
    const ENTRIES_PER_TABLE: usize = 2048;

    type VirtAddr = VirtAddr;

    fn level_shift(level: u8) -> u32 {
        14 + ((level as u32) - 1) * 11
    }

    fn level_index_bits(_level: u8) -> u32 {
        Self::INDEX_BITS
    }

    fn level_supports_leaf(level: u8, size: PageSize) -> bool {
        matches!((level, size), (1, PageSize::Size16K))
    }

    fn vaddr_is_valid(vaddr: VirtAddr) -> bool {
        kpte::paging::linear_in_range(vaddr.as_u64(), Self::VA_MAX_BITS)
    }
}

/// Frames live in a map keyed by physical base address. The number of live
/// frames can be read while a walker owns the allocator, and after.
#[derive(Debug)]
struct MockAlloc {
    frames: HashMap<u64, Vec<u64>>,
    next: u64,
    live: Rc<Cell<usize>>,
    budget: usize,
    keep: bool,
    skew: u64,
    released: Rc<RefCell<Vec<u64>>>,
}

impl MockAlloc {
    fn new() -> Self {
        MockAlloc {
            frames: HashMap::new(),
            next: 0x10_0000,
            live: Rc::new(Cell::new(0)),
            budget: usize::MAX,
            keep: false,
            skew: 0,
            released: Rc::new(RefCell::new(Vec::new())),
        }
    }

    fn with_budget(budget: usize) -> Self {
        MockAlloc { budget, ..MockAlloc::new() }
    }

    /// An allocator that takes no frame back.
    fn keeping() -> Self {
        MockAlloc { keep: true, ..MockAlloc::new() }
    }

    /// An allocator whose frames are not aligned.
    fn skewed() -> Self {
        MockAlloc { skew: 0x800, ..MockAlloc::new() }
    }

    fn live(&self) -> Rc<Cell<usize>> {
        self.live.clone()
    }
}

impl FrameAllocator for MockAlloc {
    fn allocate(&mut self, size: u64, align: PageSize) -> PagingResult<PhysAddrRange> {
        if size == 0 || (size & 0xfff) != 0 {
            return Err(PagingError::NotAligned);
        }
        if self.budget == 0 {
            return Err(PagingError::OutOfMemory);
        }
        self.budget -= 1;
        let base = self.next.next_multiple_of(align.bytes()) + self.skew;
        self.next = base + size;
        self.frames.insert(base, vec![0; (size / 8) as usize]);
        self.live.set(self.live.get() + 1);
        Ok(PhysAddrRange::from_start_size(PhysAddr::from_u64(base), size))
    }

    fn deallocate(&mut self, range: PhysAddrRange) -> PagingResult {
        let Some(frame) = self.frames.get(&range.start.as_u64()) else {
            return Err(PagingError::AddressOutOfRange);
        };
        if frame.len() as u64 * 8 != range.size() {
            return Err(PagingError::NotAligned);
        }
        self.released.borrow_mut().push(range.start.as_u64());
        if self.keep {
            return Err(PagingError::OutOfMemory);
        }
        self.frames.remove(&range.start.as_u64());
        self.live.set(self.live.get() - 1);
        Ok(())
    }

    fn read_entry(&self, paddr: PhysAddr, idx: usize) -> u64 {
        self.frames[&paddr.as_u64()][idx]
    }

    fn write_entry(&mut self, paddr: PhysAddr, idx: usize, bits: u64) {
        self.frames.get_mut(&paddr.as_u64()).unwrap()[idx] = bits;
    }
}

type Pt = PageTableWalker<MockMeta, MockPte, MockAlloc>;

#[derive(Clone, Debug, Default)]
struct RecordingTlb {
    range_calls: usize,
    local_calls: usize,
    full_calls: usize,
    ranges: Vec<(u64, u64)>,
    full_above: Option<u64>,
}

impl TlbInvalidation<VirtAddr> for RecordingTlb {
    fn flush_tlb_local(&mut self, _vaddr: VirtAddr) {
        self.local_calls += 1;
    }

    fn flush_tlb_all_local(&mut self) {
        self.full_calls += 1;
    }

    fn flush_tlb_range_local(&mut self, start: VirtAddr, _page_size: PageSize, count_pages: u64) {
        self.range_calls += 1;
        self.ranges.push((start.as_u64(), count_pages));
    }

    fn prefer_full_flush(&self, pending_count: u64) -> bool {
        match self.full_above {
            Some(limit) => pending_count > limit,
            None => false,
        }
    }
}

fn new_pt() -> Pt {
    Pt::try_new(MockAlloc::new()).unwrap()
}

fn flags(access: AccessFlags) -> MockFlags {
    MockFlags { access, cache: CachePolicy::Writeback }
}

fn read_only() -> MockFlags {
    flags(AccessFlags::read())
}

fn vrange(start: u64, size: PageSize) -> VirtAddrRange {
    VirtAddrRange::from_start_size(VirtAddr::from_u64(start), size.bytes())
}

fn va(v: u64) -> VirtAddr {
    VirtAddr::from_u64(v)
}

fn pa(p: u64) -> PhysAddr {
    PhysAddr::from_u64(p)
}

#[test]
fn map_query_unmap_4k_round_trip() {
    let mut pt = new_pt();
    let v = va(0x1000_0000);
    let p = pa(0xdead_0000);
    let f = flags(AccessFlags::read() | AccessFlags::write());

    let range = vrange(v.as_u64(), PageSize::Size4K);

    pt.map(range, p, f, &mut NoFlush).unwrap();
    let mapping = pt.query(v).unwrap();
    assert_eq!(mapping.paddr.as_u64(), p.as_u64());
    assert_eq!(mapping.range, range);
    assert_eq!(mapping.size(), Some(PageSize::Size4K));
    assert!(mapping.flags.access.contains(AccessFlags::write()));

    let unmapped = pt.unmap(range, &mut NoFlush).unwrap();
    assert_eq!(unmapped.paddr.as_u64(), p.as_u64());
    assert_eq!(unmapped.range, range);
    assert_eq!(unmapped.size(), Some(PageSize::Size4K));
    assert!(matches!(pt.query(v), Err(PagingError::NotMapped)));
}

#[test]
fn present_invalid_entry_fails_closed() {
    let mut alloc = MockAlloc::new();
    let root = alloc.allocate(0x1000, PageSize::Size4K).unwrap().start;
    alloc.write_entry(root, 0, MOCK_PRESENT | MOCK_INVALID);
    let pt = Pt::adopt(root, alloc);

    assert_eq!(pt.query(va(0)), Err(PagingError::InvalidEntryKind));
}

#[test]
fn metadata_controls_table_frame_granule() {
    let alloc = MockAlloc::new();
    let live = alloc.live();
    {
        let pt = PageTableWalker::<WideTableMeta, MockPte, MockAlloc>::try_new(alloc).unwrap();
        assert!(PageSize::Size16K.is_aligned(pt.root().as_u64()));
        assert_eq!(live.get(), 1);
        pt.reclaim();
    }
    assert_eq!(live.get(), 0);
}

#[test]
fn map_2m_huge_then_query() {
    let mut pt = new_pt();
    let v = va(0x4000_0000);
    let p = pa(0x2_0000_0000);
    let f = read_only();

    let range = vrange(v.as_u64(), PageSize::Size2M);
    pt.map(range, p, f, &mut NoFlush).unwrap();
    let mapping = pt.query(v).unwrap();
    assert_eq!(mapping.range, range);
    assert_eq!(mapping.size(), Some(PageSize::Size2M));
}

#[test]
fn exact_range_ops_refuse_interior_subranges() {
    let mut pt = new_pt();
    let v = va(0x4000_0000);
    let p = pa(0x2_0000_0000);
    let range = vrange(v.as_u64(), PageSize::Size2M);
    let interior = vrange(v.as_u64() + 0x1000, PageSize::Size4K);

    pt.map(range, p, read_only(), &mut NoFlush).unwrap();

    assert!(matches!(
        pt.protect(interior, flags(AccessFlags::read() | AccessFlags::write()), &mut NoFlush),
        Err(PagingError::NotMapped)
    ));
    assert!(matches!(
        pt.remap(interior, pa(0x3_0000_0000), read_only(), &mut NoFlush),
        Err(PagingError::NotMapped)
    ));
    assert!(matches!(pt.unmap(interior, &mut NoFlush), Err(PagingError::NotMapped)));

    let mapping = pt.query(v).unwrap();
    assert_eq!(mapping.range, range);
    assert_eq!(mapping.paddr.as_u64(), p.as_u64());
}

#[test]
fn double_map_returns_already_mapped() {
    let mut pt = new_pt();
    let v = va(0x2000);
    let p = pa(0x4000);
    let f = read_only();

    let range = vrange(v.as_u64(), PageSize::Size4K);
    pt.map(range, p, f, &mut NoFlush).unwrap();
    assert!(matches!(pt.map(range, p, f, &mut NoFlush), Err(PagingError::AlreadyMapped)));
}

#[test]
fn multiple_virtual_ranges_may_share_one_physical_frame() {
    let mut pt = new_pt();
    let p = pa(0x9000_0000);
    let r1 = vrange(0x1000_0000, PageSize::Size4K);
    let r2 = vrange(0x2000_0000, PageSize::Size4K);
    let f = flags(AccessFlags::read() | AccessFlags::write());

    pt.map(r1, p, f, &mut NoFlush).unwrap();
    pt.map(r2, p, f, &mut NoFlush).unwrap();

    assert_eq!(pt.query(va(0x1000_0000)).unwrap().paddr, p);
    assert_eq!(pt.query(va(0x2000_0000)).unwrap().paddr, p);

    pt.unmap(r1, &mut NoFlush).unwrap();
    assert!(matches!(pt.query(va(0x1000_0000)), Err(PagingError::NotMapped)));
    assert_eq!(pt.query(va(0x2000_0000)).unwrap().paddr, p);
}

#[test]
fn unmap_reclaims_emptied_intermediates() {
    let alloc = MockAlloc::new();
    let live = alloc.live();
    let baseline = live.get();
    let mut pt = Pt::try_new(alloc).unwrap();
    // 1 root frame
    assert_eq!(live.get(), baseline + 1);

    let v = va(0x1234_5000);
    let p = pa(0x6000);
    let f = read_only();

    let range = vrange(v.as_u64(), PageSize::Size4K);
    pt.map(range, p, f, &mut NoFlush).unwrap();
    // Three intermediate tables beside the root.
    assert_eq!(live.get(), baseline + 4);

    pt.unmap(range, &mut NoFlush).unwrap();
    // The three emptied intermediates are reclaimed. The root remains.
    assert_eq!(live.get(), baseline + 1);
}

#[test]
fn drop_reclaims_entire_subtree() {
    let alloc = MockAlloc::new();
    let live = alloc.live();
    let baseline = live.get();
    {
        let mut pt = Pt::try_new(alloc).unwrap();
        // Several pages spread across multiple subtrees.
        for i in 0..5 {
            let v = 0x1000_0000 + i * 0x4000_0000;
            let p = pa(0x10_0000 + i * 0x1000);
            pt.map(vrange(v, PageSize::Size4K), p, read_only(), &mut NoFlush).unwrap();
        }
        assert!(live.get() > baseline + 1);
        pt.reclaim();
    }
    assert_eq!(live.get(), baseline);
}

#[test]
fn split_2m_into_4k_leaves() {
    let mut pt = new_pt();
    let v = va(0x4000_0000);
    let p = pa(0x8000_0000);

    let range = vrange(v.as_u64(), PageSize::Size2M);
    pt.map(range, p, read_only(), &mut NoFlush).unwrap();
    let new_size = pt.split_at(range, &mut NoFlush).unwrap();
    assert_eq!(new_size, PageSize::Size4K);

    // Each of the 512 4K children must resolve to the right address.
    for i in 0..MockMeta::ENTRIES_PER_TABLE as u64 {
        let qv = va(v.as_u64() + i * 0x1000);
        let mapping = pt.query(qv).unwrap();
        assert_eq!(mapping.size(), Some(PageSize::Size4K));
        assert_eq!(mapping.paddr.as_u64(), p.as_u64() + i * 0x1000);
    }
}

#[test]
fn merge_after_split_round_trips() {
    let mut pt = new_pt();
    let v = va(0x4000_0000);
    let p = pa(0x8000_0000);

    let range = vrange(v.as_u64(), PageSize::Size2M);
    pt.map(range, p, read_only(), &mut NoFlush).unwrap();
    pt.split_at(range, &mut NoFlush).unwrap();

    let merged = pt.merge_at(range, &mut NoFlush).unwrap();
    assert_eq!(merged, PageSize::Size2M);

    let mapping = pt.query(v).unwrap();
    assert_eq!(mapping.size(), Some(PageSize::Size2M));
}

#[test]
fn merge_refuses_when_not_contiguous() {
    let mut pt = new_pt();
    let v = va(0x4000_0000);

    // 512 4K pages with a jump in the middle of the physical range.
    for i in 0..MockMeta::ENTRIES_PER_TABLE as u64 {
        let qv = v.as_u64() + i * 0x1000;
        let phys_base = if i < 256 { 0x8000_0000 } else { 0xc000_0000 };
        let qp = pa(phys_base + (i % 256) * 0x1000);
        pt.map(vrange(qv, PageSize::Size4K), qp, read_only(), &mut NoFlush).unwrap();
    }

    assert!(matches!(
        pt.merge_at(vrange(v.as_u64(), PageSize::Size2M), &mut NoFlush),
        Err(PagingError::NotCoalescable)
    ));
}

#[test]
fn merge_refuses_on_mismatched_flags() {
    let mut pt = new_pt();
    let v = va(0x4000_0000);
    let p_base = 0x8000_0000;

    for i in 0..MockMeta::ENTRIES_PER_TABLE as u64 {
        let qv = v.as_u64() + i * 0x1000;
        let qp = pa(p_base + i * 0x1000);
        // One entry with other flags.
        let f = if i == 100 {
            flags(AccessFlags::read() | AccessFlags::write())
        } else {
            read_only()
        };
        pt.map(vrange(qv, PageSize::Size4K), qp, f, &mut NoFlush).unwrap();
    }

    assert!(matches!(
        pt.merge_at(vrange(v.as_u64(), PageSize::Size2M), &mut NoFlush),
        Err(PagingError::NotCoalescable)
    ));
}

#[test]
fn protect_keeps_paddr_changes_flags() {
    let mut pt = new_pt();
    let v = va(0x1000);
    let p = pa(0x2000);
    let range = vrange(v.as_u64(), PageSize::Size4K);
    pt.map(range, p, read_only(), &mut NoFlush).unwrap();

    let _ = pt
        .protect(range, flags(AccessFlags::read() | AccessFlags::write()), &mut NoFlush)
        .unwrap();
    let mapping = pt.query(v).unwrap();
    assert_eq!(mapping.paddr.as_u64(), p.as_u64());
    assert!(mapping.flags.access.contains(AccessFlags::write()));
}

#[test]
fn remap_changes_paddr() {
    let mut pt = new_pt();
    let v = va(0x1000);
    let p1 = pa(0x2000);
    let p2 = pa(0x5000);
    let range = vrange(v.as_u64(), PageSize::Size4K);
    pt.map(range, p1, read_only(), &mut NoFlush).unwrap();

    pt.remap(range, p2, read_only(), &mut NoFlush).unwrap();
    let mapping = pt.query(v).unwrap();
    assert_eq!(mapping.paddr.as_u64(), p2.as_u64());
}

#[test]
fn cursor_maps_contiguous_range_correctly() {
    let mut pt = new_pt();
    let base_v = 0x1000_0000u64;
    let base_p = 0x4000_0000u64;
    let count = 64;

    {
        let mut tlb = NoFlush;
        let mut c = pt.cursor(&mut tlb);
        for i in 0..count {
            let v = base_v + i * 0x1000;
            let p = pa(base_p + i * 0x1000);
            c.map(vrange(v, PageSize::Size4K), p, read_only()).unwrap();
        }
        c.finish().unwrap();
    }

    for i in 0..count {
        let mapping = pt.query(va(base_v + i * 0x1000)).unwrap();
        assert_eq!(mapping.size(), Some(PageSize::Size4K));
        assert_eq!(mapping.paddr.as_u64(), base_p + i * 0x1000);
    }
}

#[test]
fn cursor_maps_across_level2_boundary_correctly() {
    let mut pt = new_pt();
    let addrs = [0x1ff000u64, 0x200000u64, 0x201000u64];

    {
        let mut tlb = NoFlush;
        let mut c = pt.cursor(&mut tlb);
        for (i, v) in addrs.into_iter().enumerate() {
            c.map(
                vrange(v, PageSize::Size4K),
                pa(0x4000_0000 + i as u64 * 0x1000),
                read_only(),
            )
            .unwrap();
        }
        c.finish().unwrap();
    }

    for (i, v) in addrs.into_iter().enumerate() {
        let mapping = pt.query(va(v)).unwrap();
        assert_eq!(mapping.size(), Some(PageSize::Size4K));
        assert_eq!(mapping.paddr.as_u64(), 0x4000_0000 + i as u64 * 0x1000);
    }
}

#[test]
fn cursor_drop_flushes_pending() {
    let mut pt = new_pt();
    let mut tlb = RecordingTlb::default();
    {
        let mut c = pt.cursor(&mut tlb);
        c.map(vrange(0x1000, PageSize::Size4K), pa(0x2000), read_only()).unwrap();
        c.finish().unwrap();
    }
    assert_eq!(tlb.ranges, [(0x1000, 1)]);
    let mapping = pt.query(va(0x1000)).unwrap();
    assert_eq!(mapping.paddr.as_u64(), 0x2000);
}

#[test]
fn cursor_flushes_contiguous_pending_pages_as_range() {
    let mut pt = new_pt();
    let mut tlb = RecordingTlb::default();
    let base_v = 0x5000_0000u64;
    let count = FLUSH_RANGE_CAP as u64 + 5;

    {
        let mut c = pt.cursor(&mut tlb);
        for i in 0..count {
            c.map(
                vrange(base_v + i * 0x1000, PageSize::Size4K),
                pa(0x9000_0000 + i * 0x1000),
                read_only(),
            )
            .unwrap();
        }
        c.finish().unwrap();
    }

    assert_eq!(tlb.range_calls, 1);
    assert_eq!(tlb.local_calls, 0);
    assert_eq!(tlb.full_calls, 0);
    assert_eq!(tlb.ranges, [(base_v, count)]);
}

#[test]
fn cursor_fragmented_range_overflow_falls_back_to_full_flush() {
    // The storage cap is on disjoint ranges, not page count.
    let mut pt = new_pt();
    let mut tlb = RecordingTlb::default();
    let base_v = 0x4000_0000u64;
    let base_p = 0x8000_0000u64;
    let count = FLUSH_RANGE_CAP as u64 + 1;

    {
        let mut c = pt.cursor(&mut tlb);
        for i in 0..count {
            c.map(
                vrange(base_v + i * 0x2000, PageSize::Size4K),
                pa(base_p + i * 0x1000),
                read_only(),
            )
            .unwrap();
        }
        assert!(c.pending.needs_full_flush());
        c.finish().unwrap();
    }

    assert_eq!(tlb.range_calls, 0);
    assert_eq!(tlb.local_calls, 0);
    assert_eq!(tlb.full_calls, 1);

    for i in 0..count {
        let mapping = pt.query(va(base_v + i * 0x2000)).unwrap();
        assert_eq!(mapping.paddr.as_u64(), base_p + i * 0x1000);
    }
}

#[test]
fn cursor_unmap_then_remap_roundtrip() {
    let mut pt = new_pt();
    let v = va(0x1000_0000);
    let p1 = pa(0x4000_0000);
    let p2 = pa(0x8000_0000);
    let range = vrange(v.as_u64(), PageSize::Size4K);
    pt.map(range, p1, read_only(), &mut NoFlush).unwrap();

    {
        let mut tlb = NoFlush;
        let mut c = pt.cursor(&mut tlb);
        c.unmap(range).unwrap();
        c.map(range, p2, flags(AccessFlags::read() | AccessFlags::write())).unwrap();
        c.finish().unwrap();
    }

    let mapping = pt.query(v).unwrap();
    assert_eq!(mapping.paddr.as_u64(), p2.as_u64());
    assert!(mapping.flags.access.contains(AccessFlags::write()));
}

#[test]
fn map_scattered_backing_accepts_array_reference() {
    let mut pt = new_pt();
    let ranges: [PhysAddrRange; 16] = core::array::from_fn(|i| {
        PhysAddrRange::from_start_size(pa(0x6000_0000 + i as u64 * 0x2000), 0x1000)
    });
    pt.map(
        vrange(0x2000_0000, PageSize::Size64K),
        &ranges,
        MappingFlags::scattered(read_only(), PageSize::Size4K),
        &mut NoFlush,
    )
    .unwrap();

    for i in 0..16 {
        let mapping = pt.query(va(0x2000_0000 + i * 0x1000)).unwrap();
        assert_eq!(mapping.paddr.as_u64(), 0x6000_0000 + i * 0x2000);
    }
}

#[test]
fn map_scattered_backing_accepts_heapless_vec() {
    let mut pt = new_pt();
    let mut ranges = heapless::Vec::<PhysAddrRange, 4>::new();
    for i in 0..4 {
        ranges
            .push(PhysAddrRange::from_start_size(pa(0x7000_0000 + i * 0x3000), 0x1000))
            .unwrap();
    }

    pt.map(
        vrange(0x3000_0000, PageSize::Size16K),
        ranges.as_slice(),
        MappingFlags::new(read_only())
            .with_contiguity(MappingContiguity::Scattered(PageSize::Size4K)),
        &mut NoFlush,
    )
    .unwrap();

    for i in 0..4 {
        let mapping = pt.query(va(0x3000_0000 + i * 0x1000)).unwrap();
        assert_eq!(mapping.paddr.as_u64(), 0x7000_0000 + i * 0x3000);
    }
}

#[test]
fn cursor_error_invalidates_descent() {
    // A cursor that double-maps an address fails and gives its cache up. A
    // subsequent call walks afresh and succeeds at a different address.
    let mut pt = new_pt();
    let v1 = va(0x1000);
    let v2 = va(0x4000_0000);
    let r1 = vrange(v1.as_u64(), PageSize::Size4K);
    let r2 = vrange(v2.as_u64(), PageSize::Size4K);
    let f = read_only();

    pt.map(r1, pa(0x2000), f, &mut NoFlush).unwrap();

    {
        let mut tlb = NoFlush;
        let mut c = PageTableCursor::new(&mut pt, &mut tlb);
        assert!(matches!(c.map(r1, pa(0x2000), f), Err(PagingError::AlreadyMapped)));
        c.map(r2, pa(0x5000_0000), f).unwrap();
        c.finish().unwrap();
    }

    let mapping = pt.query(v2).unwrap();
    assert_eq!(mapping.paddr.as_u64(), 0x5000_0000);
}

#[test]
fn allocator_refusal_keeps_mappings() {
    // Root plus two of the three tables that a page needs.
    let mut pt = Pt::try_new(MockAlloc::with_budget(3)).unwrap();
    let range = vrange(0x1000, PageSize::Size4K);
    assert_eq!(
        pt.map(range, pa(0x2000), read_only(), &mut NoFlush),
        Err(PagingError::OutOfMemory)
    );
    assert_eq!(pt.query(va(0x1000)), Err(PagingError::NotMapped));
    assert!(matches!(Pt::try_new(MockAlloc::with_budget(0)), Err((PagingError::OutOfMemory, _))));
}

#[test]
fn allocated_range_of_wrong_shape_is_handed_back() {
    let alloc = MockAlloc::skewed();
    let live = alloc.live();
    let Err((error, back)) = Pt::try_new(alloc) else { panic!("a skewed frame was taken") };
    assert_eq!(error, PagingError::NotAligned);
    assert_eq!(back.released.borrow().len(), 1);
    assert_eq!(live.get(), 0);
}

#[test]
fn query_tells_unmapped_from_illegal() {
    let pt = new_pt();
    assert_eq!(pt.query(va(0x1000)), Err(PagingError::NotMapped));
    assert_eq!(pt.query(va(0xffff_ffff_f000)), Err(PagingError::NotMapped));
    assert_eq!(pt.query(va(0x1_0000_0000_0000)), Err(PagingError::AddressOutOfRange));
}

#[test]
fn map_refuses_what_cannot_be_cut() {
    let mut pt = new_pt();
    let f = read_only();
    let range = |lo: u64, len: u64| VirtAddrRange::from_start_size(va(lo), len);
    let extent = |lo: u64, len: u64| PhysAddrRange::from_start_size(pa(lo), len);
    let cases: [(VirtAddrRange, PhysAddrRange, PagingError); 9] = [
        (range(0x1000, 0x1000), extent(0x2000, 0x2000), PagingError::InvalidMappingShape),
        (range(0x1000, 0), extent(0x2000, 0), PagingError::InvalidMappingShape),
        (range(0x1800, 0x1000), extent(0x2000, 0x1000), PagingError::NotAligned),
        (range(0x1000, 0x1000), extent(0x2800, 0x1000), PagingError::NotAligned),
        (range(0x1000, 0x1000), extent(1 << 52, 0x1000), PagingError::AddressOutOfRange),
        (range(1 << 48, 0x1000), extent(0x2000, 0x1000), PagingError::AddressOutOfRange),
        (range(0x1_0000, 0x1_0000), extent(0x2_0000, 0x1_0000), PagingError::UnsupportedSize),
        (range(0x1000, 0x1800), extent(0x2000, 0x1800), PagingError::UnsupportedSize),
        (range(0x1800, 0x3000), extent(0x2800, 0x3000), PagingError::UnsupportedSize),
    ];
    for (range, phys, error) in cases {
        assert_eq!(pt.map(range, phys, f, &mut NoFlush), Err(error));
    }
}

#[test]
fn map_refuses_backing_of_wrong_shape() {
    let mut pt = new_pt();
    let f = read_only();
    let range = VirtAddrRange::from_start_size(va(0x10_0000), 0x3000);
    let extent = |lo: u64, len: u64| PhysAddrRange::from_start_size(pa(lo), len);
    let scattered = MappingFlags::scattered(f, PageSize::Size4K);

    // Several extents behind a request for one.
    let two = [extent(0x1000, 0x1000), extent(0x4000, 0x2000)];
    assert_eq!(pt.map(range, &two, f, &mut NoFlush), Err(PagingError::InvalidMappingShape));
    // No extent, too few bytes, too many bytes, misaligned extents.
    let none: [PhysAddrRange; 0] = [];
    assert_eq!(pt.map(range, &none, scattered, &mut NoFlush), Err(PagingError::InvalidMappingShape));
    let short = [extent(0x1000, 0x2000)];
    assert_eq!(pt.map(range, &short, scattered, &mut NoFlush), Err(PagingError::InvalidMappingShape));
    let long = [extent(0x1000, 0x2000), extent(0x8000, 0x2000)];
    assert_eq!(pt.map(range, &long, scattered, &mut NoFlush), Err(PagingError::InvalidMappingShape));
    let skewed = [extent(0x1800, 0x3000)];
    assert_eq!(pt.map(range, &skewed, scattered, &mut NoFlush), Err(PagingError::InvalidMappingShape));
    // A granule that the range is no multiple of, and one that no level has.
    assert_eq!(
        pt.map(range, extent(0, 0x3000), MappingFlags::scattered(f, PageSize::Size2M), &mut NoFlush),
        Err(PagingError::InvalidMappingShape)
    );
    let wide = VirtAddrRange::from_start_size(va(0x10_0000), 0x1_0000);
    assert_eq!(
        pt.map(wide, extent(0, 0x1_0000), MappingFlags::scattered(f, PageSize::Size64K), &mut NoFlush),
        Err(PagingError::UnsupportedSize)
    );
    assert_eq!(pt.query(va(0x10_0000)), Err(PagingError::NotMapped));
    // One extent cut into granules is in order.
    pt.map(range, extent(0x1000, 0x3000), scattered, &mut NoFlush).unwrap();
    assert_eq!(pt.query(va(0x10_2fff)).unwrap().paddr, pa(0x3000));
}

#[test]
fn contiguous_request_takes_the_largest_leaves() {
    let mut pt = new_pt();
    let mut tlb = RecordingTlb::default();
    let base = 0x1f_f000u64;
    // One page, a 2 MiB block, and two pages.
    let range = VirtAddrRange::from_start_size(va(base), 0x20_3000);
    pt.map(range, pa(0x81f_f000), read_only(), &mut tlb).unwrap();
    let sizes: Vec<_> = [base, 0x20_0000, 0x3f_ffff, 0x40_0000, 0x40_1000]
        .into_iter()
        .map(|v| {
            let found = pt.query(va(v)).unwrap();
            (found.size().unwrap(), found.paddr.as_u64() + (v - found.start().as_u64()))
        })
        .collect();
    assert_eq!(
        sizes,
        [
            (PageSize::Size4K, 0x81f_f000),
            (PageSize::Size2M, 0x820_0000),
            (PageSize::Size2M, 0x83f_ffff),
            (PageSize::Size4K, 0x840_0000),
            (PageSize::Size4K, 0x840_1000),
        ]
    );
    assert_eq!(pt.query(va(0x40_2000)), Err(PagingError::NotMapped));
    assert_eq!(tlb.ranges, [(base, 0x203)]);
    assert_eq!(tlb.full_calls, 0);
}

#[test]
fn failed_request_keeps_and_flushes_what_it_installed() {
    let mut pt = new_pt();
    let mut tlb = RecordingTlb::default();
    pt.map(vrange(0x3000, PageSize::Size4K), pa(0xa000), read_only(), &mut NoFlush).unwrap();
    let range = VirtAddrRange::from_start_size(va(0x1000), 0x5000);
    assert_eq!(
        pt.map(range, pa(0x10_0000), read_only(), &mut tlb),
        Err(PagingError::AlreadyMapped)
    );
    assert_eq!(pt.query(va(0x1000)).unwrap().paddr, pa(0x10_0000));
    assert_eq!(pt.query(va(0x2000)).unwrap().paddr, pa(0x10_1000));
    assert_eq!(pt.query(va(0x3000)).unwrap().paddr, pa(0xa000));
    assert_eq!(pt.query(va(0x4000)), Err(PagingError::NotMapped));
    // The two pages that were installed are invalidated all the same.
    assert_eq!(tlb.ranges, [(0x1000, 2)]);
}

#[test]
fn pending_ranges_are_merged_and_drained_in_order() {
    let mut pt = new_pt();
    let mut tlb = RecordingTlb::default();
    {
        let mut c = pt.cursor(&mut tlb);
        for page in [0x9000u64, 0x1000, 0x5000, 0x3000, 0x2000] {
            c.map(vrange(page, PageSize::Size4K), pa(0x10_0000 + page), read_only()).unwrap();
        }
        c.finish().unwrap();
    }
    assert_eq!(tlb.ranges, [(0x1000, 3), (0x5000, 1), (0x9000, 1)]);
}

#[test]
fn flush_policy_is_asked_with_the_number_of_pages() {
    let mut pt = new_pt();
    let mut tlb = RecordingTlb { full_above: Some(2), ..RecordingTlb::default() };
    {
        let mut c = pt.cursor(&mut tlb);
        for page in [0x1000u64, 0x3000] {
            c.map(vrange(page, PageSize::Size4K), pa(0x10_0000 + page), read_only()).unwrap();
        }
        c.finish().unwrap();
    }
    assert_eq!((tlb.range_calls, tlb.full_calls), (2, 0));
    {
        let mut c = pt.cursor(&mut tlb);
        for page in [0x5000u64, 0x7000, 0x9000] {
            c.map(vrange(page, PageSize::Size4K), pa(0x10_0000 + page), read_only()).unwrap();
        }
        c.finish().unwrap();
    }
    assert_eq!((tlb.range_calls, tlb.full_calls), (2, 1));
    // A single 2 MiB leaf counts as 512 pages.
    pt.map(vrange(0x20_0000, PageSize::Size2M), pa(0x20_0000), read_only(), &mut tlb).unwrap();
    assert_eq!((tlb.range_calls, tlb.full_calls), (2, 2));
}

#[test]
fn cursor_changes_are_queued() {
    let mut pt = new_pt();
    let mut tlb = RecordingTlb::default();
    let range = vrange(0x1000, PageSize::Size4K);
    {
        let mut c = pt.cursor(&mut tlb);
        c.map(range, pa(0x2000), read_only()).unwrap();
        c.flush_pending();
        let moved = c.remap(range, pa(0x8000), read_only()).unwrap();
        assert_eq!(moved.paddr, pa(0x8000));
        c.flush_pending();
        let shut = c.protect(range, flags(AccessFlags::empty())).unwrap();
        assert_eq!(shut.paddr, pa(0x8000));
        c.flush_pending();
        c.unmap(range).unwrap();
        assert_eq!(c.unmap(range), Err(PagingError::NotMapped));
        assert_eq!(c.remap(range, pa(0x8000), read_only()), Err(PagingError::NotMapped));
        assert_eq!(c.protect(range, read_only()), Err(PagingError::NotMapped));
        c.finish().unwrap();
    }
    assert_eq!(tlb.ranges, [(0x1000, 1), (0x1000, 1), (0x1000, 1), (0x1000, 1)]);
}

#[test]
fn remap_and_protect_refuse_what_they_cannot_do() {
    let mut pt = new_pt();
    let mut tlb = RecordingTlb::default();
    let big = vrange(0x20_0000, PageSize::Size2M);
    pt.map(big, pa(0x40_0000), read_only(), &mut NoFlush).unwrap();
    assert_eq!(
        pt.remap(big, pa(0x41_0000), read_only(), &mut tlb),
        Err(PagingError::NotAligned)
    );
    assert_eq!(
        pt.remap(big, pa(1 << 52), read_only(), &mut tlb),
        Err(PagingError::AddressOutOfRange)
    );
    let illegal = vrange(1 << 48, PageSize::Size4K);
    assert_eq!(
        pt.protect(illegal, read_only(), &mut tlb),
        Err(PagingError::AddressOutOfRange)
    );
    assert_eq!(pt.unmap(illegal, &mut tlb), Err(PagingError::AddressOutOfRange));
    assert_eq!(tlb.range_calls + tlb.full_calls, 0);
    pt.remap(big, pa(0x60_0000), read_only(), &mut tlb).unwrap();
    assert_eq!(tlb.ranges, [(0x20_0000, 512)]);
    assert_eq!(pt.query(va(0x2f_ffff)).unwrap().paddr, pa(0x60_0000));
}

#[test]
fn unmap_clears_the_leaf_even_if_a_table_cannot_be_released() {
    let mut pt = Pt::try_new(MockAlloc::keeping()).unwrap();
    let mut tlb = RecordingTlb::default();
    let range = vrange(0x1000, PageSize::Size4K);
    pt.map(range, pa(0x2000), read_only(), &mut NoFlush).unwrap();
    assert_eq!(pt.unmap(range, &mut tlb), Err(PagingError::OutOfMemory));
    assert_eq!(pt.query(va(0x1000)), Err(PagingError::NotMapped));
    assert_eq!(tlb.range_calls + tlb.full_calls, 0);
    // The path can be built again.
    pt.map(range, pa(0x2000), read_only(), &mut NoFlush).unwrap();
    assert_eq!(pt.query(va(0x1000)).unwrap().paddr, pa(0x2000));
}

#[test]
fn unmap_stops_at_a_table_in_use() {
    let alloc = MockAlloc::new();
    let live = alloc.live();
    let mut pt = Pt::try_new(alloc).unwrap();
    let first = vrange(0x1000, PageSize::Size4K);
    let second = vrange(0x4000_0000, PageSize::Size4K);
    pt.map(first, pa(0x2000), read_only(), &mut NoFlush).unwrap();
    assert_eq!(live.get(), 4);
    pt.map(second, pa(0x3000), read_only(), &mut NoFlush).unwrap();
    assert_eq!(live.get(), 6);
    let gone = pt.unmap(first, &mut NoFlush).unwrap();
    assert_eq!((gone.paddr, gone.range.start), (pa(0x2000), va(0x1000)));
    assert_eq!(live.get(), 4);
    assert_eq!(pt.query(va(0x4000_0000)).unwrap().paddr, pa(0x3000));
    pt.unmap(second, &mut NoFlush).unwrap();
    assert_eq!(live.get(), 1);
}

#[test]
fn split_refuses_the_finest_leaf_and_an_empty_pool() {
    let mut pt = Pt::try_new(MockAlloc::with_budget(4)).unwrap();
    let page = vrange(0x1000, PageSize::Size4K);
    pt.map(page, pa(0x2000), read_only(), &mut NoFlush).unwrap();
    let block = vrange(0x20_0000, PageSize::Size2M);
    pt.map(block, pa(0x40_0000), read_only(), &mut NoFlush).unwrap();
    let mut tlb = RecordingTlb::default();
    assert_eq!(pt.split_at(page, &mut tlb), Err(PagingError::NotMapped));
    assert_eq!(pt.split_at(vrange(0x20_0000, PageSize::Size4K), &mut tlb), Err(PagingError::NotMapped));
    assert_eq!(pt.split_at(vrange(0x60_0000, PageSize::Size2M), &mut tlb), Err(PagingError::NotMapped));
    assert_eq!(pt.split_at(block, &mut tlb), Err(PagingError::OutOfMemory));
    assert_eq!(pt.query(va(0x20_0000)).unwrap().size(), Some(PageSize::Size2M));
    assert_eq!(tlb.range_calls + tlb.full_calls, 0);
}

#[test]
fn split_and_merge_change_no_translation() {
    let mut pt = new_pt();
    let mut tlb = RecordingTlb::default();
    let block = vrange(0x4000_0000, PageSize::Size1G);
    let f = flags(AccessFlags::read() | AccessFlags::execute());
    pt.map(block, pa(0x8000_0000), f, &mut NoFlush).unwrap();
    let leads = |pt: &Pt, v: u64| {
        let found = pt.query(va(v)).unwrap();
        (found.paddr.as_u64() + (v - found.start().as_u64()), found.flags)
    };
    let probes = [0x4000_0000u64, 0x4020_0fff, 0x5000_0000, 0x7fff_ffff];
    let before = probes.map(|v| leads(&pt, v));
    assert_eq!(pt.split_at(block, &mut tlb), Ok(PageSize::Size2M));
    assert_eq!(probes.map(|v| leads(&pt, v)), before);
    assert_eq!(pt.query(va(0x5000_0000)).unwrap().size(), Some(PageSize::Size2M));
    assert_eq!(pt.merge_at(block, &mut tlb), Ok(PageSize::Size1G));
    assert_eq!(probes.map(|v| leads(&pt, v)), before);
    assert_eq!(pt.query(va(0x5000_0000)).unwrap().size(), Some(PageSize::Size1G));
    assert_eq!(tlb.ranges, [(0x4000_0000, 0x4_0000), (0x4000_0000, 0x4_0000)]);
}

#[test]
fn merge_refuses_without_a_table_of_leaves() {
    let mut pt = new_pt();
    let mut tlb = RecordingTlb::default();
    let block = vrange(0x20_0000, PageSize::Size2M);
    let not_coalescable = Err(PagingError::NotCoalescable);
    // Nothing there, already one leaf, the finest size, a misaligned start.
    assert_eq!(pt.merge_at(block, &mut tlb), not_coalescable);
    pt.map(block, pa(0x40_0000), read_only(), &mut NoFlush).unwrap();
    assert_eq!(pt.merge_at(block, &mut tlb), not_coalescable);
    assert_eq!(pt.merge_at(vrange(0x20_0000, PageSize::Size4K), &mut tlb), not_coalescable);
    assert_eq!(pt.merge_at(vrange(0x20_1000, PageSize::Size2M), &mut tlb), not_coalescable);
    assert_eq!(pt.merge_at(vrange(0x4000_0000, PageSize::Size1G), &mut tlb), not_coalescable);
    // A size that no level has, and an illegal range.
    assert_eq!(
        pt.merge_at(vrange(0x20_0000, PageSize::Size64K), &mut tlb),
        Err(PagingError::UnsupportedSize)
    );
    assert_eq!(
        pt.merge_at(vrange(1 << 48, PageSize::Size2M), &mut tlb),
        Err(PagingError::AddressOutOfRange)
    );
    assert_eq!(tlb.range_calls + tlb.full_calls, 0);
    assert_eq!(pt.query(va(0x20_0000)).unwrap().size(), Some(PageSize::Size2M));
}

#[test]
fn merge_reports_a_table_that_cannot_be_released() {
    let mut pt = Pt::try_new(MockAlloc::keeping()).unwrap();
    let mut tlb = RecordingTlb::default();
    let block = vrange(0x20_0000, PageSize::Size2M);
    pt.map(block, pa(0x40_0000), read_only(), &mut NoFlush).unwrap();
    pt.split_at(block, &mut NoFlush).unwrap();
    assert_eq!(pt.merge_at(block, &mut tlb), Err(PagingError::OutOfMemory));
    // The leaf is in place; only the flush was not reached.
    assert_eq!(pt.query(va(0x20_0000)).unwrap().size(), Some(PageSize::Size2M));
    assert_eq!(tlb.range_calls + tlb.full_calls, 0);
}

#[test]
fn reclaim_releases_children_first_and_each_table_once() {
    let alloc = MockAlloc::new();
    let released = alloc.released.clone();
    let mut pt = Pt::try_new(alloc).unwrap();
    let root = pt.root().as_u64();
    pt.map(vrange(0x1000, PageSize::Size4K), pa(0x2000), read_only(), &mut NoFlush).unwrap();
    pt.map(vrange(0x4000_0000, PageSize::Size2M), pa(0x20_0000), read_only(), &mut NoFlush).unwrap();
    let alloc = pt.reclaim();
    assert!(alloc.frames.is_empty());
    let released = released.borrow();
    // Tables were handed out from the root down.
    let base = 0x10_0000u64;
    assert_eq!(root, base);
    assert_eq!(*released, [base + 0x3000, base + 0x2000, base + 0x4000, base + 0x1000, base]);
}

#[test]
fn adopted_tree_is_used_as_if_built() {
    let mut alloc = MockAlloc::new();
    let root = alloc.allocate(0x1000, PageSize::Size4K).unwrap().start;
    let child = alloc.allocate(0x1000, PageSize::Size4K).unwrap().start;
    // A 1 GiB leaf behind the second slot of a level-3 table.
    alloc.write_entry(root, 0, MockPte::new_table(child, 4).bits());
    let leaf = MockPte::new_leaf(pa(0x4000_0000), read_only(), PageSize::Size1G);
    alloc.write_entry(child, 1, leaf.bits());
    let live = alloc.live();
    let mut pt = Pt::adopt(root, alloc);
    assert_eq!(pt.root(), root);
    let block = vrange(0x4000_0000, PageSize::Size1G);
    assert_eq!(pt.query(va(0x4123_4567)).unwrap().range, block);
    assert_eq!(
        pt.map(vrange(0x4000_0000, PageSize::Size4K), pa(0), read_only(), &mut NoFlush),
        Err(PagingError::AlreadyMapped)
    );
    pt.unmap(block, &mut NoFlush).unwrap();
    assert_eq!(live.get(), 1);
    pt.reclaim();
    assert_eq!(live.get(), 0);
}

#[test]
fn layouts_are_told_apart() {
    assert!(walker_layout_ok::<MockMeta>());
    assert!(walker_layout_ok::<WideTableMeta>());
    assert!(!walker_layout_ok::<CrampedMeta>());
}

/// Its tables do not fit their frames.
struct CrampedMeta;

impl PagingMetaData for CrampedMeta {
    const LEVELS: usize = 2;
    const PA_MAX_BITS: usize = 52;
    const VA_MAX_BITS: usize = 48;
    const INDEX_BITS: u32 = 11;
    const BASE_PAGE_SIZE: PageSize = PageSize::Size4K;
    const TABLE_FRAME_SIZE: PageSize = PageSize::Size4K;
    const ENTRIES_PER_TABLE: usize = 2048;

    type VirtAddr = VirtAddr;

    fn level_shift(level: u8) -> u32 {
        12 + ((level as u32) - 1) * 11
    }

    fn level_index_bits(_level: u8) -> u32 {
        Self::INDEX_BITS
    }

    fn level_supports_leaf(level: u8, size: PageSize) -> bool {
        matches!((level, size), (1, PageSize::Size4K))
    }

    fn vaddr_is_valid(vaddr: VirtAddr) -> bool {
        kpte::paging::linear_in_range(vaddr.as_u64(), Self::VA_MAX_BITS)
    }
}

fn exercise<P: PageTable<VirtAddr, Entry = MockPte>>(pt: &mut P) {
    assert_eq!((P::INPUT_ADDR_BITS, P::OUTPUT_ADDR_BITS), (48, 52));
    let block = vrange(0x20_0000, PageSize::Size2M);
    pt.map(block, pa(0x40_0000), read_only(), &mut NoFlush).unwrap();
    assert_eq!(pt.split_at(block, &mut NoFlush), Ok(PageSize::Size4K));
    assert_eq!(pt.merge_at(block, &mut NoFlush), Ok(PageSize::Size2M));
    pt.remap(block, pa(0x60_0000), read_only(), &mut NoFlush).unwrap();
    pt.protect(block, flags(AccessFlags::write()), &mut NoFlush).unwrap();
    let found = pt.query(va(0x3f_ffff)).unwrap();
    assert_eq!((found.paddr, found.flags), (pa(0x60_0000), flags(AccessFlags::write())));
    assert_eq!(pt.unmap(block, &mut NoFlush), Ok(found));
    assert_eq!(pt.query(va(0x20_0000)), Err(PagingError::NotMapped));
}

#[test]
fn walker_is_a_page_table() {
    let mut pt = new_pt();
    exercise(&mut pt);
    assert_eq!(PageTable::root(&pt), pt.root());
}

#[test]
fn refused_allocator_is_handed_back() {
    let mut pool = MockAlloc::with_budget(0);
    pool.frames.insert(0x5000, vec![7; 512]);
    let Err((error, back)) = Pt::try_new(pool) else { panic!("there was no frame to give") };
    assert_eq!(error, PagingError::OutOfMemory);
    assert_eq!(back.frames[&0x5000][0], 7);
}

#[test]
fn merge_after_split_gives_queries_and_tables_back() {
    let alloc = MockAlloc::new();
    let live = alloc.live();
    let mut pt = Pt::try_new(alloc).unwrap();
    let block = vrange(0x20_0000, PageSize::Size2M);
    pt.map(block, pa(0x40_0000), read_only(), &mut NoFlush).unwrap();
    let tables = live.get();
    let probes = [0x1f_ffffu64, 0x20_0000, 0x2a_bcde, 0x3f_ffff, 0x40_0000];
    let before = probes.map(|v| pt.query(va(v)));
    pt.split_at(block, &mut NoFlush).unwrap();
    assert_eq!(live.get(), tables + 1);
    assert_ne!(probes.map(|v| pt.query(va(v))), before);
    assert_eq!(pt.merge_at(block, &mut NoFlush), Ok(PageSize::Size2M));
    assert_eq!(probes.map(|v| pt.query(va(v))), before);
    assert_eq!(live.get(), tables);
}

#[test]
fn queries_are_exact_and_aligned() {
    let mut pt = new_pt();
    pt.map(
        VirtAddrRange::from_start_size(va(0x1f_e000), 0x20_3000),
        pa(0x61f_e000),
        read_only(),
        &mut NoFlush,
    )
    .unwrap();
    for v in [0x1f_e000u64, 0x1f_ffff, 0x20_0000, 0x2f_f00f, 0x40_0abc] {
        let found = pt.query(va(v)).unwrap();
        let size = found.size().unwrap();
        assert!(found.contains(va(v)));
        assert!(size.is_aligned(found.start().as_u64()) && size.is_aligned(found.paddr.as_u64()));
        assert_eq!(pt.query(found.start()), Ok(found));
        assert_eq!(pt.query(va(found.end().as_u64() - 1)), Ok(found));
    }
}
