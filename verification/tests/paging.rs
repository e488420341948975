//! Traits, mappings and the attribute model.

use kpte::paging::sweep_range;
use kpte::{
    AccessFlags, AddrRange, AddrSpaceActivation, AddrSpaceToken, CachePolicy, Coherency,
    MapBacking, Mapping, MappingContiguity, MappingFlags, MemoryAttributes, NoFlush, PageSize,
    PageTableEntry, PageTableEntryKind, PagingError, PagingResult, PhysAddr, PhysAddrRange,
    Shareability, TlbInvalidation, VirtAddr,
};

#[derive(Clone, Copy, Debug, PartialEq, Eq)]
struct MockToken {
    root: PhysAddr,
}

impl AddrSpaceToken for MockToken {
    fn root(self) -> PhysAddr {
        self.root
    }
}

#[derive(Default)]
struct MockActivation;

impl AddrSpaceActivation for MockActivation {
    type Token = MockToken;
    type Controls = ();

    fn install(&self, root: PhysAddr, _controls: ()) -> PagingResult<MockToken> {
        Ok(MockToken { root })
    }
}

#[test]
fn activation_trait_installs_tokens_with_portable_root() {
    let activation = MockActivation;
    let root = PhysAddr::from(0x2000u64);

    let token = activation.install(root, ()).unwrap();
    assert_eq!(token.root(), root);
    assert_eq!(activation.current().unwrap(), None);

    activation.uninstall(token).unwrap();
}

#[derive(Clone, Copy, Debug, Default, PartialEq, Eq)]
struct DummyEntry(u64);

impl PageTableEntry for DummyEntry {
    type Flags = ();

    fn new_leaf(paddr: PhysAddr, _flags: (), _size: PageSize) -> Self {
        Self(paddr.as_u64())
    }

    fn new_table(paddr: PhysAddr, _level: u8) -> Self {
        Self(paddr.as_u64())
    }

    fn paddr(&self) -> PhysAddr {
        PhysAddr::from_u64(self.0)
    }

    fn flags(&self) {}

    fn is_present(&self) -> bool {
        self.0 != 0
    }

    fn entry_kind(&self, _level: u8) -> PageTableEntryKind {
        PageTableEntryKind::Leaf
    }

    fn clear(&mut self) {
        self.0 = 0;
    }

    fn bits(&self) -> u64 {
        self.0
    }

    fn from_bits(bits: u64) -> Self {
        Self(bits)
    }
}

#[test]
fn typed_access_may_end_at_range_boundary() {
    let bytes = [0u8; 8];
    let start = VirtAddr::from_u64(bytes.as_ptr() as u64);
    let end = VirtAddr::from_u64(start.as_u64() + bytes.len() as u64);
    let mapping = Mapping::<DummyEntry, VirtAddr>::new(
        AddrRange::new(start, end),
        PhysAddr::from_u64(0),
        (),
    );

    assert!(mapping.offset_with::<u32>(4).is_ok());
    assert!(mapping.offset_with::<u64>(1).is_err());
}

#[test]
fn typed_access_names_the_reason() {
    let mapping = Mapping::<DummyEntry, VirtAddr>::new(
        AddrRange { start: VirtAddr::from_u64(u64::MAX - 7), end: VirtAddr::from_u64(0x1000) },
        PhysAddr::from_u64(0),
        (),
    );
    assert_eq!(mapping.offset_with::<u8>(7), Ok(VirtAddr::from_u64(u64::MAX)));
    assert_eq!(mapping.offset_with::<u8>(8), Err(PagingError::AddressOutOfRange));
    assert_eq!(mapping.offset_with::<u8>(0x1008), Err(PagingError::UnsupportedSize));
    assert_eq!(mapping.start(), VirtAddr::from_u64(u64::MAX - 7));
    assert_eq!(mapping.end(), VirtAddr::from_u64(0x1000));
    assert!(!mapping.contains(VirtAddr::from_u64(0)));
    assert_eq!(mapping.size(), None);
}

#[test]
fn access_flags_are_a_set() {
    let rw = AccessFlags::read() | AccessFlags::write();
    assert_eq!(rw.bits(), 3);
    assert!(rw.contains(AccessFlags::read()));
    assert!(!rw.contains(AccessFlags::read() | AccessFlags::user()));
    assert!(rw.intersects(AccessFlags::write() | AccessFlags::user()));
    assert!(!rw.intersects(AccessFlags::user()));
    assert_eq!((rw & AccessFlags::write()).bits(), 2);
    assert!(AccessFlags::empty().is_empty());
    assert_eq!(AccessFlags::from_bits_truncate(0xff).bits(), 0x1f);
    assert_eq!(AccessFlags::execute().union(AccessFlags::global()).bits(), 20);
    let mut f = AccessFlags::read();
    f |= AccessFlags::user();
    assert_eq!(f.bits(), 9);
    f &= AccessFlags::user();
    assert_eq!(f.bits(), 8);
    assert_eq!(AccessFlags::default(), AccessFlags::empty());
}

#[test]
fn page_sizes_and_lengths_correspond() {
    let sizes = [
        (PageSize::Size4K, 12),
        (PageSize::Size16K, 14),
        (PageSize::Size64K, 16),
        (PageSize::Size2M, 21),
        (PageSize::Size32M, 25),
        (PageSize::Size512M, 29),
        (PageSize::Size1G, 30),
        (PageSize::Size64G, 36),
        (PageSize::Size512G, 39),
        (PageSize::Size4T, 42),
    ];
    for (size, shift) in sizes {
        assert_eq!(size.bytes(), 1u64 << shift);
        assert_eq!(PageSize::from_bytes(size.bytes()), Some(size));
        assert_eq!(PageSize::from_shift(shift), Some(size));
        assert!(size.is_aligned(size.bytes() * 3));
        assert!(!size.is_aligned(size.bytes() / 2));
        assert_eq!(size.is_huge(), size != PageSize::Size4K);
    }
    assert_eq!(PageSize::from_bytes(0x2000), None);
    assert_eq!(PageSize::from_shift(13), None);
}

#[test]
fn memory_attributes_build_up() {
    let attrs = MemoryAttributes::writeback();
    assert_eq!(attrs, MemoryAttributes::default());
    let attrs = attrs
        .with_cache(CachePolicy::Uncached)
        .with_shareability(Shareability::Outer)
        .with_coherency(Coherency::NonCoherent);
    assert_eq!(
        attrs,
        MemoryAttributes::new(CachePolicy::Uncached, Shareability::Outer, Coherency::NonCoherent)
    );
    assert_eq!(attrs.cache(), CachePolicy::Uncached);
    assert_eq!(attrs.shareability(), Shareability::Outer);
    assert_eq!(attrs.coherency(), Coherency::NonCoherent);
}

#[test]
fn mapping_flags_carry_contiguity() {
    assert_eq!(MappingFlags::new(5u8).contiguity(), MappingContiguity::Contiguous);
    assert_eq!(MappingFlags::from(5u8), MappingFlags::contiguous(5u8));
    let scattered = MappingFlags::scattered(5u8, PageSize::Size2M);
    assert_eq!(scattered.contiguity(), MappingContiguity::Scattered(PageSize::Size2M));
    assert_eq!(scattered.leaf(), 5);
    let range = PhysAddrRange::from_start_size(PhysAddr::from_u64(0x1000), 0x2000);
    assert_eq!(MapBacking::from(range), MapBacking::contiguous(range));
    assert_eq!(
        MapBacking::contiguous_from_start_size(PhysAddr::from_u64(0x1000), 0x2000),
        MapBacking::contiguous(range)
    );
    assert_eq!(MapBacking::scattered(&[range]), MapBacking::Scattered(&[range]));
}

#[test]
fn inverted_ranges_are_empty() {
    let range = AddrRange { start: VirtAddr::from_u64(0x3000), end: VirtAddr::from_u64(0x1000) };
    assert!(range.is_empty());
    assert_eq!(range.size(), 0u64.wrapping_sub(0x2000));
    assert!(!range.contains(VirtAddr::from_u64(0x2000)));
    assert_eq!(
        AddrRange::try_from_start_size(VirtAddr::from_u64(u64::MAX), 1).map(|r| r.size()),
        None
    );
}

#[derive(Default)]
struct Sweeper(Vec<u64>);

impl TlbInvalidation<VirtAddr> for Sweeper {
    fn flush_tlb_local(&mut self, vaddr: VirtAddr) {
        self.0.push(vaddr.as_u64());
    }

    fn flush_tlb_all_local(&mut self) {
        self.0.clear();
    }

    fn flush_tlb_range_local(&mut self, start: VirtAddr, page_size: PageSize, count_pages: u64) {
        sweep_range(self, start, page_size, count_pages);
    }

    fn prefer_full_flush(&self, pending_count: u64) -> bool {
        kpte::paging::many_pages(pending_count)
    }
}

#[test]
fn range_sweep_stops_at_the_top() {
    let mut tlb = Sweeper::default();
    tlb.flush_tlb_range_local(VirtAddr::from_u64(u64::MAX - 0xfff), PageSize::Size4K, 3);
    assert_eq!(tlb.0, [u64::MAX - 0xfff, u64::MAX, u64::MAX]);
    assert!(!tlb.prefer_full_flush(32));
    assert!(tlb.prefer_full_flush(33));
    assert!(!TlbInvalidation::<VirtAddr>::prefer_full_flush(&NoFlush, u64::MAX));
}

#[test]
fn defaults_are_the_plain_choices() {
    assert_eq!(AccessFlags::default(), AccessFlags::empty());
    assert_eq!(MemoryAttributes::default(), MemoryAttributes::writeback());
    assert_eq!(CachePolicy::default(), CachePolicy::Writeback);
    assert_eq!(Shareability::default(), Shareability::Inner);
    assert_eq!(Coherency::default(), Coherency::Coherent);
    assert_eq!(MappingContiguity::default(), MappingContiguity::Contiguous);
    let flags = kpte::arch::x86::X86Flags::default();
    assert!(flags.access.is_empty());
    assert_eq!(flags.attrs(), MemoryAttributes::writeback());
    assert_eq!(kpte::arch::x86::X86Pte::default().bits(), 0);
}

#[test]
fn access_flags_hold_five_bits() {
    for bits in 0..=u8::MAX {
        let flags = AccessFlags::from_bits_truncate(bits);
        assert_eq!(flags.bits(), bits & 0x1f);
        assert_eq!(AccessFlags::from_bits_truncate(flags.bits()), flags);
        let all = [
            AccessFlags::read(),
            AccessFlags::write(),
            AccessFlags::execute(),
            AccessFlags::user(),
            AccessFlags::global(),
        ];
        assert_eq!(flags.is_empty(), !all.iter().any(|flag| flags.contains(*flag)));
        assert_eq!(flags.is_empty(), !flags.intersects(flags));
    }
}
