//! x86_64 entries, geometries and invalidation policies.

use kpte::arch::x86::entry::{HUGE_PAGE, NO_CACHE, WRITE_THROUGH};
use kpte::arch::x86::{
    X86Flags, X86Invalidation, X86InvlpgbTlb, X86Meta48, X86Meta57, X86PcidTlb, X86Pte, X86Tlb,
    X86_PAT_MSR_VALUE, X86_PAT_TYPE_UC, X86_PAT_TYPE_WB, X86_PAT_TYPE_WC, X86_PAT_TYPE_WT,
    X86_PAT_UNCACHED_INDEX, X86_PAT_WRITEBACK_INDEX, X86_PAT_WRITE_COMBINING_INDEX,
    X86_PAT_WRITE_THROUGH_INDEX,
};
use kpte::{
    AccessFlags, CachePolicy, Coherency, MemoryAttributes, PageSize, PageTableEntry,
    PagingMetaData, PhysAddr, Shareability, VirtAddr,
};

#[test]
fn entry_leaf_4k_round_trip() {
    let flags = X86Flags::new(AccessFlags::read() | AccessFlags::write());
    let pte = X86Pte::new_leaf(PhysAddr::from_u64(0x1000), flags, PageSize::Size4K);

    assert!(pte.is_present());
    assert!(pte.is_leaf_at(1)); // L1 present entries are 4K leaves.
    assert!(!pte.is_leaf_at(2)); // HUGE bit not set at intermediate levels.
    assert_eq!(pte.paddr().as_u64(), 0x1000);

    let decoded = pte.flags();
    assert!(decoded.access.contains(AccessFlags::read()));
    assert!(decoded.access.contains(AccessFlags::write()));
    assert!(!decoded.access.contains(AccessFlags::execute()));
    assert_eq!(decoded.cache(), CachePolicy::Writeback);
}

#[test]
fn flags_new_normalizes_read() {
    let flags = X86Flags::new(AccessFlags::write());
    assert!(flags.access.contains(AccessFlags::read()));
    assert!(flags.access.contains(AccessFlags::write()));
}

#[test]
fn leaf_2m_marks_huge() {
    let flags = X86Flags::new(AccessFlags::read());
    let pte = X86Pte::new_leaf(PhysAddr::from_u64(0x20_0000), flags, PageSize::Size2M);
    assert!(pte.is_leaf_at(2));
    assert!(pte.is_present());
}

#[test]
fn table_entry_is_not_leaf() {
    let pte = X86Pte::new_table(PhysAddr::from_u64(0x4000), 2);
    assert!(pte.is_present());
    assert!(!pte.is_leaf_at(2));
    assert_eq!(pte.paddr().as_u64(), 0x4000);
}

#[test]
fn uncached_sets_nocache_bit() {
    let flags = X86Flags::new(AccessFlags::read()).with_cache(CachePolicy::Uncached);
    let pte = X86Pte::new_leaf(PhysAddr::from_u64(0x1000), flags, PageSize::Size4K);
    let decoded = pte.flags();
    assert_eq!(
        pte.bits() & (NO_CACHE | WRITE_THROUGH),
        NO_CACHE | WRITE_THROUGH
    );
    assert_eq!(decoded.cache(), CachePolicy::Uncached);
}

#[test]
fn writecombine_uses_pat_wc_slot() {
    let flags = X86Flags::new(AccessFlags::read()).with_cache(CachePolicy::WriteCombine);
    let pte = X86Pte::new_leaf(PhysAddr::from_u64(0x1000), flags, PageSize::Size4K);
    let decoded = pte.flags();
    assert_eq!(pte.bits() & (NO_CACHE | WRITE_THROUGH), NO_CACHE);
    assert_eq!(decoded.cache(), CachePolicy::WriteCombine);
}

#[test]
fn writecombine_huge_uses_same_low_pat_slot() {
    let flags = X86Flags::new(AccessFlags::read()).with_cache(CachePolicy::WriteCombine);
    let pte = X86Pte::new_leaf(PhysAddr::from_u64(0x20_0000), flags, PageSize::Size2M);
    let decoded = pte.flags();
    assert_eq!(pte.bits() & HUGE_PAGE, HUGE_PAGE);
    assert_eq!(pte.bits() & (NO_CACHE | WRITE_THROUGH), NO_CACHE);
    assert_eq!(decoded.cache(), CachePolicy::WriteCombine);
}

#[test]
fn pat_msr_value_matches_cache_policy_indices() {
    let entry = |index: u8| (X86_PAT_MSR_VALUE >> (index * 8)) & 0xff;
    assert_eq!(entry(X86_PAT_WRITEBACK_INDEX), X86_PAT_TYPE_WB);
    assert_eq!(entry(X86_PAT_WRITE_THROUGH_INDEX), X86_PAT_TYPE_WT);
    assert_eq!(entry(X86_PAT_WRITE_COMBINING_INDEX), X86_PAT_TYPE_WC);
    assert_eq!(entry(X86_PAT_UNCACHED_INDEX), X86_PAT_TYPE_UC);
}

#[test]
fn attrs_round_trip_cache_dimension() {
    let attrs = MemoryAttributes::writeback()
        .with_cache(CachePolicy::WriteThrough)
        .with_shareability(Shareability::System)
        .with_coherency(Coherency::Coherent);
    let flags = X86Flags::new(AccessFlags::read()).with_attrs(attrs);
    let pte = X86Pte::new_leaf(PhysAddr::from_u64(0x1000), flags, PageSize::Size4K);
    let decoded = pte.flags();

    assert_eq!(decoded.cache(), CachePolicy::WriteThrough);
    // x86 CPU paging has no descriptor bits for these dimensions, so
    // decode falls back to the neutral coherent inner-shareable attrs.
    assert_eq!(decoded.attrs().shareability(), Shareability::Inner);
    assert_eq!(decoded.attrs().coherency(), Coherency::Coherent);
}

#[test]
fn meta_level_shifts() {
    assert_eq!(X86Meta48::level_shift(1), 12);
    assert_eq!(X86Meta48::level_shift(2), 21);
    assert_eq!(X86Meta48::level_shift(3), 30);
    assert_eq!(X86Meta48::level_shift(4), 39);
    assert_eq!(X86Meta57::level_shift(5), 48);
}

#[test]
fn meta_level_supports_leaf() {
    assert!(X86Meta48::level_supports_leaf(1, PageSize::Size4K));
    assert!(X86Meta48::level_supports_leaf(2, PageSize::Size2M));
    assert!(X86Meta48::level_supports_leaf(3, PageSize::Size1G));
    assert!(!X86Meta48::level_supports_leaf(2, PageSize::Size4K));
    assert!(!X86Meta48::level_supports_leaf(4, PageSize::Size1G));
    assert!(!X86Meta57::level_supports_leaf(4, PageSize::Size512G));
    assert!(!X86Meta57::level_supports_leaf(5, PageSize::Size512G));
}

#[test]
fn meta_4l_accepts_canonical_high_half() {
    assert!(X86Meta48::vaddr_is_valid(VirtAddr::from_u64(
        0xffff_8000_0000_0000
    )));
    assert!(X86Meta48::vaddr_is_valid(VirtAddr::from_u64(
        0x0000_7fff_ffff_ffff
    )));
    assert!(!X86Meta48::vaddr_is_valid(VirtAddr::from_u64(
        0x0000_8000_0000_0000
    )));
    assert!(!X86Meta48::vaddr_is_valid(VirtAddr::from_u64(
        0xffff_7fff_ffff_ffff
    )));
}

#[test]
fn meta_5l_accepts_57_bit_canonical_halves() {
    assert_eq!(X86Meta57::LEVELS, 5);
    assert_eq!(X86Meta57::VA_MAX_BITS, 57);
    assert!(X86Meta57::vaddr_is_valid(VirtAddr::from_u64(
        0x00ff_ffff_ffff_ffff
    )));
    assert!(X86Meta57::vaddr_is_valid(VirtAddr::from_u64(
        0xff00_0000_0000_0000
    )));
    assert!(!X86Meta57::vaddr_is_valid(VirtAddr::from_u64(
        0x0100_0000_0000_0000
    )));
    assert!(!X86Meta57::vaddr_is_valid(VirtAddr::from_u64(
        0xfeff_ffff_ffff_ffff
    )));
}

#[test]
fn leaf_words_are_exact() {
    let flags = X86Flags::new(AccessFlags::write() | AccessFlags::user() | AccessFlags::global());
    let pte = X86Pte::new_leaf(PhysAddr::from_u64(0x1234_5000), flags, PageSize::Size4K);
    assert_eq!(pte.bits(), 0x8000_0000_1234_5107);
    let flags = X86Flags::new(AccessFlags::execute()).with_cache(CachePolicy::WriteThrough);
    let pte = X86Pte::new_leaf(PhysAddr::from_u64(0x4000_0000), flags, PageSize::Size1G);
    assert_eq!(pte.bits(), 0x4000_0089);
    assert_eq!(X86Pte::new_table(PhysAddr::from_u64(0x7000), 4).bits(), 0x7007);
}

#[test]
fn pcid_policy_scopes_to_context() {
    let pcid = x86_64::instructions::tlb::Pcid::new(7).unwrap();
    let tlb = X86PcidTlb::new(pcid);
    assert_eq!(tlb.pcid(), pcid);
    let v = VirtAddr::from_u64(0x5000);
    assert!(matches!(tlb.page(v), X86Invalidation::ContextPage(a, p) if a == v && p == pcid));
    assert!(matches!(tlb.all(), X86Invalidation::Context(p) if p == pcid));
    assert!(matches!(X86Tlb.page(v), X86Invalidation::Page(a) if a == v));
    assert!(matches!(X86Tlb.all(), X86Invalidation::All));
}

#[test]
fn invlpgb_policy_needs_the_instruction() {
    assert!(X86InvlpgbTlb::try_new(None).is_none());
}
