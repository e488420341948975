//! AArch64 entries, geometries and TTBR encoding.

use kpte::arch::aarch64::entry::{cache_from_attr_index, cache_to_attr_index};
use kpte::arch::aarch64::{
    A64ActivationStep, A64Flags, A64Meta16K48, A64Meta16K52, A64Meta4K48, A64Meta4K52,
    A64Meta64K48, A64Meta64K52, A64PagingActivation, A64PagingControls, A64Pte16K48, A64Pte16K52,
    A64Pte4K48, A64Pte4K52, A64Pte64K48, A64Pte64K52, A64Ttbr, A64TtbrConfig,
    A64_MAIR_ATTR_DEVICE_NGNRNE, A64_MAIR_ATTR_NORMAL_NC, A64_MAIR_ATTR_WRITEBACK,
    A64_MAIR_ATTR_WRITETHROUGH, A64_MAIR_DEVICE_INDEX, A64_MAIR_EL1_VALUE,
    A64_MAIR_NORMAL_NC_INDEX, A64_MAIR_WRITEBACK_INDEX, A64_MAIR_WRITETHROUGH_INDEX,
};
use kpte::{
    AccessFlags, CachePolicy, Coherency, MemoryAttributes, PageSize, PageTableEntry,
    PageTableEntryKind, PagingError, PagingMetaData, PhysAddr, Shareability, VirtAddr,
};

#[test]
fn leaf_4k_round_trip() {
    let flags = A64Flags::new(AccessFlags::read() | AccessFlags::write())
        .with_cache(CachePolicy::WriteThrough);
    let pte = A64Pte4K48::new_leaf(PhysAddr::from_u64(0x4000), flags, PageSize::Size4K);

    assert!(pte.is_present());
    assert_eq!(pte.entry_kind(1), PageTableEntryKind::Leaf);
    assert_eq!(pte.paddr(), PhysAddr::from_u64(0x4000));
    assert!(pte.flags().access.contains(AccessFlags::write()));
    assert_eq!(pte.flags().cache(), CachePolicy::WriteThrough);
}

#[test]
fn block_and_table_discriminate_by_level() {
    let block = A64Pte4K48::new_leaf(
        PhysAddr::from_u64(0x20_0000),
        A64Flags::new(AccessFlags::read()),
        PageSize::Size2M,
    );
    let table = A64Pte4K48::new_table(PhysAddr::from_u64(0x8000), 3);

    assert_eq!(block.entry_kind(2), PageTableEntryKind::Leaf);
    assert_eq!(table.entry_kind(3), PageTableEntryKind::Table);
}

#[test]
fn invalid_entry_is_invalid_kind() {
    assert_eq!(
        A64Pte4K48::default().entry_kind(1),
        PageTableEntryKind::Invalid
    );
}

#[test]
fn canonical_va_accepts_configured_halves() {
    assert!(A64Meta4K48::vaddr_is_valid(VirtAddr::from_u64(
        0x0000_7fff_ffff_f000
    )));
    assert!(A64Meta4K48::vaddr_is_valid(VirtAddr::from_u64(
        0xffff_8000_0000_0000
    )));
    assert!(!A64Meta4K48::vaddr_is_valid(VirtAddr::from_u64(
        0x0001_0000_0000_0000
    )));

    assert!(A64Meta4K52::vaddr_is_valid(VirtAddr::from_u64(
        0x0007_ffff_ffff_f000
    )));
    assert!(A64Meta4K52::vaddr_is_valid(VirtAddr::from_u64(
        0xfff8_0000_0000_0000
    )));
    assert!(!A64Meta4K52::vaddr_is_valid(VirtAddr::from_u64(
        0x0010_0000_0000_0000
    )));
}

#[test]
fn metadata_covers_arm_granule_width_matrix() {
    assert_eq!(A64Meta4K48::LEVELS, 4);
    assert_eq!(A64Meta4K52::LEVELS, 5);
    assert_eq!(A64Meta16K48::BASE_PAGE_SIZE, PageSize::Size16K);
    assert_eq!(A64Meta16K48::level_index_bits(4), 1);
    assert_eq!(A64Meta16K52::level_index_bits(4), 5);
    assert_eq!(A64Meta64K48::BASE_PAGE_SIZE, PageSize::Size64K);
    assert_eq!(A64Meta64K48::level_index_bits(3), 6);
    assert_eq!(A64Meta64K52::level_index_bits(3), 10);
}

#[test]
fn huge_sizes_match_non_4k_granule_levels() {
    assert!(A64Meta16K48::level_supports_leaf(2, PageSize::Size32M));
    assert!(A64Meta16K48::level_supports_leaf(3, PageSize::Size64G));
    assert!(A64Meta64K48::level_supports_leaf(2, PageSize::Size512M));
    assert!(A64Meta64K48::level_supports_leaf(3, PageSize::Size4T));
}

#[test]
fn pte_types_cover_output_widths() {
    let _: A64Pte4K52 = A64Pte4K52::default();
    let _: A64Pte16K48 = A64Pte16K48::default();
    let _: A64Pte16K52 = A64Pte16K52::default();
    let _: A64Pte64K48 = A64Pte64K48::default();
    let _: A64Pte64K52 = A64Pte64K52::default();
}

#[test]
fn mair_indices_are_stable() {
    assert_eq!(cache_to_attr_index(CachePolicy::Writeback), 0);
    assert_eq!(cache_to_attr_index(CachePolicy::Uncached), 1);
    assert_eq!(cache_to_attr_index(CachePolicy::WriteCombine), 2);
    assert_eq!(cache_to_attr_index(CachePolicy::WriteThrough), 3);
}

#[test]
fn mair_value_matches_cache_policy_indices() {
    let attr = |index: u64| (A64_MAIR_EL1_VALUE >> (index * 8)) & 0xff;
    assert_eq!(attr(A64_MAIR_WRITEBACK_INDEX), A64_MAIR_ATTR_WRITEBACK);
    assert_eq!(attr(A64_MAIR_DEVICE_INDEX), A64_MAIR_ATTR_DEVICE_NGNRNE);
    assert_eq!(attr(A64_MAIR_NORMAL_NC_INDEX), A64_MAIR_ATTR_NORMAL_NC);
    assert_eq!(
        attr(A64_MAIR_WRITETHROUGH_INDEX),
        A64_MAIR_ATTR_WRITETHROUGH
    );
}

#[test]
fn a64_leaf_words_are_exact() {
    let flags = A64Flags::new(AccessFlags::write());
    let pte = A64Pte4K48::new_leaf(PhysAddr::from_u64(0x1234_5000), flags, PageSize::Size4K);
    assert_eq!(pte.bits(), 0x0060_0000_1234_5f03);
    let flags = A64Flags::new(AccessFlags::execute() | AccessFlags::user() | AccessFlags::global())
        .with_cache(CachePolicy::Uncached);
    let pte = A64Pte4K48::new_leaf(PhysAddr::from_u64(0x20_0000), flags, PageSize::Size2M);
    assert_eq!(pte.bits(), 0x0020_07c5);
    assert_eq!(A64Pte64K48::new_table(PhysAddr::from_u64(0x3_0000), 2).bits(), 0x3_0403);
}

#[test]
fn a64_flags_decode_field_by_field() {
    let attrs = MemoryAttributes::new(
        CachePolicy::WriteCombine,
        Shareability::NonShareable,
        Coherency::Coherent,
    );
    let flags = A64Flags::new(AccessFlags::user() | AccessFlags::execute()).with_attrs(attrs);
    let decoded =
        A64Pte16K48::new_leaf(PhysAddr::from_u64(0x4000), flags, PageSize::Size16K).flags();
    assert_eq!(decoded.access.bits(), 1 | 4 | 8);
    assert_eq!(decoded.cache(), CachePolicy::WriteCombine);
    assert_eq!(decoded.attrs().shareability(), Shareability::NonShareable);
    assert_eq!(decoded.attrs().coherency(), Coherency::NonCoherent);

    let outer = MemoryAttributes::writeback().with_shareability(Shareability::System);
    let flags = A64Flags::new(AccessFlags::write() | AccessFlags::global()).with_attrs(outer);
    let decoded =
        A64Pte64K52::new_leaf(PhysAddr::from_u64(0x1_0000), flags, PageSize::Size64K).flags();
    assert_eq!(decoded.access.bits(), 1 | 2 | 16);
    assert_eq!(decoded.attrs().shareability(), Shareability::Outer);
    assert_eq!(decoded.attrs().coherency(), Coherency::Coherent);
    assert_eq!(cache_from_attr_index(7), CachePolicy::Writeback);
}

#[test]
fn a64_addresses_round_trip_by_format() {
    let f = A64Flags::new(AccessFlags::empty());
    let p = |addr: u64| PhysAddr::from_u64(addr);
    let low = 0xffff_ffff_0000u64;
    assert_eq!(A64Pte4K48::new_leaf(p(low), f, PageSize::Size4K).paddr(), p(low));
    assert_eq!(A64Pte16K48::new_leaf(p(low), f, PageSize::Size16K).paddr(), p(low));
    assert_eq!(A64Pte64K48::new_leaf(p(low), f, PageSize::Size64K).paddr(), p(low));
    let high = 0x3_ffff_ffff_0000u64;
    assert_eq!(A64Pte4K52::new_leaf(p(high), f, PageSize::Size4K).paddr(), p(high));
    assert_eq!(A64Pte16K52::new_leaf(p(high), f, PageSize::Size16K).paddr(), p(high));
    let mid = 0x1_ffff_ffff_0000u64;
    assert_eq!(A64Pte64K52::new_leaf(p(mid), f, PageSize::Size64K).paddr(), p(mid));
    assert_eq!(A64Pte4K48::from_bits(0x1234_5000).paddr(), p(0));
}

#[test]
fn ttbr_install_validates_the_root() {
    let ttbr = A64TtbrConfig::new(A64Ttbr::Ttbr1El1).with_asid(0xbeef).with_common_not_private(true);
    let controls = A64PagingControls::new(ttbr);
    let activation = A64PagingActivation::ttbr1_el1();
    let token = activation.install(PhysAddr::from_u64(0x8765_4000), controls).unwrap();
    assert_eq!(token.ttbr_value(), 0xbeef_0000_8765_4001);
    assert_eq!(token.root(), PhysAddr::from_u64(0x8765_4000));
    assert_eq!(token.controls(), controls);
    assert_eq!(
        activation.install(PhysAddr::from_u64(0x8765_4800), controls),
        Err(PagingError::NotAligned)
    );
    assert_eq!(
        activation.install(PhysAddr::from_u64(1 << 48), controls),
        Err(PagingError::AddressOutOfRange)
    );
    let zero = A64PagingControls::new(A64TtbrConfig::new(A64Ttbr::Ttbr0El1).with_asid(3));
    let token = A64PagingActivation::ttbr0_el1().install(PhysAddr::from_u64(0x1000), zero).unwrap();
    assert_eq!(token.ttbr_value(), 0x0003_0000_0000_1000);
}

#[test]
fn ttbr_values_are_decoded() {
    for register in [A64Ttbr::Ttbr0El1, A64Ttbr::Ttbr1El1] {
        let activation = A64PagingActivation::new(register);
        let token = activation.observed(0xbeef_0000_8765_4001, 1, 2, 3).unwrap().unwrap();
        assert_eq!(token.root(), PhysAddr::from_u64(0x8765_4000));
        assert_eq!(token.controls().ttbr().register(), register);
        assert_eq!(token.controls().ttbr().asid(), 0xbeef);
        assert!(token.controls().ttbr().common_not_private());
        assert_eq!(token.controls().mair_el1(), Some(1));
        assert_eq!(token.controls().tcr_el1(), Some(2));
        assert_eq!(token.controls().sctlr_el1(), Some(3));
        assert_eq!(activation.current_ttbr(), register);
    }
}

#[test]
fn activation_steps_keep_the_architectural_order() {
    let ttbr = A64TtbrConfig::new(A64Ttbr::Ttbr0El1);
    let controls =
        A64PagingControls::new(ttbr).with_mair_el1(10).with_tcr_el1(11).with_sctlr_el1(12);
    let activation = A64PagingActivation::ttbr0_el1();
    let token = activation.install(PhysAddr::from_u64(0x1000), controls).unwrap();
    assert_eq!(
        activation.steps(token),
        [
            A64ActivationStep::WriteMairEl1(10),
            A64ActivationStep::WriteTcrEl1(11),
            A64ActivationStep::Barrier,
            A64ActivationStep::WriteTtbr0El1(0x1000),
            A64ActivationStep::Barrier,
            A64ActivationStep::WriteSctlrEl1(12),
            A64ActivationStep::Barrier,
        ]
    );
    let bare = A64PagingControls::new(A64TtbrConfig::new(A64Ttbr::Ttbr1El1));
    let token = activation.install(PhysAddr::from_u64(0x2000), bare).unwrap();
    assert_eq!(
        activation.steps(token),
        [A64ActivationStep::WriteTtbr1El1(0x2000), A64ActivationStep::Barrier]
    );
}
