//! RISC-V entries, geometries and `satp` encoding.

use kpte::arch::riscv64::entry::{ACCESSED, READ, VALID, WRITE};
use kpte::arch::riscv64::{
    Rv64Flags, Rv64Meta39, Rv64Meta48, Rv64Meta57, Rv64Pte, Rv64SatpActivation, Rv64SatpControls,
    Rv64SatpMode, Rv64SvpbmtPte, RV64_PBMT_IO, RV64_PBMT_MASK, RV64_PBMT_NC,
};
use kpte::{
    AccessFlags, CachePolicy, PageSize, PageTableEntry, PageTableEntryKind, PagingError,
    PagingMetaData, PhysAddr, VirtAddr,
};

#[test]
fn leaf_round_trip() {
    let flags = Rv64Flags::new(AccessFlags::read() | AccessFlags::write() | AccessFlags::user())
        .with_cache(CachePolicy::WriteCombine);
    let pte = Rv64Pte::new_leaf(PhysAddr::from_u64(0x4000), flags, PageSize::Size4K);

    assert!(pte.is_present());
    assert_eq!(pte.entry_kind(1), PageTableEntryKind::Leaf);
    assert_eq!(pte.paddr(), PhysAddr::from_u64(0x4000));
    assert!(pte.flags().access.contains(AccessFlags::read()));
    assert!(pte.flags().access.contains(AccessFlags::write()));
    assert_eq!(pte.flags().cache(), CachePolicy::Writeback);
    assert_eq!(pte.bits() & RV64_PBMT_MASK, 0);
}

#[test]
fn svpbmt_leaf_round_trip_cache_policy() {
    let flags = Rv64Flags::new(AccessFlags::read()).with_cache(CachePolicy::WriteCombine);
    let pte = Rv64SvpbmtPte::new_leaf(PhysAddr::from_u64(0x8000), flags, PageSize::Size4K);
    assert_eq!((pte.bits() & RV64_PBMT_MASK) >> 61, RV64_PBMT_NC);
    assert_eq!(pte.flags().cache(), CachePolicy::WriteCombine);

    let flags = Rv64Flags::new(AccessFlags::read()).with_cache(CachePolicy::Uncached);
    let pte = Rv64SvpbmtPte::new_leaf(PhysAddr::from_u64(0xc000), flags, PageSize::Size4K);
    assert_eq!((pte.bits() & RV64_PBMT_MASK) >> 61, RV64_PBMT_IO);
    assert_eq!(pte.flags().cache(), CachePolicy::Uncached);
}

#[test]
fn base_pte_rejects_svpbmt_bits() {
    let pte = Rv64Pte::from_bits(VALID | READ | ACCESSED | (RV64_PBMT_NC << 61));
    assert_eq!(pte.entry_kind(1), PageTableEntryKind::Invalid);
}

#[test]
fn write_without_read_is_invalid() {
    let pte = Rv64Pte::from_bits(VALID | WRITE | ACCESSED | (1 << 7));
    assert_eq!(pte.entry_kind(1), PageTableEntryKind::Invalid);
}

#[test]
fn table_and_leaf_discriminate_by_rwx() {
    let table = Rv64Pte::new_table(PhysAddr::from_u64(0x4000), 3);
    let leaf = Rv64Pte::new_leaf(
        PhysAddr::from_u64(0x20_0000),
        Rv64Flags::new(AccessFlags::read()),
        PageSize::Size2M,
    );

    assert_eq!(table.entry_kind(3), PageTableEntryKind::Table);
    assert_eq!(table.entry_kind(1), PageTableEntryKind::Invalid);
    assert_eq!(leaf.entry_kind(2), PageTableEntryKind::Leaf);
}

#[test]
fn metadata_covers_sv_widths() {
    assert_eq!(Rv64Meta39::LEVELS, 3);
    assert_eq!(Rv64Meta48::LEVELS, 4);
    assert_eq!(Rv64Meta57::LEVELS, 5);
    assert!(Rv64Meta39::level_supports_leaf(3, PageSize::Size1G));
    assert!(!Rv64Meta39::level_supports_leaf(4, PageSize::Size512G));
    assert!(Rv64Meta48::level_supports_leaf(4, PageSize::Size512G));
    assert!(Rv64Meta57::level_supports_leaf(4, PageSize::Size512G));
}

#[test]
fn entry_canonical_va_accepts_configured_halves() {
    assert!(Rv64Meta39::vaddr_is_valid(VirtAddr::from_u64(
        0x0000_003f_ffff_f000
    )));
    assert!(Rv64Meta39::vaddr_is_valid(VirtAddr::from_u64(
        0xffff_ffff_c000_0000
    )));
    assert!(!Rv64Meta39::vaddr_is_valid(VirtAddr::from_u64(
        0x0000_0040_0000_0000
    )));

    assert!(Rv64Meta57::vaddr_is_valid(VirtAddr::from_u64(
        0x00ff_ffff_ffff_f000
    )));
    assert!(Rv64Meta57::vaddr_is_valid(VirtAddr::from_u64(
        0xff00_0000_0000_0000
    )));
    assert!(!Rv64Meta57::vaddr_is_valid(VirtAddr::from_u64(
        0x0100_0000_0000_0000
    )));
}

#[test]
fn rv64_leaf_words_are_exact() {
    let flags = Rv64Flags::new(AccessFlags::write() | AccessFlags::user());
    let pte = Rv64Pte::new_leaf(PhysAddr::from_u64(0x8020_0000), flags, PageSize::Size2M);
    assert_eq!(pte.bits(), (0x80200 << 10) | 0xd7);
    assert_eq!(Rv64Pte::new_table(PhysAddr::from_u64(0x4000), 2).bits(), (4 << 10) | 1);
    let flags = Rv64Flags::new(AccessFlags::empty()).with_cache(CachePolicy::WriteThrough);
    let pte = Rv64SvpbmtPte::new_leaf(PhysAddr::from_u64(0x1000), flags, PageSize::Size4K);
    assert_eq!(pte.bits(), (1 << 10) | 0x43);
    assert_eq!(pte.flags().cache(), CachePolicy::Writeback);
}

#[test]
fn satp_install_validates_the_root() {
    let activation = Rv64SatpActivation::new();
    let controls = Rv64SatpControls::new(Rv64SatpMode::Sv48).with_asid(9).with_fence_after(false);
    let token = activation.install(PhysAddr::from_u64(0x8000_1000), controls).unwrap();
    assert_eq!(token.ppn(), 0x8_0001);
    assert_eq!(token.controls(), controls);
    assert_eq!(token.root(), PhysAddr::from_u64(0x8000_1000));
    assert_eq!(controls.mode(), Rv64SatpMode::Sv48);
    assert_eq!(controls.asid(), 9);
    assert!(!controls.fence_after());
    assert_eq!(
        activation.install(PhysAddr::from_u64(0x8000_1008), controls),
        Err(PagingError::NotAligned)
    );
    assert_eq!(
        activation.install(PhysAddr::from_u64(1 << 56), controls),
        Err(PagingError::AddressOutOfRange)
    );
}

#[test]
fn satp_values_are_decoded() {
    let activation = Rv64SatpActivation::new();
    let bits = (8u64 << 60) | (0x1234u64 << 44) | 0x8_0001;
    let token = activation.observed(bits).unwrap().unwrap();
    assert_eq!(token.controls().mode(), Rv64SatpMode::Sv39);
    assert_eq!(token.controls().asid(), 0x1234);
    assert_eq!(token.ppn(), 0x8_0001);
    assert_eq!(token.root(), PhysAddr::from_u64(0x8000_1000));
    assert_eq!(activation.observed(1 << 60), Err(PagingError::InvalidMappingShape));
    for (code, mode) in [
        (0u64, Rv64SatpMode::Bare),
        (9, Rv64SatpMode::Sv48),
        (10, Rv64SatpMode::Sv57),
        (11, Rv64SatpMode::Sv64),
    ] {
        let token = activation.observed(code << 60).unwrap().unwrap();
        assert_eq!(token.controls().mode(), mode);
    }
}
