//! Page tables in the formats of real CPUs.

use kpte::arch::aarch64::{
    A64Flags, A64PageTable16K48, A64PageTable4K48, A64PageTable4K52, A64PageTable64K52,
};
use kpte::arch::riscv64::{
    Rv64ActivationStep, Rv64Flags, Rv64PageTable39, Rv64SatpActivation, Rv64SatpControls,
    Rv64SatpMode, Rv64SatpToken, Rv64SvpbmtPageTable57,
};
use kpte::arch::x86::{X86Flags, X86PageTable48, X86PageTable57};
use kpte::plan::walker_layout_ok;
use kpte::{
    AccessFlags, AddrSpaceActivation, CachePolicy, FrameAllocator, NoFlush, PageSize, PageTable,
    PagingError, PagingMetaData, PagingResult, PhysAddr, PhysAddrRange, VirtAddr, VirtAddrRange,
};
use std::collections::HashMap;

#[derive(Debug)]
struct Pool {
    frames: HashMap<u64, Vec<u64>>,
    next: u64,
}

impl Pool {
    fn new() -> Self {
        Pool { frames: HashMap::new(), next: 0x8000_0000 }
    }
}

impl FrameAllocator for Pool {
    fn allocate(&mut self, size: u64, align: PageSize) -> PagingResult<PhysAddrRange> {
        let base = self.next.next_multiple_of(align.bytes());
        self.next = base + size;
        self.frames.insert(base, vec![0; (size / 8) as usize]);
        Ok(PhysAddrRange::from_start_size(PhysAddr::from_u64(base), size))
    }

    fn deallocate(&mut self, range: PhysAddrRange) -> PagingResult {
        match self.frames.remove(&range.start.as_u64()) {
            Some(_) => Ok(()),
            None => Err(PagingError::AddressOutOfRange),
        }
    }

    fn read_entry(&self, paddr: PhysAddr, idx: usize) -> u64 {
        self.frames[&paddr.as_u64()][idx]
    }

    fn write_entry(&mut self, paddr: PhysAddr, idx: usize, bits: u64) {
        self.frames.get_mut(&paddr.as_u64()).unwrap()[idx] = bits;
    }
}

fn range(lo: u64, len: u64) -> VirtAddrRange {
    VirtAddrRange::from_start_size(VirtAddr::from_u64(lo), len)
}

fn va(v: u64) -> VirtAddr {
    VirtAddr::from_u64(v)
}

fn pa(p: u64) -> PhysAddr {
    PhysAddr::from_u64(p)
}

#[test]
fn x86_tables_map_both_halves() {
    let f = X86Flags::new(AccessFlags::write()).with_cache(CachePolicy::WriteCombine);
    let mut pt = X86PageTable48::try_new(Pool::new()).unwrap();
    for base in [0x4000_0000u64, 0xffff_8000_0000_0000] {
        // 2 MiB and a page.
        pt.map(range(base, 0x20_1000), pa(0x1000_0000), f, &mut NoFlush).unwrap();
        let found = pt.query(va(base + 0x1f_ffff)).unwrap();
        assert_eq!((found.size(), found.paddr), (Some(PageSize::Size2M), pa(0x1000_0000)));
        assert_eq!(found.flags, f);
        let found = pt.query(va(base + 0x20_0000)).unwrap();
        assert_eq!((found.size(), found.paddr), (Some(PageSize::Size4K), pa(0x1020_0000)));
    }
    assert_eq!(pt.query(va(0x8000_0000_0000)), Err(PagingError::AddressOutOfRange));
    let mut wide = X86PageTable57::try_new(Pool::new()).unwrap();
    wide.map(range(0x8000_0000_0000, 0x1000), pa(0x5000), f, &mut NoFlush).unwrap();
    assert_eq!(wide.query(va(0x8000_0000_0000)).unwrap().paddr, pa(0x5000));
    assert!(wide.reclaim().frames.is_empty());
}

#[test]
fn x86_block_is_split_protected_and_merged() {
    let read = X86Flags::new(AccessFlags::empty());
    let write = X86Flags::new(AccessFlags::write());
    let mut pt = X86PageTable48::try_new(Pool::new()).unwrap();
    let block = range(0x4000_0000, PageSize::Size1G.bytes());
    pt.map(block, pa(0x1_4000_0000), read, &mut NoFlush).unwrap();
    assert_eq!(pt.split_at(block, &mut NoFlush), Ok(PageSize::Size2M));
    let part = range(0x4020_0000, PageSize::Size2M.bytes());
    assert_eq!(pt.protect(part, write, &mut NoFlush).unwrap().paddr, pa(0x1_4020_0000));
    assert_eq!(pt.merge_at(block, &mut NoFlush), Err(PagingError::NotCoalescable));
    pt.protect(part, read, &mut NoFlush).unwrap();
    assert_eq!(pt.merge_at(block, &mut NoFlush), Ok(PageSize::Size1G));
    assert_eq!(pt.query(va(0x7fff_ffff)).unwrap().paddr, pa(0x1_4000_0000));
}

#[test]
fn rv64_tables_read_back_what_they_map() {
    let f = Rv64Flags::new(AccessFlags::write() | AccessFlags::user());
    let mut pt = Rv64PageTable39::try_new(Pool::new()).unwrap();
    pt.map(range(0xffff_ffc0_0000_0000, 0x4000_0000), pa(0x8000_0000), f, &mut NoFlush).unwrap();
    let found = pt.query(va(0xffff_ffc0_1234_5678)).unwrap();
    assert_eq!((found.size(), found.paddr, found.flags), (Some(PageSize::Size1G), pa(0x8000_0000), f));
    let nc = f.with_cache(CachePolicy::WriteCombine);
    let mut pt = Rv64SvpbmtPageTable57::try_new(Pool::new()).unwrap();
    pt.map(range(0x1000, 0x3000), pa(0xff_ffff_ffff_0000), nc, &mut NoFlush).unwrap();
    let found = pt.query(va(0x3000)).unwrap();
    assert_eq!((found.paddr, found.flags), (pa(0xff_ffff_ffff_2000), nc));
}

#[test]
fn a64_tables_read_back_what_they_map() {
    let f = A64Flags::new(AccessFlags::write() | AccessFlags::execute());
    let mut pt = A64PageTable4K48::try_new(Pool::new()).unwrap();
    pt.map(range(0xffff_8000_0000_0000, 0x20_2000), pa(0x4000_0000), f, &mut NoFlush).unwrap();
    let found = pt.query(va(0xffff_8000_0020_1000)).unwrap();
    assert_eq!((found.size(), found.paddr), (Some(PageSize::Size4K), pa(0x4020_1000)));
    let mut pt = A64PageTable16K48::try_new(Pool::new()).unwrap();
    pt.map(range(0x200_0000, 0x200_4000), pa(0x4000_0000), f, &mut NoFlush).unwrap();
    assert_eq!(pt.query(va(0x3ff_ffff)).unwrap().size(), Some(PageSize::Size32M));
    assert_eq!(pt.query(va(0x400_0000)).unwrap().size(), Some(PageSize::Size16K));
    let mut pt = A64PageTable64K52::try_new(Pool::new()).unwrap();
    pt.map(range(0x1_0000, 0x2_0000), pa(0x1_ffff_fff0_0000), f, &mut NoFlush).unwrap();
    let found = pt.query(va(0x2_0000)).unwrap();
    assert_eq!((found.size(), found.paddr), (Some(PageSize::Size64K), pa(0x1_ffff_fff1_0000)));
    assert!(found.flags.access.contains(AccessFlags::execute()));
}

#[test]
fn a64_accepts_what_fits_52_bits_and_keeps_its_field() {
    let f = A64Flags::new(AccessFlags::empty());
    let mut pt = A64PageTable4K52::try_new(Pool::new()).unwrap();
    let page = range(0x1000, 0x1000);
    assert_eq!(
        pt.map(page, pa(1 << 52), f, &mut NoFlush),
        Err(PagingError::AddressOutOfRange)
    );
    pt.map(page, pa((1 << 50) - 0x1000), f, &mut NoFlush).unwrap();
    assert_eq!(pt.query(va(0x1000)).unwrap().paddr, pa((1 << 50) - 0x1000));
    // Bits 51 and 50 have no place in the field.
    let moved = pt.remap(page, pa((1 << 51) + 0x7000), f, &mut NoFlush).unwrap();
    assert_eq!(moved.paddr, pa((1 << 51) + 0x7000));
    assert_eq!(pt.query(va(0x1000)).unwrap().paddr, pa(0x7000));
    let mut pt = A64PageTable64K52::try_new(Pool::new()).unwrap();
    let page = range(0x1_0000, 0x1_0000);
    pt.map(page, pa((1 << 49) - 0x1_0000), f, &mut NoFlush).unwrap();
    assert_eq!(pt.query(va(0x1_ffff)).unwrap().paddr, pa((1 << 49) - 0x1_0000));
}

fn handled<Meta: PagingMetaData>() -> bool {
    walker_layout_ok::<Meta>()
}

#[test]
fn every_geometry_is_handled() {
    assert!(handled::<kpte::arch::x86::X86Meta48>() && handled::<kpte::arch::x86::X86Meta57>());
    assert!(handled::<kpte::arch::riscv64::Rv64Meta39>());
    assert!(handled::<kpte::arch::riscv64::Rv64Meta57>());
    assert!(handled::<kpte::arch::aarch64::A64Meta16K52>());
    assert!(handled::<kpte::arch::aarch64::A64Meta64K48>());
}

/// Encodes roots for `satp` without a hart.
struct Paper;

impl AddrSpaceActivation for Paper {
    type Token = Rv64SatpToken;
    type Controls = Rv64SatpControls;

    fn install(&self, root: PhysAddr, controls: Rv64SatpControls) -> PagingResult<Rv64SatpToken> {
        Rv64SatpActivation::new().install(root, controls)
    }
}

#[test]
fn page_table_is_installed_by_its_root() {
    let pt = Rv64PageTable39::try_new(Pool::new()).unwrap();
    let controls = Rv64SatpControls::new(Rv64SatpMode::Sv39).with_asid(7);
    let token = pt.install_with(&Paper, controls).unwrap();
    assert_eq!((token.root(), token.ppn()), (pt.root(), 0x8_0000));
    let write = Rv64ActivationStep::WriteSatp { mode: Rv64SatpMode::Sv39, asid: 7, ppn: 0x8_0000 };
    let activation = Rv64SatpActivation::new();
    assert_eq!(activation.steps(token), [write, Rv64ActivationStep::Fence]);
    let quiet = pt.install_with(&Paper, controls.with_fence_after(false)).unwrap();
    assert_eq!(activation.steps(quiet), [write]);
}
