//! x86_64 entry words, flags and geometries.

use crate::addr::{PhysAddr, VirtAddr};
use crate::arch::{canonical, canonical_vaddr_is_valid};
use crate::meta::{AccessFlags, CachePolicy, MemoryAttributes, PageSize};
use crate::paging::{geometry, PageTableEntry, PageTableEntryKind, PagingMetaData};
use vstd::prelude::*;
use vstd::std_specs::cmp::PartialEqSpecImpl;

verus! {

/// Bit mask for the physical address portion of an entry.
///
/// Entries pack bits 51:12 as the target address, 4 KiB-aligned.
pub const ADDR_MASK: u64 = 0x000f_ffff_ffff_f000;

pub const PRESENT: u64 = 0x1;

pub const WRITABLE: u64 = 0x2;

pub const USER_ACCESSIBLE: u64 = 0x4;

pub const WRITE_THROUGH: u64 = 0x8;

pub const NO_CACHE: u64 = 0x10;

pub const HUGE_PAGE: u64 = 0x80;

pub const GLOBAL: u64 = 0x100;

pub const NO_EXECUTE: u64 = 0x8000_0000_0000_0000;

/// Flags of every table pointer: present, writable and user accessible.
pub const TABLE_FLAGS: u64 = 0x7;

/// IA32_PAT MSR number.
pub const X86_PAT_MSR: u32 = 0x0000_0277;

/// PAT memory type: uncacheable.
pub const X86_PAT_TYPE_UC: u64 = 0x00;

/// PAT memory type: write-combining.
pub const X86_PAT_TYPE_WC: u64 = 0x01;

/// PAT memory type: write-through.
pub const X86_PAT_TYPE_WT: u64 = 0x04;

/// PAT memory type: write-protected.
pub const X86_PAT_TYPE_WP: u64 = 0x05;

/// PAT memory type: write-back.
pub const X86_PAT_TYPE_WB: u64 = 0x06;

/// PAT memory type: uncacheable-minus.
pub const X86_PAT_TYPE_UC_MINUS: u64 = 0x07;

/// PAT index used for [`CachePolicy::Writeback`].
pub const X86_PAT_WRITEBACK_INDEX: u8 = 0;

/// PAT index used for [`CachePolicy::WriteThrough`].
pub const X86_PAT_WRITE_THROUGH_INDEX: u8 = 1;

/// PAT index used for [`CachePolicy::WriteCombine`].
pub const X86_PAT_WRITE_COMBINING_INDEX: u8 = 2;

/// PAT index used for [`CachePolicy::Uncached`].
pub const X86_PAT_UNCACHED_INDEX: u8 = 3;

/// IA32_PAT value expected by the cache-policy encoder.
///
/// Slots 0..3 are selected by the PWT/PCD bits alone, which keeps
/// `PageTableEntry::flags()` decodable without a page size or level:
///
/// - index 0: WB  (`PWT=0, PCD=0`)
/// - index 1: WT  (`PWT=1, PCD=0`)
/// - index 2: WC  (`PWT=0, PCD=1`)
/// - index 3: UC  (`PWT=1, PCD=1`)
///
/// Slots 4..7 preserve useful high-bank aliases for mappings created by
/// external code that uses the PAT bit: WB, WT, UC-, UC.
pub const X86_PAT_MSR_VALUE: u64 = 0x0007_0406_0001_0406;

/// The PAT index that an entry selects for a cache policy.
pub open spec fn pat_index(cache: CachePolicy) -> u64 {
    match cache {
        CachePolicy::Writeback => X86_PAT_WRITEBACK_INDEX as u64,
        CachePolicy::Uncached => X86_PAT_UNCACHED_INDEX as u64,
        CachePolicy::WriteCombine => X86_PAT_WRITE_COMBINING_INDEX as u64,
        CachePolicy::WriteThrough => X86_PAT_WRITE_THROUGH_INDEX as u64,
    }
}

/// The PWT and PCD bits of a cache policy.
pub open spec fn pat_bits(cache: CachePolicy) -> u64 {
    match cache {
        CachePolicy::Writeback => 0,
        CachePolicy::Uncached => NO_CACHE | WRITE_THROUGH,
        CachePolicy::WriteCombine => NO_CACHE,
        CachePolicy::WriteThrough => WRITE_THROUGH,
    }
}

/// The cache policy that the PWT and PCD bits of a word select.
pub open spec fn cache_of(raw: u64) -> CachePolicy {
    if raw & NO_CACHE == 0 {
        if raw & WRITE_THROUGH == 0 {
            CachePolicy::Writeback
        } else {
            CachePolicy::WriteThrough
        }
    } else if raw & WRITE_THROUGH == 0 {
        CachePolicy::WriteCombine
    } else {
        CachePolicy::Uncached
    }
}

/// The bits of a leaf beside its address.
pub open spec fn leaf_bits(flags: X86Flags, size: PageSize) -> u64 {
    let access = flags.access@ as u64;
    PRESENT | (access & 2) | ((access & 8) >> 1) | ((access & 16) << 4) | (if access & 4 == 0 {
        NO_EXECUTE
    } else {
        0
    }) | (if size == PageSize::Size2M || size == PageSize::Size1G {
        HUGE_PAGE
    } else {
        0
    }) | pat_bits(flags.attrs.cache)
}

/// The access bits that a word grants. Present implies readable.
pub open spec fn access_of(raw: u64) -> u64 {
    (raw & PRESENT) | (raw & WRITABLE) | ((raw & USER_ACCESSIBLE) << 1) | ((raw & GLOBAL) >> 4) | (
    if raw & NO_EXECUTE == 0 {
        4
    } else {
        0
    })
}

/// x86_64 entry flag bundle: access bits and memory attributes.
#[derive(Clone, Copy, Debug)]
pub struct X86Flags {
    pub access: AccessFlags,
    pub attrs: MemoryAttributes,
}

impl PartialEq for X86Flags {
    fn eq(&self, other: &Self) -> (r: bool) {
        self.access == other.access && self.attrs == other.attrs
    }
}

impl PartialEqSpecImpl for X86Flags {
    open spec fn obeys_eq_spec() -> bool {
        true
    }

    open spec fn eq_spec(&self, other: &Self) -> bool {
        self.access == other.access && self.attrs == other.attrs
    }
}

impl Eq for X86Flags {

}

impl Default for X86Flags {
    fn default() -> (r: Self)
        ensures
            r.access@ == 0,
            r == (X86Flags { access: AccessFlags::of(0), attrs: MemoryAttributes::ram() }),
    {
        X86Flags { access: AccessFlags::empty(), attrs: MemoryAttributes::writeback() }
    }
}

impl X86Flags {
    /// Readable memory with the given access, write-back.
    pub fn new(access: AccessFlags) -> (r: Self)
        ensures
            r.access@ == access@ | 1,
            r.attrs == MemoryAttributes::ram(),
    {
        X86Flags {
            access: access.union(AccessFlags::read()),
            attrs: MemoryAttributes::writeback(),
        }
    }

    pub fn with_cache(self, cache: CachePolicy) -> (r: Self)
        ensures
            r.access == self.access,
            r.attrs == (MemoryAttributes { cache, ..self.attrs }),
    {
        X86Flags { access: self.access, attrs: self.attrs.with_cache(cache) }
    }

    pub fn with_attrs(self, attrs: MemoryAttributes) -> (r: Self)
        ensures
            r == (X86Flags { access: self.access, attrs }),
    {
        X86Flags { access: self.access, attrs }
    }

    pub fn cache(self) -> (r: CachePolicy)
        ensures
            r == self.attrs.cache,
    {
        self.attrs.cache()
    }

    pub fn attrs(self) -> (r: MemoryAttributes)
        ensures
            r == self.attrs,
    {
        self.attrs
    }

    /// Encode the bits of a leaf entry at the given size.
    fn to_leaf_bits(self, size: PageSize) -> (r: u64)
        ensures
            r == leaf_bits(self, size),
    {
        let access: u64 = self.access.bits() as u64;
        let no_execute: u64 = if access & 4 == 0 {
            NO_EXECUTE
        } else {
            0
        };
        let huge: u64 = match size {
            PageSize::Size2M | PageSize::Size1G => HUGE_PAGE,
            _ => 0,
        };
        PRESENT | (access & 2) | ((access & 8) >> 1) | ((access & 16) << 4) | no_execute | huge
            | cache_bits(self.attrs.cache())
    }

    /// Decode from a raw word.
    fn from_bits(bits: u64) -> (r: Self)
        ensures
            r.access == AccessFlags::of((access_of(bits) as u8) & 0x1f),
            r.attrs == (MemoryAttributes { cache: cache_of(bits), ..MemoryAttributes::ram() }),
    {
        let execute: u64 = if bits & NO_EXECUTE == 0 {
            4
        } else {
            0
        };
        let access: u64 = (bits & PRESENT) | (bits & WRITABLE) | ((bits & USER_ACCESSIBLE) << 1) | ((
        bits & GLOBAL) >> 4) | execute;
        let cache: CachePolicy = match ((bits & NO_CACHE) != 0, (bits & WRITE_THROUGH) != 0) {
            (false, false) => CachePolicy::Writeback,
            (false, true) => CachePolicy::WriteThrough,
            (true, false) => CachePolicy::WriteCombine,
            (true, true) => CachePolicy::Uncached,
        };
        X86Flags {
            access: AccessFlags::from_bits_truncate(
                #[verifier::truncate]
                (access as u8),
            ),
            attrs: MemoryAttributes::writeback().with_cache(cache),
        }
    }
}

/// The PAT index of a cache policy, spread over PWT (bit 3) and PCD (bit 4).
fn cache_bits(cache: CachePolicy) -> (r: u64)
    ensures
        r == pat_bits(cache),
        r == ((pat_index(cache) & 1) << 3) | ((pat_index(cache) & 2) << 3),
{
    let index: u64 = match cache {
        CachePolicy::Writeback => X86_PAT_WRITEBACK_INDEX as u64,
        CachePolicy::Uncached => X86_PAT_UNCACHED_INDEX as u64,
        CachePolicy::WriteCombine => X86_PAT_WRITE_COMBINING_INDEX as u64,
        CachePolicy::WriteThrough => X86_PAT_WRITE_THROUGH_INDEX as u64,
    };
    proof {
        assert(((0u64 & 1) << 3) | ((0u64 & 2) << 3) == 0 && ((1u64 & 1) << 3) | ((1u64 & 2) << 3)
            == 8 && ((2u64 & 1) << 3) | ((2u64 & 2) << 3) == 16 && ((3u64 & 1) << 3) | ((3u64 & 2)
            << 3) == (16u64 | 8u64)) by (bit_vector);
    }
    ((index & 1) << 3) | ((index & 2) << 3)
}

/// x86_64 page-table entry.
#[derive(Clone, Copy, Debug, PartialEq, Eq, Structural)]
pub struct X86Pte {
    word: u64,
}

impl Default for X86Pte {
    fn default() -> (r: Self)
        ensures
            r.raw() == 0,
    {
        X86Pte { word: 0 }
    }
}

impl PageTableEntry for X86Pte {
    type Flags = X86Flags;

    closed spec fn raw(self) -> u64 {
        self.word
    }

    open spec fn present(raw: u64) -> bool {
        raw & PRESENT != 0
    }

    open spec fn kind(raw: u64, level: u8) -> PageTableEntryKind {
        if level == 1 || raw & HUGE_PAGE != 0 {
            PageTableEntryKind::Leaf
        } else {
            PageTableEntryKind::Table
        }
    }

    open spec fn target(raw: u64) -> u64 {
        raw & ADDR_MASK
    }

    open spec fn flags_of(raw: u64) -> X86Flags {
        X86Flags {
            access: AccessFlags::of((access_of(raw) as u8) & 0x1f),
            attrs: MemoryAttributes { cache: cache_of(raw), ..MemoryAttributes::ram() },
        }
    }

    open spec fn decodable(raw: u64) -> bool {
        true
    }

    open spec fn encodable(paddr: u64) -> bool {
        true
    }

    open spec fn leaf_raw(paddr: u64, flags: X86Flags, size: PageSize) -> u64 {
        (paddr & ADDR_MASK) | leaf_bits(flags, size)
    }

    open spec fn table_raw(paddr: u64, level: u8) -> u64 {
        (paddr & ADDR_MASK) | TABLE_FLAGS
    }

    fn new_leaf(paddr: PhysAddr, flags: X86Flags, size: PageSize) -> (r: Self) {
        X86Pte { word: (paddr.as_u64() & ADDR_MASK) | flags.to_leaf_bits(size) }
    }

    fn new_table(paddr: PhysAddr, level: u8) -> (r: Self) {
        X86Pte { word: (paddr.as_u64() & ADDR_MASK) | TABLE_FLAGS }
    }

    fn paddr(&self) -> (r: PhysAddr) {
        PhysAddr(self.word & ADDR_MASK)
    }

    fn flags(&self) -> (r: X86Flags) {
        X86Flags::from_bits(self.word)
    }

    fn is_present(&self) -> (r: bool) {
        (self.word & PRESENT) != 0
    }

    fn entry_kind(&self, level: u8) -> (r: PageTableEntryKind) {
        if level == 1 || (self.word & HUGE_PAGE) != 0 {
            PageTableEntryKind::Leaf
        } else {
            PageTableEntryKind::Table
        }
    }

    fn clear(&mut self) {
        self.word = 0;
    }

    fn bits(&self) -> (r: u64) {
        self.word
    }

    fn from_bits(bits: u64) -> (r: Self) {
        X86Pte { word: bits }
    }
}

/// Whether x86_64 paging has leaves of `size` at `level`.
pub open spec fn x86_leaf(level: u8, size: PageSize) -> bool {
    ||| level == 1 && size == PageSize::Size4K
    ||| level == 2 && size == PageSize::Size2M
    ||| level == 3 && size == PageSize::Size1G
}

/// Whether x86_64 paging has leaves of `size` at `level`. 1 GiB leaves need
/// CPU support, which is the caller's to know.
fn x86_supports_leaf(level: u8, size: PageSize) -> (r: bool)
    ensures
        r == x86_leaf(level, size),
{
    match (level, size) {
        (1, PageSize::Size4K) => true,
        (2, PageSize::Size2M) => true,
        (3, PageSize::Size1G) => true,
        _ => false,
    }
}

/// x86_64 4-level paging metadata (48-bit virtual addresses).
#[derive(Clone, Copy, Debug)]
pub struct X86Meta48;

impl PagingMetaData for X86Meta48 {
    const LEVELS: usize = 4;

    const PA_MAX_BITS: usize = 52;

    const VA_MAX_BITS: usize = 48;

    const INDEX_BITS: u32 = 9;

    const BASE_PAGE_SIZE: PageSize = PageSize::Size4K;

    const TABLE_FRAME_SIZE: PageSize = PageSize::Size4K;

    const ENTRIES_PER_TABLE: usize = 512;

    type VirtAddr = VirtAddr;

    open spec fn shift(level: u8) -> u32 {
        (12 + (level - 1) * 9) as u32
    }

    open spec fn index_bits(level: u8) -> u32 {
        9
    }

    open spec fn supports(level: u8, size: PageSize) -> bool {
        x86_leaf(level, size)
    }

    open spec fn in_range(vaddr: u64) -> bool {
        canonical(vaddr, 48)
    }

    fn level_shift(level: u8) -> (r: u32) {
        12 + ((level as u32) - 1) * 9
    }

    fn level_index_bits(level: u8) -> (r: u32) {
        Self::INDEX_BITS
    }

    fn level_supports_leaf(level: u8, size: PageSize) -> (r: bool) {
        x86_supports_leaf(level, size)
    }

    fn vaddr_is_valid(vaddr: VirtAddr) -> (r: bool) {
        canonical_vaddr_is_valid(vaddr, Self::VA_MAX_BITS)
    }
}

/// x86_64 5-level paging metadata (57-bit virtual addresses).
///
/// LA57 extends the paging tree with a fifth root level but keeps the CPU leaf
/// sizes unchanged: 4 KiB pages, 2 MiB pages, and 1 GiB pages. Level 4 and
/// level 5 entries are table pointers, not 512 GiB or 256 TiB leaves.
#[derive(Clone, Copy, Debug)]
pub struct X86Meta57;

impl PagingMetaData for X86Meta57 {
    const LEVELS: usize = 5;

    const PA_MAX_BITS: usize = 52;

    const VA_MAX_BITS: usize = 57;

    const INDEX_BITS: u32 = 9;

    const BASE_PAGE_SIZE: PageSize = PageSize::Size4K;

    const TABLE_FRAME_SIZE: PageSize = PageSize::Size4K;

    const ENTRIES_PER_TABLE: usize = 512;

    type VirtAddr = VirtAddr;

    open spec fn shift(level: u8) -> u32 {
        (12 + (level - 1) * 9) as u32
    }

    open spec fn index_bits(level: u8) -> u32 {
        9
    }

    open spec fn supports(level: u8, size: PageSize) -> bool {
        x86_leaf(level, size)
    }

    open spec fn in_range(vaddr: u64) -> bool {
        canonical(vaddr, 57)
    }

    fn level_shift(level: u8) -> (r: u32) {
        12 + ((level as u32) - 1) * 9
    }

    fn level_index_bits(level: u8) -> (r: u32) {
        Self::INDEX_BITS
    }

    fn level_supports_leaf(level: u8, size: PageSize) -> (r: bool) {
        x86_supports_leaf(level, size)
    }

    fn vaddr_is_valid(vaddr: VirtAddr) -> (r: bool) {
        canonical_vaddr_is_valid(vaddr, Self::VA_MAX_BITS)
    }
}

/// The constants of the x86_64 geometries.
pub proof fn lemma_x86_geometry()
    ensures
        geometry::<X86Meta48>(4, 52, 48, 9, PageSize::Size4K, 512),
        geometry::<X86Meta57>(5, 52, 57, 9, PageSize::Size4K, 512),
{
}

} // verus!
