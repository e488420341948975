//! RISC-V entry words, flags and geometries.

use crate::addr::{PhysAddr, VirtAddr};
use crate::arch::{canonical, canonical_vaddr_is_valid};
use crate::meta::{AccessFlags, CachePolicy, MemoryAttributes, PageSize};
use crate::paging::{geometry, PageTableEntry, PageTableEntryKind, PagingMetaData};
use vstd::prelude::*;
use vstd::std_specs::cmp::PartialEqSpecImpl;

verus! {

pub const VALID: u64 = 0x1;

pub const READ: u64 = 0x2;

pub const WRITE: u64 = 0x4;

pub const EXECUTE: u64 = 0x8;

pub const ACCESSED: u64 = 0x40;

pub const DIRTY: u64 = 0x80;

/// Mask of the 44-bit physical page number, bits 53:10.
pub const PPN_MASK: u64 = 0x003f_ffff_ffff_fc00;

/// Svpbmt default/PMA memory type.
pub const RV64_PBMT_PMA: u64 = 0;

/// Svpbmt non-cacheable, idempotent memory type.
pub const RV64_PBMT_NC: u64 = 1;

/// Svpbmt I/O, non-idempotent memory type.
pub const RV64_PBMT_IO: u64 = 2;

/// The Svpbmt encoding that is reserved.
pub const RV64_PBMT_RESERVED: u64 = 3;

/// Raw entry mask for Svpbmt bits, bits 62:61.
pub const RV64_PBMT_MASK: u64 = 0x6000_0000_0000_0000;

/// Bits 63:54, reserved without Svpbmt.
pub const HIGH_RESERVED_MASK: u64 = 0xffc0_0000_0000_0000;

/// Bits 63:54 without the Svpbmt bits.
pub const HIGH_RESERVED_WITH_SVPBMT_MASK: u64 = 0x9fc0_0000_0000_0000;

/// The PBMT encoding of a cache policy. Write-through has no representation
/// and is clamped to the default.
pub open spec fn pbmt_of(cache: CachePolicy) -> u64 {
    match cache {
        CachePolicy::Writeback | CachePolicy::WriteThrough => RV64_PBMT_PMA,
        CachePolicy::WriteCombine => RV64_PBMT_NC,
        CachePolicy::Uncached => RV64_PBMT_IO,
    }
}

/// The PBMT bits of a leaf, where the format has them.
pub open spec fn pbmt_word(svpbmt: bool, cache: CachePolicy) -> u64 {
    if svpbmt {
        pbmt_of(cache) << 61
    } else {
        0
    }
}

/// The cache policy that a word carries.
pub open spec fn cache_of(svpbmt: bool, raw: u64) -> CachePolicy {
    let pbmt = (raw & RV64_PBMT_MASK) >> 61;
    if svpbmt && pbmt == RV64_PBMT_NC {
        CachePolicy::WriteCombine
    } else if svpbmt && pbmt == RV64_PBMT_IO {
        CachePolicy::Uncached
    } else {
        CachePolicy::Writeback
    }
}

/// The access bits of a leaf: write access implies read access.
pub open spec fn granted(access: u64) -> u64 {
    access | ((access & 2) >> 1)
}

/// The bits of a leaf beside its page number.
pub open spec fn leaf_bits(svpbmt: bool, flags: Rv64Flags) -> u64 {
    let access = granted(flags.access@ as u64);
    VALID | ((access & 0x1f) << 1) | ACCESSED | (if access & 2 != 0 {
        DIRTY
    } else {
        0
    }) | pbmt_word(svpbmt, flags.attrs.cache)
}

/// The page-number bits of an address.
pub open spec fn ppn_word(paddr: u64) -> u64 {
    ((paddr >> 12) << 10) & PPN_MASK
}

/// The address that the page-number bits of a word name.
pub open spec fn ppn_target(raw: u64) -> u64 {
    ((raw & PPN_MASK) >> 10) << 12
}

/// Whether a word is valid and uses no reserved encoding.
pub open spec fn valid_word(svpbmt: bool, raw: u64) -> bool {
    &&& raw & VALID != 0
    &&& raw & (if svpbmt {
        HIGH_RESERVED_WITH_SVPBMT_MASK
    } else {
        HIGH_RESERVED_MASK
    }) == 0
    &&& raw & WRITE == 0 || raw & READ != 0
    &&& !svpbmt || (raw & RV64_PBMT_MASK) >> 61 != RV64_PBMT_RESERVED
}

/// The role of a word at `level`.
pub open spec fn word_kind(svpbmt: bool, raw: u64, level: u8) -> PageTableEntryKind {
    if !valid_word(svpbmt, raw) {
        PageTableEntryKind::Invalid
    } else if raw & (READ | WRITE | EXECUTE) != 0 {
        PageTableEntryKind::Leaf
    } else if level > 1 {
        PageTableEntryKind::Table
    } else {
        PageTableEntryKind::Invalid
    }
}

/// The flags of a word.
pub open spec fn word_flags(svpbmt: bool, raw: u64) -> Rv64Flags {
    Rv64Flags {
        access: AccessFlags::of((((raw >> 1) & 0x1f) as u8) & 0x1f),
        attrs: MemoryAttributes { cache: cache_of(svpbmt, raw), ..MemoryAttributes::ram() },
    }
}

/// RISC-V entry flag bundle: access bits and memory attributes.
#[derive(Clone, Copy, Debug)]
pub struct Rv64Flags {
    pub access: AccessFlags,
    pub attrs: MemoryAttributes,
}

impl PartialEq for Rv64Flags {
    fn eq(&self, other: &Self) -> (r: bool) {
        self.access == other.access && self.attrs == other.attrs
    }
}

impl PartialEqSpecImpl for Rv64Flags {
    open spec fn obeys_eq_spec() -> bool {
        true
    }

    open spec fn eq_spec(&self, other: &Self) -> bool {
        self.access == other.access && self.attrs == other.attrs
    }
}

impl Eq for Rv64Flags {

}

impl Default for Rv64Flags {
    fn default() -> (r: Self)
        ensures
            r.access@ == 0,
            r == (Rv64Flags { access: AccessFlags::of(0), attrs: MemoryAttributes::ram() }),
    {
        Rv64Flags { access: AccessFlags::empty(), attrs: MemoryAttributes::writeback() }
    }
}

impl Rv64Flags {
    /// Readable memory with the given access, write-back.
    pub fn new(access: AccessFlags) -> (r: Self)
        ensures
            r.access@ == access@ | 1,
            r.attrs == MemoryAttributes::ram(),
    {
        Rv64Flags {
            access: access.union(AccessFlags::read()),
            attrs: MemoryAttributes::writeback(),
        }
    }

    pub fn with_cache(self, cache: CachePolicy) -> (r: Self)
        ensures
            r.access == self.access,
            r.attrs == (MemoryAttributes { cache, ..self.attrs }),
    {
        Rv64Flags { access: self.access, attrs: self.attrs.with_cache(cache) }
    }

    pub fn with_attrs(self, attrs: MemoryAttributes) -> (r: Self)
        ensures
            r == (Rv64Flags { access: self.access, attrs }),
    {
        Rv64Flags { access: self.access, attrs }
    }

    pub fn cache(self) -> (r: CachePolicy)
        ensures
            r == self.attrs.cache,
    {
        self.attrs.cache()
    }

    pub fn attrs(self) -> (r: MemoryAttributes)
        ensures
            r == self.attrs,
    {
        self.attrs
    }

    fn to_leaf_bits(self, svpbmt: bool) -> (r: u64)
        ensures
            r == leaf_bits(svpbmt, self),
    {
        let bits: u64 = self.access.bits() as u64;
        let access: u64 = bits | ((bits & 2) >> 1);
        let dirty: u64 = if access & 2 != 0 {
            DIRTY
        } else {
            0
        };
        VALID | ((access & 0x1f) << 1) | ACCESSED | dirty | pbmt_bits(svpbmt, self.attrs.cache())
    }

    fn from_bits(svpbmt: bool, bits: u64) -> (r: Self)
        ensures
            r == word_flags(svpbmt, bits),
    {
        let access: u64 = (bits >> 1) & 0x1f;
        Rv64Flags {
            access: AccessFlags::from_bits_truncate(
                #[verifier::truncate]
                (access as u8),
            ),
            attrs: MemoryAttributes::writeback().with_cache(cache_from_bits(svpbmt, bits)),
        }
    }
}

fn pbmt_bits(svpbmt: bool, cache: CachePolicy) -> (r: u64)
    ensures
        r == pbmt_word(svpbmt, cache),
{
    if !svpbmt {
        return 0;
    }
    let pbmt: u64 = match cache {
        CachePolicy::Writeback | CachePolicy::WriteThrough => RV64_PBMT_PMA,
        CachePolicy::WriteCombine => RV64_PBMT_NC,
        CachePolicy::Uncached => RV64_PBMT_IO,
    };
    pbmt << 61
}

fn cache_from_bits(svpbmt: bool, bits: u64) -> (r: CachePolicy)
    ensures
        r == cache_of(svpbmt, bits),
{
    if !svpbmt {
        return CachePolicy::Writeback;
    }
    let pbmt: u64 = (bits & RV64_PBMT_MASK) >> 61;
    if pbmt == RV64_PBMT_NC {
        CachePolicy::WriteCombine
    } else if pbmt == RV64_PBMT_IO {
        CachePolicy::Uncached
    } else {
        CachePolicy::Writeback
    }
}

fn paddr_to_ppn_bits(paddr: PhysAddr) -> (r: u64)
    ensures
        r == ppn_word(paddr.0),
{
    ((paddr.as_u64() >> 12) << 10) & PPN_MASK
}

fn ppn_bits_to_paddr(bits: u64) -> (r: PhysAddr)
    ensures
        r.0 == ppn_target(bits),
{
    PhysAddr(((bits & PPN_MASK) >> 10) << 12)
}

fn high_reserved_bits(svpbmt: bool, bits: u64) -> (r: u64)
    ensures
        r == bits & (if svpbmt {
            HIGH_RESERVED_WITH_SVPBMT_MASK
        } else {
            HIGH_RESERVED_MASK
        }),
{
    if svpbmt {
        bits & HIGH_RESERVED_WITH_SVPBMT_MASK
    } else {
        bits & HIGH_RESERVED_MASK
    }
}

fn valid_encoding(svpbmt: bool, bits: u64) -> (r: bool)
    ensures
        r == valid_word(svpbmt, bits),
{
    if bits & VALID == 0 {
        return false;
    }
    if high_reserved_bits(svpbmt, bits) != 0 {
        return false;
    }
    if bits & WRITE != 0 && bits & READ == 0 {
        return false;
    }
    if svpbmt && ((bits & RV64_PBMT_MASK) >> 61) == RV64_PBMT_RESERVED {
        return false;
    }
    true
}

fn kind_of(svpbmt: bool, bits: u64, level: u8) -> (r: PageTableEntryKind)
    ensures
        r == word_kind(svpbmt, bits, level),
{
    if !valid_encoding(svpbmt, bits) {
        PageTableEntryKind::Invalid
    } else if bits & (READ | WRITE | EXECUTE) != 0 {
        PageTableEntryKind::Leaf
    } else if level > 1 {
        PageTableEntryKind::Table
    } else {
        PageTableEntryKind::Invalid
    }
}

/// RISC-V page-table entry using only base entry bits.
#[derive(Clone, Copy, Debug, PartialEq, Eq, Structural)]
pub struct Rv64Pte {
    word: u64,
}

impl Default for Rv64Pte {
    fn default() -> (r: Self)
        ensures
            r.raw() == 0,
    {
        Rv64Pte { word: 0 }
    }
}

impl PageTableEntry for Rv64Pte {
    type Flags = Rv64Flags;

    closed spec fn raw(self) -> u64 {
        self.word
    }

    open spec fn present(raw: u64) -> bool {
        raw & VALID != 0
    }

    open spec fn kind(raw: u64, level: u8) -> PageTableEntryKind {
        word_kind(false, raw, level)
    }

    open spec fn target(raw: u64) -> u64 {
        ppn_target(raw)
    }

    open spec fn flags_of(raw: u64) -> Rv64Flags {
        word_flags(false, raw)
    }

    open spec fn decodable(raw: u64) -> bool {
        true
    }

    open spec fn encodable(paddr: u64) -> bool {
        true
    }

    open spec fn leaf_raw(paddr: u64, flags: Rv64Flags, size: PageSize) -> u64 {
        ppn_word(paddr) | leaf_bits(false, flags)
    }

    open spec fn table_raw(paddr: u64, level: u8) -> u64 {
        ppn_word(paddr) | VALID
    }

    fn new_leaf(paddr: PhysAddr, flags: Rv64Flags, size: PageSize) -> (r: Self) {
        Rv64Pte { word: paddr_to_ppn_bits(paddr) | flags.to_leaf_bits(false) }
    }

    fn new_table(paddr: PhysAddr, level: u8) -> (r: Self) {
        Rv64Pte { word: paddr_to_ppn_bits(paddr) | VALID }
    }

    fn paddr(&self) -> (r: PhysAddr) {
        ppn_bits_to_paddr(self.word)
    }

    fn flags(&self) -> (r: Rv64Flags) {
        Rv64Flags::from_bits(false, self.word)
    }

    fn is_present(&self) -> (r: bool) {
        self.word & VALID != 0
    }

    fn entry_kind(&self, level: u8) -> (r: PageTableEntryKind) {
        kind_of(false, self.word, level)
    }

    fn clear(&mut self) {
        self.word = 0;
    }

    fn bits(&self) -> (r: u64) {
        self.word
    }

    fn from_bits(bits: u64) -> (r: Self) {
        Rv64Pte { word: bits }
    }
}

/// RISC-V page-table entry using Svpbmt PBMT bits.
#[derive(Clone, Copy, Debug, PartialEq, Eq, Structural)]
pub struct Rv64SvpbmtPte {
    word: u64,
}

impl Default for Rv64SvpbmtPte {
    fn default() -> (r: Self)
        ensures
            r.raw() == 0,
    {
        Rv64SvpbmtPte { word: 0 }
    }
}

impl PageTableEntry for Rv64SvpbmtPte {
    type Flags = Rv64Flags;

    closed spec fn raw(self) -> u64 {
        self.word
    }

    open spec fn present(raw: u64) -> bool {
        raw & VALID != 0
    }

    open spec fn kind(raw: u64, level: u8) -> PageTableEntryKind {
        word_kind(true, raw, level)
    }

    open spec fn target(raw: u64) -> u64 {
        ppn_target(raw)
    }

    open spec fn flags_of(raw: u64) -> Rv64Flags {
        word_flags(true, raw)
    }

    open spec fn decodable(raw: u64) -> bool {
        true
    }

    open spec fn encodable(paddr: u64) -> bool {
        true
    }

    open spec fn leaf_raw(paddr: u64, flags: Rv64Flags, size: PageSize) -> u64 {
        ppn_word(paddr) | leaf_bits(true, flags)
    }

    open spec fn table_raw(paddr: u64, level: u8) -> u64 {
        ppn_word(paddr) | VALID
    }

    fn new_leaf(paddr: PhysAddr, flags: Rv64Flags, size: PageSize) -> (r: Self) {
        Rv64SvpbmtPte { word: paddr_to_ppn_bits(paddr) | flags.to_leaf_bits(true) }
    }

    fn new_table(paddr: PhysAddr, level: u8) -> (r: Self) {
        Rv64SvpbmtPte { word: paddr_to_ppn_bits(paddr) | VALID }
    }

    fn paddr(&self) -> (r: PhysAddr) {
        ppn_bits_to_paddr(self.word)
    }

    fn flags(&self) -> (r: Rv64Flags) {
        Rv64Flags::from_bits(true, self.word)
    }

    fn is_present(&self) -> (r: bool) {
        self.word & VALID != 0
    }

    fn entry_kind(&self, level: u8) -> (r: PageTableEntryKind) {
        kind_of(true, self.word, level)
    }

    fn clear(&mut self) {
        self.word = 0;
    }

    fn bits(&self) -> (r: u64) {
        self.word
    }

    fn from_bits(bits: u64) -> (r: Self) {
        Rv64SvpbmtPte { word: bits }
    }
}

/// Whether RISC-V paging of `levels` levels has leaves of `size` at `level`.
pub open spec fn rv64_leaf(levels: usize, level: u8, size: PageSize) -> bool {
    &&& level <= levels
    &&& {
        ||| level == 1 && size == PageSize::Size4K
        ||| level == 2 && size == PageSize::Size2M
        ||| level == 3 && size == PageSize::Size1G
        ||| level == 4 && size == PageSize::Size512G
    }
}

fn rv64_supports_leaf(levels: usize, level: u8, size: PageSize) -> (r: bool)
    ensures
        r == rv64_leaf(levels, level, size),
{
    matches!(
        (level, size),
        (1, PageSize::Size4K) | (2, PageSize::Size2M) | (3, PageSize::Size1G) | (
            4,
            PageSize::Size512G,
        )
    ) && (level as usize) <= levels
}

/// RISC-V Sv39 paging metadata.
#[derive(Clone, Copy, Debug)]
pub struct Rv64Meta39;

impl PagingMetaData for Rv64Meta39 {
    const LEVELS: usize = 3;

    const PA_MAX_BITS: usize = 56;

    const VA_MAX_BITS: usize = 39;

    const INDEX_BITS: u32 = 9;

    const BASE_PAGE_SIZE: PageSize = PageSize::Size4K;

    const TABLE_FRAME_SIZE: PageSize = PageSize::Size4K;

    const ENTRIES_PER_TABLE: usize = 512;

    type VirtAddr = VirtAddr;

    open spec fn shift(level: u8) -> u32 {
        (12 + (level - 1) * 9) as u32
    }

    open spec fn index_bits(level: u8) -> u32 {
        9
    }

    open spec fn supports(level: u8, size: PageSize) -> bool {
        rv64_leaf(3, level, size)
    }

    open spec fn in_range(vaddr: u64) -> bool {
        canonical(vaddr, 39)
    }

    fn level_shift(level: u8) -> (r: u32) {
        12 + ((level as u32) - 1) * 9
    }

    fn level_index_bits(level: u8) -> (r: u32) {
        Self::INDEX_BITS
    }

    fn level_supports_leaf(level: u8, size: PageSize) -> (r: bool) {
        rv64_supports_leaf(Self::LEVELS, level, size)
    }

    fn vaddr_is_valid(vaddr: VirtAddr) -> (r: bool) {
        canonical_vaddr_is_valid(vaddr, Self::VA_MAX_BITS)
    }
}

/// RISC-V Sv48 paging metadata.
#[derive(Clone, Copy, Debug)]
pub struct Rv64Meta48;

impl PagingMetaData for Rv64Meta48 {
    const LEVELS: usize = 4;

    const PA_MAX_BITS: usize = 56;

    const VA_MAX_BITS: usize = 48;

    const INDEX_BITS: u32 = 9;

    const BASE_PAGE_SIZE: PageSize = PageSize::Size4K;

    const TABLE_FRAME_SIZE: PageSize = PageSize::Size4K;

    const ENTRIES_PER_TABLE: usize = 512;

    type VirtAddr = VirtAddr;

    open spec fn shift(level: u8) -> u32 {
        (12 + (level - 1) * 9) as u32
    }

    open spec fn index_bits(level: u8) -> u32 {
        9
    }

    open spec fn supports(level: u8, size: PageSize) -> bool {
        rv64_leaf(4, level, size)
    }

    open spec fn in_range(vaddr: u64) -> bool {
        canonical(vaddr, 48)
    }

    fn level_shift(level: u8) -> (r: u32) {
        12 + ((level as u32) - 1) * 9
    }

    fn level_index_bits(level: u8) -> (r: u32) {
        Self::INDEX_BITS
    }

    fn level_supports_leaf(level: u8, size: PageSize) -> (r: bool) {
        rv64_supports_leaf(Self::LEVELS, level, size)
    }

    fn vaddr_is_valid(vaddr: VirtAddr) -> (r: bool) {
        canonical_vaddr_is_valid(vaddr, Self::VA_MAX_BITS)
    }
}

/// RISC-V Sv57 paging metadata.
#[derive(Clone, Copy, Debug)]
pub struct Rv64Meta57;

impl PagingMetaData for Rv64Meta57 {
    const LEVELS: usize = 5;

    const PA_MAX_BITS: usize = 56;

    const VA_MAX_BITS: usize = 57;

    const INDEX_BITS: u32 = 9;

    const BASE_PAGE_SIZE: PageSize = PageSize::Size4K;

    const TABLE_FRAME_SIZE: PageSize = PageSize::Size4K;

    const ENTRIES_PER_TABLE: usize = 512;

    type VirtAddr = VirtAddr;

    open spec fn shift(level: u8) -> u32 {
        (12 + (level - 1) * 9) as u32
    }

    open spec fn index_bits(level: u8) -> u32 {
        9
    }

    open spec fn supports(level: u8, size: PageSize) -> bool {
        rv64_leaf(5, level, size)
    }

    open spec fn in_range(vaddr: u64) -> bool {
        canonical(vaddr, 57)
    }

    fn level_shift(level: u8) -> (r: u32) {
        12 + ((level as u32) - 1) * 9
    }

    fn level_index_bits(level: u8) -> (r: u32) {
        Self::INDEX_BITS
    }

    fn level_supports_leaf(level: u8, size: PageSize) -> (r: bool) {
        rv64_supports_leaf(Self::LEVELS, level, size)
    }

    fn vaddr_is_valid(vaddr: VirtAddr) -> (r: bool) {
        canonical_vaddr_is_valid(vaddr, Self::VA_MAX_BITS)
    }
}

/// The constants of the RISC-V geometries.
pub proof fn lemma_rv64_geometry()
    ensures
        geometry::<Rv64Meta39>(3, 56, 39, 9, PageSize::Size4K, 512),
        geometry::<Rv64Meta48>(4, 56, 48, 9, PageSize::Size4K, 512),
        geometry::<Rv64Meta57>(5, 56, 57, 9, PageSize::Size4K, 512),
{
}

} // verus!
