//! AArch64 entry words, flags and geometries.

use crate::addr::{PhysAddr, VirtAddr};
use crate::arch::{canonical, canonical_vaddr_is_valid};
use crate::meta::{AccessFlags, CachePolicy, Coherency, MemoryAttributes, PageSize, Shareability};
use crate::paging::{geometry, PageTableEntry, PageTableEntryKind, PagingMetaData};
use super::tte;
use super::tte::{masked, A64Domain, A64Permission, ADDR_FIELD};
use vstd::prelude::*;
use vstd::std_specs::cmp::PartialEqSpecImpl;

verus! {

/// MAIR index used for normal write-back cacheable memory.
pub const A64_MAIR_WRITEBACK_INDEX: u64 = 0;

/// MAIR index used for strongly ordered device memory.
pub const A64_MAIR_DEVICE_INDEX: u64 = 1;

/// MAIR index used for normal non-cacheable memory.
///
/// AArch64 does not have an x86-style per-entry write-combining memory type.
/// `CachePolicy::WriteCombine` maps to this Normal-NC slot as the portable
/// framebuffer/device-buffer analogue while preserving normal-memory ordering.
pub const A64_MAIR_NORMAL_NC_INDEX: u64 = 2;

/// MAIR index used for normal write-through cacheable memory.
pub const A64_MAIR_WRITETHROUGH_INDEX: u64 = 3;

/// MAIR attribute byte for normal write-back cacheable memory.
pub const A64_MAIR_ATTR_WRITEBACK: u64 = 0xff;

/// MAIR attribute byte for Device-nGnRnE memory.
pub const A64_MAIR_ATTR_DEVICE_NGNRNE: u64 = 0x00;

/// MAIR attribute byte for normal non-cacheable memory.
pub const A64_MAIR_ATTR_NORMAL_NC: u64 = 0x44;

/// MAIR attribute byte for normal write-through cacheable memory.
pub const A64_MAIR_ATTR_WRITETHROUGH: u64 = 0xbb;

/// Conventional MAIR_EL1 value matching the attribute indices above.
///
/// Consumers may choose a different MAIR layout, but then they must use an
/// AArch64 flag and entry type with matching cache-policy encoding.
pub const A64_MAIR_EL1_VALUE: u64 = 0xbb44_00ff;

/// Bits that forbid execution, privileged and unprivileged.
pub const EXECUTE_NEVER: u64 = 0x0060_0000_0000_0000;

/// The bit that limits an entry to one address space.
pub const NOT_GLOBAL: u64 = 0x800;

/// The MAIR index of a cache policy.
pub open spec fn mair_index(cache: CachePolicy) -> u64 {
    match cache {
        CachePolicy::Writeback => A64_MAIR_WRITEBACK_INDEX,
        CachePolicy::Uncached => A64_MAIR_DEVICE_INDEX,
        CachePolicy::WriteCombine => A64_MAIR_NORMAL_NC_INDEX,
        CachePolicy::WriteThrough => A64_MAIR_WRITETHROUGH_INDEX,
    }
}

/// The cache policy of a MAIR index. Indices without one count as write-back.
pub open spec fn cache_at(index: u64) -> CachePolicy {
    if index == A64_MAIR_DEVICE_INDEX {
        CachePolicy::Uncached
    } else if index == A64_MAIR_NORMAL_NC_INDEX {
        CachePolicy::WriteCombine
    } else if index == A64_MAIR_WRITETHROUGH_INDEX {
        CachePolicy::WriteThrough
    } else {
        CachePolicy::Writeback
    }
}

/// The AP encoding of access bits: user access sets bit 0, and read-only
/// access sets bit 1.
pub open spec fn ap_of(access: u8) -> u64 {
    match (access & 8 == 8, access & 2 == 2) {
        (false, false) => 2,
        (false, true) => 0,
        (true, false) => 3,
        (true, true) => 1,
    }
}

/// The SH encoding of a sharing domain.
pub open spec fn sh_of(shareability: Shareability) -> u64 {
    match shareability {
        Shareability::NonShareable => 0,
        Shareability::Inner => 3,
        Shareability::Outer | Shareability::System => 2,
    }
}

/// The bits of a leaf beside its address and type.
pub open spec fn attribute_bits(flags: A64Flags) -> u64 {
    (mair_index(flags.attrs.cache) << 2) | (ap_of(flags.access@) << 6) | (sh_of(
        flags.attrs.shareability,
    ) << 8) | (if flags.access.has(4) {
        0
    } else {
        EXECUTE_NEVER
    }) | (if flags.access.has(16) {
        0
    } else {
        NOT_GLOBAL
    })
}

/// Whether leaves of `size` are pages, which have the type of tables; larger
/// ones are blocks.
pub open spec fn is_page(size: PageSize) -> bool {
    size == PageSize::Size4K || size == PageSize::Size16K || size == PageSize::Size64K
}

/// The word of a leaf.
pub open spec fn leaf_word(paddr: u64, flags: A64Flags, size: PageSize) -> u64 {
    (paddr & ADDR_FIELD) | (if is_page(size) {
        0x403
    } else {
        0x401
    }) | attribute_bits(flags)
}

/// The role of a word at `level`.
pub open spec fn word_kind(raw: u64, level: u8) -> PageTableEntryKind {
    if raw & 1 == 0 {
        PageTableEntryKind::Invalid
    } else if level == 1 || raw & 2 == 0 {
        PageTableEntryKind::Leaf
    } else {
        PageTableEntryKind::Table
    }
}

/// The access bits that a word grants.
pub open spec fn access_of(raw: u64) -> u8 {
    let ap = (raw & 0xc0) >> 6;
    1u8 | (if ap == 0 || ap == 1 {
        2u8
    } else {
        0
    }) | (if ap == 1 || ap == 3 {
        8u8
    } else {
        0
    }) | (if raw & EXECUTE_NEVER != EXECUTE_NEVER {
        4u8
    } else {
        0
    }) | (if raw & NOT_GLOBAL == 0 {
        16u8
    } else {
        0
    })
}

/// The sharing domain of a word.
pub open spec fn domain_of(raw: u64) -> Shareability {
    let sh = (raw & 0x300) >> 8;
    if sh == 0 {
        Shareability::NonShareable
    } else if sh == 2 {
        Shareability::Outer
    } else {
        Shareability::Inner
    }
}

/// The flags of a word.
pub open spec fn word_flags(raw: u64) -> A64Flags {
    A64Flags {
        access: AccessFlags::of(access_of(raw)),
        attrs: MemoryAttributes {
            cache: cache_at((raw & 0x1c) >> 2),
            shareability: domain_of(raw),
            coherency: if domain_of(raw) == Shareability::NonShareable {
                Coherency::NonCoherent
            } else {
                Coherency::Coherent
            },
        },
    }
}

/// AArch64 stage-1 entry flag bundle: access bits and memory attributes.
#[derive(Clone, Copy, Debug)]
pub struct A64Flags {
    pub access: AccessFlags,
    pub attrs: MemoryAttributes,
}

impl PartialEq for A64Flags {
    fn eq(&self, other: &Self) -> (r: bool) {
        self.access == other.access && self.attrs == other.attrs
    }
}

impl PartialEqSpecImpl for A64Flags {
    open spec fn obeys_eq_spec() -> bool {
        true
    }

    open spec fn eq_spec(&self, other: &Self) -> bool {
        self.access == other.access && self.attrs == other.attrs
    }
}

impl Eq for A64Flags {

}

impl Default for A64Flags {
    fn default() -> (r: Self)
        ensures
            r.access@ == 0,
            r == (A64Flags { access: AccessFlags::of(0), attrs: MemoryAttributes::ram() }),
    {
        A64Flags { access: AccessFlags::empty(), attrs: MemoryAttributes::writeback() }
    }
}

impl A64Flags {
    /// Readable memory with the given access, write-back.
    pub fn new(access: AccessFlags) -> (r: Self)
        ensures
            r.access@ == access@ | 1,
            r.attrs == MemoryAttributes::ram(),
    {
        A64Flags {
            access: access.union(AccessFlags::read()),
            attrs: MemoryAttributes::writeback(),
        }
    }

    pub fn with_cache(self, cache: CachePolicy) -> (r: Self)
        ensures
            r.access == self.access,
            r.attrs == (MemoryAttributes { cache, ..self.attrs }),
    {
        A64Flags { access: self.access, attrs: self.attrs.with_cache(cache) }
    }

    pub fn with_attrs(self, attrs: MemoryAttributes) -> (r: Self)
        ensures
            r == (A64Flags { access: self.access, attrs }),
    {
        A64Flags { access: self.access, attrs }
    }

    pub fn cache(self) -> (r: CachePolicy)
        ensures
            r == self.attrs.cache,
    {
        self.attrs.cache()
    }

    pub fn attrs(self) -> (r: MemoryAttributes)
        ensures
            r == self.attrs,
    {
        self.attrs
    }

    /// Set the attribute fields of a fresh entry.
    pub fn apply_to_tte(self, raw: u64) -> (r: u64)
        requires
            raw & (0x1cu64 | 0xc0u64 | 0x300u64 | 0x800u64 | EXECUTE_NEVER) == 0,
        ensures
            r == raw | attribute_bits(self),
    {
        let index: u64 = cache_to_attr_index(self.attrs.cache());
        let ap: A64Permission = access_to_ap(self.access);
        let domain: A64Domain = shareability_to_a64(self.attrs.shareability());
        let execute: bool = self.access.contains(AccessFlags::execute());
        let global: bool = self.access.contains(AccessFlags::global());
        let r1: u64 = tte::set_attr_index(raw, index);
        let r2: u64 = tte::set_access_permission(r1, ap);
        let r3: u64 = tte::set_shareability(r2, domain);
        let r4: u64 = tte::set_executable(r3, execute);
        let r5: u64 = tte::set_privileged_executable(r4, execute);
        let r6: u64 = if !global {
            tte::set_not_global(r5)
        } else {
            r5
        };
        proof {
            let a = ap.code();
            let s = domain.code();
            let x: u64 = if execute {
                0
            } else {
                0x0040_0000_0000_0000
            };
            let y: u64 = if execute {
                0
            } else {
                0x0020_0000_0000_0000
            };
            let never: u64 = if execute {
                0
            } else {
                0x0060_0000_0000_0000
            };
            let g: u64 = if global {
                0
            } else {
                0x800
            };
            assert(r6 == raw | ((index << 2) | (a << 6) | (s << 8) | never | g)) by (bit_vector)
                requires
                    raw & (0x1cu64 | 0xc0u64 | 0x300u64 | 0x800u64 | 0x0060_0000_0000_0000u64) == 0,
                    index <= 3,
                    a <= 3,
                    s <= 3,
                    (x == 0 && y == 0 && never == 0) || (x == 0x0040_0000_0000_0000 && y
                        == 0x0020_0000_0000_0000 && never == 0x0060_0000_0000_0000),
                    r1 == (raw & !0x1cu64) | (index << 2),
                    r2 == (r1 & !0xc0u64) | (a << 6),
                    r3 == (r2 & !0x300u64) | (s << 8),
                    r4 == (r3 & !0x0040_0000_0000_0000u64) | x,
                    r5 == (r4 & !0x0020_0000_0000_0000u64) | y,
                    (g == 0 && r6 == r5) || (g == 0x800 && r6 == r5 | 0x800),
            ;
        }
        r6
    }

    /// Decode the attribute fields of an entry.
    pub fn from_tte(raw: u64) -> (r: Self)
        requires
            (raw & 0x300) >> 8 != 1,
        ensures
            r == word_flags(raw),
    {
        let ap: A64Permission = tte::access_permission(raw);
        let mut access: AccessFlags = AccessFlags::read();
        if ap.allows_privileged_write() {
            access = access.union(AccessFlags::write());
        }
        if ap.allows_unprivileged() {
            access = access.union(AccessFlags::user());
        }
        if tte::is_executable(raw) || tte::is_privileged_executable(raw) {
            access = access.union(AccessFlags::execute());
        }
        if tte::is_global(raw) {
            access = access.union(AccessFlags::global());
        }
        let shareability: Shareability = shareability_from_a64(tte::shareability(raw));
        let coherency: Coherency = if matches!(shareability, Shareability::NonShareable) {
            Coherency::NonCoherent
        } else {
            Coherency::Coherent
        };
        proof {
            access.law_five_bits(access_of(raw));
            assert((raw & 0x0060_0000_0000_0000 != 0x0060_0000_0000_0000) == (raw
                & 0x0040_0000_0000_0000 == 0 || raw & 0x0020_0000_0000_0000 == 0) && (raw & 0xc0)
                >> 6 <= 3 && (raw & 0x300) >> 8 <= 3) by (bit_vector);
            assert(forall|x: u8| #[trigger] (x | 0) == x) by (bit_vector);
        }
        A64Flags {
            access,
            attrs: MemoryAttributes::new(
                cache_from_attr_index(tte::attr_index(raw)),
                shareability,
                coherency,
            ),
        }
    }
}

fn access_to_ap(access: AccessFlags) -> (r: A64Permission)
    ensures
        r.code() == ap_of(access@),
{
    match (access.contains(AccessFlags::user()), access.contains(AccessFlags::write())) {
        (false, false) => A64Permission::PrivilegedReadOnly,
        (false, true) => A64Permission::PrivilegedReadWrite,
        (true, false) => A64Permission::ReadOnly,
        (true, true) => A64Permission::ReadWrite,
    }
}

fn shareability_to_a64(shareability: Shareability) -> (r: A64Domain)
    ensures
        r.code() == sh_of(shareability),
{
    match shareability {
        Shareability::NonShareable => A64Domain::NonShareable,
        Shareability::Inner => A64Domain::InnerShareable,
        Shareability::Outer | Shareability::System => A64Domain::OuterShareable,
    }
}

fn shareability_from_a64(domain: A64Domain) -> (r: Shareability)
    ensures
        r == match domain {
            A64Domain::NonShareable => Shareability::NonShareable,
            A64Domain::OuterShareable => Shareability::Outer,
            A64Domain::InnerShareable => Shareability::Inner,
        },
{
    match domain {
        A64Domain::NonShareable => Shareability::NonShareable,
        A64Domain::OuterShareable => Shareability::Outer,
        A64Domain::InnerShareable => Shareability::Inner,
    }
}

/// The MAIR index of a cache policy.
pub fn cache_to_attr_index(cache: CachePolicy) -> (r: u64)
    ensures
        r == mair_index(cache),
{
    match cache {
        CachePolicy::Writeback => A64_MAIR_WRITEBACK_INDEX,
        CachePolicy::Uncached => A64_MAIR_DEVICE_INDEX,
        CachePolicy::WriteCombine => A64_MAIR_NORMAL_NC_INDEX,
        CachePolicy::WriteThrough => A64_MAIR_WRITETHROUGH_INDEX,
    }
}

/// The cache policy of a MAIR index.
pub fn cache_from_attr_index(index: u64) -> (r: CachePolicy)
    ensures
        r == cache_at(index),
{
    if index == A64_MAIR_DEVICE_INDEX {
        CachePolicy::Uncached
    } else if index == A64_MAIR_NORMAL_NC_INDEX {
        CachePolicy::WriteCombine
    } else if index == A64_MAIR_WRITETHROUGH_INDEX {
        CachePolicy::WriteThrough
    } else {
        CachePolicy::Writeback
    }
}

/// The word of a leaf.
fn make_leaf(paddr: PhysAddr, flags: A64Flags, size: PageSize) -> (r: u64)
    requires
        paddr.0 % 0x1000 == 0,
        paddr.0 < 0x10_0000_0000_0000,
    ensures
        r == leaf_word(paddr.0, flags, size),
{
    let raw: u64 = if matches!(size, PageSize::Size4K | PageSize::Size16K | PageSize::Size64K) {
        tte::new_table(paddr.as_u64())
    } else {
        tte::new_block(paddr.as_u64())
    };
    proof {
        let p = paddr.0;
        assert(((p & 0x0003_ffff_ffff_f000) | 0x403) & (0x1cu64 | 0xc0u64 | 0x300u64 | 0x800u64
            | 0x0060_0000_0000_0000u64) == 0 && ((p & 0x0003_ffff_ffff_f000) | 0x401) & (0x1cu64
            | 0xc0u64 | 0x300u64 | 0x800u64 | 0x0060_0000_0000_0000u64) == 0) by (bit_vector);
    }
    flags.apply_to_tte(raw)
}

/// The role of a word at `level`.
fn kind_of(raw: u64, level: u8) -> (r: PageTableEntryKind)
    ensures
        r == word_kind(raw, level),
{
    if !tte::is_valid(raw) {
        PageTableEntryKind::Invalid
    } else if level == 1 || tte::is_block(raw) {
        PageTableEntryKind::Leaf
    } else if tte::is_table(raw) {
        PageTableEntryKind::Table
    } else {
        PageTableEntryKind::Invalid
    }
}

/// AArch64 stage-1 entry for a 4 KiB granule and 48-bit output addresses.
#[derive(Clone, Copy, Debug, PartialEq, Eq, Structural)]
pub struct A64Pte4K48 {
    word: u64,
}

impl Default for A64Pte4K48 {
    fn default() -> (r: Self)
        ensures
            r.raw() == 0,
    {
        A64Pte4K48 { word: 0 }
    }
}

impl PageTableEntry for A64Pte4K48 {
    type Flags = A64Flags;

    closed spec fn raw(self) -> u64 {
        self.word
    }

    open spec fn present(raw: u64) -> bool {
        raw & 1 != 0
    }

    open spec fn kind(raw: u64, level: u8) -> PageTableEntryKind {
        word_kind(raw, level)
    }

    open spec fn target(raw: u64) -> u64 {
        masked(raw, 0x0001_ffff_ffff_f000)
    }

    open spec fn flags_of(raw: u64) -> A64Flags {
        word_flags(raw)
    }

    open spec fn decodable(raw: u64) -> bool {
        (raw & 0x300) >> 8 != 1
    }

    open spec fn encodable(paddr: u64) -> bool {
        paddr % 0x1000 == 0 && paddr < 0x1_0000_0000_0000
    }

    open spec fn leaf_raw(paddr: u64, flags: A64Flags, size: PageSize) -> u64 {
        leaf_word(paddr, flags, size)
    }

    open spec fn table_raw(paddr: u64, level: u8) -> u64 {
        (paddr & ADDR_FIELD) | 0x403
    }

    fn new_leaf(paddr: PhysAddr, flags: A64Flags, size: PageSize) -> (r: Self) {
        A64Pte4K48 { word: make_leaf(paddr, flags, size) }
    }

    fn new_table(paddr: PhysAddr, level: u8) -> (r: Self) {
        A64Pte4K48 { word: tte::new_table(paddr.as_u64()) }
    }

    fn paddr(&self) -> (r: PhysAddr) {
        PhysAddr(tte::address_4k48(self.word))
    }

    fn flags(&self) -> (r: A64Flags) {
        A64Flags::from_tte(self.word)
    }

    fn is_present(&self) -> (r: bool) {
        tte::is_valid(self.word)
    }

    fn entry_kind(&self, level: u8) -> (r: PageTableEntryKind) {
        kind_of(self.word, level)
    }

    fn clear(&mut self) {
        self.word = 0;
    }

    fn bits(&self) -> (r: u64) {
        self.word
    }

    fn from_bits(bits: u64) -> (r: Self) {
        A64Pte4K48 { word: bits }
    }
}

/// AArch64 stage-1 entry for a 4 KiB granule and 52-bit output addresses.
#[derive(Clone, Copy, Debug, PartialEq, Eq, Structural)]
pub struct A64Pte4K52 {
    word: u64,
}

impl Default for A64Pte4K52 {
    fn default() -> (r: Self)
        ensures
            r.raw() == 0,
    {
        A64Pte4K52 { word: 0 }
    }
}

impl PageTableEntry for A64Pte4K52 {
    type Flags = A64Flags;

    closed spec fn raw(self) -> u64 {
        self.word
    }

    open spec fn present(raw: u64) -> bool {
        raw & 1 != 0
    }

    open spec fn kind(raw: u64, level: u8) -> PageTableEntryKind {
        word_kind(raw, level)
    }

    open spec fn target(raw: u64) -> u64 {
        masked(raw, 0x0007_ffff_ffff_f000)
    }

    open spec fn flags_of(raw: u64) -> A64Flags {
        word_flags(raw)
    }

    open spec fn decodable(raw: u64) -> bool {
        (raw & 0x300) >> 8 != 1
    }

    open spec fn encodable(paddr: u64) -> bool {
        paddr % 0x1000 == 0 && paddr < 0x10_0000_0000_0000
    }

    open spec fn leaf_raw(paddr: u64, flags: A64Flags, size: PageSize) -> u64 {
        leaf_word(paddr, flags, size)
    }

    open spec fn table_raw(paddr: u64, level: u8) -> u64 {
        (paddr & ADDR_FIELD) | 0x403
    }

    fn new_leaf(paddr: PhysAddr, flags: A64Flags, size: PageSize) -> (r: Self) {
        A64Pte4K52 { word: make_leaf(paddr, flags, size) }
    }

    fn new_table(paddr: PhysAddr, level: u8) -> (r: Self) {
        A64Pte4K52 { word: tte::new_table(paddr.as_u64()) }
    }

    fn paddr(&self) -> (r: PhysAddr) {
        PhysAddr(tte::address_4k52(self.word))
    }

    fn flags(&self) -> (r: A64Flags) {
        A64Flags::from_tte(self.word)
    }

    fn is_present(&self) -> (r: bool) {
        tte::is_valid(self.word)
    }

    fn entry_kind(&self, level: u8) -> (r: PageTableEntryKind) {
        kind_of(self.word, level)
    }

    fn clear(&mut self) {
        self.word = 0;
    }

    fn bits(&self) -> (r: u64) {
        self.word
    }

    fn from_bits(bits: u64) -> (r: Self) {
        A64Pte4K52 { word: bits }
    }
}

/// AArch64 stage-1 entry for a 16 KiB granule and 48-bit output addresses.
#[derive(Clone, Copy, Debug, PartialEq, Eq, Structural)]
pub struct A64Pte16K48 {
    word: u64,
}

impl Default for A64Pte16K48 {
    fn default() -> (r: Self)
        ensures
            r.raw() == 0,
    {
        A64Pte16K48 { word: 0 }
    }
}

impl PageTableEntry for A64Pte16K48 {
    type Flags = A64Flags;

    closed spec fn raw(self) -> u64 {
        self.word
    }

    open spec fn present(raw: u64) -> bool {
        raw & 1 != 0
    }

    open spec fn kind(raw: u64, level: u8) -> PageTableEntryKind {
        word_kind(raw, level)
    }

    open spec fn target(raw: u64) -> u64 {
        masked(raw, 0x0001_ffff_ffff_c000)
    }

    open spec fn flags_of(raw: u64) -> A64Flags {
        word_flags(raw)
    }

    open spec fn decodable(raw: u64) -> bool {
        (raw & 0x300) >> 8 != 1
    }

    open spec fn encodable(paddr: u64) -> bool {
        paddr % 0x4000 == 0 && paddr < 0x1_0000_0000_0000
    }

    open spec fn leaf_raw(paddr: u64, flags: A64Flags, size: PageSize) -> u64 {
        leaf_word(paddr, flags, size)
    }

    open spec fn table_raw(paddr: u64, level: u8) -> u64 {
        (paddr & ADDR_FIELD) | 0x403
    }

    fn new_leaf(paddr: PhysAddr, flags: A64Flags, size: PageSize) -> (r: Self) {
        A64Pte16K48 { word: make_leaf(paddr, flags, size) }
    }

    fn new_table(paddr: PhysAddr, level: u8) -> (r: Self) {
        A64Pte16K48 { word: tte::new_table(paddr.as_u64()) }
    }

    fn paddr(&self) -> (r: PhysAddr) {
        PhysAddr(tte::address_16k48(self.word))
    }

    fn flags(&self) -> (r: A64Flags) {
        A64Flags::from_tte(self.word)
    }

    fn is_present(&self) -> (r: bool) {
        tte::is_valid(self.word)
    }

    fn entry_kind(&self, level: u8) -> (r: PageTableEntryKind) {
        kind_of(self.word, level)
    }

    fn clear(&mut self) {
        self.word = 0;
    }

    fn bits(&self) -> (r: u64) {
        self.word
    }

    fn from_bits(bits: u64) -> (r: Self) {
        A64Pte16K48 { word: bits }
    }
}

/// AArch64 stage-1 entry for a 16 KiB granule and 52-bit output addresses.
#[derive(Clone, Copy, Debug, PartialEq, Eq, Structural)]
pub struct A64Pte16K52 {
    word: u64,
}

impl Default for A64Pte16K52 {
    fn default() -> (r: Self)
        ensures
            r.raw() == 0,
    {
        A64Pte16K52 { word: 0 }
    }
}

impl PageTableEntry for A64Pte16K52 {
    type Flags = A64Flags;

    closed spec fn raw(self) -> u64 {
        self.word
    }

    open spec fn present(raw: u64) -> bool {
        raw & 1 != 0
    }

    open spec fn kind(raw: u64, level: u8) -> PageTableEntryKind {
        word_kind(raw, level)
    }

    open spec fn target(raw: u64) -> u64 {
        masked(raw, 0x0007_ffff_ffff_c000)
    }

    open spec fn flags_of(raw: u64) -> A64Flags {
        word_flags(raw)
    }

    open spec fn decodable(raw: u64) -> bool {
        (raw & 0x300) >> 8 != 1
    }

    open spec fn encodable(paddr: u64) -> bool {
        paddr % 0x4000 == 0 && paddr < 0x10_0000_0000_0000
    }

    open spec fn leaf_raw(paddr: u64, flags: A64Flags, size: PageSize) -> u64 {
        leaf_word(paddr, flags, size)
    }

    open spec fn table_raw(paddr: u64, level: u8) -> u64 {
        (paddr & ADDR_FIELD) | 0x403
    }

    fn new_leaf(paddr: PhysAddr, flags: A64Flags, size: PageSize) -> (r: Self) {
        A64Pte16K52 { word: make_leaf(paddr, flags, size) }
    }

    fn new_table(paddr: PhysAddr, level: u8) -> (r: Self) {
        A64Pte16K52 { word: tte::new_table(paddr.as_u64()) }
    }

    fn paddr(&self) -> (r: PhysAddr) {
        PhysAddr(tte::address_16k52(self.word))
    }

    fn flags(&self) -> (r: A64Flags) {
        A64Flags::from_tte(self.word)
    }

    fn is_present(&self) -> (r: bool) {
        tte::is_valid(self.word)
    }

    fn entry_kind(&self, level: u8) -> (r: PageTableEntryKind) {
        kind_of(self.word, level)
    }

    fn clear(&mut self) {
        self.word = 0;
    }

    fn bits(&self) -> (r: u64) {
        self.word
    }

    fn from_bits(bits: u64) -> (r: Self) {
        A64Pte16K52 { word: bits }
    }
}

/// AArch64 stage-1 entry for a 64 KiB granule and 48-bit output addresses.
#[derive(Clone, Copy, Debug, PartialEq, Eq, Structural)]
pub struct A64Pte64K48 {
    word: u64,
}

impl Default for A64Pte64K48 {
    fn default() -> (r: Self)
        ensures
            r.raw() == 0,
    {
        A64Pte64K48 { word: 0 }
    }
}

impl PageTableEntry for A64Pte64K48 {
    type Flags = A64Flags;

    closed spec fn raw(self) -> u64 {
        self.word
    }

    open spec fn present(raw: u64) -> bool {
        raw & 1 != 0
    }

    open spec fn kind(raw: u64, level: u8) -> PageTableEntryKind {
        word_kind(raw, level)
    }

    open spec fn target(raw: u64) -> u64 {
        masked(raw, 0x0001_ffff_ffff_0000)
    }

    open spec fn flags_of(raw: u64) -> A64Flags {
        word_flags(raw)
    }

    open spec fn decodable(raw: u64) -> bool {
        (raw & 0x300) >> 8 != 1
    }

    open spec fn encodable(paddr: u64) -> bool {
        paddr % 0x1_0000 == 0 && paddr < 0x1_0000_0000_0000
    }

    open spec fn leaf_raw(paddr: u64, flags: A64Flags, size: PageSize) -> u64 {
        leaf_word(paddr, flags, size)
    }

    open spec fn table_raw(paddr: u64, level: u8) -> u64 {
        (paddr & ADDR_FIELD) | 0x403
    }

    fn new_leaf(paddr: PhysAddr, flags: A64Flags, size: PageSize) -> (r: Self) {
        A64Pte64K48 { word: make_leaf(paddr, flags, size) }
    }

    fn new_table(paddr: PhysAddr, level: u8) -> (r: Self) {
        A64Pte64K48 { word: tte::new_table(paddr.as_u64()) }
    }

    fn paddr(&self) -> (r: PhysAddr) {
        PhysAddr(tte::address_64k48(self.word))
    }

    fn flags(&self) -> (r: A64Flags) {
        A64Flags::from_tte(self.word)
    }

    fn is_present(&self) -> (r: bool) {
        tte::is_valid(self.word)
    }

    fn entry_kind(&self, level: u8) -> (r: PageTableEntryKind) {
        kind_of(self.word, level)
    }

    fn clear(&mut self) {
        self.word = 0;
    }

    fn bits(&self) -> (r: u64) {
        self.word
    }

    fn from_bits(bits: u64) -> (r: Self) {
        A64Pte64K48 { word: bits }
    }
}

/// AArch64 stage-1 entry for a 64 KiB granule and 52-bit output addresses.
#[derive(Clone, Copy, Debug, PartialEq, Eq, Structural)]
pub struct A64Pte64K52 {
    word: u64,
}

impl Default for A64Pte64K52 {
    fn default() -> (r: Self)
        ensures
            r.raw() == 0,
    {
        A64Pte64K52 { word: 0 }
    }
}

impl PageTableEntry for A64Pte64K52 {
    type Flags = A64Flags;

    closed spec fn raw(self) -> u64 {
        self.word
    }

    open spec fn present(raw: u64) -> bool {
        raw & 1 != 0
    }

    open spec fn kind(raw: u64, level: u8) -> PageTableEntryKind {
        word_kind(raw, level)
    }

    open spec fn target(raw: u64) -> u64 {
        masked(raw, 0x0001_ffff_ffff_0000)
    }

    open spec fn flags_of(raw: u64) -> A64Flags {
        word_flags(raw)
    }

    open spec fn decodable(raw: u64) -> bool {
        (raw & 0x300) >> 8 != 1
    }

    open spec fn encodable(paddr: u64) -> bool {
        paddr % 0x1_0000 == 0 && paddr < 0x10_0000_0000_0000
    }

    open spec fn leaf_raw(paddr: u64, flags: A64Flags, size: PageSize) -> u64 {
        leaf_word(paddr, flags, size)
    }

    open spec fn table_raw(paddr: u64, level: u8) -> u64 {
        (paddr & ADDR_FIELD) | 0x403
    }

    fn new_leaf(paddr: PhysAddr, flags: A64Flags, size: PageSize) -> (r: Self) {
        A64Pte64K52 { word: make_leaf(paddr, flags, size) }
    }

    fn new_table(paddr: PhysAddr, level: u8) -> (r: Self) {
        A64Pte64K52 { word: tte::new_table(paddr.as_u64()) }
    }

    fn paddr(&self) -> (r: PhysAddr) {
        PhysAddr(tte::address_64k52(self.word))
    }

    fn flags(&self) -> (r: A64Flags) {
        A64Flags::from_tte(self.word)
    }

    fn is_present(&self) -> (r: bool) {
        tte::is_valid(self.word)
    }

    fn entry_kind(&self, level: u8) -> (r: PageTableEntryKind) {
        kind_of(self.word, level)
    }

    fn clear(&mut self) {
        self.word = 0;
    }

    fn bits(&self) -> (r: u64) {
        self.word
    }

    fn from_bits(bits: u64) -> (r: Self) {
        A64Pte64K52 { word: bits }
    }
}

/// Whether the 4 KiB granule has leaves of `size` at `level`.
pub open spec fn a64_leaf_4k(level: u8, size: PageSize) -> bool {
    ||| level == 1 && size == PageSize::Size4K
    ||| level == 2 && size == PageSize::Size2M
    ||| level == 3 && size == PageSize::Size1G
}

/// Whether the 16 KiB granule has leaves of `size` at `level`.
pub open spec fn a64_leaf_16k(level: u8, size: PageSize) -> bool {
    ||| level == 1 && size == PageSize::Size16K
    ||| level == 2 && size == PageSize::Size32M
    ||| level == 3 && size == PageSize::Size64G
}

/// Whether the 64 KiB granule has leaves of `size` at `level`.
pub open spec fn a64_leaf_64k(level: u8, size: PageSize) -> bool {
    ||| level == 1 && size == PageSize::Size64K
    ||| level == 2 && size == PageSize::Size512M
    ||| level == 3 && size == PageSize::Size4T
}

/// AArch64 4 KiB granule, 48-bit VA/OA stage-1 metadata.
#[derive(Clone, Copy, Debug)]
pub struct A64Meta4K48;

impl PagingMetaData for A64Meta4K48 {
    const LEVELS: usize = 4;

    const PA_MAX_BITS: usize = 48;

    const VA_MAX_BITS: usize = 48;

    const INDEX_BITS: u32 = 9;

    const BASE_PAGE_SIZE: PageSize = PageSize::Size4K;

    const TABLE_FRAME_SIZE: PageSize = PageSize::Size4K;

    const ENTRIES_PER_TABLE: usize = 512;

    type VirtAddr = VirtAddr;

    open spec fn shift(level: u8) -> u32 {
        (12 + (level - 1) * 9) as u32
    }

    open spec fn index_bits(level: u8) -> u32 {
        9
    }

    open spec fn supports(level: u8, size: PageSize) -> bool {
        a64_leaf_4k(level, size)
    }

    open spec fn in_range(vaddr: u64) -> bool {
        canonical(vaddr, 48)
    }

    fn level_shift(level: u8) -> (r: u32) {
        12 + ((level as u32) - 1) * 9
    }

    fn level_index_bits(level: u8) -> (r: u32) {
        Self::INDEX_BITS
    }

    fn level_supports_leaf(level: u8, size: PageSize) -> (r: bool) {
        matches!(
            (level, size),
            (1, PageSize::Size4K) | (2, PageSize::Size2M) | (3, PageSize::Size1G)
        )
    }

    fn vaddr_is_valid(vaddr: VirtAddr) -> (r: bool) {
        canonical_vaddr_is_valid(vaddr, Self::VA_MAX_BITS)
    }
}

/// AArch64 4 KiB granule, 52-bit VA/OA stage-1 metadata.
///
/// Output addresses of up to 52 bits are accepted. An entry keeps the lowest 50
/// bits of them.
#[derive(Clone, Copy, Debug)]
pub struct A64Meta4K52;

impl PagingMetaData for A64Meta4K52 {
    const LEVELS: usize = 5;

    const PA_MAX_BITS: usize = 52;

    const VA_MAX_BITS: usize = 52;

    const INDEX_BITS: u32 = 9;

    const BASE_PAGE_SIZE: PageSize = PageSize::Size4K;

    const TABLE_FRAME_SIZE: PageSize = PageSize::Size4K;

    const ENTRIES_PER_TABLE: usize = 512;

    type VirtAddr = VirtAddr;

    open spec fn shift(level: u8) -> u32 {
        (12 + (level - 1) * 9) as u32
    }

    open spec fn index_bits(level: u8) -> u32 {
        if level == 5 {
            4
        } else {
            9
        }
    }

    open spec fn supports(level: u8, size: PageSize) -> bool {
        a64_leaf_4k(level, size)
    }

    open spec fn in_range(vaddr: u64) -> bool {
        canonical(vaddr, 52)
    }

    fn level_shift(level: u8) -> (r: u32) {
        12 + ((level as u32) - 1) * 9
    }

    fn level_index_bits(level: u8) -> (r: u32) {
        if level == 5 {
            4
        } else {
            9
        }
    }

    fn level_supports_leaf(level: u8, size: PageSize) -> (r: bool) {
        matches!(
            (level, size),
            (1, PageSize::Size4K) | (2, PageSize::Size2M) | (3, PageSize::Size1G)
        )
    }

    fn vaddr_is_valid(vaddr: VirtAddr) -> (r: bool) {
        canonical_vaddr_is_valid(vaddr, Self::VA_MAX_BITS)
    }
}

/// AArch64 16 KiB granule, 48-bit VA/OA stage-1 metadata.
#[derive(Clone, Copy, Debug)]
pub struct A64Meta16K48;

impl PagingMetaData for A64Meta16K48 {
    const LEVELS: usize = 4;

    const PA_MAX_BITS: usize = 48;

    const VA_MAX_BITS: usize = 48;

    const INDEX_BITS: u32 = 11;

    const BASE_PAGE_SIZE: PageSize = PageSize::Size16K;

    const TABLE_FRAME_SIZE: PageSize = PageSize::Size16K;

    const ENTRIES_PER_TABLE: usize = 2048;

    type VirtAddr = VirtAddr;

    open spec fn shift(level: u8) -> u32 {
        (14 + (level - 1) * 11) as u32
    }

    open spec fn index_bits(level: u8) -> u32 {
        if level == 4 {
            1
        } else {
            11
        }
    }

    open spec fn supports(level: u8, size: PageSize) -> bool {
        a64_leaf_16k(level, size)
    }

    open spec fn in_range(vaddr: u64) -> bool {
        canonical(vaddr, 48)
    }

    fn level_shift(level: u8) -> (r: u32) {
        14 + ((level as u32) - 1) * 11
    }

    fn level_index_bits(level: u8) -> (r: u32) {
        if level == 4 {
            1
        } else {
            11
        }
    }

    fn level_supports_leaf(level: u8, size: PageSize) -> (r: bool) {
        matches!(
            (level, size),
            (1, PageSize::Size16K) | (2, PageSize::Size32M) | (3, PageSize::Size64G)
        )
    }

    fn vaddr_is_valid(vaddr: VirtAddr) -> (r: bool) {
        canonical_vaddr_is_valid(vaddr, Self::VA_MAX_BITS)
    }
}

/// AArch64 16 KiB granule, 52-bit VA/OA stage-1 metadata.
///
/// Output addresses of up to 52 bits are accepted. An entry keeps the lowest 50
/// bits of them.
#[derive(Clone, Copy, Debug)]
pub struct A64Meta16K52;

impl PagingMetaData for A64Meta16K52 {
    const LEVELS: usize = 4;

    const PA_MAX_BITS: usize = 52;

    const VA_MAX_BITS: usize = 52;

    const INDEX_BITS: u32 = 11;

    const BASE_PAGE_SIZE: PageSize = PageSize::Size16K;

    const TABLE_FRAME_SIZE: PageSize = PageSize::Size16K;

    const ENTRIES_PER_TABLE: usize = 2048;

    type VirtAddr = VirtAddr;

    open spec fn shift(level: u8) -> u32 {
        (14 + (level - 1) * 11) as u32
    }

    open spec fn index_bits(level: u8) -> u32 {
        if level == 4 {
            5
        } else {
            11
        }
    }

    open spec fn supports(level: u8, size: PageSize) -> bool {
        a64_leaf_16k(level, size)
    }

    open spec fn in_range(vaddr: u64) -> bool {
        canonical(vaddr, 52)
    }

    fn level_shift(level: u8) -> (r: u32) {
        14 + ((level as u32) - 1) * 11
    }

    fn level_index_bits(level: u8) -> (r: u32) {
        if level == 4 {
            5
        } else {
            11
        }
    }

    fn level_supports_leaf(level: u8, size: PageSize) -> (r: bool) {
        matches!(
            (level, size),
            (1, PageSize::Size16K) | (2, PageSize::Size32M) | (3, PageSize::Size64G)
        )
    }

    fn vaddr_is_valid(vaddr: VirtAddr) -> (r: bool) {
        canonical_vaddr_is_valid(vaddr, Self::VA_MAX_BITS)
    }
}

/// AArch64 64 KiB granule, 48-bit VA/OA stage-1 metadata.
#[derive(Clone, Copy, Debug)]
pub struct A64Meta64K48;

impl PagingMetaData for A64Meta64K48 {
    const LEVELS: usize = 3;

    const PA_MAX_BITS: usize = 48;

    const VA_MAX_BITS: usize = 48;

    const INDEX_BITS: u32 = 13;

    const BASE_PAGE_SIZE: PageSize = PageSize::Size64K;

    const TABLE_FRAME_SIZE: PageSize = PageSize::Size64K;

    const ENTRIES_PER_TABLE: usize = 8192;

    type VirtAddr = VirtAddr;

    open spec fn shift(level: u8) -> u32 {
        (16 + (level - 1) * 13) as u32
    }

    open spec fn index_bits(level: u8) -> u32 {
        if level == 3 {
            6
        } else {
            13
        }
    }

    open spec fn supports(level: u8, size: PageSize) -> bool {
        a64_leaf_64k(level, size)
    }

    open spec fn in_range(vaddr: u64) -> bool {
        canonical(vaddr, 48)
    }

    fn level_shift(level: u8) -> (r: u32) {
        16 + ((level as u32) - 1) * 13
    }

    fn level_index_bits(level: u8) -> (r: u32) {
        if level == 3 {
            6
        } else {
            13
        }
    }

    fn level_supports_leaf(level: u8, size: PageSize) -> (r: bool) {
        matches!(
            (level, size),
            (1, PageSize::Size64K) | (2, PageSize::Size512M) | (3, PageSize::Size4T)
        )
    }

    fn vaddr_is_valid(vaddr: VirtAddr) -> (r: bool) {
        canonical_vaddr_is_valid(vaddr, Self::VA_MAX_BITS)
    }
}

/// AArch64 64 KiB granule, 52-bit VA/OA stage-1 metadata.
///
/// Output addresses of up to 52 bits are accepted. An entry keeps the lowest 49
/// bits of them.
#[derive(Clone, Copy, Debug)]
pub struct A64Meta64K52;

impl PagingMetaData for A64Meta64K52 {
    const LEVELS: usize = 3;

    const PA_MAX_BITS: usize = 52;

    const VA_MAX_BITS: usize = 52;

    const INDEX_BITS: u32 = 13;

    const BASE_PAGE_SIZE: PageSize = PageSize::Size64K;

    const TABLE_FRAME_SIZE: PageSize = PageSize::Size64K;

    const ENTRIES_PER_TABLE: usize = 8192;

    type VirtAddr = VirtAddr;

    open spec fn shift(level: u8) -> u32 {
        (16 + (level - 1) * 13) as u32
    }

    open spec fn index_bits(level: u8) -> u32 {
        if level == 3 {
            10
        } else {
            13
        }
    }

    open spec fn supports(level: u8, size: PageSize) -> bool {
        a64_leaf_64k(level, size)
    }

    open spec fn in_range(vaddr: u64) -> bool {
        canonical(vaddr, 52)
    }

    fn level_shift(level: u8) -> (r: u32) {
        16 + ((level as u32) - 1) * 13
    }

    fn level_index_bits(level: u8) -> (r: u32) {
        if level == 3 {
            10
        } else {
            13
        }
    }

    fn level_supports_leaf(level: u8, size: PageSize) -> (r: bool) {
        matches!(
            (level, size),
            (1, PageSize::Size64K) | (2, PageSize::Size512M) | (3, PageSize::Size4T)
        )
    }

    fn vaddr_is_valid(vaddr: VirtAddr) -> (r: bool) {
        canonical_vaddr_is_valid(vaddr, Self::VA_MAX_BITS)
    }
}

/// The constants of the AArch64 geometries.
pub proof fn lemma_a64_geometry()
    ensures
        geometry::<A64Meta4K48>(4, 48, 48, 9, PageSize::Size4K, 512),
        geometry::<A64Meta4K52>(5, 52, 52, 9, PageSize::Size4K, 512),
        geometry::<A64Meta16K48>(4, 48, 48, 11, PageSize::Size16K, 2048),
        geometry::<A64Meta16K52>(4, 52, 52, 11, PageSize::Size16K, 2048),
        geometry::<A64Meta64K48>(3, 48, 48, 13, PageSize::Size64K, 8192),
        geometry::<A64Meta64K52>(3, 52, 52, 13, PageSize::Size64K, 8192),
{
}

} // verus!
