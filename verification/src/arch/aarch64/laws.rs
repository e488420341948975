//! What holds of the AArch64 formats.

use crate::arch::lemma_zero_word;
use crate::effect::{formats_ok, leaf_size};
use crate::encoding::{always_leaf, flags_reusable};
use crate::geometry::{
    blocks_legal, law_canonical_blocks_legal, law_canonical_determined, leaves_fill_blocks, regular,
    tables_full,
};
use crate::laws::faithful;
use crate::meta::{
    lemma_granule_divides, AccessFlags, CachePolicy, Coherency, PageSize, Shareability,
};
use crate::paging::{
    fits_bits, flags_comparable, FrameAllocator, PageTableEntry, PageTableEntryKind, PagingMetaData,
};
use crate::plan::{well_placed, Placement};
use crate::request::word_of;
use crate::tree::{layout_ok, storable, tableish};
use super::entry::{
    a64_leaf_16k, a64_leaf_4k, a64_leaf_64k, access_of, ap_of, cache_at, is_page, leaf_word,
    lemma_a64_geometry, mair_index, sh_of, word_flags, word_kind, A64Flags, A64Meta16K48,
    A64Meta16K52, A64Meta4K48, A64Meta4K52, A64Meta64K48, A64Meta64K52, A64Pte16K48, A64Pte16K52,
    A64Pte4K48, A64Pte4K52, A64Pte64K48, A64Pte64K52, A64_MAIR_ATTR_DEVICE_NGNRNE,
    A64_MAIR_ATTR_NORMAL_NC, A64_MAIR_ATTR_WRITEBACK, A64_MAIR_ATTR_WRITETHROUGH,
    A64_MAIR_EL1_VALUE, EXECUTE_NEVER, NOT_GLOBAL,
};
use super::tte::{masked, ADDR_FIELD};
use vstd::arithmetic::power2::{lemma2_to64, lemma2_to64_rest, pow2};
use vstd::prelude::*;

verus! {

/// The AArch64 geometries are ones that the walker can handle.
pub proof fn law_a64_layouts()
    ensures
        layout_ok::<A64Meta4K48>(),
        layout_ok::<A64Meta4K52>(),
        layout_ok::<A64Meta16K48>(),
        layout_ok::<A64Meta16K52>(),
        layout_ok::<A64Meta64K48>(),
        layout_ok::<A64Meta64K52>(),
{
    lemma2_to64();
    lemma_a64_geometry();
    assert(forall|level: u8| #[trigger] A64Meta4K48::index_bits(level) == 9);
    assert(forall|level: u8| #[trigger]
        A64Meta4K52::index_bits(level) == 9 || A64Meta4K52::index_bits(level) == 4);
    assert(forall|level: u8| #[trigger]
        A64Meta16K48::index_bits(level) == 11 || A64Meta16K48::index_bits(level) == 1);
    assert(forall|level: u8| #[trigger]
        A64Meta16K52::index_bits(level) == 11 || A64Meta16K52::index_bits(level) == 5);
    assert(forall|level: u8| #[trigger]
        A64Meta64K48::index_bits(level) == 13 || A64Meta64K48::index_bits(level) == 6);
    assert(forall|level: u8| #[trigger]
        A64Meta64K52::index_bits(level) == 13 || A64Meta64K52::index_bits(level) == 10);
}

/// The AArch64 geometries are regular, blocks are legal as a whole, tables are full,
/// and leaves fill their blocks.
pub proof fn law_a64_regular()
    ensures
        regular::<A64Meta4K48>(),
        blocks_legal::<A64Meta4K48>(),
        tables_full::<A64Meta4K48>(),
        leaves_fill_blocks::<A64Meta4K48>(),
        regular::<A64Meta4K52>(),
        blocks_legal::<A64Meta4K52>(),
        tables_full::<A64Meta4K52>(),
        leaves_fill_blocks::<A64Meta4K52>(),
        regular::<A64Meta16K48>(),
        blocks_legal::<A64Meta16K48>(),
        tables_full::<A64Meta16K48>(),
        leaves_fill_blocks::<A64Meta16K48>(),
        regular::<A64Meta16K52>(),
        blocks_legal::<A64Meta16K52>(),
        tables_full::<A64Meta16K52>(),
        leaves_fill_blocks::<A64Meta16K52>(),
        regular::<A64Meta64K48>(),
        blocks_legal::<A64Meta64K48>(),
        tables_full::<A64Meta64K48>(),
        leaves_fill_blocks::<A64Meta64K48>(),
        regular::<A64Meta64K52>(),
        blocks_legal::<A64Meta64K52>(),
        tables_full::<A64Meta64K52>(),
        leaves_fill_blocks::<A64Meta64K52>(),
{
    lemma2_to64();
    law_a64_layouts();
    lemma_a64_geometry();
    law_canonical_determined::<A64Meta4K48>();
    law_canonical_blocks_legal::<A64Meta4K48>();
    law_canonical_determined::<A64Meta4K52>();
    law_canonical_blocks_legal::<A64Meta4K52>();
    law_canonical_determined::<A64Meta16K48>();
    law_canonical_blocks_legal::<A64Meta16K48>();
    law_canonical_determined::<A64Meta16K52>();
    law_canonical_blocks_legal::<A64Meta16K52>();
    law_canonical_determined::<A64Meta64K48>();
    law_canonical_blocks_legal::<A64Meta64K48>();
    law_canonical_determined::<A64Meta64K52>();
    law_canonical_blocks_legal::<A64Meta64K52>();
}

/// The words of AArch64 leaves, field by field.
proof fn lemma_leaf_word(paddr: u64, flags: A64Flags, size: PageSize)
    ensures
        ({
            let raw = leaf_word(paddr, flags, size);
            &&& raw & 1 != 0
            &&& (raw & 2 != 0) == is_page(size)
            &&& (raw & 0x300) >> 8 == sh_of(flags.attrs.shareability)
            &&& (raw & 0x1c) >> 2 == mair_index(flags.attrs.cache)
            &&& access_of(raw) == (flags.access@ & 0x1f) | 1
            &&& raw & 0x0007_ffff_ffff_f000 == paddr & ADDR_FIELD
        }),
{
    let a8 = flags.access@;
    let i = mair_index(flags.attrs.cache);
    let a = ap_of(a8);
    let s = sh_of(flags.attrs.shareability);
    let t: u64 = if is_page(size) {
        0x403
    } else {
        0x401
    };
    let n: u64 = if flags.access.has(4) {
        0
    } else {
        EXECUTE_NEVER
    };
    let g: u64 = if flags.access.has(16) {
        0
    } else {
        NOT_GLOBAL
    };
    let w = leaf_word(paddr, flags, size);
    assert(w & 1 != 0 && (w & 2 != 0) == (t == 0x403) && (w & 0x300) >> 8 == s && (w & 0x1c) >> 2
        == i && (w & 0xc0) >> 6 == a && w & 0x0060_0000_0000_0000 == n && w & 0x800 == g && w
        & 0x0007_ffff_ffff_f000 == paddr & 0x0003_ffff_ffff_f000) by (bit_vector)
        requires
            i <= 3,
            a <= 3,
            s <= 3,
            t == 0x403 || t == 0x401,
            n == 0 || n == 0x0060_0000_0000_0000,
            g == 0 || g == 0x800,
            w == (paddr & 0x0003_ffff_ffff_f000) | t | ((i << 2) | (a << 6) | (s << 8) | n | g),
    ;
    assert((a8 & 2 == 2 || a8 & 2 == 0) && (a8 & 8 == 8 || a8 & 8 == 0) && (a8 & 4 == 4 || a8 & 4
        == 0) && (a8 & 16 == 16 || a8 & 16 == 0)) by (bit_vector);
    let b1: u8 = if a == 0 || a == 1 {
        2
    } else {
        0
    };
    let b3: u8 = if a == 1 || a == 3 {
        8
    } else {
        0
    };
    let b2: u8 = if n == 0 {
        4
    } else {
        0
    };
    let b4: u8 = if g == 0 {
        16
    } else {
        0
    };
    assert(1u8 | b1 | b3 | b2 | b4 == (a8 & 0x1f) | 1) by (bit_vector)
        requires
            b1 == a8 & 2,
            b3 == a8 & 8,
            b2 == a8 & 4,
            b4 == a8 & 16,
    ;
}

/// What a leaf entry is made from can be read back from it: the access bits, to
/// which read access is always added, the cache policy and the sharing domain.
/// There is no system-wide domain, so that reads back as the outer one.
/// Coherency follows the domain.
pub proof fn law_a64_flags_round_trip(paddr: u64, flags: A64Flags, size: PageSize)
    ensures
        ({
            let read = word_flags(leaf_word(paddr, flags, size));
            &&& read.access == AccessFlags::of(flags.access@ | 1)
            &&& read.access@ == flags.access@ | 1
            &&& read.attrs.cache == flags.attrs.cache
            &&& read.attrs.shareability == if flags.attrs.shareability == Shareability::System {
                Shareability::Outer
            } else {
                flags.attrs.shareability
            }
            &&& read.attrs.coherency == if flags.attrs.shareability
                == Shareability::NonShareable {
                Coherency::NonCoherent
            } else {
                Coherency::Coherent
            }
        }),
{
    lemma_leaf_word(paddr, flags, size);
    let a = flags.access@;
    flags.access.law_five_bits(a | 1);
    assert(a & 0x1f == a ==> (a | 1) & 0x1f == a | 1) by (bit_vector);
}

/// The address of an entry survives the round trip: for the 48-bit formats
/// every one that can be encoded, for the 52-bit formats those that fit the
/// bits that an entry both stores and reads back.
pub proof fn law_a64_address_round_trip(paddr: u64, flags: A64Flags, size: PageSize)
    ensures
        A64Pte4K48::encodable(paddr) ==> A64Pte4K48::target(leaf_word(paddr, flags, size))
            == paddr,
        A64Pte16K48::encodable(paddr) ==> A64Pte16K48::target(leaf_word(paddr, flags, size))
            == paddr,
        A64Pte64K48::encodable(paddr) ==> A64Pte64K48::target(leaf_word(paddr, flags, size))
            == paddr,
        A64Pte4K52::encodable(paddr) && paddr < 0x4_0000_0000_0000 ==> A64Pte4K52::target(
            leaf_word(paddr, flags, size),
        ) == paddr,
        A64Pte16K52::encodable(paddr) && paddr < 0x4_0000_0000_0000 ==> A64Pte16K52::target(
            leaf_word(paddr, flags, size),
        ) == paddr,
        A64Pte64K52::encodable(paddr) && paddr < 0x2_0000_0000_0000 ==> A64Pte64K52::target(
            leaf_word(paddr, flags, size),
        ) == paddr,
{
    lemma_leaf_word(paddr, flags, size);
    lemma_address(paddr, leaf_word(paddr, flags, size));
}

/// Reading back the address of a word that stores it.
proof fn lemma_address(paddr: u64, raw: u64)
    requires
        raw & 0x0007_ffff_ffff_f000 == paddr & ADDR_FIELD,
    ensures
        paddr % 0x1000 == 0 && paddr < 0x4_0000_0000_0000 ==> raw & 0x0007_ffff_ffff_f000 == paddr,
        paddr % 0x4000 == 0 && paddr < 0x4_0000_0000_0000 ==> raw & 0x0007_ffff_ffff_c000 == paddr,
        paddr % 0x1000 == 0 && paddr < 0x2_0000_0000_0000 ==> raw & 0x0001_ffff_ffff_f000 == paddr,
        paddr % 0x4000 == 0 && paddr < 0x2_0000_0000_0000 ==> raw & 0x0001_ffff_ffff_c000 == paddr,
        paddr % 0x1_0000 == 0 && paddr < 0x2_0000_0000_0000 ==> raw & 0x0001_ffff_ffff_0000
            == paddr,
{
    assert((paddr % 0x1000 == 0 && paddr < 0x4_0000_0000_0000 ==> raw & 0x0007_ffff_ffff_f000
        == paddr) && (paddr % 0x4000 == 0 && paddr < 0x4_0000_0000_0000 ==> raw
        & 0x0007_ffff_ffff_c000 == paddr) && (paddr % 0x1000 == 0 && paddr < 0x2_0000_0000_0000
        ==> raw & 0x0001_ffff_ffff_f000 == paddr) && (paddr % 0x4000 == 0 && paddr
        < 0x2_0000_0000_0000 ==> raw & 0x0001_ffff_ffff_c000 == paddr) && (paddr % 0x1_0000 == 0
        && paddr < 0x2_0000_0000_0000 ==> raw & 0x0001_ffff_ffff_0000 == paddr)) by (bit_vector)
        requires
            raw & 0x0007_ffff_ffff_f000 == paddr & 0x0003_ffff_ffff_f000,
    ;
}

/// What is read of a word as an address is aligned and within 52 bits.
proof fn lemma_masked(raw: u64)
    ensures
        raw & 0x0007_ffff_ffff_f000 < 0x10_0000_0000_0000,
        (raw & 0x0007_ffff_ffff_f000) % 0x1000 == 0,
        raw & 0x0007_ffff_ffff_c000 < 0x10_0000_0000_0000,
        (raw & 0x0007_ffff_ffff_c000) % 0x4000 == 0,
        raw & 0x0001_ffff_ffff_0000 < 0x10_0000_0000_0000,
        (raw & 0x0001_ffff_ffff_0000) % 0x1_0000 == 0,
{
    assert(raw & 0x0007_ffff_ffff_f000 < 0x10_0000_0000_0000 && (raw & 0x0007_ffff_ffff_f000)
        % 0x1000 == 0 && raw & 0x0007_ffff_ffff_c000 < 0x10_0000_0000_0000 && (raw
        & 0x0007_ffff_ffff_c000) % 0x4000 == 0 && raw & 0x0001_ffff_ffff_0000
        < 0x10_0000_0000_0000 && (raw & 0x0001_ffff_ffff_0000) % 0x1_0000 == 0) by (bit_vector);
}

/// Whatever the flags, a leaf is a leaf at the level of its size, its flags can
/// be decoded, and its address encoded again.
pub proof fn law_a64_leaf_is_leaf(paddr: u64, flags: A64Flags, size: PageSize, level: u8)
    requires
        a64_leaf_4k(level, size) || a64_leaf_16k(level, size) || a64_leaf_64k(level, size),
    ensures
        word_kind(leaf_word(paddr, flags, size), level) == PageTableEntryKind::Leaf,
        A64Pte4K48::encodable(paddr) ==> storable::<A64Pte4K48>(
            leaf_word(paddr, flags, size),
            level,
        ),
        A64Pte4K52::encodable(paddr) ==> storable::<A64Pte4K52>(
            leaf_word(paddr, flags, size),
            level,
        ),
        A64Pte16K48::encodable(paddr) ==> storable::<A64Pte16K48>(
            leaf_word(paddr, flags, size),
            level,
        ),
        A64Pte16K52::encodable(paddr) ==> storable::<A64Pte16K52>(
            leaf_word(paddr, flags, size),
            level,
        ),
        A64Pte64K48::encodable(paddr) ==> storable::<A64Pte64K48>(
            leaf_word(paddr, flags, size),
            level,
        ),
        A64Pte64K52::encodable(paddr) ==> storable::<A64Pte64K52>(
            leaf_word(paddr, flags, size),
            level,
        ),
{
    let raw = leaf_word(paddr, flags, size);
    lemma_leaf_word(paddr, flags, size);
    law_a64_address_round_trip(paddr, flags, size);
    lemma_masked(raw);
}

/// Every well-placed leaf is encoded faithfully, if an entry of the 52-bit
/// formats keeps its address.
pub proof fn law_a64_faithful(leaf: Placement, flags: A64Flags)
    ensures
        well_placed::<A64Meta4K48>(leaf) ==> faithful::<A64Pte4K48>(
            word_of::<A64Pte4K48>(leaf, flags),
            leaf.level,
            leaf.paddr,
        ),
        well_placed::<A64Meta16K48>(leaf) ==> faithful::<A64Pte16K48>(
            word_of::<A64Pte16K48>(leaf, flags),
            leaf.level,
            leaf.paddr,
        ),
        well_placed::<A64Meta64K48>(leaf) ==> faithful::<A64Pte64K48>(
            word_of::<A64Pte64K48>(leaf, flags),
            leaf.level,
            leaf.paddr,
        ),
        well_placed::<A64Meta4K52>(leaf) && leaf.paddr < 0x4_0000_0000_0000 ==> faithful::<A64Pte4K52>(
            word_of::<A64Pte4K52>(leaf, flags),
            leaf.level,
            leaf.paddr,
        ),
        well_placed::<A64Meta16K52>(leaf) && leaf.paddr < 0x4_0000_0000_0000 ==> faithful::<A64Pte16K52>(
            word_of::<A64Pte16K52>(leaf, flags),
            leaf.level,
            leaf.paddr,
        ),
        well_placed::<A64Meta64K52>(leaf) && leaf.paddr < 0x2_0000_0000_0000 ==> faithful::<A64Pte64K52>(
            word_of::<A64Pte64K52>(leaf, flags),
            leaf.level,
            leaf.paddr,
        ),
{
    lemma_a64_geometry();
    lemma2_to64_rest();
    leaf.size.lemma_len();
    if leaf.paddr % leaf.size.len() == 0 {
        lemma_granule_divides(leaf.paddr, leaf.size);
    }
    lemma_leaf_word(leaf.paddr, flags, leaf.size);
    law_a64_address_round_trip(leaf.paddr, flags, leaf.size);
}

/// Whatever its flags, a leaf encodes as a leaf at every level that supports its
/// size, so flags read from a leaf can be written to another.
pub proof fn law_a64_always_leaf(flags: A64Flags)
    ensures
        always_leaf::<A64Meta4K48, A64Pte4K48>(flags),
        always_leaf::<A64Meta4K52, A64Pte4K52>(flags),
        always_leaf::<A64Meta16K48, A64Pte16K48>(flags),
        always_leaf::<A64Meta16K52, A64Pte16K52>(flags),
        always_leaf::<A64Meta64K48, A64Pte64K48>(flags),
        always_leaf::<A64Meta64K52, A64Pte64K52>(flags),
        flags_reusable::<A64Meta4K48, A64Pte4K48>(),
        flags_reusable::<A64Meta4K52, A64Pte4K52>(),
        flags_reusable::<A64Meta16K48, A64Pte16K48>(),
        flags_reusable::<A64Meta16K52, A64Pte16K52>(),
        flags_reusable::<A64Meta64K48, A64Pte64K48>(),
        flags_reusable::<A64Meta64K52, A64Pte64K52>(),
{
    lemma_a64_geometry();
    assert forall|paddr: u64, size: PageSize, level: u8, any: A64Flags|
        #![trigger leaf_word(paddr, any, size), a64_leaf_4k(level, size)]
        #![trigger leaf_word(paddr, any, size), a64_leaf_16k(level, size)]
        #![trigger leaf_word(paddr, any, size), a64_leaf_64k(level, size)]
        a64_leaf_4k(level, size) || a64_leaf_16k(level, size) || a64_leaf_64k(
            level,
            size,
        ) implies {
        &&& A64Pte4K48::encodable(paddr) ==> storable::<A64Pte4K48>(
            leaf_word(paddr, any, size),
            level,
        )
        &&& A64Pte4K52::encodable(paddr) ==> storable::<A64Pte4K52>(
            leaf_word(paddr, any, size),
            level,
        )
        &&& A64Pte16K48::encodable(paddr) ==> storable::<A64Pte16K48>(
            leaf_word(paddr, any, size),
            level,
        )
        &&& A64Pte16K52::encodable(paddr) ==> storable::<A64Pte16K52>(
            leaf_word(paddr, any, size),
            level,
        )
        &&& A64Pte64K48::encodable(paddr) ==> storable::<A64Pte64K48>(
            leaf_word(paddr, any, size),
            level,
        )
        &&& A64Pte64K52::encodable(paddr) ==> storable::<A64Pte64K52>(
            leaf_word(paddr, any, size),
            level,
        )
    } by {
        law_a64_leaf_is_leaf(paddr, any, size, level);
    }
}

/// The word of a table pointer, and what is read back of its address.
proof fn lemma_table_word(paddr: u64)
    ensures
        ({
            let raw = (paddr & ADDR_FIELD) | 0x403;
            &&& raw & 1 != 0
            &&& raw & 2 != 0
            &&& raw & 0x0007_ffff_ffff_f000 == paddr & ADDR_FIELD
        }),
{
    assert(((paddr & 0x0003_ffff_ffff_f000) | 0x403) & 1 != 0 && ((paddr & 0x0003_ffff_ffff_f000)
        | 0x403) & 2 != 0 && ((paddr & 0x0003_ffff_ffff_f000) | 0x403) & 0x0007_ffff_ffff_f000
        == paddr & 0x0003_ffff_ffff_f000) by (bit_vector);
    lemma_address(paddr, (paddr & ADDR_FIELD) | 0x403);
}

/// Whether the addresses below `reach` that are multiples of `granule` are read
/// back through `mask` from an entry that stores them.
pub open spec fn reads_back(mask: u64, granule: u64, reach: u64) -> bool {
    ||| mask == 0x0007_ffff_ffff_f000 && granule == 0x1000 && reach <= 0x4_0000_0000_0000
    ||| mask == 0x0007_ffff_ffff_c000 && granule == 0x4000 && reach <= 0x4_0000_0000_0000
    ||| mask == 0x0001_ffff_ffff_f000 && granule == 0x1000 && reach <= 0x2_0000_0000_0000
    ||| mask == 0x0001_ffff_ffff_c000 && granule == 0x4000 && reach <= 0x2_0000_0000_0000
    ||| mask == 0x0001_ffff_ffff_0000 && granule == 0x1_0000 && reach <= 0x2_0000_0000_0000
}

/// An entry format with the AArch64 words suits a geometry of its granule, for
/// every allocator whose frames are read back.
proof fn lemma_formats<Meta: PagingMetaData, Entry: PageTableEntry, Alloc: FrameAllocator>(
    mask: u64,
    granule: u64,
    reach: u64,
)
    requires
        reads_back(mask, granule, reach),
        Meta::PA_MAX_BITS < 64,
        reach <= pow2(Meta::PA_MAX_BITS as nat),
        Meta::TABLE_FRAME_SIZE.len() == granule,
        forall|size: PageSize| #[trigger] leaf_size::<Meta>(size) ==> size.len() >= granule,
        flags_comparable::<Entry>(),
        forall|raw: u64| #[trigger] Entry::present(raw) == (raw & 1 != 0),
        forall|raw: u64, level: u8| #[trigger] Entry::kind(raw, level) == word_kind(raw, level),
        forall|raw: u64| #[trigger] Entry::target(raw) == masked(raw, mask),
        forall|paddr: u64|
            paddr % granule == 0 && paddr < pow2(Meta::PA_MAX_BITS as nat)
                ==> #[trigger] Entry::encodable(paddr),
        forall|paddr: u64, level: u8| #[trigger]
            Entry::table_raw(paddr, level) == (paddr & ADDR_FIELD) | 0x403,
        forall|paddr: u64| #[trigger] Alloc::places(paddr) ==> paddr < reach,
    ensures
        formats_ok::<Meta, Entry, Alloc>(),
{
    lemma_zero_word();
    assert forall|paddr: u64, size: PageSize|
        fits_bits(paddr, Meta::PA_MAX_BITS) && paddr % size.len() == 0
            && #[trigger] leaf_size::<Meta>(size) implies #[trigger] Entry::encodable(paddr) by {
        lemma_granule_divides(paddr, size);
    }
    assert forall|paddr: u64, level: u8|
        #![trigger Entry::table_raw(paddr, level)]
        Alloc::places(paddr) && paddr % Meta::TABLE_FRAME_SIZE.len() == 0 && 2 <= level
            <= Meta::LEVELS implies {
        let raw = Entry::table_raw(paddr, level);
        &&& Entry::encodable(paddr)
        &&& tableish::<Entry>(raw, level)
        &&& Entry::target(raw) == paddr
    } by {
        lemma_table_word(paddr);
        lemma_address(paddr, (paddr & ADDR_FIELD) | 0x403);
    }
}

/// The 4 KiB, 48-bit entry format suits its geometry, for every allocator
/// that places frames within 48 bits.
pub proof fn law_a64_formats_4k48<Alloc: FrameAllocator>()
    requires
        forall|paddr: u64| #[trigger] Alloc::places(paddr) ==> paddr < 0x1_0000_0000_0000,
    ensures
        formats_ok::<A64Meta4K48, A64Pte4K48, Alloc>(),
{
    lemma_a64_geometry();
    lemma2_to64_rest();
    lemma_formats::<A64Meta4K48, A64Pte4K48, Alloc>(
        0x0001_ffff_ffff_f000,
        0x1000,
        0x1_0000_0000_0000,
    );
}

/// The 4 KiB, 52-bit entry format suits its geometry, for every allocator
/// that places frames within 50 bits.
pub proof fn law_a64_formats_4k52<Alloc: FrameAllocator>()
    requires
        forall|paddr: u64| #[trigger] Alloc::places(paddr) ==> paddr < 0x4_0000_0000_0000,
    ensures
        formats_ok::<A64Meta4K52, A64Pte4K52, Alloc>(),
{
    lemma_a64_geometry();
    lemma2_to64_rest();
    lemma_formats::<A64Meta4K52, A64Pte4K52, Alloc>(
        0x0007_ffff_ffff_f000,
        0x1000,
        0x4_0000_0000_0000,
    );
}

/// The 16 KiB, 48-bit entry format suits its geometry, for every allocator
/// that places frames within 48 bits.
pub proof fn law_a64_formats_16k48<Alloc: FrameAllocator>()
    requires
        forall|paddr: u64| #[trigger] Alloc::places(paddr) ==> paddr < 0x1_0000_0000_0000,
    ensures
        formats_ok::<A64Meta16K48, A64Pte16K48, Alloc>(),
{
    lemma_a64_geometry();
    lemma2_to64_rest();
    lemma_formats::<A64Meta16K48, A64Pte16K48, Alloc>(
        0x0001_ffff_ffff_c000,
        0x4000,
        0x1_0000_0000_0000,
    );
}

/// The 16 KiB, 52-bit entry format suits its geometry, for every allocator
/// that places frames within 50 bits.
pub proof fn law_a64_formats_16k52<Alloc: FrameAllocator>()
    requires
        forall|paddr: u64| #[trigger] Alloc::places(paddr) ==> paddr < 0x4_0000_0000_0000,
    ensures
        formats_ok::<A64Meta16K52, A64Pte16K52, Alloc>(),
{
    lemma_a64_geometry();
    lemma2_to64_rest();
    lemma_formats::<A64Meta16K52, A64Pte16K52, Alloc>(
        0x0007_ffff_ffff_c000,
        0x4000,
        0x4_0000_0000_0000,
    );
}

/// The 64 KiB, 48-bit entry format suits its geometry, for every allocator
/// that places frames within 48 bits.
pub proof fn law_a64_formats_64k48<Alloc: FrameAllocator>()
    requires
        forall|paddr: u64| #[trigger] Alloc::places(paddr) ==> paddr < 0x1_0000_0000_0000,
    ensures
        formats_ok::<A64Meta64K48, A64Pte64K48, Alloc>(),
{
    lemma_a64_geometry();
    lemma2_to64_rest();
    lemma_formats::<A64Meta64K48, A64Pte64K48, Alloc>(
        0x0001_ffff_ffff_0000,
        0x1_0000,
        0x1_0000_0000_0000,
    );
}

/// The 64 KiB, 52-bit entry format suits its geometry, for every allocator
/// that places frames within 49 bits.
pub proof fn law_a64_formats_64k52<Alloc: FrameAllocator>()
    requires
        forall|paddr: u64| #[trigger] Alloc::places(paddr) ==> paddr < 0x2_0000_0000_0000,
    ensures
        formats_ok::<A64Meta64K52, A64Pte64K52, Alloc>(),
{
    lemma_a64_geometry();
    lemma2_to64_rest();
    lemma_formats::<A64Meta64K52, A64Pte64K52, Alloc>(
        0x0001_ffff_ffff_0000,
        0x1_0000,
        0x2_0000_0000_0000,
    );
}

/// The MAIR slot that an entry selects holds the attributes of its policy.
pub proof fn law_a64_mair_matches_policy(cache: CachePolicy)
    ensures
        (A64_MAIR_EL1_VALUE >> ((mair_index(cache) * 8) as u64)) & 0xff == match cache {
            CachePolicy::Writeback => A64_MAIR_ATTR_WRITEBACK,
            CachePolicy::Uncached => A64_MAIR_ATTR_DEVICE_NGNRNE,
            CachePolicy::WriteCombine => A64_MAIR_ATTR_NORMAL_NC,
            CachePolicy::WriteThrough => A64_MAIR_ATTR_WRITETHROUGH,
        },
        cache_at(mair_index(cache)) == cache,
        A64_MAIR_ATTR_WRITEBACK == 0xff,
        A64_MAIR_ATTR_DEVICE_NGNRNE == 0x00,
        A64_MAIR_ATTR_NORMAL_NC == 0x44,
        A64_MAIR_ATTR_WRITETHROUGH == 0xbb,
{
    assert((0xbb44_00ffu64 >> 0) & 0xff == 0xff && (0xbb44_00ffu64 >> 8) & 0xff == 0 && (
    0xbb44_00ffu64 >> 16) & 0xff == 0x44 && (0xbb44_00ffu64 >> 24) & 0xff == 0xbb) by (bit_vector);
}

/// The word of a leaf, bit by bit. It is valid and accessed, a page or a block by
/// its size. Bit 6 is set where there is user access, bit 7 where there is no
/// write access, bit 11 where the leaf is not global, and bits 53 and 54 where
/// there is no execute access. Bits 4:2 name the MAIR slot of the cache policy
/// and bits 9:8 the sharing domain. Beside the address nothing else is set. All
/// formats write the same word.
pub proof fn law_a64_leaf_bits(paddr: u64, flags: A64Flags, size: PageSize)
    ensures
        ({
            let raw = A64Pte4K48::leaf_raw(paddr, flags, size);
            let access = flags.access@;
            let page = size == PageSize::Size4K || size == PageSize::Size16K || size
                == PageSize::Size64K;
            &&& raw & 0x1 != 0
            &&& raw & 0x2 != 0 <==> page
            &&& raw & 0x1c == match flags.attrs.cache {
                CachePolicy::Writeback => 0x0u64,
                CachePolicy::Uncached => 0x4u64,
                CachePolicy::WriteCombine => 0x8u64,
                CachePolicy::WriteThrough => 0xcu64,
            }
            &&& raw & 0x40 != 0 <==> access & 8 != 0
            &&& raw & 0x80 != 0 <==> access & 2 == 0
            &&& raw & 0x300 == match flags.attrs.shareability {
                Shareability::NonShareable => 0x0u64,
                Shareability::Inner => 0x300u64,
                Shareability::Outer => 0x200u64,
                Shareability::System => 0x200u64,
            }
            &&& raw & 0x400 != 0
            &&& raw & 0x800 != 0 <==> access & 16 == 0
            &&& raw & 0x20_0000_0000_0000 != 0 <==> access & 4 == 0
            &&& raw & 0x40_0000_0000_0000 != 0 <==> access & 4 == 0
            &&& raw & 0x0003_ffff_ffff_f000 == paddr & 0x0003_ffff_ffff_f000
            &&& raw & 0xff9c_0000_0000_0020 == 0
            &&& A64Pte4K52::leaf_raw(paddr, flags, size) == raw
            &&& A64Pte16K48::leaf_raw(paddr, flags, size) == raw
            &&& A64Pte16K52::leaf_raw(paddr, flags, size) == raw
            &&& A64Pte64K48::leaf_raw(paddr, flags, size) == raw
            &&& A64Pte64K52::leaf_raw(paddr, flags, size) == raw
        }),
{
    let a8 = flags.access@;
    let i = mair_index(flags.attrs.cache);
    let a = ap_of(a8);
    let s = sh_of(flags.attrs.shareability);
    let t: u64 = if is_page(size) {
        0x403
    } else {
        0x401
    };
    let n: u64 = if flags.access.has(4) {
        0
    } else {
        EXECUTE_NEVER
    };
    let g: u64 = if flags.access.has(16) {
        0
    } else {
        NOT_GLOBAL
    };
    let w = leaf_word(paddr, flags, size);
    assert(w & 0x1 != 0 && (w & 0x2 != 0 <==> t == 0x403) && w & 0x1c == i << 2 && (w & 0x40 != 0
        <==> a8 & 8 != 0) && (w & 0x80 != 0 <==> a8 & 2 == 0) && w & 0x300 == s << 8 && w & 0x400
        != 0 && (w & 0x800 != 0 <==> a8 & 16 == 0) && (w & 0x20_0000_0000_0000 != 0 <==> a8 & 4
        == 0) && (w & 0x40_0000_0000_0000 != 0 <==> a8 & 4 == 0) && w & 0x0003_ffff_ffff_f000
        == paddr & 0x0003_ffff_ffff_f000 && w & 0xff9c_0000_0000_0020 == 0 && 0u64 << 2 == 0 && 1u64
        << 2 == 4 && 2u64 << 2 == 8 && 3u64 << 2 == 0xc && 0u64 << 8 == 0 && 2u64 << 8 == 0x200
        && 3u64 << 8 == 0x300) by (bit_vector)
        requires
            i <= 3,
            s <= 3,
            t == 0x403 || t == 0x401,
            a == (if a8 & 8 == 8 {
                if a8 & 2 == 2 {
                    1u64
                } else {
                    3u64
                }
            } else {
                if a8 & 2 == 2 {
                    0u64
                } else {
                    2u64
                }
            }),
            n == (if a8 & 4 == 4 {
                0u64
            } else {
                0x0060_0000_0000_0000u64
            }),
            g == (if a8 & 16 == 16 {
                0u64
            } else {
                0x800u64
            }),
            w == (paddr & 0x0003_ffff_ffff_f000) | t | ((i << 2) | (a << 6) | (s << 8) | n | g),
    ;
}

/// What is read of a word, bit by bit: user access from bit 6, write access from
/// bit 7 being clear, global from bit 11 being clear, and execute access where
/// bits 53 and 54 are not both set. Read access is always there. Bits 4:2 name the
/// MAIR slot, and bits 9:8 the sharing domain. All formats read the same flags.
pub proof fn law_a64_flags_bits(raw: u64)
    ensures
        ({
            let flags = A64Pte4K48::flags_of(raw);
            let access = flags.access@;
            &&& access & 1 != 0
            &&& access & 2 != 0 <==> raw & 0x80 == 0
            &&& access & 4 != 0 <==> raw & 0x20_0000_0000_0000 == 0 || raw & 0x40_0000_0000_0000
                == 0
            &&& access & 8 != 0 <==> raw & 0x40 != 0
            &&& access & 16 != 0 <==> raw & 0x800 == 0
            &&& access & 0xe0 == 0
            &&& flags.attrs.cache == if raw & 0x1c == 0x4 {
                CachePolicy::Uncached
            } else if raw & 0x1c == 0x8 {
                CachePolicy::WriteCombine
            } else if raw & 0x1c == 0xc {
                CachePolicy::WriteThrough
            } else {
                CachePolicy::Writeback
            }
            &&& raw & 0x300 == 0 ==> flags.attrs.shareability == Shareability::NonShareable
                && flags.attrs.coherency == Coherency::NonCoherent
            &&& raw & 0x300 == 0x200 ==> flags.attrs.shareability == Shareability::Outer
                && flags.attrs.coherency == Coherency::Coherent
            &&& raw & 0x300 == 0x300 ==> flags.attrs.shareability == Shareability::Inner
                && flags.attrs.coherency == Coherency::Coherent
            &&& A64Pte4K52::flags_of(raw) == flags
            &&& A64Pte16K48::flags_of(raw) == flags
            &&& A64Pte16K52::flags_of(raw) == flags
            &&& A64Pte64K48::flags_of(raw) == flags
            &&& A64Pte64K52::flags_of(raw) == flags
        }),
{
    let m = access_of(raw);
    AccessFlags::of(m).law_five_bits(m);
    let ap = (raw & 0xc0) >> 6;
    let v = m & 0x1f;
    let c = (raw & 0x1c) >> 2;
    let s = (raw & 0x300) >> 8;
    assert(v & 1 != 0 && (v & 2 != 0 <==> raw & 0x80 == 0) && (v & 4 != 0 <==> raw
        & 0x20_0000_0000_0000 == 0 || raw & 0x40_0000_0000_0000 == 0) && (v & 8 != 0 <==> raw & 0x40
        != 0) && (v & 16 != 0 <==> raw & 0x800 == 0) && v & 0xe0 == 0 && (c == 1 <==> raw & 0x1c
        == 0x4) && (c == 2 <==> raw & 0x1c == 0x8) && (c == 3 <==> raw & 0x1c == 0xc) && (s == 0
        <==> raw & 0x300 == 0) && (s == 2 <==> raw & 0x300 == 0x200) && (s == 3 <==> raw & 0x300
        == 0x300)) by (bit_vector)
        requires
            ap == (raw & 0xc0) >> 6,
            c == (raw & 0x1c) >> 2,
            s == (raw & 0x300) >> 8,
            v == m & 0x1f,
            m == 1u8 | (if ap == 0 || ap == 1 {
                2u8
            } else {
                0u8
            }) | (if ap == 1 || ap == 3 {
                8u8
            } else {
                0u8
            }) | (if raw & 0x0060_0000_0000_0000 != 0x0060_0000_0000_0000 {
                4u8
            } else {
                0u8
            }) | (if raw & 0x800 == 0 {
                16u8
            } else {
                0u8
            }),
    ;
}

/// The role of a word and the address that is read of it: a word is valid where
/// bit 0 is set; a valid word is a leaf at the lowest level, or where bit 1 is
/// clear, and else a table pointer. A table pointer is valid, accessed, and has
/// bit 1 set. The address of a valid word is read through the mask of its format,
/// which can hold every multiple of its granule within its address width.
pub proof fn law_a64_word_bits(raw: u64, level: u8, table: u64)
    ensures
        ({
            let role = if raw & 0x1 == 0 {
                PageTableEntryKind::Invalid
            } else if level == 1 || raw & 0x2 == 0 {
                PageTableEntryKind::Leaf
            } else {
                PageTableEntryKind::Table
            };
            let pointer = (table & 0x0003_ffff_ffff_f000) | 0x403;
            &&& A64Pte4K48::present(raw) <==> raw & 0x1 != 0
            &&& A64Pte4K48::kind(raw, level) == role
            &&& raw & 0x1 != 0 ==> A64Pte4K48::target(raw) == raw & 0x0001_ffff_ffff_f000
            &&& A64Pte4K48::table_raw(table, level) == pointer
            &&& A64Pte4K48::encodable(table) <==> table as int % 0x1000 == 0 && table
                < 0x1_0000_0000_0000
            &&& A64Pte4K52::present(raw) <==> raw & 0x1 != 0
            &&& A64Pte4K52::kind(raw, level) == role
            &&& raw & 0x1 != 0 ==> A64Pte4K52::target(raw) == raw & 0x0007_ffff_ffff_f000
            &&& A64Pte4K52::table_raw(table, level) == pointer
            &&& A64Pte4K52::encodable(table) <==> table as int % 0x1000 == 0 && table
                < 0x10_0000_0000_0000
            &&& A64Pte16K48::present(raw) <==> raw & 0x1 != 0
            &&& A64Pte16K48::kind(raw, level) == role
            &&& raw & 0x1 != 0 ==> A64Pte16K48::target(raw) == raw & 0x0001_ffff_ffff_c000
            &&& A64Pte16K48::table_raw(table, level) == pointer
            &&& A64Pte16K48::encodable(table) <==> table as int % 0x4000 == 0 && table
                < 0x1_0000_0000_0000
            &&& A64Pte16K52::present(raw) <==> raw & 0x1 != 0
            &&& A64Pte16K52::kind(raw, level) == role
            &&& raw & 0x1 != 0 ==> A64Pte16K52::target(raw) == raw & 0x0007_ffff_ffff_c000
            &&& A64Pte16K52::table_raw(table, level) == pointer
            &&& A64Pte16K52::encodable(table) <==> table as int % 0x4000 == 0 && table
                < 0x10_0000_0000_0000
            &&& A64Pte64K48::present(raw) <==> raw & 0x1 != 0
            &&& A64Pte64K48::kind(raw, level) == role
            &&& raw & 0x1 != 0 ==> A64Pte64K48::target(raw) == raw & 0x0001_ffff_ffff_0000
            &&& A64Pte64K48::table_raw(table, level) == pointer
            &&& A64Pte64K48::encodable(table) <==> table as int % 0x1_0000 == 0 && table
                < 0x1_0000_0000_0000
            &&& A64Pte64K52::present(raw) <==> raw & 0x1 != 0
            &&& A64Pte64K52::kind(raw, level) == role
            &&& raw & 0x1 != 0 ==> A64Pte64K52::target(raw) == raw & 0x0001_ffff_ffff_0000
            &&& A64Pte64K52::table_raw(table, level) == pointer
            &&& A64Pte64K52::encodable(table) <==> table as int % 0x1_0000 == 0 && table
                < 0x10_0000_0000_0000
        }),
{
}

/// The shapes of the formats: how many levels there are, how wide physical
/// addresses are and which virtual ones are legal, how large pages and tables are,
/// which leaves each level has, and which address bits select its entry.
pub proof fn law_a64_shapes(level: u8, size: PageSize, vaddr: u64)
    ensures
        ({
            &&& A64Meta4K48::LEVELS == 4
            &&& A64Meta4K48::PA_MAX_BITS == 48
            &&& A64Meta4K48::BASE_PAGE_SIZE.len() == 0x1000
            &&& A64Meta4K48::TABLE_FRAME_SIZE.len() == 0x1000
            &&& A64Meta4K48::ENTRIES_PER_TABLE == 512
            &&& A64Meta4K48::in_range(vaddr) <==> vaddr < 0x8000_0000_0000 || vaddr
                >= 0xffff_8000_0000_0000
            &&& A64Meta4K48::supports(level, size) <==> {
                ||| level == 1 && size.len() == 0x1000
                ||| level == 2 && size.len() == 0x20_0000
                ||| level == 3 && size.len() == 0x4000_0000
            }
            &&& 1 <= level <= 4 ==> A64Meta4K48::shift(level) == 12 + 9 * (level - 1)
            &&& 1 <= level <= 4 ==> A64Meta4K48::index_bits(level) == 9
        }),
        ({
            &&& A64Meta4K52::LEVELS == 5
            &&& A64Meta4K52::PA_MAX_BITS == 52
            &&& A64Meta4K52::BASE_PAGE_SIZE.len() == 0x1000
            &&& A64Meta4K52::TABLE_FRAME_SIZE.len() == 0x1000
            &&& A64Meta4K52::ENTRIES_PER_TABLE == 512
            &&& A64Meta4K52::in_range(vaddr) <==> vaddr < 0x8_0000_0000_0000 || vaddr
                >= 0xfff8_0000_0000_0000
            &&& A64Meta4K52::supports(level, size) <==> {
                ||| level == 1 && size.len() == 0x1000
                ||| level == 2 && size.len() == 0x20_0000
                ||| level == 3 && size.len() == 0x4000_0000
            }
            &&& 1 <= level <= 5 ==> A64Meta4K52::shift(level) == 12 + 9 * (level - 1)
            &&& 1 <= level < 5 ==> A64Meta4K52::index_bits(level) == 9
            &&& A64Meta4K52::index_bits(5) == 4
        }),
        ({
            &&& A64Meta16K48::LEVELS == 4
            &&& A64Meta16K48::PA_MAX_BITS == 48
            &&& A64Meta16K48::BASE_PAGE_SIZE.len() == 0x4000
            &&& A64Meta16K48::TABLE_FRAME_SIZE.len() == 0x4000
            &&& A64Meta16K48::ENTRIES_PER_TABLE == 2048
            &&& A64Meta16K48::in_range(vaddr) <==> vaddr < 0x8000_0000_0000 || vaddr
                >= 0xffff_8000_0000_0000
            &&& A64Meta16K48::supports(level, size) <==> {
                ||| level == 1 && size.len() == 0x4000
                ||| level == 2 && size.len() == 0x200_0000
                ||| level == 3 && size.len() == 0x10_0000_0000
            }
            &&& 1 <= level <= 4 ==> A64Meta16K48::shift(level) == 14 + 11 * (level - 1)
            &&& 1 <= level < 4 ==> A64Meta16K48::index_bits(level) == 11
            &&& A64Meta16K48::index_bits(4) == 1
        }),
        ({
            &&& A64Meta16K52::LEVELS == 4
            &&& A64Meta16K52::PA_MAX_BITS == 52
            &&& A64Meta16K52::BASE_PAGE_SIZE.len() == 0x4000
            &&& A64Meta16K52::TABLE_FRAME_SIZE.len() == 0x4000
            &&& A64Meta16K52::ENTRIES_PER_TABLE == 2048
            &&& A64Meta16K52::in_range(vaddr) <==> vaddr < 0x8_0000_0000_0000 || vaddr
                >= 0xfff8_0000_0000_0000
            &&& A64Meta16K52::supports(level, size) <==> {
                ||| level == 1 && size.len() == 0x4000
                ||| level == 2 && size.len() == 0x200_0000
                ||| level == 3 && size.len() == 0x10_0000_0000
            }
            &&& 1 <= level <= 4 ==> A64Meta16K52::shift(level) == 14 + 11 * (level - 1)
            &&& 1 <= level < 4 ==> A64Meta16K52::index_bits(level) == 11
            &&& A64Meta16K52::index_bits(4) == 5
        }),
        ({
            &&& A64Meta64K48::LEVELS == 3
            &&& A64Meta64K48::PA_MAX_BITS == 48
            &&& A64Meta64K48::BASE_PAGE_SIZE.len() == 0x1_0000
            &&& A64Meta64K48::TABLE_FRAME_SIZE.len() == 0x1_0000
            &&& A64Meta64K48::ENTRIES_PER_TABLE == 8192
            &&& A64Meta64K48::in_range(vaddr) <==> vaddr < 0x8000_0000_0000 || vaddr
                >= 0xffff_8000_0000_0000
            &&& A64Meta64K48::supports(level, size) <==> {
                ||| level == 1 && size.len() == 0x1_0000
                ||| level == 2 && size.len() == 0x2000_0000
                ||| level == 3 && size.len() == 0x400_0000_0000
            }
            &&& 1 <= level <= 3 ==> A64Meta64K48::shift(level) == 16 + 13 * (level - 1)
            &&& 1 <= level < 3 ==> A64Meta64K48::index_bits(level) == 13
            &&& A64Meta64K48::index_bits(3) == 6
        }),
        ({
            &&& A64Meta64K52::LEVELS == 3
            &&& A64Meta64K52::PA_MAX_BITS == 52
            &&& A64Meta64K52::BASE_PAGE_SIZE.len() == 0x1_0000
            &&& A64Meta64K52::TABLE_FRAME_SIZE.len() == 0x1_0000
            &&& A64Meta64K52::ENTRIES_PER_TABLE == 8192
            &&& A64Meta64K52::in_range(vaddr) <==> vaddr < 0x8_0000_0000_0000 || vaddr
                >= 0xfff8_0000_0000_0000
            &&& A64Meta64K52::supports(level, size) <==> {
                ||| level == 1 && size.len() == 0x1_0000
                ||| level == 2 && size.len() == 0x2000_0000
                ||| level == 3 && size.len() == 0x400_0000_0000
            }
            &&& 1 <= level <= 3 ==> A64Meta64K52::shift(level) == 16 + 13 * (level - 1)
            &&& 1 <= level < 3 ==> A64Meta64K52::index_bits(level) == 13
            &&& A64Meta64K52::index_bits(3) == 10
        }),
{
    lemma2_to64();
    lemma2_to64_rest();
    lemma_a64_geometry();
}

/// New flags have read access beside what they are given, and describe write-back,
/// inner-shareable, coherent memory; a replacement of the cache policy changes nothing
/// else.
pub proof fn law_a64_new_flags(
    access: AccessFlags,
    cache: CachePolicy,
    new: A64Flags,
    cached: A64Flags,
    read: CachePolicy,
)
    requires
        call_ensures(A64Flags::new, (access,), new),
        call_ensures(A64Flags::with_cache, (new, cache), cached),
        call_ensures(A64Flags::cache, (cached,), read),
    ensures
        new.access@ == access@ | 1,
        new.attrs.cache == CachePolicy::Writeback,
        new.attrs.shareability == Shareability::Inner,
        new.attrs.coherency == Coherency::Coherent,
        cached.access == new.access,
        cached.attrs.shareability == Shareability::Inner,
        cached.attrs.coherency == Coherency::Coherent,
        read == cache,
        cached.attrs.cache == cache,
{
}

} // verus!
