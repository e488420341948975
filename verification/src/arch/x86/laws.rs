//! What holds of the x86_64 formats.

use crate::addr::{PhysAddr, VirtAddrRange};
use crate::arch::lemma_zero_word;
use crate::effect::{
    formats_ok, located, mergeable, protectable, remappable, split_leaf, splittable, TreeView,
};
use crate::encoding::{
    always_leaf, law_change_encodes, law_map_encodes, law_merge_encodes, law_split_encodes,
};
use crate::error::PagingResult;
use crate::geometry::{
    blocks_legal, law_canonical_blocks_legal, law_canonical_determined, leaves_fill_blocks, regular,
    tables_full,
};
use crate::laws::{faithful, lemma_located};
use crate::mapping::{MapBacking, MappingContiguity};
use crate::meta::{
    lemma_granule_divides, AccessFlags, CachePolicy, Coherency, MemoryAttributes, PageSize,
    Shareability,
};
use crate::paging::{FrameAllocator, PageTableEntry, PageTableEntryKind, PagingMetaData};
use crate::plan::{well_placed, Placement};
use crate::request::{encodes, map_plan, word_of};
use crate::tree::{layout_ok, storable, tableish, tree};
use super::entry::{
    access_of, cache_of, lemma_x86_geometry, pat_bits, pat_index, x86_leaf, ADDR_MASK, HUGE_PAGE,
    NO_EXECUTE, X86Flags, X86Meta48, X86Meta57, X86Pte, X86_PAT_MSR_VALUE, X86_PAT_TYPE_UC,
    X86_PAT_TYPE_WB, X86_PAT_TYPE_WC, X86_PAT_TYPE_WT,
};
use vstd::arithmetic::power2::{lemma2_to64, lemma2_to64_rest};
use vstd::prelude::*;

verus! {

/// The x86_64 geometries are ones that the walker can handle.
pub proof fn law_x86_layouts()
    ensures
        layout_ok::<X86Meta48>(),
        layout_ok::<X86Meta57>(),
{
    lemma2_to64();
    lemma_x86_geometry();
    assert(forall|level: u8| #[trigger] X86Meta48::index_bits(level) == 9);
    assert(forall|level: u8| #[trigger] X86Meta57::index_bits(level) == 9);
}

/// The x86_64 geometries are regular, blocks are legal as a whole, tables are full,
/// and leaves fill their blocks.
pub proof fn law_x86_regular()
    ensures
        regular::<X86Meta48>(),
        blocks_legal::<X86Meta48>(),
        tables_full::<X86Meta48>(),
        leaves_fill_blocks::<X86Meta48>(),
        regular::<X86Meta57>(),
        blocks_legal::<X86Meta57>(),
        tables_full::<X86Meta57>(),
        leaves_fill_blocks::<X86Meta57>(),
{
    lemma2_to64();
    law_x86_layouts();
    lemma_x86_geometry();
    law_canonical_determined::<X86Meta48>();
    law_canonical_blocks_legal::<X86Meta48>();
    law_canonical_determined::<X86Meta57>();
    law_canonical_blocks_legal::<X86Meta57>();
}

/// The words of x86_64 entries, bit by bit.
proof fn lemma_words(paddr: u64, flags: X86Flags, size: PageSize)
    ensures
        ({
            let raw = X86Pte::leaf_raw(paddr, flags, size);
            &&& X86Pte::present(raw)
            &&& X86Pte::target(raw) == paddr & ADDR_MASK
            &&& (raw & HUGE_PAGE != 0) == (size == PageSize::Size2M || size == PageSize::Size1G)
            &&& access_of(raw) as u8 & 0x1f == (flags.access@ & 0x1f) | 1
            &&& cache_of(raw) == flags.attrs.cache
        }),
        ({
            let raw = X86Pte::table_raw(paddr, 2);
            &&& X86Pte::present(raw)
            &&& X86Pte::target(raw) == paddr & ADDR_MASK
            &&& raw & HUGE_PAGE == 0
        }),
{
    let a8 = flags.access@;
    let a = a8 as u64;
    let n: u64 = if a & 4 == 0 {
        NO_EXECUTE
    } else {
        0
    };
    let h: u64 = if size == PageSize::Size2M || size == PageSize::Size1G {
        HUGE_PAGE
    } else {
        0
    };
    let c = pat_bits(flags.attrs.cache);
    let w = X86Pte::leaf_raw(paddr, flags, size);
    let k: u64 = if w & NO_EXECUTE == 0 {
        4
    } else {
        0
    };
    let g = access_of(w);
    assert(w & 1 != 0 && w & 0x000f_ffff_ffff_f000 == paddr & 0x000f_ffff_ffff_f000 && (w & 0x80
        != 0) == (h != 0) && g as u8 & 0x1f == (a8 & 0x1f) | 1 && (w & 16 == 0) == (c & 16 == 0) && (
    w & 8 == 0) == (c & 8 == 0)) by (bit_vector)
        requires
            a == a8 as u64,
            n == (if a & 4 == 0 {
                0x8000_0000_0000_0000u64
            } else {
                0
            }),
            h == 0 || h == 0x80,
            c == 0 || c == (16u64 | 8u64) || c == 16 || c == 8,
            w == (paddr & 0x000f_ffff_ffff_f000) | (1u64 | (a & 2) | ((a & 8) >> 1) | ((a & 16) << 4)
                | n | h | c),
            k == (if w & 0x8000_0000_0000_0000 == 0 {
                4u64
            } else {
                0
            }),
            g == (w & 1) | (w & 2) | ((w & 4) << 1) | ((w & 0x100) >> 4) | k,
    ;
    assert((16u64 | 8u64) & 16 != 0 && (16u64 | 8u64) & 8 != 0 && 16u64 & 8 == 0 && 8u64 & 16 == 0
        && 16u64 & 16 != 0 && 8u64 & 8 != 0 && 0u64 & 8 == 0 && 0u64 & 16 == 0) by (bit_vector);
    assert(((paddr & 0x000f_ffff_ffff_f000) | 7) & 1 != 0 && ((paddr & 0x000f_ffff_ffff_f000) | 7)
        & 0x000f_ffff_ffff_f000 == paddr & 0x000f_ffff_ffff_f000 && ((paddr & 0x000f_ffff_ffff_f000)
        | 7) & 0x80 == 0) by (bit_vector);
}

/// An address that an entry can hold survives the round trip.
proof fn lemma_address(paddr: u64)
    requires
        paddr % 0x1000 == 0,
        paddr < 0x10_0000_0000_0000,
    ensures
        paddr & ADDR_MASK == paddr,
{
    assert(paddr & 0x000f_ffff_ffff_f000 == paddr) by (bit_vector)
        requires
            paddr % 0x1000 == 0,
            paddr < 0x10_0000_0000_0000,
    ;
}

/// What a leaf entry is made from can be read back from it: the address, if it
/// is 4 KiB-aligned and within 52 bits; the access bits, to which read access
/// is always added; and the cache policy. Sharing is architectural on x86, so
/// the other attributes read back as those of ordinary memory.
pub proof fn law_x86_leaf_round_trip(paddr: u64, flags: X86Flags, size: PageSize)
    requires
        paddr % 0x1000 == 0,
        paddr < 0x10_0000_0000_0000,
    ensures
        ({
            let raw = X86Pte::leaf_raw(paddr, flags, size);
            &&& X86Pte::present(raw)
            &&& X86Pte::target(raw) == paddr
            &&& X86Pte::flags_of(raw) == (X86Flags {
                access: AccessFlags::of(flags.access@ | 1),
                attrs: MemoryAttributes { cache: flags.attrs.cache, ..MemoryAttributes::ram() },
            })
            &&& X86Pte::flags_of(raw).access@ == flags.access@ | 1
        }),
{
    lemma_words(paddr, flags, size);
    lemma_address(paddr);
    let raw = X86Pte::leaf_raw(paddr, flags, size);
    flags.access.law_five_bits(access_of(raw) as u8);
}

/// Whatever the flags, a leaf is a leaf at the level of its size.
pub proof fn law_x86_leaf_is_leaf(paddr: u64, flags: X86Flags, size: PageSize, level: u8)
    requires
        x86_leaf(level, size),
    ensures
        X86Pte::kind(X86Pte::leaf_raw(paddr, flags, size), level) == PageTableEntryKind::Leaf,
        storable::<X86Pte>(X86Pte::leaf_raw(paddr, flags, size), level),
{
    lemma_words(paddr, flags, size);
}

/// Every well-placed leaf is encoded faithfully.
pub proof fn law_x86_faithful(leaf: Placement, flags: X86Flags)
    requires
        well_placed::<X86Meta48>(leaf) || well_placed::<X86Meta57>(leaf),
    ensures
        faithful::<X86Pte>(word_of::<X86Pte>(leaf, flags), leaf.level, leaf.paddr),
        storable::<X86Pte>(word_of::<X86Pte>(leaf, flags), leaf.level),
{
    lemma_x86_geometry();
    lemma2_to64_rest();
    leaf.size.lemma_len();
    lemma_granule_divides(leaf.paddr, leaf.size);
    law_x86_leaf_is_leaf(leaf.paddr, flags, leaf.size, leaf.level);
    law_x86_leaf_round_trip(leaf.paddr, flags, leaf.size);
}

/// The entry format suits every geometry of 4 KiB table frames, for every
/// allocator that places frames within 52 bits.
pub proof fn law_x86_formats<Meta: PagingMetaData, Alloc: FrameAllocator>()
    requires
        Meta::TABLE_FRAME_SIZE == PageSize::Size4K,
        forall|paddr: u64| #[trigger] Alloc::places(paddr) ==> paddr < 0x10_0000_0000_0000,
    ensures
        formats_ok::<Meta, X86Pte, Alloc>(),
{
    lemma_zero_word();
    assert forall|paddr: u64, level: u8|
        #![trigger X86Pte::table_raw(paddr, level)]
        Alloc::places(paddr) && paddr % Meta::TABLE_FRAME_SIZE.len() == 0 && 2 <= level
            <= Meta::LEVELS implies {
        &&& tableish::<X86Pte>(X86Pte::table_raw(paddr, level), level)
        &&& X86Pte::target(X86Pte::table_raw(paddr, level)) == paddr
    } by {
        lemma_words(
            paddr,
            X86Flags { access: AccessFlags::of(0), attrs: MemoryAttributes::ram() },
            PageSize::Size4K,
        );
        lemma_address(paddr);
    }
}

/// Whatever its flags, a leaf encodes as a leaf at the level of its size.
pub proof fn law_x86_always_leaf(flags: X86Flags)
    ensures
        always_leaf::<X86Meta48, X86Pte>(flags),
        always_leaf::<X86Meta57, X86Pte>(flags),
{
    assert forall|paddr: u64, size: PageSize, level: u8| x86_leaf(level, size) implies #[trigger] storable::<
        X86Pte,
    >(X86Pte::leaf_raw(paddr, flags, size), level) by {
        lemma_words(paddr, flags, size);
    }
    lemma_x86_geometry();
}

/// The parts of a leaf lie within the address space.
proof fn lemma_parts(raw: u64, finer: PageSize)
    ensures
        forall|i: int| 0 <= i < 512 ==> X86Pte::target(raw) + #[trigger] (i * finer.len()) <= u64::MAX,
{
    assert(raw & 0x000f_ffff_ffff_f000 < 0x10_0000_0000_0000) by (bit_vector);
    finer.lemma_len();
    assert forall|i: int| 0 <= i < 512 implies #[trigger] (i * finer.len()) <= 512 * finer.len() by {
        assert(i * finer.len() <= 512 * finer.len()) by (nonlinear_arith)
            requires
                0 <= i < 512,
                finer.len() >= 0,
        ;
    }
}

/// Every request to an x86_64 page table can be encoded, if the leaf that it is
/// about is no larger than 1 GiB, the largest that the format has.
pub proof fn law_x86_requests_encode<Alloc: FrameAllocator>(
    view: TreeView,
    range: VirtAddrRange,
    backing: PagingResult<MapBacking<'_>>,
    contiguity: MappingContiguity,
    paddr: PhysAddr,
    flags: X86Flags,
)
    requires
        forall|paddr: u64| #[trigger] Alloc::places(paddr) ==> paddr < 0x10_0000_0000_0000,
    ensures
        encodes::<X86Pte>(map_plan::<X86Meta48>(range, backing, contiguity), flags),
        encodes::<X86Pte>(map_plan::<X86Meta57>(range, backing, contiguity), flags),
        tree::<X86Meta48, X86Pte>(view.frames, view.tables, view.root) && (located::<X86Meta48, X86Pte>(
            view,
            range,
        ) matches Ok(leaf) ==> leaf.level <= 3) ==> {
            &&& remappable::<X86Meta48, X86Pte>(view, range, paddr, flags)
            &&& protectable::<X86Meta48, X86Pte>(view, range, flags)
            &&& splittable::<X86Meta48, X86Pte>(view, range)
            &&& mergeable::<X86Meta48, X86Pte>(view, range)
        },
        tree::<X86Meta57, X86Pte>(view.frames, view.tables, view.root) && (located::<X86Meta57, X86Pte>(
            view,
            range,
        ) matches Ok(leaf) ==> leaf.level <= 3) ==> {
            &&& remappable::<X86Meta57, X86Pte>(view, range, paddr, flags)
            &&& protectable::<X86Meta57, X86Pte>(view, range, flags)
            &&& splittable::<X86Meta57, X86Pte>(view, range)
            &&& mergeable::<X86Meta57, X86Pte>(view, range)
        },
{
    law_x86_regular();
    lemma_x86_geometry();
    law_x86_always_leaf(flags);
    assert forall|raw: u64| true implies always_leaf::<X86Meta48, X86Pte>(
        #[trigger] X86Pte::flags_of(raw),
    ) && always_leaf::<X86Meta57, X86Pte>(X86Pte::flags_of(raw)) by {
        law_x86_always_leaf(X86Pte::flags_of(raw));
    }
    law_x86_formats::<X86Meta48, Alloc>();
    law_map_encodes::<X86Meta48, X86Pte, Alloc>(range, backing, contiguity, flags);
    if tree::<X86Meta48, X86Pte>(view.frames, view.tables, view.root) && (located::<X86Meta48, X86Pte>(
        view,
        range,
    ) matches Ok(leaf) ==> leaf.level <= 3) {
        if located::<X86Meta48, X86Pte>(view, range) is Ok {
            lemma_located::<X86Meta48, X86Pte>(view, range);
        }
        law_change_encodes::<X86Meta48, X86Pte, Alloc>(view, range, paddr, flags);
        if let Ok((leaf, finer)) = split_leaf::<X86Meta48, X86Pte>(view, range) {
            PageSize::lemma_of_shift(X86Meta48::shift((leaf.level - 1) as u8));
            lemma_parts(leaf.raw, finer);
        }
        law_split_encodes::<X86Meta48, X86Pte>(view, range);
        law_merge_encodes::<X86Meta48, X86Pte>(view, range);
    }
    law_x86_formats::<X86Meta57, Alloc>();
    law_map_encodes::<X86Meta57, X86Pte, Alloc>(range, backing, contiguity, flags);
    if tree::<X86Meta57, X86Pte>(view.frames, view.tables, view.root) && (located::<X86Meta57, X86Pte>(
        view,
        range,
    ) matches Ok(leaf) ==> leaf.level <= 3) {
        if located::<X86Meta57, X86Pte>(view, range) is Ok {
            lemma_located::<X86Meta57, X86Pte>(view, range);
        }
        law_change_encodes::<X86Meta57, X86Pte, Alloc>(view, range, paddr, flags);
        if let Ok((leaf, finer)) = split_leaf::<X86Meta57, X86Pte>(view, range) {
            PageSize::lemma_of_shift(X86Meta57::shift((leaf.level - 1) as u8));
            lemma_parts(leaf.raw, finer);
        }
        law_split_encodes::<X86Meta57, X86Pte>(view, range);
        law_merge_encodes::<X86Meta57, X86Pte>(view, range);
    }
}

/// The PAT slot that an entry selects holds the memory type of its policy.
pub proof fn law_x86_pat_matches_policy(cache: CachePolicy)
    ensures
        (X86_PAT_MSR_VALUE >> ((pat_index(cache) * 8) as u64)) & 0xff == match cache {
            CachePolicy::Writeback => X86_PAT_TYPE_WB,
            CachePolicy::Uncached => X86_PAT_TYPE_UC,
            CachePolicy::WriteCombine => X86_PAT_TYPE_WC,
            CachePolicy::WriteThrough => X86_PAT_TYPE_WT,
        },
        X86_PAT_TYPE_UC == 0,
        X86_PAT_TYPE_WC == 1,
        X86_PAT_TYPE_WT == 4,
        X86_PAT_TYPE_WB == 6,
        (pat_index(cache) * 8) as u64 == X86Pte::leaf_raw(
            0,
            X86Flags {
                access: AccessFlags::of(0),
                attrs: MemoryAttributes { cache, ..MemoryAttributes::ram() },
            },
            PageSize::Size4K,
        ) & 0x18,
{
    law_x86_leaf_bits(
        0,
        X86Flags {
            access: AccessFlags::of(0),
            attrs: MemoryAttributes { cache, ..MemoryAttributes::ram() },
        },
        PageSize::Size4K,
    );
    assert((0x0007_0406_0001_0406u64 >> 0) & 0xff == 6 && (0x0007_0406_0001_0406u64 >> 8) & 0xff
        == 4 && (0x0007_0406_0001_0406u64 >> 16) & 0xff == 1 && (0x0007_0406_0001_0406u64 >> 24)
        & 0xff == 0) by (bit_vector);
}

/// The word of a leaf, bit by bit. It is present; bit 1 is set where there is
/// write access, bit 2 where there is user access, bit 8 where the leaf is
/// global, and bit 63 where there is no execute access. Bit 7 is set in leaves
/// of 2 MiB and 1 GiB. Bits 3 and 4 select the PAT slot of the cache policy. Beside
/// the address nothing else is set.
pub proof fn law_x86_leaf_bits(paddr: u64, flags: X86Flags, size: PageSize)
    ensures
        ({
            let raw = X86Pte::leaf_raw(paddr, flags, size);
            let access = flags.access@;
            &&& raw & 0x1 != 0
            &&& raw & 0x2 != 0 <==> access & 2 != 0
            &&& raw & 0x4 != 0 <==> access & 8 != 0
            &&& raw & 0x18 == match flags.attrs.cache {
                CachePolicy::Writeback => 0x0u64,
                CachePolicy::WriteThrough => 0x8u64,
                CachePolicy::WriteCombine => 0x10u64,
                CachePolicy::Uncached => 0x18u64,
            }
            &&& raw & 0x80 != 0 <==> size == PageSize::Size2M || size == PageSize::Size1G
            &&& raw & 0x100 != 0 <==> access & 16 != 0
            &&& raw & 0x8000_0000_0000_0000 != 0 <==> access & 4 == 0
            &&& raw & 0x000f_ffff_ffff_f000 == paddr & 0x000f_ffff_ffff_f000
            &&& raw & 0x7ff0_0000_0000_0e60 == 0
        }),
{
    let a8 = flags.access@;
    let a = a8 as u64;
    let h: u64 = if size == PageSize::Size2M || size == PageSize::Size1G {
        HUGE_PAGE
    } else {
        0
    };
    let c = pat_bits(flags.attrs.cache);
    let w = X86Pte::leaf_raw(paddr, flags, size);
    assert(w & 0x1 != 0 && (w & 0x2 != 0 <==> a8 & 2 != 0) && (w & 0x4 != 0 <==> a8 & 8 != 0) && w
        & 0x18 == c && (w & 0x80 != 0 <==> h != 0) && (w & 0x100 != 0 <==> a8 & 16 != 0) && (w
        & 0x8000_0000_0000_0000 != 0 <==> a8 & 4 == 0) && w & 0x000f_ffff_ffff_f000 == paddr
        & 0x000f_ffff_ffff_f000 && w & 0x7ff0_0000_0000_0e60 == 0 && 16u64 | 8u64 == 0x18)
        by (bit_vector)
        requires
            a == a8 as u64,
            h == 0 || h == 0x80,
            c == 0 || c == (16u64 | 8u64) || c == 16 || c == 8,
            w == (paddr & 0x000f_ffff_ffff_f000) | (1u64 | (a & 2) | ((a & 8) >> 1) | ((a & 16) << 4)
                | (if a & 4 == 0 {
                0x8000_0000_0000_0000u64
            } else {
                0u64
            }) | h | c),
    ;
}

/// What is read of a word, bit by bit: read access from bit 0, write access from
/// bit 1, user access from bit 2, global from bit 8, and execute access from bit 63
/// being clear; the cache policy from bits 3 and 4, and the address from bits
/// 51:12. Sharing is coherent. A word at the lowest level, or with bit 7 set, is a
/// leaf, and any other a table pointer; one that points at a table has bits 0, 1 and
/// 2 set.
pub proof fn law_x86_word_bits(raw: u64, level: u8, table: u64)
    ensures
        ({
            let flags = X86Pte::flags_of(raw);
            let access = flags.access@;
            &&& access & 1 != 0 <==> raw & 0x1 != 0
            &&& access & 2 != 0 <==> raw & 0x2 != 0
            &&& access & 4 != 0 <==> raw & 0x8000_0000_0000_0000 == 0
            &&& access & 8 != 0 <==> raw & 0x4 != 0
            &&& access & 16 != 0 <==> raw & 0x100 != 0
            &&& access & 0xe0 == 0
            &&& flags.attrs.shareability == Shareability::Inner
            &&& flags.attrs.coherency == Coherency::Coherent
            &&& flags.attrs.cache == if raw & 0x18 == 0 {
                CachePolicy::Writeback
            } else if raw & 0x18 == 0x8 {
                CachePolicy::WriteThrough
            } else if raw & 0x18 == 0x10 {
                CachePolicy::WriteCombine
            } else {
                CachePolicy::Uncached
            }
        }),
        X86Pte::present(raw) <==> raw & 0x1 != 0,
        X86Pte::target(raw) == raw & 0x000f_ffff_ffff_f000,
        X86Pte::kind(raw, level) == if level == 1 || raw & 0x80 != 0 {
            PageTableEntryKind::Leaf
        } else {
            PageTableEntryKind::Table
        },
        X86Pte::table_raw(table, level) == (table & 0x000f_ffff_ffff_f000) | 0x7,
{
    let g = access_of(raw);
    let m = g as u8 & 0x1f;
    AccessFlags::of(m).law_five_bits(m);
    let v = m & 0x1f;
    assert((v & 1 != 0 <==> raw & 0x1 != 0) && (v & 2 != 0 <==> raw & 0x2 != 0) && (v & 4 != 0
        <==> raw & 0x8000_0000_0000_0000 == 0) && (v & 8 != 0 <==> raw & 0x4 != 0) && (v & 16 != 0
        <==> raw & 0x100 != 0) && v & 0xe0 == 0 && (raw & 0x18 == 0 <==> raw & 16 == 0 && raw & 8
        == 0) && (raw & 0x18 == 0x8 <==> raw & 16 == 0 && raw & 8 != 0) && (raw & 0x18 == 0x10
        <==> raw & 16 != 0 && raw & 8 == 0)) by (bit_vector)
        requires
            v == m & 0x1f,
            m == g as u8 & 0x1f,
            g == (raw & 1) | (raw & 2) | ((raw & 4) << 1) | ((raw & 0x100) >> 4) | (if raw
                & 0x8000_0000_0000_0000 == 0 {
                4u64
            } else {
                0u64
            }),
    ;
}

/// The shapes of the formats: how many levels there are, how wide physical
/// addresses are and which virtual ones are legal, how large pages and tables are,
/// which leaves each level has, and which address bits select its entry.
pub proof fn law_x86_shapes(level: u8, size: PageSize, vaddr: u64)
    ensures
        ({
            &&& X86Meta48::LEVELS == 4
            &&& X86Meta48::PA_MAX_BITS == 52
            &&& X86Meta48::BASE_PAGE_SIZE.len() == 0x1000
            &&& X86Meta48::TABLE_FRAME_SIZE.len() == 0x1000
            &&& X86Meta48::ENTRIES_PER_TABLE == 512
            &&& X86Meta48::in_range(vaddr) <==> vaddr < 0x8000_0000_0000 || vaddr
                >= 0xffff_8000_0000_0000
            &&& X86Meta48::supports(level, size) <==> {
                ||| level == 1 && size.len() == 0x1000
                ||| level == 2 && size.len() == 0x20_0000
                ||| level == 3 && size.len() == 0x4000_0000
            }
            &&& 1 <= level <= 4 ==> X86Meta48::shift(level) == 12 + 9 * (level - 1)
            &&& 1 <= level <= 4 ==> X86Meta48::index_bits(level) == 9
        }),
        ({
            &&& X86Meta57::LEVELS == 5
            &&& X86Meta57::PA_MAX_BITS == 52
            &&& X86Meta57::BASE_PAGE_SIZE.len() == 0x1000
            &&& X86Meta57::TABLE_FRAME_SIZE.len() == 0x1000
            &&& X86Meta57::ENTRIES_PER_TABLE == 512
            &&& X86Meta57::in_range(vaddr) <==> vaddr < 0x100_0000_0000_0000 || vaddr
                >= 0xff00_0000_0000_0000
            &&& X86Meta57::supports(level, size) <==> {
                ||| level == 1 && size.len() == 0x1000
                ||| level == 2 && size.len() == 0x20_0000
                ||| level == 3 && size.len() == 0x4000_0000
            }
            &&& 1 <= level <= 5 ==> X86Meta57::shift(level) == 12 + 9 * (level - 1)
            &&& 1 <= level <= 5 ==> X86Meta57::index_bits(level) == 9
        }),
{
    lemma2_to64();
    lemma2_to64_rest();
    lemma_x86_geometry();
}

/// New flags have read access beside what they are given, and describe write-back,
/// inner-shareable, coherent memory; a replacement of the cache policy changes nothing
/// else.
pub proof fn law_x86_new_flags(
    access: AccessFlags,
    cache: CachePolicy,
    new: X86Flags,
    cached: X86Flags,
    read: CachePolicy,
)
    requires
        call_ensures(X86Flags::new, (access,), new),
        call_ensures(X86Flags::with_cache, (new, cache), cached),
        call_ensures(X86Flags::cache, (cached,), read),
    ensures
        new.access@ == access@ | 1,
        new.attrs.cache == CachePolicy::Writeback,
        new.attrs.shareability == Shareability::Inner,
        new.attrs.coherency == Coherency::Coherent,
        cached.access == new.access,
        cached.attrs.shareability == Shareability::Inner,
        cached.attrs.coherency == Coherency::Coherent,
        read == cache,
        cached.attrs.cache == cache,
{
}

} // verus!
