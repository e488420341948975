//! What holds of the RISC-V formats.

use crate::addr::{AddrRange, PhysAddr};
use crate::arch::lemma_zero_word;
use crate::effect::{
    formats_ok, located, mergeable, protectable, remappable, split_leaf, splittable, TreeView,
};
use crate::encoding::{
    always_leaf, flags_reusable, law_change_encodes, law_map_encodes, law_merge_encodes,
    law_split_encodes,
};
use crate::error::PagingResult;
use crate::geometry::{
    blocks_are_leaves, blocks_legal, law_canonical_blocks_legal, law_canonical_determined,
    leaves_fill_blocks, regular, tables_full,
};
use crate::laws::{faithful, lemma_located};
use crate::mapping::{MapBacking, MappingContiguity};
use crate::meta::{
    lemma_granule_divides, AccessFlags, CachePolicy, Coherency, MemoryAttributes, PageSize,
    Shareability,
};
use crate::paging::{FrameAllocator, PageTableEntry, PageTableEntryKind, PagingMetaData};
use crate::plan::{well_placed, Placement};
use crate::request::{encodes, map_plan, word_of};
use crate::tree::{layout_ok, storable, tableish, tree};
use super::entry::{
    cache_of, granted, lemma_rv64_geometry, pbmt_of, pbmt_word, ppn_target, ppn_word, valid_word,
    word_flags, DIRTY, Rv64Flags, Rv64Meta39, Rv64Meta48, Rv64Meta57, Rv64Pte, Rv64SvpbmtPte,
};
use vstd::arithmetic::power2::{lemma2_to64, lemma2_to64_rest};
use vstd::prelude::*;

verus! {

/// The RISC-V geometries are ones that the walker can handle.
pub proof fn law_rv64_layouts()
    ensures
        layout_ok::<Rv64Meta39>(),
        layout_ok::<Rv64Meta48>(),
        layout_ok::<Rv64Meta57>(),
{
    lemma2_to64();
    lemma_rv64_geometry();
    assert(forall|level: u8| #[trigger] Rv64Meta39::index_bits(level) == 9);
    assert(forall|level: u8| #[trigger] Rv64Meta48::index_bits(level) == 9);
    assert(forall|level: u8| #[trigger] Rv64Meta57::index_bits(level) == 9);
}

/// The RISC-V geometries are regular, blocks are legal as a whole, tables are full,
/// and leaves fill their blocks.
pub proof fn law_rv64_regular()
    ensures
        regular::<Rv64Meta39>(),
        blocks_legal::<Rv64Meta39>(),
        tables_full::<Rv64Meta39>(),
        leaves_fill_blocks::<Rv64Meta39>(),
        blocks_are_leaves::<Rv64Meta39>(),
        regular::<Rv64Meta48>(),
        blocks_legal::<Rv64Meta48>(),
        tables_full::<Rv64Meta48>(),
        leaves_fill_blocks::<Rv64Meta48>(),
        blocks_are_leaves::<Rv64Meta48>(),
        regular::<Rv64Meta57>(),
        blocks_legal::<Rv64Meta57>(),
        tables_full::<Rv64Meta57>(),
        leaves_fill_blocks::<Rv64Meta57>(),
        blocks_are_leaves::<Rv64Meta57>(),
{
    lemma2_to64();
    law_rv64_layouts();
    lemma_rv64_geometry();
    law_canonical_determined::<Rv64Meta39>();
    law_canonical_blocks_legal::<Rv64Meta39>();
    law_canonical_determined::<Rv64Meta48>();
    law_canonical_blocks_legal::<Rv64Meta48>();
    law_canonical_determined::<Rv64Meta57>();
    law_canonical_blocks_legal::<Rv64Meta57>();
}

/// The words of RISC-V entries, bit by bit.
proof fn lemma_words(svpbmt: bool, paddr: u64, flags: Rv64Flags)
    ensures
        ({
            let raw = ppn_word(paddr) | super::entry::leaf_bits(svpbmt, flags);
            &&& raw & 1 != 0
            &&& ppn_target(raw) == ppn_target(ppn_word(paddr))
            &&& (((raw >> 1) & 0x1f) as u8) & 0x1f == (flags.access@ & 0x1f) | ((flags.access@ & 2)
                >> 1)
            &&& valid_word(svpbmt, raw)
            &&& (raw & (2u64 | 4u64 | 8u64) != 0) == (flags.access@ & 7 != 0)
            &&& cache_of(svpbmt, raw) == if svpbmt && flags.attrs.cache
                == CachePolicy::WriteCombine {
                CachePolicy::WriteCombine
            } else if svpbmt && flags.attrs.cache == CachePolicy::Uncached {
                CachePolicy::Uncached
            } else {
                CachePolicy::Writeback
            }
        }),
        ({
            let raw = ppn_word(paddr) | 1;
            &&& raw & 1 != 0
            &&& ppn_target(raw) == ppn_target(ppn_word(paddr))
            &&& valid_word(svpbmt, raw)
            &&& raw & (2u64 | 4u64 | 8u64) == 0
        }),
{
    let a8 = flags.access@;
    let a = granted(a8 as u64);
    let d: u64 = if a & 2 != 0 {
        DIRTY
    } else {
        0
    };
    let c = pbmt_word(svpbmt, flags.attrs.cache);
    let p = ppn_word(paddr);
    let w = p | super::entry::leaf_bits(svpbmt, flags);
    assert(0u64 << 61 == 0 && 1u64 << 61 == 0x2000_0000_0000_0000 && 2u64 << 61
        == 0x4000_0000_0000_0000) by (bit_vector);
    assert(w & 1 != 0 && w & 0x003f_ffff_ffff_fc00 == p & 0x003f_ffff_ffff_fc00 && (((w >> 1) & 0x1f)
        as u8) & 0x1f == (a8 & 0x1f) | ((a8 & 2) >> 1) && w & 0x9fc0_0000_0000_0000 == 0 && (c == 0
        ==> w & 0xffc0_0000_0000_0000 == 0) && (w & 4 == 0 || w & 2 != 0) && (w
        & 0x6000_0000_0000_0000) >> 61 == c >> 61 && (c >> 61) == (if c == 0 {
        0u64
    } else if c == 0x2000_0000_0000_0000 {
        1u64
    } else {
        2u64
    }) && (w & (2u64 | 4u64 | 8u64) != 0) == (a8 & 7 != 0) && w & 0xffc0_0000_0000_0000 == c) by (bit_vector)
        requires
            a == (a8 as u64) | (((a8 as u64) & 2) >> 1),
            d == (if a & 2 != 0 {
                0x80u64
            } else {
                0
            }),
            c == 0 || c == 0x2000_0000_0000_0000 || c == 0x4000_0000_0000_0000,
            p == ((paddr >> 12) << 10) & 0x003f_ffff_ffff_fc00,
            w == p | (1u64 | ((a & 0x1f) << 1) | 0x40 | d | c),
    ;
    assert((p | 1) & 1 != 0 && (p | 1) & 0x003f_ffff_ffff_fc00 == p & 0x003f_ffff_ffff_fc00 && (p
        | 1) & 0x9fc0_0000_0000_0000 == 0 && (p | 1) & 0xffc0_0000_0000_0000 == 0 && (p | 1) & 4
        == 0 && ((p | 1) & 0x6000_0000_0000_0000) >> 61 == 0 && (p | 1) & (2u64 | 4u64 | 8u64) == 0)
        by (bit_vector)
        requires
            p == ((paddr >> 12) << 10) & 0x003f_ffff_ffff_fc00,
    ;
}

/// An address that an entry can hold survives the round trip.
proof fn lemma_address(paddr: u64)
    requires
        paddr % 0x1000 == 0,
        paddr < 0x100_0000_0000_0000,
    ensures
        ppn_target(ppn_word(paddr)) == paddr,
{
    assert((((((paddr >> 12) << 10) & 0x003f_ffff_ffff_fc00) & 0x003f_ffff_ffff_fc00) >> 10) << 12
        == paddr) by (bit_vector)
        requires
            paddr % 0x1000 == 0,
            paddr < 0x100_0000_0000_0000,
    ;
}

/// The access that an entry reads back: write access comes with read access.
pub open spec fn with_read(access: AccessFlags) -> AccessFlags {
    if access.has(2) {
        AccessFlags::of(access@ | 1)
    } else {
        access
    }
}

/// The bits that an entry stores for read access.
proof fn lemma_with_read(access: AccessFlags)
    ensures
        with_read(access) == AccessFlags::of((access@ & 0x1f) | ((access@ & 2) >> 1)),
{
    let a = access@;
    access.law_five_bits(0);
    assert((a & 2 == 2 ==> (a & 2) >> 1 == 1) && (a & 2 != 2 ==> (a & 2) >> 1 == 0) && a | 0 == a)
        by (bit_vector);
}

/// What a base leaf entry is made from can be read back from it: the address,
/// if it is 4 KiB-aligned and within 56 bits, and the access bits, to which
/// write access adds read access. There is no cache policy in the entry, so it
/// reads back as write-back.
pub proof fn law_rv64_leaf_round_trip(paddr: u64, flags: Rv64Flags, size: PageSize)
    requires
        paddr % 0x1000 == 0,
        paddr < 0x100_0000_0000_0000,
    ensures
        ({
            let raw = Rv64Pte::leaf_raw(paddr, flags, size);
            &&& Rv64Pte::present(raw)
            &&& Rv64Pte::target(raw) == paddr
            &&& Rv64Pte::flags_of(raw) == (Rv64Flags {
                access: with_read(flags.access),
                attrs: MemoryAttributes::ram(),
            })
        }),
{
    lemma_words(false, paddr, flags);
    lemma_address(paddr);
    let raw = Rv64Pte::leaf_raw(paddr, flags, size);
    lemma_with_read(flags.access);
}

/// With Svpbmt the cache policy can be read back too, but for write-through,
/// which is clamped to write-back.
pub proof fn law_rv64_svpbmt_leaf_round_trip(paddr: u64, flags: Rv64Flags, size: PageSize)
    requires
        paddr % 0x1000 == 0,
        paddr < 0x100_0000_0000_0000,
    ensures
        ({
            let raw = Rv64SvpbmtPte::leaf_raw(paddr, flags, size);
            &&& Rv64SvpbmtPte::present(raw)
            &&& Rv64SvpbmtPte::target(raw) == paddr
            &&& Rv64SvpbmtPte::flags_of(raw) == (Rv64Flags {
                access: with_read(flags.access),
                attrs: MemoryAttributes {
                    cache: if flags.attrs.cache == CachePolicy::WriteThrough {
                        CachePolicy::Writeback
                    } else {
                        flags.attrs.cache
                    },
                    ..MemoryAttributes::ram()
                },
            })
        }),
{
    lemma_words(true, paddr, flags);
    lemma_address(paddr);
    let raw = Rv64SvpbmtPte::leaf_raw(paddr, flags, size);
    lemma_with_read(flags.access);
}

/// A leaf that grants some access is a leaf at every level.
pub proof fn law_rv64_leaf_is_leaf(paddr: u64, flags: Rv64Flags, size: PageSize, level: u8)
    requires
        flags.access@ & 7 != 0,
    ensures
        Rv64Pte::kind(Rv64Pte::leaf_raw(paddr, flags, size), level) == PageTableEntryKind::Leaf,
        storable::<Rv64Pte>(Rv64Pte::leaf_raw(paddr, flags, size), level),
        Rv64SvpbmtPte::kind(Rv64SvpbmtPte::leaf_raw(paddr, flags, size), level)
            == PageTableEntryKind::Leaf,
        storable::<Rv64SvpbmtPte>(Rv64SvpbmtPte::leaf_raw(paddr, flags, size), level),
{
    lemma_words(false, paddr, flags);
    lemma_words(true, paddr, flags);
}

/// Every well-placed leaf that grants some access is encoded faithfully.
pub proof fn law_rv64_faithful(leaf: Placement, flags: Rv64Flags)
    requires
        well_placed::<Rv64Meta39>(leaf) || well_placed::<Rv64Meta48>(leaf) || well_placed::<
            Rv64Meta57,
        >(leaf),
        flags.access@ & 7 != 0,
    ensures
        faithful::<Rv64Pte>(word_of::<Rv64Pte>(leaf, flags), leaf.level, leaf.paddr),
        storable::<Rv64Pte>(word_of::<Rv64Pte>(leaf, flags), leaf.level),
        faithful::<Rv64SvpbmtPte>(word_of::<Rv64SvpbmtPte>(leaf, flags), leaf.level, leaf.paddr),
        storable::<Rv64SvpbmtPte>(word_of::<Rv64SvpbmtPte>(leaf, flags), leaf.level),
{
    lemma_rv64_geometry();
    lemma2_to64_rest();
    leaf.size.lemma_len();
    lemma_granule_divides(leaf.paddr, leaf.size);
    law_rv64_leaf_is_leaf(leaf.paddr, flags, leaf.size, leaf.level);
    law_rv64_leaf_round_trip(leaf.paddr, flags, leaf.size);
    law_rv64_svpbmt_leaf_round_trip(leaf.paddr, flags, leaf.size);
}

/// The entry formats suit every geometry of 4 KiB table frames, for every
/// allocator that places frames within 56 bits.
pub proof fn law_rv64_formats<Meta: PagingMetaData, Alloc: FrameAllocator>()
    requires
        Meta::TABLE_FRAME_SIZE == PageSize::Size4K,
        forall|paddr: u64| #[trigger] Alloc::places(paddr) ==> paddr < 0x100_0000_0000_0000,
    ensures
        formats_ok::<Meta, Rv64Pte, Alloc>(),
        formats_ok::<Meta, Rv64SvpbmtPte, Alloc>(),
{
    lemma_zero_word();
    let flags = Rv64Flags { access: AccessFlags::of(0), attrs: MemoryAttributes::ram() };
    assert forall|paddr: u64, level: u8|
        #![trigger Rv64Pte::table_raw(paddr, level)]
        Alloc::places(paddr) && paddr % Meta::TABLE_FRAME_SIZE.len() == 0 && 2 <= level
            <= Meta::LEVELS implies {
        &&& tableish::<Rv64Pte>(Rv64Pte::table_raw(paddr, level), level)
        &&& Rv64Pte::target(Rv64Pte::table_raw(paddr, level)) == paddr
    } by {
        lemma_words(false, paddr, flags);
        lemma_address(paddr);
    }
    assert forall|paddr: u64, level: u8|
        #![trigger Rv64SvpbmtPte::table_raw(paddr, level)]
        Alloc::places(paddr) && paddr % Meta::TABLE_FRAME_SIZE.len() == 0 && 2 <= level
            <= Meta::LEVELS implies {
        &&& tableish::<Rv64SvpbmtPte>(Rv64SvpbmtPte::table_raw(paddr, level), level)
        &&& Rv64SvpbmtPte::target(Rv64SvpbmtPte::table_raw(paddr, level)) == paddr
    } by {
        lemma_words(true, paddr, flags);
        lemma_address(paddr);
    }
}

/// A leaf that grants some access encodes as a leaf at every level, and every
/// leaf does grant some.
pub proof fn law_rv64_always_leaf<Meta: PagingMetaData>(flags: Rv64Flags)
    ensures
        flags.access@ & 7 != 0 ==> always_leaf::<Meta, Rv64Pte>(flags) && always_leaf::<
            Meta,
            Rv64SvpbmtPte,
        >(flags),
        flags_reusable::<Meta, Rv64Pte>(),
        flags_reusable::<Meta, Rv64SvpbmtPte>(),
{
    assert forall|paddr: u64, size: PageSize, level: u8, any: Rv64Flags|
        any.access@ & 7 != 0 implies #[trigger] storable::<Rv64Pte>(
        Rv64Pte::leaf_raw(paddr, any, size),
        level,
    ) by {
        law_rv64_leaf_is_leaf(paddr, any, size, level);
    }
    assert forall|paddr: u64, size: PageSize, level: u8, any: Rv64Flags|
        any.access@ & 7 != 0 implies #[trigger] storable::<Rv64SvpbmtPte>(
        Rv64SvpbmtPte::leaf_raw(paddr, any, size),
        level,
    ) by {
        law_rv64_leaf_is_leaf(paddr, any, size, level);
    }
    assert forall|raw: u64, svpbmt: bool| raw & (2u64 | 4u64 | 8u64) != 0 implies (
    #[trigger] word_flags(svpbmt, raw)).access@ & 7 != 0 by {
        let bits = (((raw >> 1) & 0x1f) as u8) & 0x1f;
        assert(bits & 7 != 0) by (bit_vector)
            requires
                bits == (((raw >> 1) & 0x1f) as u8) & 0x1f,
                raw & (2u64 | 4u64 | 8u64) != 0,
        ;
        AccessFlags::of(0).law_five_bits(((raw >> 1) & 0x1f) as u8);
    }
}

/// The parts of a leaf lie within the address space.
proof fn lemma_parts(raw: u64, finer: PageSize)
    ensures
        forall|i: int| 0 <= i < 512 ==> ppn_target(raw) + #[trigger] (i * finer.len()) <= u64::MAX,
{
    assert(((raw & 0x003f_ffff_ffff_fc00) >> 10) << 12 < 0x100_0000_0000_0000) by (bit_vector);
    finer.lemma_len();
    assert forall|i: int| 0 <= i < 512 implies #[trigger] (i * finer.len()) <= 512 * finer.len() by {
        assert(i * finer.len() <= 512 * finer.len()) by (nonlinear_arith)
            requires
                0 <= i < 512,
                finer.len() >= 0,
        ;
    }
}

/// Every request to a RISC-V page table can be encoded, if the flags that it
/// asks for grant some access: an entry that grants none is a table pointer.
pub proof fn law_rv64_requests_encode<Meta: PagingMetaData, Alloc: FrameAllocator>(
    view: TreeView,
    range: AddrRange<Meta::VirtAddr>,
    backing: PagingResult<MapBacking<'_>>,
    contiguity: MappingContiguity,
    paddr: PhysAddr,
    flags: Rv64Flags,
)
    requires
        layout_ok::<Meta>(),
        blocks_are_leaves::<Meta>(),
        Meta::TABLE_FRAME_SIZE == PageSize::Size4K,
        forall|paddr: u64| #[trigger] Alloc::places(paddr) ==> paddr < 0x100_0000_0000_0000,
        flags.access@ & 7 != 0,
    ensures
        encodes::<Rv64Pte>(map_plan::<Meta>(range, backing, contiguity), flags),
        tree::<Meta, Rv64Pte>(view.frames, view.tables, view.root) ==> {
            &&& remappable::<Meta, Rv64Pte>(view, range, paddr, flags)
            &&& protectable::<Meta, Rv64Pte>(view, range, flags)
            &&& splittable::<Meta, Rv64Pte>(view, range)
            &&& mergeable::<Meta, Rv64Pte>(view, range)
        },
        encodes::<Rv64SvpbmtPte>(map_plan::<Meta>(range, backing, contiguity), flags),
        tree::<Meta, Rv64SvpbmtPte>(view.frames, view.tables, view.root) ==> {
            &&& remappable::<Meta, Rv64SvpbmtPte>(view, range, paddr, flags)
            &&& protectable::<Meta, Rv64SvpbmtPte>(view, range, flags)
            &&& splittable::<Meta, Rv64SvpbmtPte>(view, range)
            &&& mergeable::<Meta, Rv64SvpbmtPte>(view, range)
        },
{
    law_rv64_formats::<Meta, Alloc>();
    law_rv64_always_leaf::<Meta>(flags);
    law_map_encodes::<Meta, Rv64Pte, Alloc>(range, backing, contiguity, flags);
    if tree::<Meta, Rv64Pte>(view.frames, view.tables, view.root) {
        if located::<Meta, Rv64Pte>(view, range) is Ok {
            lemma_located::<Meta, Rv64Pte>(view, range);
        }
        law_change_encodes::<Meta, Rv64Pte, Alloc>(view, range, paddr, flags);
        if let Ok((leaf, finer)) = split_leaf::<Meta, Rv64Pte>(view, range) {
            PageSize::lemma_of_shift(Meta::shift((leaf.level - 1) as u8));
            lemma_parts(leaf.raw, finer);
        }
        law_split_encodes::<Meta, Rv64Pte>(view, range);
        law_merge_encodes::<Meta, Rv64Pte>(view, range);
    }
    law_map_encodes::<Meta, Rv64SvpbmtPte, Alloc>(range, backing, contiguity, flags);
    if tree::<Meta, Rv64SvpbmtPte>(view.frames, view.tables, view.root) {
        if located::<Meta, Rv64SvpbmtPte>(view, range) is Ok {
            lemma_located::<Meta, Rv64SvpbmtPte>(view, range);
        }
        law_change_encodes::<Meta, Rv64SvpbmtPte, Alloc>(view, range, paddr, flags);
        if let Ok((leaf, finer)) = split_leaf::<Meta, Rv64SvpbmtPte>(view, range) {
            PageSize::lemma_of_shift(Meta::shift((leaf.level - 1) as u8));
            lemma_parts(leaf.raw, finer);
        }
        law_split_encodes::<Meta, Rv64SvpbmtPte>(view, range);
        law_merge_encodes::<Meta, Rv64SvpbmtPte>(view, range);
    }
}

/// The word of a leaf, bit by bit. It is valid and accessed. Bit 1 is set where
/// there is read or write access, bits 2 and 7 where there is write access, bit 3
/// where there is execute access, bit 4 where there is user access, and bit 5
/// where the leaf is global. Bits 53:10 hold the page number. Bits 62:61 hold the
/// memory type of the cache policy where the format has them, and nothing
/// otherwise. Nothing else is set.
pub proof fn law_rv64_leaf_bits(paddr: u64, flags: Rv64Flags, size: PageSize)
    ensures
        ({
            let raw = Rv64Pte::leaf_raw(paddr, flags, size);
            let typed = Rv64SvpbmtPte::leaf_raw(paddr, flags, size);
            let access = flags.access@;
            &&& raw & 0x1 != 0
            &&& raw & 0x2 != 0 <==> access & 3 != 0
            &&& raw & 0x4 != 0 <==> access & 2 != 0
            &&& raw & 0x8 != 0 <==> access & 4 != 0
            &&& raw & 0x10 != 0 <==> access & 8 != 0
            &&& raw & 0x20 != 0 <==> access & 16 != 0
            &&& raw & 0x40 != 0
            &&& raw & 0x80 != 0 <==> access & 2 != 0
            &&& raw & 0x003f_ffff_ffff_fc00 == (paddr & 0x00ff_ffff_ffff_f000) >> 2
            &&& raw & 0xffc0_0000_0000_0300 == 0
            &&& typed & 0x9fff_ffff_ffff_ffff == raw
            &&& typed & 0x6000_0000_0000_0000 == match flags.attrs.cache {
                CachePolicy::Writeback => 0x0u64,
                CachePolicy::WriteThrough => 0x0u64,
                CachePolicy::WriteCombine => 0x2000_0000_0000_0000u64,
                CachePolicy::Uncached => 0x4000_0000_0000_0000u64,
            }
        }),
{
    let a8 = flags.access@;
    let a = a8 as u64;
    let b = granted(a);
    let t = pbmt_of(flags.attrs.cache);
    let c = pbmt_word(true, flags.attrs.cache);
    let raw = Rv64Pte::leaf_raw(paddr, flags, PageSize::Size4K);
    let typed = Rv64SvpbmtPte::leaf_raw(paddr, flags, PageSize::Size4K);
    assert(raw & 0x1 != 0 && (raw & 0x2 != 0 <==> a8 & 3 != 0) && (raw & 0x4 != 0 <==> a8 & 2 != 0)
        && (raw & 0x8 != 0 <==> a8 & 4 != 0) && (raw & 0x10 != 0 <==> a8 & 8 != 0) && (raw & 0x20
        != 0 <==> a8 & 16 != 0) && raw & 0x40 != 0 && (raw & 0x80 != 0 <==> a8 & 2 != 0) && raw
        & 0x003f_ffff_ffff_fc00 == (paddr & 0x00ff_ffff_ffff_f000) >> 2 && raw
        & 0xffc0_0000_0000_0300 == 0 && typed & 0x9fff_ffff_ffff_ffff == raw && typed
        & 0x6000_0000_0000_0000 == (if t == 0 {
        0u64
    } else if t == 1 {
        0x2000_0000_0000_0000u64
    } else {
        0x4000_0000_0000_0000u64
    })) by (bit_vector)
        requires
            a == a8 as u64,
            b == a | ((a & 2) >> 1),
            t <= 2,
            c == t << 61,
            raw == (((paddr >> 12) << 10) & 0x003f_ffff_ffff_fc00) | (1u64 | ((b & 0x1f) << 1)
                | 0x40 | (if b & 2 != 0 {
                0x80u64
            } else {
                0u64
            }) | 0u64),
            typed == (((paddr >> 12) << 10) & 0x003f_ffff_ffff_fc00) | (1u64 | ((b & 0x1f) << 1)
                | 0x40 | (if b & 2 != 0 {
                0x80u64
            } else {
                0u64
            }) | c),
    ;
}

/// What is read of a word, bit by bit: the access bits in their order from bits
/// 5:1, the address from the page number in bits 53:10, and the memory type, where
/// the format has one, from bits 62:61. A word is a leaf where it is valid, uses
/// nothing that is reserved, and one of bits 1 to 3 is set; where none is, it is a
/// table pointer above the lowest level. Write access without read access is
/// reserved, and so is a memory type of 3.
pub proof fn law_rv64_word_bits(raw: u64, level: u8, table: u64)
    ensures
        ({
            let flags = Rv64Pte::flags_of(raw);
            let access = flags.access@;
            &&& access & 1 != 0 <==> raw & 0x2 != 0
            &&& access & 2 != 0 <==> raw & 0x4 != 0
            &&& access & 4 != 0 <==> raw & 0x8 != 0
            &&& access & 8 != 0 <==> raw & 0x10 != 0
            &&& access & 16 != 0 <==> raw & 0x20 != 0
            &&& access & 0xe0 == 0
            &&& flags.attrs.cache == CachePolicy::Writeback
            &&& flags.attrs.shareability == Shareability::Inner
            &&& flags.attrs.coherency == Coherency::Coherent
            &&& Rv64SvpbmtPte::flags_of(raw).attrs.shareability == Shareability::Inner
            &&& Rv64SvpbmtPte::flags_of(raw).attrs.coherency == Coherency::Coherent
            &&& Rv64SvpbmtPte::flags_of(raw).access == flags.access
            &&& Rv64SvpbmtPte::flags_of(raw).attrs.cache == if raw & 0x6000_0000_0000_0000
                == 0x2000_0000_0000_0000 {
                CachePolicy::WriteCombine
            } else if raw & 0x6000_0000_0000_0000 == 0x4000_0000_0000_0000 {
                CachePolicy::Uncached
            } else {
                CachePolicy::Writeback
            }
        }),
        Rv64Pte::present(raw) <==> raw & 0x1 != 0,
        Rv64SvpbmtPte::present(raw) <==> raw & 0x1 != 0,
        Rv64Pte::target(raw) == (raw & 0x003f_ffff_ffff_fc00) * 4,
        Rv64SvpbmtPte::target(raw) == (raw & 0x003f_ffff_ffff_fc00) * 4,
        ({
            let sound = raw & 0x1 != 0 && !(raw & 0x4 != 0 && raw & 0x2 == 0);
            let used = raw & 0x2 != 0 || raw & 0x4 != 0 || raw & 0x8 != 0;
            let role = if used {
                PageTableEntryKind::Leaf
            } else if level > 1 {
                PageTableEntryKind::Table
            } else {
                PageTableEntryKind::Invalid
            };
            &&& Rv64Pte::kind(raw, level) == if sound && raw & 0xffc0_0000_0000_0000 == 0 {
                role
            } else {
                PageTableEntryKind::Invalid
            }
            &&& Rv64SvpbmtPte::kind(raw, level) == if sound && raw & 0x9fc0_0000_0000_0000 == 0
                && raw & 0x6000_0000_0000_0000 != 0x6000_0000_0000_0000 {
                role
            } else {
                PageTableEntryKind::Invalid
            }
        }),
        Rv64Pte::table_raw(table, level) == ((table & 0x00ff_ffff_ffff_f000) >> 2) | 0x1,
        Rv64SvpbmtPte::table_raw(table, level) == ((table & 0x00ff_ffff_ffff_f000) >> 2) | 0x1,
{
    let m = (((raw >> 1) & 0x1f) as u8) & 0x1f;
    AccessFlags::of(m).law_five_bits(m);
    let v = m & 0x1f;
    let t = (raw & 0x6000_0000_0000_0000) >> 61;
    assert((v & 1 != 0 <==> raw & 0x2 != 0) && (v & 2 != 0 <==> raw & 0x4 != 0) && (v & 4 != 0
        <==> raw & 0x8 != 0) && (v & 8 != 0 <==> raw & 0x10 != 0) && (v & 16 != 0 <==> raw & 0x20
        != 0) && v & 0xe0 == 0 && (t == 1 <==> raw & 0x6000_0000_0000_0000
        == 0x2000_0000_0000_0000) && (t == 2 <==> raw & 0x6000_0000_0000_0000
        == 0x4000_0000_0000_0000) && (t == 3 <==> raw & 0x6000_0000_0000_0000
        == 0x6000_0000_0000_0000) && ((raw & 0x003f_ffff_ffff_fc00) >> 10) << 12 == (raw
        & 0x003f_ffff_ffff_fc00) * 4 && (raw & (2u64 | 4u64 | 8u64) != 0 <==> raw & 0x2 != 0 || raw
        & 0x4 != 0 || raw & 0x8 != 0) && (((table >> 12) << 10) & 0x003f_ffff_ffff_fc00) | 1u64 == ((
    table & 0x00ff_ffff_ffff_f000) >> 2) | 0x1) by (bit_vector)
        requires
            v == m & 0x1f,
            m == (((raw >> 1) & 0x1f) as u8) & 0x1f,
            t == (raw & 0x6000_0000_0000_0000) >> 61,
    ;
}

/// The shapes of the formats: how many levels there are, how wide physical
/// addresses are and which virtual ones are legal, how large pages and tables are,
/// which leaves each level has, and which address bits select its entry.
pub proof fn law_rv64_shapes(level: u8, size: PageSize, vaddr: u64)
    ensures
        ({
            &&& Rv64Meta39::LEVELS == 3
            &&& Rv64Meta39::PA_MAX_BITS == 56
            &&& Rv64Meta39::BASE_PAGE_SIZE.len() == 0x1000
            &&& Rv64Meta39::TABLE_FRAME_SIZE.len() == 0x1000
            &&& Rv64Meta39::ENTRIES_PER_TABLE == 512
            &&& Rv64Meta39::in_range(vaddr) <==> vaddr < 0x40_0000_0000 || vaddr
                >= 0xffff_ffc0_0000_0000
            &&& Rv64Meta39::supports(level, size) <==> {
                ||| level == 1 && size.len() == 0x1000
                ||| level == 2 && size.len() == 0x20_0000
                ||| level == 3 && size.len() == 0x4000_0000
            }
            &&& 1 <= level <= 3 ==> Rv64Meta39::shift(level) == 12 + 9 * (level - 1)
            &&& 1 <= level <= 3 ==> Rv64Meta39::index_bits(level) == 9
        }),
        ({
            &&& Rv64Meta48::LEVELS == 4
            &&& Rv64Meta48::PA_MAX_BITS == 56
            &&& Rv64Meta48::BASE_PAGE_SIZE.len() == 0x1000
            &&& Rv64Meta48::TABLE_FRAME_SIZE.len() == 0x1000
            &&& Rv64Meta48::ENTRIES_PER_TABLE == 512
            &&& Rv64Meta48::in_range(vaddr) <==> vaddr < 0x8000_0000_0000 || vaddr
                >= 0xffff_8000_0000_0000
            &&& Rv64Meta48::supports(level, size) <==> {
                ||| level == 1 && size.len() == 0x1000
                ||| level == 2 && size.len() == 0x20_0000
                ||| level == 3 && size.len() == 0x4000_0000
                ||| level == 4 && size.len() == 0x80_0000_0000
            }
            &&& 1 <= level <= 4 ==> Rv64Meta48::shift(level) == 12 + 9 * (level - 1)
            &&& 1 <= level <= 4 ==> Rv64Meta48::index_bits(level) == 9
        }),
        ({
            &&& Rv64Meta57::LEVELS == 5
            &&& Rv64Meta57::PA_MAX_BITS == 56
            &&& Rv64Meta57::BASE_PAGE_SIZE.len() == 0x1000
            &&& Rv64Meta57::TABLE_FRAME_SIZE.len() == 0x1000
            &&& Rv64Meta57::ENTRIES_PER_TABLE == 512
            &&& Rv64Meta57::in_range(vaddr) <==> vaddr < 0x100_0000_0000_0000 || vaddr
                >= 0xff00_0000_0000_0000
            &&& Rv64Meta57::supports(level, size) <==> {
                ||| level == 1 && size.len() == 0x1000
                ||| level == 2 && size.len() == 0x20_0000
                ||| level == 3 && size.len() == 0x4000_0000
                ||| level == 4 && size.len() == 0x80_0000_0000
            }
            &&& 1 <= level <= 5 ==> Rv64Meta57::shift(level) == 12 + 9 * (level - 1)
            &&& 1 <= level <= 5 ==> Rv64Meta57::index_bits(level) == 9
        }),
{
    lemma2_to64();
    lemma2_to64_rest();
    lemma_rv64_geometry();
}

/// New flags have read access beside what they are given, and describe write-back,
/// inner-shareable, coherent memory; a replacement of the cache policy changes nothing
/// else.
pub proof fn law_rv64_new_flags(
    access: AccessFlags,
    cache: CachePolicy,
    new: Rv64Flags,
    cached: Rv64Flags,
    read: CachePolicy,
)
    requires
        call_ensures(Rv64Flags::new, (access,), new),
        call_ensures(Rv64Flags::with_cache, (new, cache), cached),
        call_ensures(Rv64Flags::cache, (cached,), read),
    ensures
        new.access@ == access@ | 1,
        new.attrs.cache == CachePolicy::Writeback,
        new.attrs.shareability == Shareability::Inner,
        new.attrs.coherency == Coherency::Coherent,
        cached.access == new.access,
        cached.attrs.shareability == Shareability::Inner,
        cached.attrs.coherency == Coherency::Coherent,
        read == cache,
        cached.attrs.cache == cache,
{
}

} // verus!
