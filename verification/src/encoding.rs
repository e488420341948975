//! Which requests can be encoded.
//!
//! A walker asks of a request that the leaves it makes encode as leaves. Here
//! is shown when that holds of every request at once.

use crate::addr::{AddrRange, PhysAddr, PhysAddrRange};
use crate::effect::{
    formats_ok, leaf_at, leaf_size, located, merge_goal, mergeable, merged_raw, part, part_raw,
    protectable, remappable, split_leaf, splittable, table_at, uniform, TreeView,
};
use crate::error::PagingResult;
use crate::geometry::regular;
use crate::laws::{lemma_located, lemma_merge_goal};
use crate::mapping::{MapBacking, MappingContiguity};
use crate::meta::PageSize;
use crate::paging::{fits_bits, FrameAllocator, PageTableEntry, PageTableEntryKind, PagingMetaData};
use crate::plan::{
    contiguous_plan, exact_leaf, extent_plan, lemma_admitted, lemma_next_leaf, next_leaf,
    scatter_plan, well_placed, Placement,
};
use crate::request::{encodes, map_plan, word_of};
use crate::tree::{
    layout_ok, lemma_root, lemma_slot_bound, lemma_table, lemma_word, level_of, slot_of, storable,
    tableish, tree, walk, Walk,
};
use vstd::arithmetic::div_mod::{lemma_fundamental_div_mod, lemma_mod_multiples_basic};
use vstd::arithmetic::power2::{
    lemma2_to64_rest, lemma_pow2_adds, lemma_pow2_pos, lemma_pow2_strictly_increases, pow2,
};
use vstd::prelude::*;

verus! {

/// Whether leaves with these flags encode as leaves, whatever their address,
/// at every level that supports their size.
pub open spec fn always_leaf<Meta: PagingMetaData, Entry: PageTableEntry>(
    flags: Entry::Flags,
) -> bool {
    forall|paddr: u64, size: PageSize, level: u8|
        #![trigger Entry::leaf_raw(paddr, flags, size), Meta::supports(level, size)]
        1 <= level <= Meta::LEVELS && Meta::supports(level, size) && Entry::encodable(paddr)
            ==> storable::<Entry>(Entry::leaf_raw(paddr, flags, size), level)
}

/// Whether the flags that are read from a leaf can be written to another.
pub open spec fn flags_reusable<Meta: PagingMetaData, Entry: PageTableEntry>() -> bool {
    forall|raw: u64, level: u8| #[trigger]
        Entry::kind(raw, level) == PageTableEntryKind::Leaf && Entry::present(raw) ==> always_leaf::<
            Meta,
            Entry,
        >(Entry::flags_of(raw))
}

/// The leaves of an extent are well placed, as far as it can be cut.
proof fn lemma_extent_placed<Meta: PagingMetaData>(
    vbase: u64,
    pbase: u64,
    total: u64,
    offset: u64,
    fixed: Option<PageSize>,
)
    requires
        offset <= total,
    ensures
        ({
            let leaves = extent_plan::<Meta>(vbase, pbase, total, offset, fixed).leaves;
            forall|k: int| 0 <= k < leaves.len() ==> well_placed::<Meta>(#[trigger] leaves[k])
        }),
    decreases total - offset,
{
    if offset < total {
        if let Ok(leaf) = next_leaf::<Meta>(vbase, pbase, total, offset, fixed) {
            lemma_next_leaf::<Meta>(vbase, pbase, total, offset, fixed);
            let next = (offset + leaf.size.len()) as u64;
            let rest = extent_plan::<Meta>(vbase, pbase, total, next, fixed).leaves;
            lemma_extent_placed::<Meta>(vbase, pbase, total, next, fixed);
            let leaves = extent_plan::<Meta>(vbase, pbase, total, offset, fixed).leaves;
            assert(leaves =~= seq![leaf] + rest);
            assert forall|k: int| 0 <= k < leaves.len() implies well_placed::<Meta>(
                #[trigger] leaves[k],
            ) by {
                if k > 0 {
                    assert(leaves[k] == rest[k - 1]);
                }
            }
        }
    }
}

/// The leaves of a contiguous extent are well placed, as far as it can be cut.
proof fn lemma_contiguous_placed<Meta: PagingMetaData>(
    range: AddrRange<Meta::VirtAddr>,
    phys: PhysAddrRange,
    fixed: Option<PageSize>,
)
    ensures
        ({
            let leaves = contiguous_plan::<Meta>(range, phys, fixed).leaves;
            forall|k: int| 0 <= k < leaves.len() ==> well_placed::<Meta>(#[trigger] leaves[k])
        }),
{
    lemma_exact_placed::<Meta>(range, phys.lo(), fixed);
    lemma_extent_placed::<Meta>(range.lo(), phys.lo(), range.len(), 0, fixed);
}

/// A request that is one leaf is well placed.
proof fn lemma_exact_placed<Meta: PagingMetaData>(
    range: AddrRange<Meta::VirtAddr>,
    paddr: u64,
    fixed: Option<PageSize>,
)
    ensures
        exact_leaf::<Meta>(range, paddr, fixed) matches Ok(Some(leaf)) ==> well_placed::<Meta>(leaf),
{
    if let Some(size) = PageSize::of_len(range.len()) {
        lemma_admitted::<Meta>(range.lo(), range.hi(), paddr, size);
    }
}

/// The leaves of extents that follow one another are well placed, as far as
/// they can be cut.
proof fn lemma_scatter_placed<Meta: PagingMetaData>(
    vbase: u64,
    offset: int,
    extents: Seq<PhysAddrRange>,
    i: nat,
    granule: PageSize,
)
    ensures
        ({
            let leaves = scatter_plan::<Meta>(vbase, offset, extents, i, granule).leaves;
            forall|k: int| 0 <= k < leaves.len() ==> well_placed::<Meta>(#[trigger] leaves[k])
        }),
    decreases extents.len() - i,
{
    let leaves = scatter_plan::<Meta>(vbase, offset, extents, i, granule).leaves;
    if i < extents.len() {
        let extent = extents[i as int];
        let lo = vbase + offset;
        let hi = lo + extent.len();
        let vrange = AddrRange::<Meta::VirtAddr>::of(lo as u64, hi as u64);
        let first = contiguous_plan::<Meta>(vrange, extent, Some(granule));
        let rest = scatter_plan::<Meta>(vbase, offset + extent.len(), extents, i + 1, granule);
        lemma_contiguous_placed::<Meta>(vrange, extent, Some(granule));
        lemma_scatter_placed::<Meta>(vbase, offset + extent.len(), extents, i + 1, granule);
        assert forall|k: int| 0 <= k < leaves.len() implies well_placed::<Meta>(
            #[trigger] leaves[k],
        ) by {
            if k < first.leaves.len() {
                assert(leaves[k] == first.leaves[k]);
            } else {
                assert(leaves[k] == rest.leaves[k - first.leaves.len()]);
            }
        }
    }
}

/// Every leaf that a request asks for is well placed: it stands at a level that
/// supports its size, at a legal aligned address, and is backed by an aligned
/// address that an entry can hold. That is so also where the request cannot be
/// cut to its end.
pub proof fn law_plan_is_well_placed<Meta: PagingMetaData>(
    range: AddrRange<Meta::VirtAddr>,
    backing: PagingResult<MapBacking<'_>>,
    contiguity: MappingContiguity,
)
    ensures
        ({
            let leaves = map_plan::<Meta>(range, backing, contiguity).leaves;
            forall|k: int| 0 <= k < leaves.len() ==> well_placed::<Meta>(#[trigger] leaves[k])
        }),
{
    if let Ok(backing) = backing {
        match (contiguity, backing) {
            (MappingContiguity::Contiguous, MapBacking::Contiguous(phys)) => {
                lemma_exact_placed::<Meta>(range, phys.lo(), None);
                lemma_contiguous_placed::<Meta>(range, phys, None);
            },
            (MappingContiguity::Scattered(granule), MapBacking::Contiguous(phys)) => {
                lemma_contiguous_placed::<Meta>(range, phys, Some(granule));
            },
            (MappingContiguity::Scattered(granule), MapBacking::Scattered(extents)) => {
                lemma_scatter_placed::<Meta>(range.lo(), 0, extents@, 0, granule);
            },
            _ => {},
        }
    }
}

/// A map request can be encoded whatever it asks for, if leaves with its flags
/// always encode as leaves.
pub proof fn law_map_encodes<Meta: PagingMetaData, Entry: PageTableEntry, Alloc: FrameAllocator>(
    range: AddrRange<Meta::VirtAddr>,
    backing: PagingResult<MapBacking<'_>>,
    contiguity: MappingContiguity,
    flags: Entry::Flags,
)
    requires
        formats_ok::<Meta, Entry, Alloc>(),
        always_leaf::<Meta, Entry>(flags),
    ensures
        encodes::<Entry>(map_plan::<Meta>(range, backing, contiguity), flags),
{
    let plan = map_plan::<Meta>(range, backing, contiguity);
    law_plan_is_well_placed::<Meta>(range, backing, contiguity);
    assert forall|k: int| 0 <= k < plan.leaves.len() implies storable::<Entry>(
        word_of::<Entry>(#[trigger] plan.leaves[k], flags),
        plan.leaves[k].level,
    ) by {
        let leaf: Placement = plan.leaves[k];
        assert(well_placed::<Meta>(leaf));
        assert(leaf_at::<Meta>(leaf.level, leaf.size));
        assert(leaf_size::<Meta>(leaf.size));
        assert(Entry::encodable(leaf.paddr));
        assert(Meta::supports(leaf.level, leaf.size));
    }
}

/// A request to remap or protect a leaf of a supported size can be encoded
/// whatever it asks for, if leaves with its flags always encode as leaves.
pub proof fn law_change_encodes<Meta: PagingMetaData, Entry: PageTableEntry, Alloc: FrameAllocator>(
    view: TreeView,
    range: AddrRange<Meta::VirtAddr>,
    paddr: PhysAddr,
    flags: Entry::Flags,
)
    requires
        layout_ok::<Meta>(),
        tree::<Meta, Entry>(view.frames, view.tables, view.root),
        formats_ok::<Meta, Entry, Alloc>(),
        always_leaf::<Meta, Entry>(flags),
        located::<Meta, Entry>(view, range) matches Ok(leaf) ==> Meta::supports(
            leaf.level,
            leaf.size,
        ),
    ensures
        remappable::<Meta, Entry>(view, range, paddr, flags),
        protectable::<Meta, Entry>(view, range, flags),
{
    if let Ok(leaf) = located::<Meta, Entry>(view, range) {
        lemma_located::<Meta, Entry>(view, range);
        lemma_located_word::<Meta, Entry>(view, range);
        assert(leaf_at::<Meta>(leaf.level, leaf.size));
        assert(leaf_size::<Meta>(leaf.size));
    }
}

/// The word of a located leaf is one that the tree may hold.
proof fn lemma_located_word<Meta: PagingMetaData, Entry: PageTableEntry>(
    view: TreeView,
    range: AddrRange<Meta::VirtAddr>,
)
    requires
        layout_ok::<Meta>(),
        tree::<Meta, Entry>(view.frames, view.tables, view.root),
        located::<Meta, Entry>(view, range) is Ok,
    ensures
        storable::<Entry>(
            located::<Meta, Entry>(view, range)->Ok_0.raw,
            located::<Meta, Entry>(view, range)->Ok_0.level,
        ),
{
    let leaf = located::<Meta, Entry>(view, range)->Ok_0;
    lemma_located::<Meta, Entry>(view, range);
    lemma_root::<Meta, Entry>(view.frames, view.tables, view.root);
    lemma_walk_storable::<Meta, Entry>(view, view.root, range.lo());
}

/// A walk from a table of the tree ends at a word that the tree may hold.
proof fn lemma_walk_storable<Meta: PagingMetaData, Entry: PageTableEntry>(
    view: TreeView,
    t: u64,
    vaddr: u64,
)
    requires
        layout_ok::<Meta>(),
        tree::<Meta, Entry>(view.frames, view.tables, view.root),
        view.tables.contains_key(t),
    ensures
        walk::<Meta, Entry>(
            view.frames,
            t,
            level_of::<Meta>(view.tables, t),
            vaddr,
        ) matches Walk::Leaf { level, raw } ==> storable::<Entry>(raw, level),
    decreases level_of::<Meta>(view.tables, t),
{
    let level = level_of::<Meta>(view.tables, t);
    let slot = slot_of::<Meta>(level, vaddr);
    lemma_table::<Meta, Entry>(view.frames, view.tables, view.root, t);
    lemma_slot_bound::<Meta>(level, vaddr);
    lemma_word::<Meta, Entry>(view.frames, view.tables, view.root, t, slot);
    let raw = view.frames[t][slot];
    if tableish::<Entry>(raw, level) && level > 1 {
        lemma_walk_storable::<Meta, Entry>(view, Entry::target(raw), vaddr);
    }
}

/// A request to split a leaf into parts of a supported size can be encoded, if
/// flags read from a leaf can be written to another, and the addresses of the
/// parts can be held.
pub proof fn law_split_encodes<Meta: PagingMetaData, Entry: PageTableEntry>(
    view: TreeView,
    range: AddrRange<Meta::VirtAddr>,
)
    requires
        layout_ok::<Meta>(),
        tree::<Meta, Entry>(view.frames, view.tables, view.root),
        flags_reusable::<Meta, Entry>(),
        split_leaf::<Meta, Entry>(view, range) matches Ok((leaf, finer)) ==> {
            &&& Meta::supports((leaf.level - 1) as u8, finer)
            &&& forall|i: int|
                0 <= i < Meta::ENTRIES_PER_TABLE ==> #[trigger] part::<Entry>(leaf, finer, i)
                    <= u64::MAX && Entry::encodable(part::<Entry>(leaf, finer, i) as u64)
        },
    ensures
        splittable::<Meta, Entry>(view, range),
{
    if let Ok((leaf, finer)) = split_leaf::<Meta, Entry>(view, range) {
        let below = (leaf.level - 1) as u8;
        lemma_located::<Meta, Entry>(view, range);
        assert(Entry::kind(leaf.raw, leaf.level) == PageTableEntryKind::Leaf);
        assert(always_leaf::<Meta, Entry>(Entry::flags_of(leaf.raw)));
        assert forall|i: int| 0 <= i < Meta::ENTRIES_PER_TABLE implies {
            &&& #[trigger] part::<Entry>(leaf, finer, i) <= u64::MAX
            &&& Entry::encodable(part::<Entry>(leaf, finer, i) as u64)
            &&& storable::<Entry>(part_raw::<Entry>(leaf, finer, i), below)
        } by {
            let raw = Entry::leaf_raw(
                part::<Entry>(leaf, finer, i) as u64,
                Entry::flags_of(leaf.raw),
                finer,
            );
            assert(storable::<Entry>(raw, below));
        }
    }
}

/// The parts of an aligned block that fits `bits` bits are aligned and fit.
proof fn lemma_parts_fit(paddr: u64, bits: nat, size: nat, finer: nat, fan: nat, i: int)
    requires
        bits <= 64,
        finer + fan == size <= bits,
        paddr as int % pow2(size) as int == 0,
        paddr < pow2(bits),
        0 <= i < pow2(fan),
    ensures
        paddr + i * pow2(finer) < pow2(bits),
        (paddr + i * pow2(finer)) % pow2(finer) as int == 0,
{
    let whole = pow2(size) as int;
    let one = pow2(finer) as int;
    let n = pow2(fan) as int;
    let q = paddr as int / whole;
    let m = pow2((bits - size) as nat) as int;
    lemma_pow2_pos(size);
    lemma_pow2_pos(finer);
    lemma_pow2_pos(fan);
    lemma_pow2_adds(finer, fan);
    lemma_pow2_adds(size, (bits - size) as nat);
    lemma_fundamental_div_mod(paddr as int, whole);
    assert(q < m) by (nonlinear_arith)
        requires
            whole * q < whole * m,
            whole > 0,
    ;
    assert(whole * (q + 1) <= whole * m) by (nonlinear_arith)
        requires
            q + 1 <= m,
            whole > 0,
    ;
    assert(i * one <= (n - 1) * one) by (nonlinear_arith)
        requires
            i <= n - 1,
            one > 0,
    ;
    assert((n - 1) * one == whole - one) by (nonlinear_arith)
        requires
            one * n == whole,
    ;
    assert(whole * (q + 1) == whole * q + whole) by (nonlinear_arith);
    assert(paddr + i * one == one * (n * q + i)) by (nonlinear_arith)
        requires
            paddr == whole * q,
            one * n == whole,
    ;
    lemma_mod_multiples_basic(n * q + i, one);
    assert(one * (n * q + i) == (n * q + i) * one) by (nonlinear_arith);
}

/// A leaf that is aligned to its size can be split, if its parts are of a
/// supported size.
pub proof fn law_aligned_leaf_divides<
    Meta: PagingMetaData,
    Entry: PageTableEntry,
    Alloc: FrameAllocator,
>(view: TreeView, range: AddrRange<Meta::VirtAddr>)
    requires
        regular::<Meta>(),
        formats_ok::<Meta, Entry, Alloc>(),
        flags_reusable::<Meta, Entry>(),
        tree::<Meta, Entry>(view.frames, view.tables, view.root),
        split_leaf::<Meta, Entry>(view, range) matches Ok((leaf, finer)) ==> {
            let below = (leaf.level - 1) as u8;
            &&& Meta::supports(below, finer)
            &&& Meta::ENTRIES_PER_TABLE == pow2(Meta::index_bits(below) as nat)
            &&& Entry::target(leaf.raw) % leaf.size.len() == 0
            &&& fits_bits(Entry::target(leaf.raw), Meta::PA_MAX_BITS)
            &&& leaf.size.shift() <= Meta::PA_MAX_BITS
        },
    ensures
        splittable::<Meta, Entry>(view, range),
{
    if let Ok((leaf, finer)) = split_leaf::<Meta, Entry>(view, range) {
        let below = (leaf.level - 1) as u8;
        let paddr = Entry::target(leaf.raw);
        let bits: nat = if Meta::PA_MAX_BITS >= 64 {
            64
        } else {
            Meta::PA_MAX_BITS as nat
        };
        lemma_located::<Meta, Entry>(view, range);
        PageSize::lemma_of_shift(Meta::shift(below));
        lemma2_to64_rest();
        leaf.size.lemma_len();
        finer.lemma_len();
        assert(Meta::shift(below) + Meta::index_bits(below) == Meta::shift(leaf.level));
        assert(leaf_at::<Meta>(below, finer));
        assert(leaf_size::<Meta>(finer));
        if bits < 64 {
            lemma_pow2_strictly_increases(bits, 64);
        }
        assert forall|i: int| 0 <= i < Meta::ENTRIES_PER_TABLE implies #[trigger] part::<Entry>(
            leaf,
            finer,
            i,
        ) <= u64::MAX && Entry::encodable(part::<Entry>(leaf, finer, i) as u64) by {
            lemma_parts_fit(
                paddr,
                bits,
                leaf.size.shift() as nat,
                finer.shift() as nat,
                Meta::index_bits(below) as nat,
                i,
            );
        }
        law_split_encodes::<Meta, Entry>(view, range);
    }
}

/// A request to merge can be encoded whatever it asks for, if flags read from a
/// leaf can be written to another.
pub proof fn law_merge_encodes<Meta: PagingMetaData, Entry: PageTableEntry>(
    view: TreeView,
    range: AddrRange<Meta::VirtAddr>,
)
    requires
        layout_ok::<Meta>(),
        tree::<Meta, Entry>(view.frames, view.tables, view.root),
        flags_reusable::<Meta, Entry>(),
    ensures
        mergeable::<Meta, Entry>(view, range),
{
    if let Ok((size, level)) = merge_goal::<Meta>(range) {
        let below = (level - 1) as u8;
        lemma_merge_goal::<Meta>(range);
        if let Some(finer) = PageSize::of_shift(Meta::shift(below)) {
            assert forall|t: u64| #[trigger]
                table_at::<Meta>(view.tables, t, range.lo(), below) && uniform::<Meta, Entry>(
                    view.frames,
                    t,
                    below,
                    size,
                    finer,
                ) implies storable::<Entry>(merged_raw::<Entry>(view.frames, t, size), level) by {
                lemma_table::<Meta, Entry>(view.frames, view.tables, view.root, t);
                lemma_slot_bound::<Meta>(below, 0);
                lemma_word::<Meta, Entry>(view.frames, view.tables, view.root, t, 0);
                let first = view.frames[t][0];
                assert(Entry::kind(first, below) == PageTableEntryKind::Leaf);
                assert(always_leaf::<Meta, Entry>(Entry::flags_of(first)));
                assert(Meta::supports(level, size));
            }
        }
    }
}

} // verus!
