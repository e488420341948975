//! Which requests are granted, and what is answered to the others.
//!
//! The laws speak of the views before and after operations, related as the
//! contracts of [`crate::PageTableWalker`] relate them, and say on which words,
//! ranges and addresses each answer comes.

use crate::addr::{AddrRange, PhysAddr, PhysAddrRange};
use crate::cutting::{law_one_page_request, lemma_lowest};
use crate::effect::{
    hindrance, leads_to, located, lookup, merge_goal, merged, merged_raw, one_word, outcome,
    part_raw, placed, pointer_to, protected, pruned, refused, releases, remapped, split, split_leaf,
    status, supplies, table_at, tight, turned_down, uniform, unmapped, unmoved, vacant, LeafWord,
    TreeView,
};
use crate::encoding::law_plan_is_well_placed;
use crate::error::{PagingError, PagingResult};
use crate::flush::Pending;
use crate::laws::{law_map_keeps_mappings, lemma_merge_goal};
use crate::mapping::{MapBacking, Mapping, MappingContiguity, MappingFlags};
use crate::meta::PageSize;
use crate::paging::{
    lemma_level_for, lowest_level, poke, FrameEvent, PageTableEntry, PageTableEntryKind,
    PagingMetaData,
};
use crate::plan::{Placement, Plan};
use crate::request::{installs, map_effect, map_plan, mapped, queued_all, word_of};
use crate::tree::{
    ending, layout_ok, lemma_descend, lemma_obstacle_via, lemma_path_end, lemma_path_level,
    lemma_root_on_path, lemma_slot_bound, lemma_table, lemma_walk_via, level_of, obstacle, on_path,
    same_path, slot_of, tableish, top, tree, Walk,
};
use vstd::arithmetic::div_mod::{lemma_fundamental_div_mod, lemma_mod_bound};
use vstd::arithmetic::power2::{lemma_pow2_strictly_increases, pow2};
use vstd::prelude::*;

verus! {

/// Leaves that make up one leaf are merged, whatever else their words hold.
///
/// Where every entry of the table below is a present leaf, all have the flags of
/// the first, the first points at a multiple of the block size, and each
/// points as many finer pages behind it as its index, the range becomes one leaf
/// of its size, unless the allocator refuses the table back: then that is the
/// answer.
pub proof fn law_matching_parts_merge<Meta: PagingMetaData, Entry: PageTableEntry>(
    before: TreeView,
    after: TreeView,
    range: AddrRange<Meta::VirtAddr>,
    r: PagingResult<PageSize>,
    size: PageSize,
    level: u8,
    finer: PageSize,
    t: u64,
)
    requires
        layout_ok::<Meta>(),
        tree::<Meta, Entry>(before.frames, before.tables, before.root),
        merged::<Meta, Entry>(before, after, range, r),
        range.hi() == range.lo() + size.len(),
        range.lo() as int % size.len() as int == 0,
        Meta::in_range(range.lo()),
        Meta::in_range((range.hi() - 1) as u64),
        1 < level <= Meta::LEVELS,
        Meta::supports(level, size),
        forall|k: u8| 1 <= k < level ==> !Meta::supports(k, size),
        finer.len() == pow2(Meta::shift((level - 1) as u8) as nat),
        table_at::<Meta>(before.tables, t, range.lo(), (level - 1) as u8),
        Entry::target(before.frames[t][0]) as int % size.len() as int == 0,
        forall|i: int|
            0 <= i < Meta::ENTRIES_PER_TABLE ==> {
                let raw = #[trigger] before.frames[t][i];
                &&& Entry::present(raw)
                &&& Entry::kind(raw, (level - 1) as u8) == PageTableEntryKind::Leaf
                &&& Entry::flags_of(raw) == Entry::flags_of(before.frames[t][0])
                &&& Entry::target(raw) == Entry::target(before.frames[t][0]) + i * finer.len()
            },
    ensures
        match r {
            Ok(s) => s == size,
            Err(e) => after.log.len() == before.log.len() + 1 && (
            after.log.last() matches FrameEvent::Deallocated { range: frame, released }
                && frame.lo() == t && released == Err::<(), PagingError>(e)),
        },
{
    let below = (level - 1) as u8;
    lemma_goal::<Meta>(range, size, level, finer);
    assert(uniform::<Meta, Entry>(before.frames, t, below, size, finer));
    lemma_one_table::<Meta, Entry>(before, range.lo(), below, t);
}

/// Only leaves that make up one leaf are merged.
///
/// A merge that succeeds answers with the size of the range, which is one legal
/// and aligned page; every entry of the table below was a present leaf with the
/// flags of the first, at its place behind it, and that on a multiple of the
/// size; and the range now ends at the word that the format has for the first
/// leaf's address and flags at that size, with the table gone.
pub proof fn law_only_matching_parts_merge<Meta: PagingMetaData, Entry: PageTableEntry>(
    before: TreeView,
    after: TreeView,
    range: AddrRange<Meta::VirtAddr>,
    size: PageSize,
    level: u8,
    t: u64,
)
    requires
        layout_ok::<Meta>(),
        tree::<Meta, Entry>(before.frames, before.tables, before.root),
        merged::<Meta, Entry>(before, after, range, Ok(size)),
        1 < level <= Meta::LEVELS,
        Meta::supports(level, size),
        forall|k: u8| 1 <= k < level ==> !Meta::supports(k, size),
        table_at::<Meta>(before.tables, t, range.lo(), (level - 1) as u8),
    ensures
        range.hi() == range.lo() + size.len(),
        range.lo() as int % size.len() as int == 0,
        Meta::in_range(range.lo()),
        Meta::in_range((range.hi() - 1) as u64),
        Entry::target(before.frames[t][0]) as int % size.len() as int == 0,
        forall|i: int|
            0 <= i < Meta::ENTRIES_PER_TABLE ==> {
                let raw = #[trigger] before.frames[t][i];
                &&& Entry::present(raw)
                &&& Entry::kind(raw, (level - 1) as u8) == PageTableEntryKind::Leaf
                &&& Entry::flags_of(raw) == Entry::flags_of(before.frames[t][0])
                &&& Entry::target(raw) == Entry::target(before.frames[t][0]) + i * pow2(
                    Meta::shift((level - 1) as u8) as nat,
                )
            },
        ({
            let whole = Entry::leaf_raw(
                Entry::target(before.frames[t][0]),
                Entry::flags_of(before.frames[t][0]),
                size,
            );
            Entry::present(whole) && Entry::kind(whole, level) == PageTableEntryKind::Leaf
                ==> outcome::<Meta, Entry>(after, range.lo()) == (Walk::Leaf { level, raw: whole })
        }),
        !after.tables.contains_key(t),
        !after.frames.contains_key(t),
{
    let goal = merge_goal::<Meta>(range)->Ok_0.0;
    lemma_merge_goal::<Meta>(range);
    assert(goal == size);
    assert(lowest_level::<Meta>(level, size));
    lemma_level_for::<Meta>(level, size);
    goal.lemma_len();
    let below = (level - 1) as u8;
    let finer = PageSize::of_shift(Meta::shift(below))->0;
    PageSize::lemma_of_shift(Meta::shift(below));
    finer.lemma_len();
    lemma_one_table::<Meta, Entry>(before, range.lo(), below, t);
    assert(uniform::<Meta, Entry>(before.frames, t, below, size, finer));
    assert(same_path::<Meta>(range.lo(), range.lo(), level));
}

/// A range that is no page of any size cannot be merged: its size is not
/// supported, and nothing changes.
pub proof fn law_merge_wants_a_page<Meta: PagingMetaData, Entry: PageTableEntry>(
    before: TreeView,
    after: TreeView,
    range: AddrRange<Meta::VirtAddr>,
    r: PagingResult<PageSize>,
)
    requires
        merged::<Meta, Entry>(before, after, range, r),
        forall|size: PageSize| range.lo() + #[trigger] size.len() != range.hi(),
    ensures
        r == Err::<PageSize, PagingError>(PagingError::UnsupportedSize),
        after == before,
{
    if !range.empty() {
        assert forall|size: PageSize| #[trigger] size.len() != range.len() by {
            assert(range.lo() + size.len() != range.hi());
        }
    }
}

/// What is answered to a page that cannot be merged: that it is out of range
/// where its ends are not legal, that its size is not supported where no level
/// has it, and else that it cannot be coalesced: where it is misaligned, a page
/// of the lowest level, or not cut into finer pages. Nothing changes then.
pub proof fn law_merge_refusals<Meta: PagingMetaData, Entry: PageTableEntry>(
    before: TreeView,
    after: TreeView,
    range: AddrRange<Meta::VirtAddr>,
    r: PagingResult<PageSize>,
    size: PageSize,
)
    requires
        merged::<Meta, Entry>(before, after, range, r),
        range.lo() + size.len() == range.hi(),
    ensures
        ({
            let legal = Meta::in_range(range.lo()) && Meta::in_range((range.hi() - 1) as u64);
            let aligned = range.lo() as int % size.len() as int == 0;
            let supported = exists|level: u8|
                1 <= level <= Meta::LEVELS && #[trigger] Meta::supports(level, size);
            let lowest = Meta::LEVELS >= 1 && Meta::supports(1, size);
            let cut = exists|level: u8, t: u64|
                1 < level <= Meta::LEVELS && #[trigger] Meta::supports(level, size)
                    && #[trigger] table_at::<Meta>(
                    before.tables,
                    t,
                    range.lo(),
                    (level - 1) as u8,
                );
            let unlike = r == Err::<PageSize, PagingError>(PagingError::NotCoalescable) && after
                == before;
            &&& !legal ==> r == Err::<PageSize, PagingError>(PagingError::AddressOutOfRange)
                && after == before
            &&& legal && !aligned ==> unlike
            &&& legal && aligned && !supported ==> r == Err::<PageSize, PagingError>(
                PagingError::UnsupportedSize,
            ) && after == before
            &&& legal && aligned && lowest ==> unlike
            &&& legal && aligned && supported && !cut ==> unlike
        }),
{
    size.lemma_len();
    size.lemma_unique();
    if exists|level: u8| 1 <= level <= Meta::LEVELS && #[trigger] Meta::supports(level, size) {
        let level: u8 = choose|level: u8|
            1 <= level <= Meta::LEVELS && #[trigger] Meta::supports(level, size);
        lemma_lowest::<Meta>(level, size);
    } else if exists|level: u8| lowest_level::<Meta>(level, size) {
        let level: u8 = choose|level: u8| lowest_level::<Meta>(level, size);
        assert(Meta::supports(level, size));
    }
    if Meta::LEVELS >= 1 && Meta::supports(1, size) {
        assert(lowest_level::<Meta>(1, size));
        lemma_level_for::<Meta>(1, size);
    }
    if let Ok((goal, level)) = merge_goal::<Meta>(range) {
        lemma_merge_goal::<Meta>(range);
        assert(goal == size);
        let below = (level - 1) as u8;
        if exists|t: u64| table_at::<Meta>(before.tables, t, range.lo(), below) {
            let t: u64 = choose|t: u64| table_at::<Meta>(before.tables, t, range.lo(), below);
            assert(Meta::supports(level, size) && table_at::<Meta>(
                before.tables,
                t,
                range.lo(),
                (level - 1) as u8,
            ));
        }
    }
}

/// What a page-sized range names as the goal of a merge.
proof fn lemma_goal<Meta: PagingMetaData>(
    range: AddrRange<Meta::VirtAddr>,
    size: PageSize,
    level: u8,
    finer: PageSize,
)
    requires
        layout_ok::<Meta>(),
        range.hi() == range.lo() + size.len(),
        range.lo() as int % size.len() as int == 0,
        Meta::in_range(range.lo()),
        Meta::in_range((range.hi() - 1) as u64),
        1 < level <= Meta::LEVELS,
        Meta::supports(level, size),
        forall|k: u8| 1 <= k < level ==> !Meta::supports(k, size),
        finer.len() == pow2(Meta::shift((level - 1) as u8) as nat),
    ensures
        merge_goal::<Meta>(range) == Ok::<(PageSize, u8), PagingError>((size, level)),
        PageSize::of_shift(Meta::shift((level - 1) as u8)) == Some(finer),
{
    size.lemma_len();
    size.lemma_unique();
    assert(lowest_level::<Meta>(level, size));
    lemma_level_for::<Meta>(level, size);
    lemma_size_of_shift(finer, Meta::shift((level - 1) as u8));
}

/// A size of a power of two is the size of that shift.
proof fn lemma_size_of_shift(size: PageSize, shift: u32)
    requires
        size.len() == pow2(shift as nat),
    ensures
        size.shift() == shift,
        PageSize::of_shift(shift) == Some(size),
{
    size.lemma_len();
    if size.shift() < shift {
        lemma_pow2_strictly_increases(size.shift() as nat, shift as nat);
    } else if shift < size.shift() {
        lemma_pow2_strictly_increases(shift as nat, size.shift() as nat);
    }
    PageSize::lemma_of_shift(shift);
    size.lemma_unique();
}

/// The path of an address has no two tables at one level.
proof fn lemma_one_table<Meta: PagingMetaData, Entry: PageTableEntry>(
    view: TreeView,
    vaddr: u64,
    level: u8,
    t: u64,
)
    requires
        layout_ok::<Meta>(),
        tree::<Meta, Entry>(view.frames, view.tables, view.root),
        table_at::<Meta>(view.tables, t, vaddr, level),
    ensures
        forall|u: u64| #[trigger] table_at::<Meta>(view.tables, u, vaddr, level) ==> u == t,
{
    assert forall|u: u64| #[trigger] table_at::<Meta>(view.tables, u, vaddr, level) implies u
        == t by {
        lemma_path_level::<Meta, Entry>(view.frames, view.tables, view.root, t, u, vaddr);
    }
}

/// Translation follows the words of the tables: it starts in the root, and in
/// the table that it reaches at a level it reads the word that the address bits
/// of the level select. A word that is not present ends it without a mapping, a
/// leaf ends it there, a word without a meaning at its level is an error, and a
/// table pointer leads to the table that it points at, one level below.
pub proof fn law_translation_follows_words<Meta: PagingMetaData, Entry: PageTableEntry>(
    view: TreeView,
    vaddr: u64,
    t: u64,
    level: u8,
)
    requires
        layout_ok::<Meta>(),
        tree::<Meta, Entry>(view.frames, view.tables, view.root),
    ensures
        table_at::<Meta>(view.tables, view.root, vaddr, Meta::LEVELS as u8),
        table_at::<Meta>(view.tables, t, vaddr, level) ==> {
            let slot = vaddr as int / pow2(Meta::shift(level) as nat) as int % pow2(
                Meta::index_bits(level) as nat,
            ) as int;
            let raw = view.frames[t][slot];
            let end = outcome::<Meta, Entry>(view, vaddr);
            &&& 1 <= level <= Meta::LEVELS
            &&& 0 <= slot < Meta::ENTRIES_PER_TABLE
            &&& if !Entry::present(raw) {
                end == Walk::Absent
            } else {
                match Entry::kind(raw, level) {
                    PageTableEntryKind::Leaf => end == (Walk::Leaf { level, raw }),
                    PageTableEntryKind::Invalid => end == Walk::Invalid,
                    PageTableEntryKind::Table => level > 1 && table_at::<Meta>(
                        view.tables,
                        Entry::target(raw),
                        vaddr,
                        (level - 1) as u8,
                    ),
                }
            }
        },
{
    lemma_root_on_path::<Meta, Entry>(view.frames, view.tables, view.root, vaddr);
    if table_at::<Meta>(view.tables, t, vaddr, level) {
        lemma_table::<Meta, Entry>(view.frames, view.tables, view.root, t);
        lemma_slot_bound::<Meta>(level, vaddr);
        lemma_walk_via::<Meta, Entry>(view.frames, view.tables, view.root, t, vaddr);
        let raw = view.frames[t][slot_of::<Meta>(level, vaddr)];
        if Entry::present(raw) && Entry::kind(raw, level) == PageTableEntryKind::Table {
            lemma_descend::<Meta, Entry>(view.frames, view.tables, view.root, t, vaddr);
        }
    }
}

/// What stands in the way of a new leaf follows from the words on the way to it:
/// a leaf above its level, or anything present at it, is a mapping that is
/// already there; a word without a meaning above it is an error; a word that is
/// not present leaves the way free.
pub proof fn law_obstacle_follows_words<Meta: PagingMetaData, Entry: PageTableEntry>(
    view: TreeView,
    vaddr: u64,
    target: u8,
    t: u64,
    level: u8,
)
    requires
        layout_ok::<Meta>(),
        tree::<Meta, Entry>(view.frames, view.tables, view.root),
        1 <= target <= level,
        table_at::<Meta>(view.tables, t, vaddr, level),
    ensures
        ({
            let slot = vaddr as int / pow2(Meta::shift(level) as nat) as int % pow2(
                Meta::index_bits(level) as nat,
            ) as int;
            let raw = view.frames[t][slot];
            let found = hindrance::<Meta, Entry>(view, vaddr, target);
            &&& !Entry::present(raw) ==> found is None
            &&& Entry::present(raw) && level == target ==> found == Some(PagingError::AlreadyMapped)
            &&& Entry::present(raw) && level > target && Entry::kind(raw, level)
                == PageTableEntryKind::Leaf ==> found == Some(PagingError::AlreadyMapped)
            &&& Entry::present(raw) && level > target && Entry::kind(raw, level)
                == PageTableEntryKind::Invalid ==> found == Some(PagingError::InvalidEntryKind)
        }),
{
    lemma_obstacle_via::<Meta, Entry>(view.frames, view.tables, view.root, t, vaddr, target);
}

/// What a query answers: an address that is not legal is out of range, one whose
/// translation ends at nothing is not mapped, and one that ends at a leaf gets
/// the page of the leaf's level around it, with the address and flags of the leaf's
/// word.
pub proof fn law_query_answers<Meta: PagingMetaData, Entry: PageTableEntry>(
    view: TreeView,
    vaddr: u64,
)
    requires
        layout_ok::<Meta>(),
    ensures
        ({
            let answer = lookup::<Meta, Entry>(view, vaddr);
            if !Meta::in_range(vaddr) {
                answer matches Err(e) && e == PagingError::AddressOutOfRange
            } else {
                match outcome::<Meta, Entry>(view, vaddr) {
                    Walk::Absent => answer matches Err(e) && e == PagingError::NotMapped,
                    Walk::Invalid => answer matches Err(e) && e == PagingError::InvalidEntryKind,
                    Walk::Leaf { level, raw } => {
                        let len = pow2(Meta::shift(level) as nat) as int;
                        let lo = vaddr as int / len * len;
                        let sized = exists|size: PageSize| #[trigger] size.len() == len;
                        match answer {
                            Ok(m) => {
                                &&& sized
                                &&& m.range.lo() == lo
                                &&& m.range.hi() == lo + len
                                &&& m.paddr.0 == Entry::target(raw)
                                &&& m.flags == Entry::flags_of(raw)
                            },
                            Err(e) => if sized {
                                e == PagingError::AddressOutOfRange && lo + len > u64::MAX
                            } else {
                                e == PagingError::UnsupportedSize
                            },
                        }
                    },
                }
            }
        }),
{
    if let Walk::Leaf { level, raw } = outcome::<Meta, Entry>(view, vaddr) {
        let len = pow2(Meta::shift(level) as nat) as int;
        PageSize::lemma_of_shift(Meta::shift(level));
        if let Some(size) = PageSize::of_shift(Meta::shift(level)) {
            size.lemma_len();
            lemma_fundamental_div_mod(vaddr as int, len);
            lemma_mod_bound(vaddr as int, len);
            assert(vaddr as int / len * len == len * (vaddr as int / len)) by (nonlinear_arith);
            assert(size.len() == len);
        }
        if exists|size: PageSize| #[trigger] size.len() == len {
            let size: PageSize = choose|size: PageSize| #[trigger] size.len() == len;
            lemma_size_of_shift(size, Meta::shift(level));
        }
    }
}

/// What the operations on one leaf take for that leaf: the one that a query at
/// the start of the range finds, if it covers exactly the range. Where the query
/// fails they fail alike, and where it finds another range, nothing is mapped
/// there. A replacement must fit the format's addresses, before all else, and be
/// a multiple of the range's size.
pub proof fn law_remap_answers<Meta: PagingMetaData, Entry: PageTableEntry>(
    before: TreeView,
    after: TreeView,
    range: AddrRange<Meta::VirtAddr>,
    paddr: PhysAddr,
    flags: Entry::Flags,
    r: PagingResult<Mapping<Entry, Meta::VirtAddr>>,
)
    requires
        layout_ok::<Meta>(),
        remapped::<Meta, Entry>(before, after, range, paddr, flags, r),
    ensures
        r is Err ==> after == before,
        if Meta::PA_MAX_BITS < 64 && paddr.0 >= pow2(Meta::PA_MAX_BITS as nat) {
            r matches Err(e) && e == PagingError::AddressOutOfRange
        } else {
            match lookup::<Meta, Entry>(before, range.lo()) {
                Err(x) => r matches Err(e) && e == x,
                Ok(m) => if m.range != range {
                    r matches Err(e) && e == PagingError::NotMapped
                } else if paddr.0 as int % (range.hi() - range.lo()) != 0 {
                    r matches Err(e) && e == PagingError::NotAligned
                } else {
                    r matches Ok(new) && new.range == range && new.paddr == paddr && new.flags
                        == flags
                },
            }
        },
{
    lemma_found::<Meta, Entry>(before, range);
}

/// Protecting a leaf answers with the range and address that a query found
/// and the new flags; it fails as the query fails, and finds nothing mapped
/// where the query finds another range.
pub proof fn law_protect_answers<Meta: PagingMetaData, Entry: PageTableEntry>(
    before: TreeView,
    after: TreeView,
    range: AddrRange<Meta::VirtAddr>,
    flags: Entry::Flags,
    r: PagingResult<Mapping<Entry, Meta::VirtAddr>>,
)
    requires
        layout_ok::<Meta>(),
        protected::<Meta, Entry>(before, after, range, flags, r),
    ensures
        r is Err ==> after == before,
        match lookup::<Meta, Entry>(before, range.lo()) {
            Err(x) => r matches Err(e) && e == x,
            Ok(m) => if m.range != range {
                r matches Err(e) && e == PagingError::NotMapped
            } else {
                r matches Ok(new) && new.range == range && new.paddr == m.paddr && new.flags
                    == flags
            },
        },
{
    lemma_found::<Meta, Entry>(before, range);
}

/// Unmapping a leaf answers with what a query found, unless the allocator
/// refuses a table back: then that is the answer. It fails as the query
/// fails, and finds nothing mapped where the query finds another range.
pub proof fn law_unmap_answers<Meta: PagingMetaData, Entry: PageTableEntry>(
    before: TreeView,
    after: TreeView,
    range: AddrRange<Meta::VirtAddr>,
    r: PagingResult<Mapping<Entry, Meta::VirtAddr>>,
)
    requires
        layout_ok::<Meta>(),
        unmapped::<Meta, Entry>(before, after, range, r),
    ensures
        match lookup::<Meta, Entry>(before, range.lo()) {
            Err(x) => after == before && (r matches Err(e) && e == x),
            Ok(m) => if m.range != range {
                after == before && (r matches Err(e) && e == PagingError::NotMapped)
            } else {
                match r {
                    Ok(gone) => gone.range == range && gone.paddr == m.paddr && gone.flags
                        == m.flags,
                    Err(e) => after.log.len() > before.log.len() && (
                    after.log.last() matches FrameEvent::Deallocated { released, .. } && released
                        == Err::<(), PagingError>(e)),
                }
            },
        },
{
    lemma_found::<Meta, Entry>(before, range);
}

/// Splitting a leaf above the lowest level answers with the size of the parts,
/// that of the level below, unless the allocator gives no frame for their table:
/// then that is the answer. It fails as a query fails, and finds nothing to split
/// where the query finds another range or a leaf of the lowest level.
pub proof fn law_split_answers<Meta: PagingMetaData, Entry: PageTableEntry>(
    before: TreeView,
    after: TreeView,
    range: AddrRange<Meta::VirtAddr>,
    r: PagingResult<PageSize>,
)
    requires
        layout_ok::<Meta>(),
        split::<Meta, Entry>(before, after, range, r),
    ensures
        match lookup::<Meta, Entry>(before, range.lo()) {
            Err(x) => {
                let lowest = Meta::in_range(range.lo()) && (outcome::<Meta, Entry>(
                    before,
                    range.lo(),
                ) matches Walk::Leaf { level, .. } && level == 1);
                &&& after == before
                &&& r matches Err(e) && e == if lowest {
                    PagingError::NotMapped
                } else {
                    x
                }
            },
            Ok(m) => {
                let level = outcome::<Meta, Entry>(before, range.lo())->level;
                let len = pow2(Meta::shift((level - 1) as u8) as nat);
                if m.range != range || level == 1 {
                    after == before && (r matches Err(e) && e == PagingError::NotMapped)
                } else if forall|size: PageSize| #[trigger] size.len() != len {
                    after == before && (r matches Err(e) && e == PagingError::UnsupportedSize)
                } else {
                    match r {
                        Ok(size) => size.len() == len,
                        Err(e) => frame_denied::<Meta>(before.log, after.log, e),
                    }
                }
            },
        },
{
    lemma_found::<Meta, Entry>(before, range);
    if let Ok(m) = lookup::<Meta, Entry>(before, range.lo()) {
        let level = outcome::<Meta, Entry>(before, range.lo())->level;
        let shift = Meta::shift((level - 1) as u8);
        PageSize::lemma_of_shift(shift);
        if let Some(finer) = PageSize::of_shift(shift) {
            finer.lemma_len();
        }
        assert forall|size: PageSize| #[trigger] size.len() == pow2(
            shift as nat,
        ) implies PageSize::of_shift(shift) == Some(size) by {
            lemma_size_of_shift(size, shift);
        }
        if let Err(e) = r {
            if m.range == range && level != 1 && PageSize::of_shift(shift) is Some {
                lemma_denied::<Meta>(before.log, after.log, e);
            }
        }
    }
}

/// Whether the `i`-th allocator call asked for a table frame and got none: it was
/// answered with `error`, or with a range that is not one aligned frame, which was
/// handed back at once.
pub open spec fn denied_at<Meta: PagingMetaData>(
    log: Seq<FrameEvent>,
    i: int,
    error: PagingError,
) -> bool {
    let len = Meta::TABLE_FRAME_SIZE.len();
    match log[i] {
        FrameEvent::Allocated { size, align, granted } => {
            &&& size == len
            &&& align == Meta::TABLE_FRAME_SIZE
            &&& match granted {
                Err(e) => e == error,
                Ok(range) => {
                    &&& error == PagingError::NotAligned
                    &&& range.lo() + len != range.hi() || range.lo() as int % len as int != 0
                    &&& i + 1 < log.len()
                    &&& log[i + 1] matches FrameEvent::Deallocated { range: back, .. } && back
                        == range
                },
            }
        },
        FrameEvent::Deallocated { .. } => false,
    }
}

/// Whether one of the allocator calls that turned `before` into `after` asked for
/// a table frame and got none, seen as `error`.
pub open spec fn frame_denied<Meta: PagingMetaData>(
    before: Seq<FrameEvent>,
    after: Seq<FrameEvent>,
    error: PagingError,
) -> bool {
    exists|i: int|
        before.len() <= i < after.len() && #[trigger] denied_at::<Meta>(after, i, error)
}

/// A refused request was denied a frame.
pub(crate) proof fn lemma_denied<Meta: PagingMetaData>(
    before: Seq<FrameEvent>,
    after: Seq<FrameEvent>,
    error: PagingError,
)
    requires
        refused::<Meta>(before, after, error),
    ensures
        frame_denied::<Meta>(before, after, error),
{
    let n = after.len() as int;
    Meta::TABLE_FRAME_SIZE.lemma_len();
    if after[n - 1] is Allocated {
        assert(denied_at::<Meta>(after, n - 1, error));
    } else {
        assert(denied_at::<Meta>(after, n - 2, error));
    }
}

/// A leaf covers exactly a range where a query at its start finds that range.
proof fn lemma_found<Meta: PagingMetaData, Entry: PageTableEntry>(
    view: TreeView,
    range: AddrRange<Meta::VirtAddr>,
)
    requires
        layout_ok::<Meta>(),
    ensures
        match lookup::<Meta, Entry>(view, range.lo()) {
            Err(x) => located::<Meta, Entry>(view, range) == Err::<LeafWord, PagingError>(x),
            Ok(m) => if m.range != range {
                located::<Meta, Entry>(view, range) == Err::<LeafWord, PagingError>(
                    PagingError::NotMapped,
                )
            } else {
                located::<Meta, Entry>(view, range) matches Ok(leaf) && outcome::<Meta, Entry>(
                    view,
                    range.lo(),
                ) == (Walk::Leaf { level: leaf.level, raw: leaf.raw }) && m.paddr.0
                    == Entry::target(leaf.raw) && m.flags == Entry::flags_of(leaf.raw)
                    && leaf.size.len() == range.hi() - range.lo()
            },
        },
{
    if let Walk::Leaf { level, raw } = outcome::<Meta, Entry>(view, range.lo()) {
        PageSize::lemma_of_shift(Meta::shift(level));
        if let Some(size) = PageSize::of_shift(Meta::shift(level)) {
            size.lemma_len();
            lemma_mod_bound(range.lo() as int, size.len() as int);
        }
    }
}

/// A mapping request succeeds only where all of it can be cut into leaves, and
/// fails only for a cause: the error that its cutting ends with, something that
/// stands in the way of a leaf, or a table frame that the allocator did not give.
pub proof fn law_map_fails_for_cause<Meta: PagingMetaData, Entry: PageTableEntry>(
    before: TreeView,
    after: TreeView,
    range: AddrRange<Meta::VirtAddr>,
    backing: PagingResult<MapBacking<'_>>,
    flags: MappingFlags<Entry::Flags>,
    due: Pending,
    r: PagingResult,
)
    requires
        layout_ok::<Meta>(),
        map_effect::<Meta, Entry>(before, after, range, backing, flags, due, r),
    ensures
        ({
            let stop = map_plan::<Meta>(range, backing, flags.contiguity).stop;
            match r {
                Ok(_) => stop is None,
                Err(e) => stop == Some(e) || e == PagingError::AlreadyMapped || e
                    == PagingError::InvalidEntryKind || frame_denied::<Meta>(
                    before.log,
                    after.log,
                    e,
                ),
            }
        }),
{
    let plan = map_plan::<Meta>(range, backing, flags.contiguity);
    let k: int = choose|k: int| #[trigger]
        mapped::<Meta, Entry>(before, after, plan, flags.leaf, k, r) && due == queued_all(
            Pending::Ranges(Set::empty()),
            plan.leaves.take(k),
            Meta::BASE_PAGE_SIZE,
        );
    assert(mapped::<Meta, Entry>(before, after, plan, flags.leaf, k, r));
    let mid: TreeView = choose|mid: TreeView|
        {
            &&& #[trigger] installs::<Meta, Entry>(before, mid, plan.leaves.take(k), flags.leaf)
            &&& if k == plan.leaves.len() {
                &&& after == mid
                &&& match plan.stop {
                    None => r is Ok,
                    Some(e) => r == Err::<(), PagingError>(e),
                }
            } else {
                r matches Err(e) && turned_down::<Meta, Entry>(mid, after, plan.leaves[k], e)
            }
        };
    lemma_log_grows::<Meta, Entry>(before, mid, plan.leaves.take(k), flags.leaf);
    if k < plan.leaves.len() {
        let e = r->Err_0;
        let leaf = plan.leaves[k];
        match hindrance::<Meta, Entry>(mid, leaf.vaddr, leaf.level) {
            Some(x) => {
                lemma_obstacle_kinds::<Meta, Entry>(
                    mid.frames,
                    mid.root,
                    top::<Meta>(),
                    leaf.vaddr,
                    leaf.level,
                );
            },
            None => {
                lemma_denied::<Meta>(mid.log, after.log, e);
                let i: int = choose|i: int|
                    mid.log.len() <= i < after.log.len() && #[trigger] denied_at::<Meta>(
                        after.log,
                        i,
                        e,
                    );
                assert(before.log.len() <= i < after.log.len());
                assert(denied_at::<Meta>(after.log, i, e));
            },
        }
    }
}

/// What stands in the way is a mapping or an entry without a meaning.
proof fn lemma_obstacle_kinds<Meta: PagingMetaData, Entry: PageTableEntry>(
    mem: Map<u64, Seq<u64>>,
    table: u64,
    level: u8,
    vaddr: u64,
    target: u8,
)
    ensures
        obstacle::<Meta, Entry>(mem, table, level, vaddr, target) matches Some(e) ==> e
            == PagingError::AlreadyMapped || e == PagingError::InvalidEntryKind,
    decreases level,
{
    let raw = mem[table][slot_of::<Meta>(level, vaddr)];
    if level > 0 {
        lemma_obstacle_kinds::<Meta, Entry>(
            mem,
            Entry::target(raw),
            (level - 1) as u8,
            vaddr,
            target,
        );
    }
}

/// Installing leaves only adds to the log.
proof fn lemma_log_grows<Meta: PagingMetaData, Entry: PageTableEntry>(
    before: TreeView,
    after: TreeView,
    leaves: Seq<Placement>,
    flags: Entry::Flags,
)
    requires
        installs::<Meta, Entry>(before, after, leaves, flags),
    ensures
        before.log.len() <= after.log.len(),
    decreases leaves.len(),
{
    if leaves.len() > 0 {
        let mid: TreeView = choose|mid: TreeView|
            installs::<Meta, Entry>(before, mid, leaves.drop_last(), flags) && #[trigger] placed::<
                Meta,
                Entry,
            >(mid, after, leaves.last(), word_of::<Entry>(leaves.last(), flags), Ok(()));
        lemma_log_grows::<Meta, Entry>(before, mid, leaves.drop_last(), flags);
        assert(mid.log.is_prefix_of(after.log));
    }
}

/// A request of one page is answered by what stands in its way, if something
/// does, and then nothing changes. Otherwise it succeeds, unless the allocator
/// gives no frame for a table, and its start then ends at the word that the
/// format has for the address and flags.
pub proof fn law_one_page_is_mapped<Meta: PagingMetaData, Entry: PageTableEntry>(
    before: TreeView,
    after: TreeView,
    range: AddrRange<Meta::VirtAddr>,
    phys: PhysAddrRange,
    flags: Entry::Flags,
    due: Pending,
    r: PagingResult,
    size: PageSize,
    level: u8,
)
    requires
        layout_ok::<Meta>(),
        map_effect::<Meta, Entry>(
            before,
            after,
            range,
            Ok(MapBacking::Contiguous(phys)),
            MappingFlags { leaf: flags, contiguity: MappingContiguity::Contiguous },
            due,
            r,
        ),
        range.lo() + size.len() == range.hi(),
        phys.lo() + size.len() == phys.hi(),
        Meta::in_range(range.lo()),
        Meta::in_range((range.hi() - 1) as u64),
        Meta::PA_MAX_BITS >= 64 || phys.lo() < pow2(Meta::PA_MAX_BITS as nat),
        range.lo() as int % size.len() as int == 0,
        phys.lo() as int % size.len() as int == 0,
        1 <= level <= Meta::LEVELS,
        Meta::supports(level, size),
        forall|k: u8| 1 <= k < level ==> !Meta::supports(k, size),
    ensures
        match hindrance::<Meta, Entry>(before, range.lo(), level) {
            Some(e) => r == Err::<(), PagingError>(e) && after == before,
            None => match r {
                Ok(_) => {
                    let raw = Entry::leaf_raw(phys.lo(), flags, size);
                    Entry::present(raw) && Entry::kind(raw, level) == PageTableEntryKind::Leaf
                        ==> outcome::<Meta, Entry>(after, range.lo()) == (Walk::Leaf { level, raw })
                },
                Err(e) => {
                    &&& frame_denied::<Meta>(before.log, after.log, e)
                    &&& forall|w: u64| #[trigger]
                        outcome::<Meta, Entry>(after, w) == outcome::<Meta, Entry>(before, w)
                },
            },
        },
{
    let contiguity = MappingContiguity::Contiguous;
    law_one_page_request::<Meta>(range, phys, size);
    assert(Meta::supports(level, size));
    let plan = map_plan::<Meta>(range, Ok(MapBacking::Contiguous(phys)), contiguity);
    let leaf = plan.leaves[0];
    assert(lowest_level::<Meta>(level, size));
    assert(lowest_level::<Meta>(leaf.level, size));
    lemma_level_for::<Meta>(level, size);
    lemma_level_for::<Meta>(leaf.level, size);
    let k: int = choose|k: int| #[trigger]
        mapped::<Meta, Entry>(before, after, plan, flags, k, r) && due == queued_all(
            Pending::Ranges(Set::empty()),
            plan.leaves.take(k),
            Meta::BASE_PAGE_SIZE,
        );
    assert(mapped::<Meta, Entry>(before, after, plan, flags, k, r));
    let mid: TreeView = choose|mid: TreeView|
        {
            &&& #[trigger] installs::<Meta, Entry>(before, mid, plan.leaves.take(k), flags)
            &&& if k == plan.leaves.len() {
                &&& after == mid
                &&& match plan.stop {
                    None => r is Ok,
                    Some(e) => r == Err::<(), PagingError>(e),
                }
            } else {
                r matches Err(e) && turned_down::<Meta, Entry>(mid, after, plan.leaves[k], e)
            }
        };
    if k == 0 {
        assert(plan.leaves.take(0).len() == 0);
        assert(mid == before);
        if hindrance::<Meta, Entry>(before, range.lo(), level) is None {
            lemma_denied::<Meta>(before.log, after.log, r->Err_0);
        }
        assert(unmoved::<Meta, Entry>(before, after));
    } else {
        assert(plan.leaves.take(1) =~= plan.leaves);
        assert(plan.leaves.drop_last().len() == 0);
        assert(plan.leaves.last() == leaf);
        let raw = word_of::<Entry>(leaf, flags);
        let start: TreeView = choose|start: TreeView|
            installs::<Meta, Entry>(before, start, plan.leaves.drop_last(), flags)
                && #[trigger] placed::<Meta, Entry>(start, after, leaf, raw, Ok(()));
        assert(installs::<Meta, Entry>(before, start, plan.leaves.drop_last(), flags));
        assert(start == before);
        assert(placed::<Meta, Entry>(before, after, leaf, raw, Ok(())));
        assert(same_path::<Meta>(range.lo(), range.lo(), level));
    }
    if r is Ok {
        assert(r->Ok_0 == ());
    }
}

/// A mapping request takes nothing away, whether it succeeds or not: every
/// address that led somewhere before leads there still.
pub proof fn law_request_keeps_mappings<Meta: PagingMetaData, Entry: PageTableEntry>(
    before: TreeView,
    after: TreeView,
    range: AddrRange<Meta::VirtAddr>,
    backing: MapBacking<'_>,
    flags: MappingFlags<Entry::Flags>,
    due: Pending,
    r: PagingResult,
    w: u64,
)
    requires
        layout_ok::<Meta>(),
        map_effect::<Meta, Entry>(before, after, range, Ok(backing), flags, due, r),
        outcome::<Meta, Entry>(before, w) != Walk::Absent,
    ensures
        outcome::<Meta, Entry>(after, w) == outcome::<Meta, Entry>(before, w),
{
    let plan = map_plan::<Meta>(range, Ok(backing), flags.contiguity);
    law_plan_is_well_placed::<Meta>(range, Ok(backing), flags.contiguity);
    let k: int = choose|k: int| #[trigger]
        mapped::<Meta, Entry>(before, after, plan, flags.leaf, k, r) && due == queued_all(
            Pending::Ranges(Set::empty()),
            plan.leaves.take(k),
            Meta::BASE_PAGE_SIZE,
        );
    assert(mapped::<Meta, Entry>(before, after, plan, flags.leaf, k, r));
    let mid: TreeView = choose|mid: TreeView|
        {
            &&& #[trigger] installs::<Meta, Entry>(before, mid, plan.leaves.take(k), flags.leaf)
            &&& if k == plan.leaves.len() {
                &&& after == mid
                &&& match plan.stop {
                    None => r is Ok,
                    Some(e) => r == Err::<(), PagingError>(e),
                }
            } else {
                r matches Err(e) && turned_down::<Meta, Entry>(mid, after, plan.leaves[k], e)
            }
        };
    assert forall|j: int| 0 <= j < k implies 1 <= (#[trigger] plan.leaves.take(k)[j]).level
        <= Meta::LEVELS by {
        assert(plan.leaves.take(k)[j] == plan.leaves[j]);
    }
    lemma_installs_keep::<Meta, Entry>(before, mid, plan.leaves.take(k), flags.leaf, w);
    if k < plan.leaves.len() {
        assert(unmoved::<Meta, Entry>(mid, after));
    }
}

/// Installing leaves takes nothing away.
proof fn lemma_installs_keep<Meta: PagingMetaData, Entry: PageTableEntry>(
    before: TreeView,
    after: TreeView,
    leaves: Seq<Placement>,
    flags: Entry::Flags,
    w: u64,
)
    requires
        layout_ok::<Meta>(),
        installs::<Meta, Entry>(before, after, leaves, flags),
        forall|j: int|
            0 <= j < leaves.len() ==> 1 <= (#[trigger] leaves[j]).level <= Meta::LEVELS,
        outcome::<Meta, Entry>(before, w) != Walk::Absent,
    ensures
        outcome::<Meta, Entry>(after, w) == outcome::<Meta, Entry>(before, w),
    decreases leaves.len(),
{
    if leaves.len() > 0 {
        let raw = word_of::<Entry>(leaves.last(), flags);
        let mid: TreeView = choose|mid: TreeView|
            installs::<Meta, Entry>(before, mid, leaves.drop_last(), flags) && #[trigger] placed::<
                Meta,
                Entry,
            >(mid, after, leaves.last(), raw, Ok(()));
        lemma_installs_keep::<Meta, Entry>(before, mid, leaves.drop_last(), flags, w);
        law_map_keeps_mappings::<Meta, Entry>(mid, after, leaves.last(), raw, Ok(()), w);
    }
}

/// Unmapping releases what it empties and no more. A table that is gone lay on
/// the path of the leaf and held nothing but what led to it; where the unmapping
/// succeeds, its frame is gone too, and every table that is left there, but for the
/// root, is in use.
pub proof fn law_unmap_releases_what_it_empties<Meta: PagingMetaData, Entry: PageTableEntry>(
    before: TreeView,
    after: TreeView,
    range: AddrRange<Meta::VirtAddr>,
    r: PagingResult<Mapping<Entry, Meta::VirtAddr>>,
    t: u64,
    level: u8,
)
    requires
        layout_ok::<Meta>(),
        tree::<Meta, Entry>(after.frames, after.tables, after.root),
        unmapped::<Meta, Entry>(before, after, range, r),
    ensures
        before.tables.contains_key(t) && !after.tables.contains_key(t) ==> {
            let slot = range.lo() as int / pow2(
                Meta::shift(level_of::<Meta>(before.tables, t)) as nat,
            ) as int % pow2(Meta::index_bits(level_of::<Meta>(before.tables, t)) as nat) as int;
            &&& on_path::<Meta>(before.tables, t, range.lo())
            &&& forall|j: int|
                0 <= j < Meta::ENTRIES_PER_TABLE && j != slot ==> !Entry::present(
                    #[trigger] before.frames[t][j],
                )
            &&& r is Ok ==> !after.frames.contains_key(t)
        },
        after.tables.contains_key(t) ==> before.tables.contains_key(t),
        r is Ok && table_at::<Meta>(after.tables, t, range.lo(), level) && (outcome::<Meta, Entry>(
            before,
            range.lo(),
        ) matches Walk::Leaf { level: at, .. } && at <= level < Meta::LEVELS) ==> exists|j: int|
            0 <= j < Meta::ENTRIES_PER_TABLE && Entry::present(#[trigger] after.frames[t][j]),
{
    if let Ok(leaf) = located::<Meta, Entry>(before, range) {
        let high: u8 = choose|high: u8|
            {
                &&& #[trigger] pruned::<Meta, Entry>(
                    before,
                    after,
                    range.lo(),
                    leaf.level,
                    high,
                    status(r),
                )
                &&& r is Ok ==> tight::<Meta, Entry>(after, range.lo(), high)
            };
        assert(pruned::<Meta, Entry>(before, after, range.lo(), leaf.level, high, status(r)));
        if r is Ok && table_at::<Meta>(after.tables, t, range.lo(), level) && level < Meta::LEVELS {
            assert(after.tables.contains_key(t));
            assert(level >= high);
            assert(high < Meta::LEVELS);
            let low: u64 = choose|low: u64| #[trigger]
                on_path::<Meta>(after.tables, low, range.lo()) && level_of::<Meta>(
                    after.tables,
                    low,
                ) == high && !vacant::<Meta, Entry>(after.frames, low);
            if level == high {
                lemma_path_level::<Meta, Entry>(
                    after.frames,
                    after.tables,
                    after.root,
                    low,
                    t,
                    range.lo(),
                );
            } else {
                let slot = slot_of::<Meta>(level, range.lo());
                lemma_table::<Meta, Entry>(after.frames, after.tables, after.root, t);
                lemma_slot_bound::<Meta>(level, range.lo());
                if !tableish::<Entry>(after.frames[t][slot], level) {
                    lemma_path_end::<Meta, Entry>(
                        after.frames,
                        after.tables,
                        after.root,
                        t,
                        low,
                        range.lo(),
                    );
                }
                assert(Entry::present(after.frames[t][slot]));
            }
        }
    }
}

/// Unmapping releases tables upwards from the leaf, one call for each: the first
/// that it released held the leaf, and each of the others the pointer to the one
/// before.
pub proof fn law_unmap_releases_upwards<Meta: PagingMetaData, Entry: PageTableEntry>(
    before: TreeView,
    after: TreeView,
    range: AddrRange<Meta::VirtAddr>,
    r: PagingResult<Mapping<Entry, Meta::VirtAddr>>,
    i: int,
)
    requires
        unmapped::<Meta, Entry>(before, after, range, r),
        before.log.len() <= i < after.log.len(),
    ensures
        outcome::<Meta, Entry>(before, range.lo()) is Leaf,
        exists|t: u64|
            {
                let leaf = outcome::<Meta, Entry>(before, range.lo())->level;
                &&& #[trigger] on_path::<Meta>(before.tables, t, range.lo())
                &&& level_of::<Meta>(before.tables, t) == leaf + (i - before.log.len())
                &&& after.log[i] matches FrameEvent::Deallocated { range: frame, released }
                &&& frame.lo() == t
                &&& frame.hi() == (t + Meta::TABLE_FRAME_SIZE.len()) as u64
                &&& released == match r {
                    Err(e) if i == after.log.len() - 1 => Err(e),
                    _ => Ok::<(), PagingError>(()),
                }
            },
{
    let leaf = located::<Meta, Entry>(before, range)->Ok_0;
    let high: u8 = choose|high: u8| #[trigger]
        pruned::<Meta, Entry>(before, after, range.lo(), leaf.level, high, status(r));
    assert(pruned::<Meta, Entry>(before, after, range.lo(), leaf.level, high, status(r)));
    let at = leaf.level + (i - before.log.len());
    let released = if i == after.log.len() - 1 {
        status(r)
    } else {
        Ok(())
    };
    assert(releases::<Meta>(after.log[i], before.tables, range.lo(), at, released));
}

/// Installing a leaf only adds: no present word changes, nor any frame outside the
/// tree, and every frame that the allocator is asked for becomes a table that is
/// new, lies on the path of the leaf, at its level or above, and is pointed at by
/// the word that the format has for that.
pub proof fn law_map_only_adds<Meta: PagingMetaData, Entry: PageTableEntry>(
    before: TreeView,
    after: TreeView,
    leaf: Placement,
    raw: u64,
    i: int,
    t: u64,
    j: int,
)
    requires
        placed::<Meta, Entry>(before, after, leaf, raw, Ok(())),
    ensures
        before.tables.contains_key(t) && 0 <= j < Meta::ENTRIES_PER_TABLE && Entry::present(
            before.frames[t][j],
        ) ==> after.frames[t][j] == before.frames[t][j],
        before.frames.contains_key(t) && !before.tables.contains_key(t)
            ==> after.frames.contains_key(t) && after.frames[t] == before.frames[t],
        before.log.len() <= i < after.log.len() ==> (
        after.log[i] matches FrameEvent::Allocated { size, align, granted: Ok(frame) } && {
            let new = frame.lo();
            &&& size == Meta::TABLE_FRAME_SIZE.len()
            &&& align == Meta::TABLE_FRAME_SIZE
            &&& new as int % Meta::TABLE_FRAME_SIZE.len() as int == 0
            &&& !before.tables.contains_key(new)
            &&& on_path::<Meta>(after.tables, new, leaf.vaddr)
            &&& leaf.level <= level_of::<Meta>(after.tables, new)
            &&& exists|p: u64|
                {
                    let slot = after.tables[new].last();
                    &&& #[trigger] after.tables.contains_key(p)
                    &&& after.tables[new] == after.tables[p].push(slot)
                    &&& after.frames[p][slot] == Entry::table_raw(
                        new,
                        level_of::<Meta>(after.tables, p),
                    )
                }
        }),
{
    Meta::TABLE_FRAME_SIZE.lemma_len();
    if before.log.len() <= i < after.log.len() {
        assert(supplies::<Meta>(before, after, after.log[i]));
        let new = after.log[i]->granted->Ok_0.lo();
        assert(after.tables.contains_key(new) && !before.tables.contains_key(new));
        assert(leads_to::<Meta>(after.tables, new, seq![leaf]));
        let p: u64 = choose|p: u64| #[trigger] pointer_to::<Meta, Entry>(after, p, new);
        assert(pointer_to::<Meta, Entry>(after, p, new));
        assert(after.tables.contains_key(p));
    }
}

/// Remapping or protecting a leaf writes one word of table memory: that of the
/// leaf, which becomes the word of the new address and flags, or of the old address
/// and the new flags, at the leaf's size. No table comes or goes, and the allocator
/// is not called.
pub proof fn law_change_writes_one_word<Meta: PagingMetaData, Entry: PageTableEntry>(
    before: TreeView,
    after: TreeView,
    range: AddrRange<Meta::VirtAddr>,
    paddr: Option<PhysAddr>,
    flags: Entry::Flags,
    m: Mapping<Entry, Meta::VirtAddr>,
    level: u8,
    old_raw: u64,
)
    requires
        layout_ok::<Meta>(),
        outcome::<Meta, Entry>(before, range.lo()) == (Walk::Leaf { level, raw: old_raw }),
        match paddr {
            Some(paddr) => remapped::<Meta, Entry>(before, after, range, paddr, flags, Ok(m)),
            None => protected::<Meta, Entry>(before, after, range, flags, Ok(m)),
        },
    ensures
        after.tables == before.tables,
        after.log == before.log,
        exists|t: u64, size: PageSize|
            {
                let slot = range.lo() as int / pow2(Meta::shift(level) as nat) as int % pow2(
                    Meta::index_bits(level) as nat,
                ) as int;
                let target = match paddr {
                    Some(paddr) => paddr.0,
                    None => Entry::target(old_raw),
                };
                &&& #[trigger] table_at::<Meta>(before.tables, t, range.lo(), level)
                &&& #[trigger] size.len() == range.hi() - range.lo()
                &&& after.frames == before.frames.insert(
                    t,
                    before.frames[t].update(slot, Entry::leaf_raw(target, flags, size)),
                )
            },
{
    lemma_found::<Meta, Entry>(before, range);
    let leaf = located::<Meta, Entry>(before, range)->Ok_0;
    let t: u64 = choose|t: u64| #[trigger]
        table_at::<Meta>(before.tables, t, range.lo(), leaf.level) && after.frames == poke(
            before.frames,
            t,
            slot_of::<Meta>(leaf.level, range.lo()),
            Entry::leaf_raw(
                match paddr {
                    Some(paddr) => paddr.0,
                    None => Entry::target(leaf.raw),
                },
                flags,
                leaf.size,
            ),
        );
    assert(table_at::<Meta>(before.tables, t, range.lo(), leaf.level));
    assert(leaf.size.len() == range.hi() - range.lo());
}

/// Unmapping zeroes one word of the tables that it leaves, on the path of the leaf
/// and not below it, and changes no other. Frames outside the tree stay as they were.
pub proof fn law_unmap_zeroes_one_word<Meta: PagingMetaData, Entry: PageTableEntry>(
    before: TreeView,
    after: TreeView,
    range: AddrRange<Meta::VirtAddr>,
    r: PagingResult<Mapping<Entry, Meta::VirtAddr>>,
)
    requires
        layout_ok::<Meta>(),
        unmapped::<Meta, Entry>(before, after, range, r),
        lookup::<Meta, Entry>(before, range.lo()) matches Ok(m) && m.range == range,
    ensures
        outcome::<Meta, Entry>(before, range.lo()) is Leaf,
        exists|high: u8|
            {
                let slot = range.lo() as int / pow2(#[trigger] Meta::shift(high) as nat) as int
                    % pow2(Meta::index_bits(high) as nat) as int;
                &&& outcome::<Meta, Entry>(before, range.lo())->level <= high <= Meta::LEVELS
                &&& forall|t: u64| #[trigger]
                    table_at::<Meta>(after.tables, t, range.lo(), high) ==> after.frames[t][slot]
                        == 0
                &&& forall|t: u64, j: int|
                    after.tables.contains_key(t) && 0 <= j < Meta::ENTRIES_PER_TABLE && !(
                    table_at::<Meta>(after.tables, t, range.lo(), high) && j == slot)
                        ==> #[trigger] after.frames[t][j] == before.frames[t][j]
            },
        forall|f: u64| #[trigger]
            before.frames.contains_key(f) && !before.tables.contains_key(f)
                ==> after.frames.contains_key(f) && after.frames[f] == before.frames[f],
{
    lemma_found::<Meta, Entry>(before, range);
    let leaf = located::<Meta, Entry>(before, range)->Ok_0;
    let high: u8 = choose|high: u8| #[trigger]
        pruned::<Meta, Entry>(before, after, range.lo(), leaf.level, high, status(r));
    assert(pruned::<Meta, Entry>(before, after, range.lo(), leaf.level, high, status(r)));
    assert(Meta::shift(high) == Meta::shift(high));
}

/// Splitting a leaf adds one table below it, whose entries are the words of the
/// leaf's parts in order, with its flags, at the finer size; the leaf's word becomes
/// the one that the format has for a pointer to that table. No other word changes.
pub proof fn law_split_stores_its_parts<Meta: PagingMetaData, Entry: PageTableEntry>(
    before: TreeView,
    after: TreeView,
    range: AddrRange<Meta::VirtAddr>,
    finer: PageSize,
    level: u8,
    below: u8,
    old_raw: u64,
)
    requires
        layout_ok::<Meta>(),
        tree::<Meta, Entry>(after.frames, after.tables, after.root),
        outcome::<Meta, Entry>(before, range.lo()) == (Walk::Leaf { level, raw: old_raw }),
        below + 1 == level,
        split::<Meta, Entry>(before, after, range, Ok(finer)),
    ensures
        exists|child: u64, t: u64|
            {
                let slot = range.lo() as int / pow2(Meta::shift(level) as nat) as int % pow2(
                    Meta::index_bits(level) as nat,
                ) as int;
                &&& #[trigger] table_at::<Meta>(after.tables, child, range.lo(), below)
                &&& !before.frames.contains_key(child)
                &&& after.tables.remove(child) == before.tables
                &&& forall|i: int|
                    0 <= i < Meta::ENTRIES_PER_TABLE ==> #[trigger] after.frames[child][i]
                        == Entry::leaf_raw(
                        (Entry::target(old_raw) + i * finer.len()) as u64,
                        Entry::flags_of(old_raw),
                        finer,
                    )
                &&& #[trigger] table_at::<Meta>(before.tables, t, range.lo(), level)
                &&& after.frames.remove(child) == before.frames.insert(
                    t,
                    before.frames[t].update(slot, Entry::table_raw(child, level)),
                )
            },
{
    let (leaf, size) = split_leaf::<Meta, Entry>(before, range)->Ok_0;
    lemma_found::<Meta, Entry>(before, range);
    let child: u64 = choose|child: u64|
        {
            &&& !before.frames.contains_key(child)
            &&& #[trigger] table_at::<Meta>(after.tables, child, range.lo(), below)
            &&& after.tables.remove(child) == before.tables
            &&& after.frames.contains_key(child)
            &&& one_word::<Meta>(
                before,
                after.frames.remove(child),
                range.lo(),
                leaf.level,
                Entry::table_raw(child, leaf.level),
            )
        };
    lemma_one_table::<Meta, Entry>(after, range.lo(), below, child);
    let raw = Entry::table_raw(child, leaf.level);
    let cut = after.frames.remove(child);
    let t: u64 = choose|t: u64| #[trigger]
        table_at::<Meta>(before.tables, t, range.lo(), leaf.level) && cut == poke(
            before.frames,
            t,
            slot_of::<Meta>(leaf.level, range.lo()),
            raw,
        );
    assert(table_at::<Meta>(before.tables, t, range.lo(), leaf.level));
    assert forall|i: int| 0 <= i < Meta::ENTRIES_PER_TABLE implies #[trigger] after.frames[child][i]
        == Entry::leaf_raw(
        (Entry::target(leaf.raw) + i * finer.len()) as u64,
        Entry::flags_of(leaf.raw),
        finer,
    ) by {
        assert(after.frames[child][i] == part_raw::<Entry>(leaf, size, i));
    }
}

/// A merge that succeeds writes one word of the tables that it leaves: the pointer
/// to the table of the parts becomes the word of the first part's address and flags
/// at the size of the range. That table is released and gone; no other word changes.
pub proof fn law_merge_writes_one_word<Meta: PagingMetaData, Entry: PageTableEntry>(
    before: TreeView,
    after: TreeView,
    range: AddrRange<Meta::VirtAddr>,
    size: PageSize,
    level: u8,
    t: u64,
)
    requires
        layout_ok::<Meta>(),
        tree::<Meta, Entry>(before.frames, before.tables, before.root),
        merged::<Meta, Entry>(before, after, range, Ok(size)),
        1 < level <= Meta::LEVELS,
        Meta::supports(level, size),
        forall|k: u8| 1 <= k < level ==> !Meta::supports(k, size),
        table_at::<Meta>(before.tables, t, range.lo(), (level - 1) as u8),
    ensures
        after.tables == before.tables.remove(t),
        after.log.len() == before.log.len() + 1,
        after.log.last() matches FrameEvent::Deallocated { range: frame, released } && frame.lo()
            == t && released is Ok,
        exists|p: u64|
            {
                let slot = range.lo() as int / pow2(Meta::shift(level) as nat) as int % pow2(
                    Meta::index_bits(level) as nat,
                ) as int;
                let first = before.frames[t][0];
                &&& #[trigger] table_at::<Meta>(before.tables, p, range.lo(), level)
                &&& after.frames == before.frames.insert(
                    p,
                    before.frames[p].update(
                        slot,
                        Entry::leaf_raw(Entry::target(first), Entry::flags_of(first), size),
                    ),
                ).remove(t)
            },
{
    let below = (level - 1) as u8;
    lemma_merge_goal::<Meta>(range);
    assert(lowest_level::<Meta>(level, size));
    lemma_level_for::<Meta>(level, size);
    lemma_one_table::<Meta, Entry>(before, range.lo(), below, t);
    let raw = merged_raw::<Entry>(before.frames, t, size);
    let cut: Map<u64, Seq<u64>> = choose|cut: Map<u64, Seq<u64>>| #[trigger]
        one_word::<Meta>(before, cut, range.lo(), level, raw) && after.frames == cut.remove(t);
    assert(one_word::<Meta>(before, cut, range.lo(), level, raw));
    let p: u64 = choose|p: u64| #[trigger]
        table_at::<Meta>(before.tables, p, range.lo(), level) && cut == poke(
            before.frames,
            p,
            slot_of::<Meta>(level, range.lo()),
            raw,
        );
    assert(table_at::<Meta>(before.tables, p, range.lo(), level));
}

/// Whether translation of the start of `leaf` ends at the word of its address, these
/// flags and its size.
pub open spec fn stands<Meta: PagingMetaData, Entry: PageTableEntry>(
    view: TreeView,
    leaf: Placement,
    flags: Entry::Flags,
) -> bool {
    outcome::<Meta, Entry>(view, leaf.vaddr) == (Walk::Leaf {
        level: leaf.level,
        raw: Entry::leaf_raw(leaf.paddr, flags, leaf.size),
    })
}

/// A request goes as far as it can: the leaves before the one that it fails at stand,
/// and are due for invalidation, and no other. It ends where its cutting ends, or at
/// a leaf that something stands in the way of, or that the allocator gave no table
/// for; where it succeeds all its leaves stand.
pub proof fn law_request_goes_as_far_as_it_can<Meta: PagingMetaData, Entry: PageTableEntry>(
    before: TreeView,
    after: TreeView,
    range: AddrRange<Meta::VirtAddr>,
    backing: MapBacking<'_>,
    flags: MappingFlags<Entry::Flags>,
    due: Pending,
    r: PagingResult,
    plan: Plan,
)
    requires
        layout_ok::<Meta>(),
        map_effect::<Meta, Entry>(before, after, range, Ok(backing), flags, due, r),
        plan == map_plan::<Meta>(range, Ok(backing), flags.contiguity),
        forall|k: int|
            0 <= k < plan.leaves.len() ==> {
                let raw = Entry::leaf_raw(
                    (#[trigger] plan.leaves[k]).paddr,
                    flags.leaf,
                    plan.leaves[k].size,
                );
                Entry::present(raw) && Entry::kind(raw, plan.leaves[k].level)
                    == PageTableEntryKind::Leaf
            },
    ensures
        exists|k: int|
            {
                &&& 0 <= k <= plan.leaves.len()
                &&& due == #[trigger] queued_first::<Meta>(plan.leaves, k)
                &&& forall|j: int|
                    0 <= j < k ==> stands::<Meta, Entry>(
                        after,
                        #[trigger] plan.leaves[j],
                        flags.leaf,
                    )
                &&& k == plan.leaves.len() ==> match r {
                    Ok(_) => plan.stop is None,
                    Err(e) => plan.stop == Some(e),
                }
                &&& k < plan.leaves.len() ==> (r matches Err(e) && (hindrance::<Meta, Entry>(
                    after,
                    plan.leaves[k].vaddr,
                    plan.leaves[k].level,
                ) == Some(e) || frame_denied::<Meta>(before.log, after.log, e)))
            },
{
    law_plan_is_well_placed::<Meta>(range, Ok(backing), flags.contiguity);
    let k: int = choose|k: int| #[trigger]
        mapped::<Meta, Entry>(before, after, plan, flags.leaf, k, r) && due == queued_all(
            Pending::Ranges(Set::empty()),
            plan.leaves.take(k),
            Meta::BASE_PAGE_SIZE,
        );
    assert(mapped::<Meta, Entry>(before, after, plan, flags.leaf, k, r));
    let mid: TreeView = choose|mid: TreeView|
        {
            &&& #[trigger] installs::<Meta, Entry>(before, mid, plan.leaves.take(k), flags.leaf)
            &&& if k == plan.leaves.len() {
                &&& after == mid
                &&& match plan.stop {
                    None => r is Ok,
                    Some(e) => r == Err::<(), PagingError>(e),
                }
            } else {
                r matches Err(e) && turned_down::<Meta, Entry>(mid, after, plan.leaves[k], e)
            }
        };
    let done = plan.leaves.take(k);
    assert forall|j: int| 0 <= j < done.len() implies {
        let raw = Entry::leaf_raw((#[trigger] done[j]).paddr, flags.leaf, done[j].size);
        &&& 1 <= done[j].level <= Meta::LEVELS
        &&& Entry::present(raw)
        &&& Entry::kind(raw, done[j].level) == PageTableEntryKind::Leaf
    } by {
        assert(done[j] == plan.leaves[j]);
    }
    assert forall|j: int| 0 <= j < k implies stands::<Meta, Entry>(
        after,
        #[trigger] plan.leaves[j],
        flags.leaf,
    ) by {
        assert(done[j] == plan.leaves[j]);
        lemma_installed_stand::<Meta, Entry>(before, mid, done, flags.leaf, j);
        if k < plan.leaves.len() {
            assert(unmoved::<Meta, Entry>(mid, after));
            assert(outcome::<Meta, Entry>(after, plan.leaves[j].vaddr) == outcome::<Meta, Entry>(
                mid,
                plan.leaves[j].vaddr,
            ));
        }
    }
    if k < plan.leaves.len() {
        let e = r->Err_0;
        let leaf = plan.leaves[k];
        lemma_log_grows::<Meta, Entry>(before, mid, done, flags.leaf);
        if hindrance::<Meta, Entry>(mid, leaf.vaddr, leaf.level) is None {
            lemma_denied::<Meta>(mid.log, after.log, e);
            let i: int = choose|i: int|
                mid.log.len() <= i < after.log.len() && #[trigger] denied_at::<Meta>(
                    after.log,
                    i,
                    e,
                );
            assert(before.log.len() <= i < after.log.len());
            assert(denied_at::<Meta>(after.log, i, e));
        }
    }
    assert(due == queued_first::<Meta>(plan.leaves, k));
}

/// What is due once the first `k` leaves are queued.
pub open spec fn queued_first<Meta: PagingMetaData>(leaves: Seq<Placement>, k: int) -> Pending {
    queued_all(Pending::Ranges(Set::empty()), leaves.take(k), Meta::BASE_PAGE_SIZE)
}

/// Leaves that were installed stand.
proof fn lemma_installed_stand<Meta: PagingMetaData, Entry: PageTableEntry>(
    before: TreeView,
    after: TreeView,
    leaves: Seq<Placement>,
    flags: Entry::Flags,
    j: int,
)
    requires
        layout_ok::<Meta>(),
        installs::<Meta, Entry>(before, after, leaves, flags),
        0 <= j < leaves.len(),
        forall|j: int|
            0 <= j < leaves.len() ==> {
                let raw = Entry::leaf_raw((#[trigger] leaves[j]).paddr, flags, leaves[j].size);
                &&& 1 <= leaves[j].level <= Meta::LEVELS
                &&& Entry::present(raw)
                &&& Entry::kind(raw, leaves[j].level) == PageTableEntryKind::Leaf
            },
    ensures
        stands::<Meta, Entry>(after, leaves[j], flags),
    decreases leaves.len(),
{
    let last = leaves.last();
    let raw = word_of::<Entry>(last, flags);
    let mid: TreeView = choose|mid: TreeView|
        installs::<Meta, Entry>(before, mid, leaves.drop_last(), flags) && #[trigger] placed::<
            Meta,
            Entry,
        >(mid, after, last, raw, Ok(()));
    if j == leaves.len() - 1 {
        assert(leaves[j] == last);
        assert(same_path::<Meta>(last.vaddr, last.vaddr, last.level));
        assert(outcome::<Meta, Entry>(after, last.vaddr) == ending::<Entry>(raw, last.level));
    } else {
        assert(leaves.drop_last()[j] == leaves[j]);
        lemma_installed_stand::<Meta, Entry>(before, mid, leaves.drop_last(), flags, j);
        assert(leaves[leaves.len() - 1] == last);
        law_map_keeps_mappings::<Meta, Entry>(mid, after, last, raw, Ok(()), leaves[j].vaddr);
    }
}

} // verus!
