//! What a call of an operation does to the tree and to the TLB.
//!
//! Each law ties the calls of an operation to the relation between the views before
//! and after it that the other laws speak of, and says what is invalidated.

use crate::addr::{AddrRange, MemoryAddr, PhysAddr};
use crate::answers::{frame_denied, law_matching_parts_merge, lemma_denied};
use crate::cursor::{law_cursor_plans_alike, PageTableCursor};
use crate::effect::{
    lookup, mergeable, merged, outcome, placed, protectable, protected, remappable, remapped, split,
    splittable, table_at, unmapped, TreeView,
};
use crate::error::{PagingError, PagingResult};
use crate::flush::{drained, queued, FlushQueue, Pending};
use crate::invalidation::law_flush_covers_its_range;
use crate::mapping::{IntoMapBacking, IntoMappingFlags, Mapping};
use crate::meta::PageSize;
use crate::paging::{
    many_pages, sweep_range, FrameAllocator, FrameEvent, PageTableEntry, PageTableEntryKind,
    PagingMetaData, TlbInvalidation,
};
use crate::plan::{named_placement, one_leaf, Placement};
use crate::reclaim::{released_in_order, subtree_order};
use crate::request::{map_effect, map_flush, map_plan, progressed, whole_leaf};
use crate::tree::{layout_ok, top, tree, Walk};
use crate::walker::{alloc_table_frame, dealloc_table_frame, PageTableWalker};
use vstd::arithmetic::power2::pow2;
use vstd::prelude::*;

verus! {

/// A query answers with what covers the address.
pub proof fn law_query_call<Meta: PagingMetaData, Entry: PageTableEntry, Alloc: FrameAllocator>(
    pt: PageTableWalker<Meta, Entry, Alloc>,
    vaddr: Meta::VirtAddr,
    r: PagingResult<Mapping<Entry, Meta::VirtAddr>>,
)
    requires
        call_ensures(PageTableWalker::<Meta, Entry, Alloc>::query, (&pt, vaddr), r),
    ensures
        r == lookup::<Meta, Entry>(pt@, vaddr.value()),
{
}

/// Remapping a leaf of so many base pages flushes them, from its start on, or
/// everything where the policy prefers that; where it fails nothing is flushed.
pub proof fn law_remap_call<
    Meta: PagingMetaData,
    Entry: PageTableEntry,
    Alloc: FrameAllocator,
    T: TlbInvalidation<Meta::VirtAddr>,
>(
    range: AddrRange<Meta::VirtAddr>,
    paddr: PhysAddr,
    flags: Entry::Flags,
    r: PagingResult<Mapping<Entry, Meta::VirtAddr>>,
    pages: u64,
)
    requires
        range.lo() + pages * Meta::BASE_PAGE_SIZE.len() == range.hi(),
    ensures
        forall|pt: &mut PageTableWalker<Meta, Entry, Alloc>, tlb: &mut T| #[trigger]
            call_ensures(
                PageTableWalker::<Meta, Entry, Alloc>::remap::<T>,
                (pt, range, paddr, flags, tlb),
                r,
            ) ==> {
                &&& remapped::<Meta, Entry>(pt@, final(pt)@, range, paddr, flags, r)
                &&& *final(tlb) == if r is Err {
                    *tlb
                } else if tlb.wants_full(pages) {
                    tlb.after_all()
                } else {
                    tlb.after_range(range.start, Meta::BASE_PAGE_SIZE, pages)
                }
            },
{
    assert forall|pt: &mut PageTableWalker<Meta, Entry, Alloc>, tlb: &mut T| #[trigger]
        call_ensures(
            PageTableWalker::<Meta, Entry, Alloc>::remap::<T>,
            (pt, range, paddr, flags, tlb),
            r,
        ) implies {
        &&& remapped::<Meta, Entry>(pt@, final(pt)@, range, paddr, flags, r)
        &&& *final(tlb) == if r is Err {
            *tlb
        } else if tlb.wants_full(pages) {
            tlb.after_all()
        } else {
            tlb.after_range(range.start, Meta::BASE_PAGE_SIZE, pages)
        }
    } by {
        law_flush_covers_its_range::<Meta::VirtAddr, T>(*tlb, range, Meta::BASE_PAGE_SIZE, pages);
    }
}

/// Protecting a leaf of so many base pages flushes them, from its start on, or
/// everything where the policy prefers that; where it fails nothing is flushed.
pub proof fn law_protect_call<
    Meta: PagingMetaData,
    Entry: PageTableEntry,
    Alloc: FrameAllocator,
    T: TlbInvalidation<Meta::VirtAddr>,
>(
    range: AddrRange<Meta::VirtAddr>,
    flags: Entry::Flags,
    r: PagingResult<Mapping<Entry, Meta::VirtAddr>>,
    pages: u64,
)
    requires
        range.lo() + pages * Meta::BASE_PAGE_SIZE.len() == range.hi(),
    ensures
        forall|pt: &mut PageTableWalker<Meta, Entry, Alloc>, tlb: &mut T| #[trigger]
            call_ensures(
                PageTableWalker::<Meta, Entry, Alloc>::protect::<T>,
                (pt, range, flags, tlb),
                r,
            ) ==> {
                &&& protected::<Meta, Entry>(pt@, final(pt)@, range, flags, r)
                &&& *final(tlb) == if r is Err {
                    *tlb
                } else if tlb.wants_full(pages) {
                    tlb.after_all()
                } else {
                    tlb.after_range(range.start, Meta::BASE_PAGE_SIZE, pages)
                }
            },
{
    assert forall|pt: &mut PageTableWalker<Meta, Entry, Alloc>, tlb: &mut T| #[trigger]
        call_ensures(
            PageTableWalker::<Meta, Entry, Alloc>::protect::<T>,
            (pt, range, flags, tlb),
            r,
        ) implies {
        &&& protected::<Meta, Entry>(pt@, final(pt)@, range, flags, r)
        &&& *final(tlb) == if r is Err {
            *tlb
        } else if tlb.wants_full(pages) {
            tlb.after_all()
        } else {
            tlb.after_range(range.start, Meta::BASE_PAGE_SIZE, pages)
        }
    } by {
        law_flush_covers_its_range::<Meta::VirtAddr, T>(*tlb, range, Meta::BASE_PAGE_SIZE, pages);
    }
}

/// Unmapping a leaf of so many base pages flushes them, from its start on, or
/// everything where the policy prefers that; where it fails nothing is flushed.
pub proof fn law_unmap_call<
    Meta: PagingMetaData,
    Entry: PageTableEntry,
    Alloc: FrameAllocator,
    T: TlbInvalidation<Meta::VirtAddr>,
>(
    range: AddrRange<Meta::VirtAddr>,
    r: PagingResult<Mapping<Entry, Meta::VirtAddr>>,
    pages: u64,
)
    requires
        range.lo() + pages * Meta::BASE_PAGE_SIZE.len() == range.hi(),
    ensures
        forall|pt: &mut PageTableWalker<Meta, Entry, Alloc>, tlb: &mut T| #[trigger]
            call_ensures(
                PageTableWalker::<Meta, Entry, Alloc>::unmap::<T>,
                (pt, range, tlb),
                r,
            ) ==> {
                &&& unmapped::<Meta, Entry>(pt@, final(pt)@, range, r)
                &&& *final(tlb) == if r is Err {
                    *tlb
                } else if tlb.wants_full(pages) {
                    tlb.after_all()
                } else {
                    tlb.after_range(range.start, Meta::BASE_PAGE_SIZE, pages)
                }
            },
{
    assert forall|pt: &mut PageTableWalker<Meta, Entry, Alloc>, tlb: &mut T| #[trigger]
        call_ensures(
            PageTableWalker::<Meta, Entry, Alloc>::unmap::<T>,
            (pt, range, tlb),
            r,
        ) implies {
        &&& unmapped::<Meta, Entry>(pt@, final(pt)@, range, r)
        &&& *final(tlb) == if r is Err {
            *tlb
        } else if tlb.wants_full(pages) {
            tlb.after_all()
        } else {
            tlb.after_range(range.start, Meta::BASE_PAGE_SIZE, pages)
        }
    } by {
        law_flush_covers_its_range::<Meta::VirtAddr, T>(*tlb, range, Meta::BASE_PAGE_SIZE, pages);
    }
}

/// Splitting a leaf of so many base pages flushes them, from its start on, or
/// everything where the policy prefers that; where it fails nothing is flushed.
pub proof fn law_split_at_call<
    Meta: PagingMetaData,
    Entry: PageTableEntry,
    Alloc: FrameAllocator,
    T: TlbInvalidation<Meta::VirtAddr>,
>(
    range: AddrRange<Meta::VirtAddr>,
    r: PagingResult<PageSize>,
    pages: u64,
)
    requires
        range.lo() + pages * Meta::BASE_PAGE_SIZE.len() == range.hi(),
    ensures
        forall|pt: &mut PageTableWalker<Meta, Entry, Alloc>, tlb: &mut T| #[trigger]
            call_ensures(
                PageTableWalker::<Meta, Entry, Alloc>::split_at::<T>,
                (pt, range, tlb),
                r,
            ) ==> {
                &&& split::<Meta, Entry>(pt@, final(pt)@, range, r)
                &&& *final(tlb) == if r is Err {
                    *tlb
                } else if tlb.wants_full(pages) {
                    tlb.after_all()
                } else {
                    tlb.after_range(range.start, Meta::BASE_PAGE_SIZE, pages)
                }
            },
{
    assert forall|pt: &mut PageTableWalker<Meta, Entry, Alloc>, tlb: &mut T| #[trigger]
        call_ensures(
            PageTableWalker::<Meta, Entry, Alloc>::split_at::<T>,
            (pt, range, tlb),
            r,
        ) implies {
        &&& split::<Meta, Entry>(pt@, final(pt)@, range, r)
        &&& *final(tlb) == if r is Err {
            *tlb
        } else if tlb.wants_full(pages) {
            tlb.after_all()
        } else {
            tlb.after_range(range.start, Meta::BASE_PAGE_SIZE, pages)
        }
    } by {
        law_flush_covers_its_range::<Meta::VirtAddr, T>(*tlb, range, Meta::BASE_PAGE_SIZE, pages);
    }
}

/// Merging leaves of so many base pages flushes them, from their start on, or
/// everything where the policy prefers that; where it fails nothing is flushed.
pub proof fn law_merge_at_call<
    Meta: PagingMetaData,
    Entry: PageTableEntry,
    Alloc: FrameAllocator,
    T: TlbInvalidation<Meta::VirtAddr>,
>(
    range: AddrRange<Meta::VirtAddr>,
    r: PagingResult<PageSize>,
    pages: u64,
)
    requires
        range.lo() + pages * Meta::BASE_PAGE_SIZE.len() == range.hi(),
    ensures
        forall|pt: &mut PageTableWalker<Meta, Entry, Alloc>, tlb: &mut T| #[trigger]
            call_ensures(
                PageTableWalker::<Meta, Entry, Alloc>::merge_at::<T>,
                (pt, range, tlb),
                r,
            ) ==> {
                &&& merged::<Meta, Entry>(pt@, final(pt)@, range, r)
                &&& *final(tlb) == if r is Err {
                    *tlb
                } else if tlb.wants_full(pages) {
                    tlb.after_all()
                } else {
                    tlb.after_range(range.start, Meta::BASE_PAGE_SIZE, pages)
                }
            },
{
    assert forall|pt: &mut PageTableWalker<Meta, Entry, Alloc>, tlb: &mut T| #[trigger]
        call_ensures(
            PageTableWalker::<Meta, Entry, Alloc>::merge_at::<T>,
            (pt, range, tlb),
            r,
        ) implies {
        &&& merged::<Meta, Entry>(pt@, final(pt)@, range, r)
        &&& *final(tlb) == if r is Err {
            *tlb
        } else if tlb.wants_full(pages) {
            tlb.after_all()
        } else {
            tlb.after_range(range.start, Meta::BASE_PAGE_SIZE, pages)
        }
    } by {
        law_flush_covers_its_range::<Meta::VirtAddr, T>(*tlb, range, Meta::BASE_PAGE_SIZE, pages);
    }
}

/// A call to merge a range succeeds with its size where the entries of the table
/// below make up one leaf by their decoded flags and addresses, whatever else their
/// words hold, unless the allocator refuses the table back.
pub proof fn law_merge_at_grants<
    Meta: PagingMetaData,
    Entry: PageTableEntry,
    Alloc: FrameAllocator,
    T: TlbInvalidation<Meta::VirtAddr>,
>(
    before: TreeView,
    range: AddrRange<Meta::VirtAddr>,
    r: PagingResult<PageSize>,
    size: PageSize,
    level: u8,
    finer: PageSize,
    t: u64,
)
    requires
        layout_ok::<Meta>(),
        tree::<Meta, Entry>(before.frames, before.tables, before.root),
        range.hi() == range.lo() + size.len(),
        range.lo() as int % size.len() as int == 0,
        Meta::in_range(range.lo()),
        Meta::in_range((range.hi() - 1) as u64),
        1 < level <= Meta::LEVELS,
        Meta::supports(level, size),
        forall|k: u8| 1 <= k < level ==> !Meta::supports(k, size),
        finer.len() == pow2(Meta::shift((level - 1) as u8) as nat),
        table_at::<Meta>(before.tables, t, range.lo(), (level - 1) as u8),
        Entry::target(before.frames[t][0]) as int % size.len() as int == 0,
        forall|i: int|
            0 <= i < Meta::ENTRIES_PER_TABLE ==> {
                let raw = #[trigger] before.frames[t][i];
                &&& Entry::present(raw)
                &&& Entry::kind(raw, (level - 1) as u8) == PageTableEntryKind::Leaf
                &&& Entry::flags_of(raw) == Entry::flags_of(before.frames[t][0])
                &&& Entry::target(raw) == Entry::target(before.frames[t][0]) + i * finer.len()
            },
    ensures
        forall|pt: &mut PageTableWalker<Meta, Entry, Alloc>, tlb: &mut T| #[trigger]
            call_ensures(
                PageTableWalker::<Meta, Entry, Alloc>::merge_at::<T>,
                (pt, range, tlb),
                r,
            ) && pt@ == before ==> match r {
                Ok(s) => s == size,
                Err(e) => final(pt)@.log.len() == before.log.len() + 1 && (
                final(pt)@.log.last() matches FrameEvent::Deallocated { range: frame, released }
                    && frame.lo() == t && released == Err::<(), PagingError>(e)),
            },
{
    assert forall|pt: &mut PageTableWalker<Meta, Entry, Alloc>, tlb: &mut T| #[trigger]
        call_ensures(
            PageTableWalker::<Meta, Entry, Alloc>::merge_at::<T>,
            (pt, range, tlb),
            r,
        ) && pt@ == before implies match r {
        Ok(s) => s == size,
        Err(e) => final(pt)@.log.len() == before.log.len() + 1 && (
        final(pt)@.log.last() matches FrameEvent::Deallocated { range: frame, released }
            && frame.lo() == t && released == Err::<(), PagingError>(e)),
    } by {
        law_matching_parts_merge::<Meta, Entry>(
            before,
            final(pt)@,
            range,
            r,
            size,
            level,
            finer,
            t,
        );
    }
}

/// Mapping installs the leaves of the request, as far as it gets, and flushes what
/// it installed.
pub proof fn law_map_call<
    'a,
    Meta: PagingMetaData,
    Entry: PageTableEntry,
    Alloc: FrameAllocator,
    B: IntoMapBacking<'a>,
    F: IntoMappingFlags<Entry::Flags>,
    T: TlbInvalidation<Meta::VirtAddr>,
>(range: AddrRange<Meta::VirtAddr>, backing: B, flags: F, r: PagingResult)
    requires
        range.lo() <= range.hi(),
    ensures
        forall|pt: &mut PageTableWalker<Meta, Entry, Alloc>, tlb: &mut T| #[trigger]
            call_ensures(
                PageTableWalker::<Meta, Entry, Alloc>::map::<B, F, T>,
                (pt, range, backing, flags, tlb),
                r,
            ) ==> {
                let supplied = backing.backing((range.hi() - range.lo()) as u64);
                exists|due: Pending|
                    {
                        &&& #[trigger] map_effect::<Meta, Entry>(
                            pt@,
                            final(pt)@,
                            range,
                            supplied,
                            flags.mapping_flags(),
                            due,
                            r,
                        )
                        &&& *final(tlb) == map_flush::<Meta::VirtAddr, T>(
                            *tlb,
                            range,
                            whole_leaf::<Meta>(range, supplied, flags.mapping_flags().contiguity),
                            due,
                            r,
                            Meta::BASE_PAGE_SIZE,
                        )
                    }
            },
{
}

/// A new table maps nothing: every legal address is answered as not mapped.
pub proof fn law_new_table_call<Meta: PagingMetaData, Entry: PageTableEntry, Alloc: FrameAllocator>(
    alloc: Alloc,
    pt: PageTableWalker<Meta, Entry, Alloc>,
    vaddr: Meta::VirtAddr,
    r: PagingResult<Mapping<Entry, Meta::VirtAddr>>,
)
    requires
        call_ensures(
            PageTableWalker::<Meta, Entry, Alloc>::try_new,
            (alloc,),
            Ok::<PageTableWalker<Meta, Entry, Alloc>, (PagingError, Alloc)>(pt),
        ),
        call_ensures(PageTableWalker::<Meta, Entry, Alloc>::query, (&pt, vaddr), r),
    ensures
        r matches Err(e) && e == if Meta::in_range(vaddr.value()) {
            PagingError::NotMapped
        } else {
            PagingError::AddressOutOfRange
        },
        forall|f: u64| #[trigger]
            alloc.frames().contains_key(f) ==> pt@.frames.contains_key(f) && pt@.frames[f]
                == alloc.frames()[f],
{
    assert(outcome::<Meta, Entry>(pt@, vaddr.value()) == Walk::Absent);
}

/// Reclaiming gives every table back, in the order of the tree.
pub proof fn law_reclaim_call<Meta: PagingMetaData, Entry: PageTableEntry, Alloc: FrameAllocator>(
    pt: PageTableWalker<Meta, Entry, Alloc>,
    alloc: Alloc,
)
    requires
        call_ensures(PageTableWalker::<Meta, Entry, Alloc>::reclaim, (pt,), alloc),
    ensures
        released_in_order::<Meta>(
            pt@.frames,
            pt@.log,
            alloc.frames(),
            alloc.log(),
            subtree_order::<Meta, Entry>(pt@.frames, pt@.root, top::<Meta>()),
        ),
{
}

/// Unmapping through a cursor does what it does through the walker, but queues its
/// range instead of flushing it.
pub proof fn law_cursor_unmap_call<
    'pt,
    Meta: PagingMetaData,
    Entry: PageTableEntry,
    Alloc: FrameAllocator,
    T: TlbInvalidation<Meta::VirtAddr>,
>(
    range: AddrRange<Meta::VirtAddr>,
    r: PagingResult<Mapping<Entry, Meta::VirtAddr>>,
)
    requires
        range.lo() <= range.hi(),
    ensures
        forall|cursor: &mut PageTableCursor<'pt, Meta, Entry, Alloc, T>| #[trigger]
            call_ensures(
                PageTableCursor::<'pt, Meta, Entry, Alloc, T>::unmap,
                (cursor, range),
                r,
            ) ==> {
                &&& unmapped::<Meta, Entry>(cursor.pt@, final(cursor).pt@, range, r)
                &&& *final(cursor).tlb == *cursor.tlb
                &&& final(cursor).pending@ == if r is Err {
                    cursor.pending@
                } else {
                    queued(
                        cursor.pending@,
                        range.lo(),
                        (range.hi() - range.lo()) as u64,
                        Meta::BASE_PAGE_SIZE,
                    )
                }
            },
{
}

/// Protecting through a cursor does what it does through the walker, but queues its
/// range instead of flushing it.
pub proof fn law_cursor_protect_call<
    'pt,
    Meta: PagingMetaData,
    Entry: PageTableEntry,
    Alloc: FrameAllocator,
    T: TlbInvalidation<Meta::VirtAddr>,
>(
    range: AddrRange<Meta::VirtAddr>,
    flags: Entry::Flags,
    r: PagingResult<Mapping<Entry, Meta::VirtAddr>>,
)
    requires
        range.lo() <= range.hi(),
    ensures
        forall|cursor: &mut PageTableCursor<'pt, Meta, Entry, Alloc, T>| #[trigger]
            call_ensures(
                PageTableCursor::<'pt, Meta, Entry, Alloc, T>::protect,
                (cursor, range, flags),
                r,
            ) ==> {
                &&& protected::<Meta, Entry>(cursor.pt@, final(cursor).pt@, range, flags, r)
                &&& *final(cursor).tlb == *cursor.tlb
                &&& final(cursor).pending@ == if r is Err {
                    cursor.pending@
                } else {
                    queued(
                        cursor.pending@,
                        range.lo(),
                        (range.hi() - range.lo()) as u64,
                        Meta::BASE_PAGE_SIZE,
                    )
                }
            },
{
}

/// Remapping through a cursor does what it does through the walker, but queues its
/// range instead of flushing it.
pub proof fn law_cursor_remap_call<
    'pt,
    Meta: PagingMetaData,
    Entry: PageTableEntry,
    Alloc: FrameAllocator,
    T: TlbInvalidation<Meta::VirtAddr>,
>(
    range: AddrRange<Meta::VirtAddr>,
    paddr: PhysAddr,
    flags: Entry::Flags,
    r: PagingResult<Mapping<Entry, Meta::VirtAddr>>,
)
    requires
        range.lo() <= range.hi(),
    ensures
        forall|cursor: &mut PageTableCursor<'pt, Meta, Entry, Alloc, T>| #[trigger]
            call_ensures(
                PageTableCursor::<'pt, Meta, Entry, Alloc, T>::remap,
                (cursor, range, paddr, flags),
                r,
            ) ==> {
                &&& remapped::<Meta, Entry>(cursor.pt@, final(cursor).pt@, range, paddr, flags, r)
                &&& *final(cursor).tlb == *cursor.tlb
                &&& final(cursor).pending@ == if r is Err {
                    cursor.pending@
                } else {
                    queued(
                        cursor.pending@,
                        range.lo(),
                        (range.hi() - range.lo()) as u64,
                        Meta::BASE_PAGE_SIZE,
                    )
                }
            },
{
}

/// Flushing a cursor's queue drains it, and leaves the tree alone.
pub proof fn law_cursor_flush_call<
    'pt,
    Meta: PagingMetaData,
    Entry: PageTableEntry,
    Alloc: FrameAllocator,
    T: TlbInvalidation<Meta::VirtAddr>,
>()
    ensures
        forall|cursor: &mut PageTableCursor<'pt, Meta, Entry, Alloc, T>| #[trigger]
            call_ensures(
                PageTableCursor::<'pt, Meta, Entry, Alloc, T>::flush_pending,
                (cursor,),
                (),
            ) ==> {
                &&& final(cursor).pt@ == cursor.pt@
                &&& *final(cursor).tlb == drained::<Meta::VirtAddr, T>(
                    *cursor.tlb,
                    cursor.pending@,
                    Meta::BASE_PAGE_SIZE,
                )
                &&& final(cursor).pending@ == Pending::Ranges(Set::empty())
            },
{
}

/// A cursor starts with an empty queue over the tree as it is, and finishing it
/// drains what is due into the TLB and leaves the tree as it got to be.
pub proof fn law_cursor_life_calls<
    'pt,
    Meta: PagingMetaData,
    Entry: PageTableEntry,
    Alloc: FrameAllocator,
    T: TlbInvalidation<Meta::VirtAddr>,
>(r: PagingResult)
    ensures
        forall|
            pt: &'pt mut PageTableWalker<Meta, Entry, Alloc>,
            tlb: &'pt mut T,
            opened: PageTableCursor<'pt, Meta, Entry, Alloc, T>,
        | #[trigger]
            call_ensures(
                PageTableCursor::<'pt, Meta, Entry, Alloc, T>::new,
                (pt, tlb),
                opened,
            ) ==> opened.pt@ == pt@ && *opened.tlb == *tlb && opened.pending@ == Pending::Ranges(
                Set::empty(),
            ),
        forall|cursor: PageTableCursor<'pt, Meta, Entry, Alloc, T>| #[trigger]
            call_ensures(
                PageTableCursor::<'pt, Meta, Entry, Alloc, T>::finish,
                (cursor,),
                r,
            ) ==> {
                &&& r is Ok
                &&& final(cursor.pt)@ == cursor.pt@
                &&& *final(cursor.tlb) == drained::<Meta::VirtAddr, T>(
                    *cursor.tlb,
                    cursor.pending@,
                    Meta::BASE_PAGE_SIZE,
                )
            },
{
}

/// Mapping through a cursor installs the leaves of the same request as through the
/// walker, as far as it gets, queues each of them, and flushes nothing.
pub proof fn law_cursor_map_call<
    'pt,
    'a,
    Meta: PagingMetaData,
    Entry: PageTableEntry,
    Alloc: FrameAllocator,
    T: TlbInvalidation<Meta::VirtAddr>,
    B: IntoMapBacking<'a>,
    F: IntoMappingFlags<Entry::Flags>,
>(range: AddrRange<Meta::VirtAddr>, backing: B, flags: F, r: PagingResult)
    requires
        range.lo() <= range.hi(),
    ensures
        forall|cursor: &mut PageTableCursor<'pt, Meta, Entry, Alloc, T>| #[trigger]
            call_ensures(
                PageTableCursor::<'pt, Meta, Entry, Alloc, T>::map::<B, F>,
                (cursor, range, backing, flags),
                r,
            ) ==> {
                &&& *final(cursor).tlb == *cursor.tlb
                &&& progressed::<Meta, Entry>(
                    cursor.pt@,
                    cursor.pending@,
                    final(cursor).pt@,
                    final(cursor).pending@,
                    map_plan::<Meta>(
                        range,
                        backing.backing((range.hi() - range.lo()) as u64),
                        flags.mapping_flags().contiguity,
                    ),
                    flags.mapping_flags().leaf,
                    r,
                )
            },
{
    law_cursor_plans_alike::<Meta, Entry, B, F>(range, backing, flags);
}

/// Mapping one leaf through a cursor installs and queues that leaf, and flushes
/// nothing.
pub proof fn law_cursor_leaf_call<
    'pt,
    Meta: PagingMetaData,
    Entry: PageTableEntry,
    Alloc: FrameAllocator,
    T: TlbInvalidation<Meta::VirtAddr>,
>(range: AddrRange<Meta::VirtAddr>, paddr: PhysAddr, flags: Entry::Flags, r: PagingResult)
    ensures
        forall|cursor: &mut PageTableCursor<'pt, Meta, Entry, Alloc, T>| #[trigger]
            call_ensures(
                PageTableCursor::<'pt, Meta, Entry, Alloc, T>::map_leaf,
                (cursor, range, paddr, flags),
                r,
            ) ==> {
                &&& *final(cursor).tlb == *cursor.tlb
                &&& progressed::<Meta, Entry>(
                    cursor.pt@,
                    cursor.pending@,
                    final(cursor).pt@,
                    final(cursor).pending@,
                    one_leaf(named_placement::<Meta>(range, paddr.0)),
                    flags,
                    r,
                )
            },
{
}

/// A queue takes a range in, and draining it flushes what is due and empties it.
pub proof fn law_queue_calls<V: MemoryAddr, T: TlbInvalidation<V>>(
    range: AddrRange<V>,
    page: PageSize,
)
    requires
        range.lo() <= range.hi(),
    ensures
        forall|queue: &mut FlushQueue| #[trigger]
            call_ensures(FlushQueue::queue::<V>, (queue, range, page), ()) ==> final(queue)@
                == queued(queue@, range.lo(), (range.hi() - range.lo()) as u64, page),
        forall|queue: &mut FlushQueue, tlb: &mut T| #[trigger]
            call_ensures(FlushQueue::drain::<V, T>, (queue, tlb, page), ()) ==> *final(tlb)
                == drained::<V, T>(*tlb, queue@, page) && final(queue)@ == Pending::Ranges(
                Set::empty(),
            ),
{
}

/// A sweep of so many pages from a start invalidates exactly the pages at each page
/// size from it on, in order, as long as these lie in the address space.
pub proof fn law_sweep_call<V: MemoryAddr, T: TlbInvalidation<V>>(
    start: V,
    page: PageSize,
    count: u64,
)
    requires
        start.value() + count * page.len() <= u64::MAX,
    ensures
        forall|tlb: &mut T| #[trigger]
            call_ensures(sweep_range::<V, T>, (tlb, start, page, count), ()) ==> *final(tlb)
                == Seq::new(
                count as nat,
                |k: int| (start.value() + k * page.len()) as u64,
            ).fold_left(*tlb, |t: T, a: u64| t.after_local(V::of(a))),
{
}

/// The usual policy prefers a full flush from the thirty-third page on.
pub proof fn law_batch_call(pages: u64, r: bool)
    requires
        call_ensures(many_pages, (pages,), r),
    ensures
        r <==> pages >= 33,
{
}

/// An entry is its word: what is made of a word is read back by it, a cleared entry
/// is zero, and the constructors and accessors go by the format.
pub proof fn law_entry_calls<Entry: PageTableEntry>(
    paddr: PhysAddr,
    flags: Entry::Flags,
    size: PageSize,
    level: u8,
    leaf: Entry,
    table: Entry,
    raw: u64,
    entry: Entry,
    word: u64,
    target: PhysAddr,
    read: Entry::Flags,
    present: bool,
    kind: PageTableEntryKind,
)
    requires
        call_ensures(Entry::new_leaf, (paddr, flags, size), leaf),
        call_ensures(Entry::new_table, (paddr, level), table),
        call_ensures(Entry::from_bits, (raw,), entry),
        call_ensures(Entry::bits, (&entry,), word),
        call_ensures(Entry::paddr, (&entry,), target),
        call_ensures(Entry::flags, (&entry,), read),
        call_ensures(Entry::is_present, (&entry,), present),
        call_ensures(Entry::entry_kind, (&entry, level), kind),
    ensures
        leaf.raw() == Entry::leaf_raw(paddr.0, flags, size),
        table.raw() == Entry::table_raw(paddr.0, level),
        word == raw,
        target.0 == Entry::target(raw),
        read == Entry::flags_of(raw),
        present == Entry::present(raw),
        kind == Entry::kind(raw, level),
        forall|e: &mut Entry| #[trigger] call_ensures(Entry::clear, (e,), ()) ==> final(e).raw()
            == 0,
{
}

/// A table frame that the allocator gives is aligned, new and zeroed; where it gives
/// none, what there was is left alone. One that is released is gone where the
/// allocator takes it, and else kept, and the answer is the allocator's.
pub proof fn law_table_frame_calls<Meta: PagingMetaData, Alloc: FrameAllocator>(
    frame: PagingResult<PhysAddr>,
    paddr: PhysAddr,
    r: PagingResult,
    f: u64,
    i: int,
)
    requires
        0 <= i < Meta::TABLE_FRAME_SIZE.len() / 8,
    ensures
        forall|alloc: &mut Alloc| #[trigger]
            call_ensures(alloc_table_frame::<Meta, Alloc>, (alloc,), frame) ==> match frame {
                Ok(new) => {
                    &&& new.0 as int % Meta::TABLE_FRAME_SIZE.len() as int == 0
                    &&& !alloc.frames().contains_key(new.0)
                    &&& final(alloc).frames().contains_key(new.0)
                    &&& final(alloc).frames()[new.0][i] == 0
                    &&& f != new.0 ==> (final(alloc).frames().contains_key(f)
                        <==> alloc.frames().contains_key(f)) && final(alloc).frames()[f]
                        == alloc.frames()[f]
                    &&& final(alloc).log().len() == alloc.log().len() + 1
                },
                Err(e) => {
                    &&& frame_denied::<Meta>(alloc.log(), final(alloc).log(), e)
                    &&& alloc.frames().contains_key(f) ==> final(alloc).frames().contains_key(f)
                        && final(alloc).frames()[f] == alloc.frames()[f]
                },
            },
        forall|alloc: &mut Alloc| #[trigger]
            call_ensures(dealloc_table_frame::<Meta, Alloc>, (alloc, paddr), r) ==> {
                &&& final(alloc).log().len() == alloc.log().len() + 1
                &&& final(alloc).log().last() matches FrameEvent::Deallocated { range, released }
                &&& range.lo() == paddr.0
                &&& range.hi() == (paddr.0 + Meta::TABLE_FRAME_SIZE.len()) as u64
                &&& released == r
                &&& final(alloc).frames().contains_key(f) <==> alloc.frames().contains_key(f) && (
                r is Err || f != paddr.0)
            },
{
    Meta::TABLE_FRAME_SIZE.lemma_len();
    if let Err(e) = frame {
        assert forall|alloc: &mut Alloc| #[trigger]
            call_ensures(
                alloc_table_frame::<Meta, Alloc>,
                (alloc,),
                frame,
            ) implies frame_denied::<Meta>(alloc.log(), final(alloc).log(), e) by {
            lemma_denied::<Meta>(alloc.log(), final(alloc).log(), e);
        }
    }
}

/// The operations without a flush do to the tree what those with one do, and a leaf
/// that is installed by its level has the word of its address, flags and size.
pub proof fn law_unflushed_calls<
    Meta: PagingMetaData,
    Entry: PageTableEntry,
    Alloc: FrameAllocator,
>(
    range: AddrRange<Meta::VirtAddr>,
    paddr: PhysAddr,
    flags: Entry::Flags,
    size: PageSize,
    level: u8,
    changed: PagingResult<Mapping<Entry, Meta::VirtAddr>>,
    r: PagingResult,
)
    ensures
        forall|pt: &mut PageTableWalker<Meta, Entry, Alloc>| #[trigger]
            call_ensures(
                PageTableWalker::<Meta, Entry, Alloc>::remap_no_flush,
                (pt, range, paddr, flags),
                changed,
            ) ==> remapped::<Meta, Entry>(pt@, final(pt)@, range, paddr, flags, changed),
        forall|pt: &mut PageTableWalker<Meta, Entry, Alloc>| #[trigger]
            call_ensures(
                PageTableWalker::<Meta, Entry, Alloc>::protect_no_flush,
                (pt, range, flags),
                changed,
            ) ==> protected::<Meta, Entry>(pt@, final(pt)@, range, flags, changed),
        forall|pt: &mut PageTableWalker<Meta, Entry, Alloc>| #[trigger]
            call_ensures(
                PageTableWalker::<Meta, Entry, Alloc>::unmap_no_flush,
                (pt, range),
                changed,
            ) ==> unmapped::<Meta, Entry>(pt@, final(pt)@, range, changed),
        forall|pt: &mut PageTableWalker<Meta, Entry, Alloc>| #[trigger]
            call_ensures(
                PageTableWalker::<Meta, Entry, Alloc>::map_leaf_direct_sized_no_flush,
                (pt, range, paddr, flags, size, level),
                r,
            ) ==> placed::<Meta, Entry>(
                pt@,
                final(pt)@,
                Placement { vaddr: range.lo(), paddr: paddr.0, size, level },
                Entry::leaf_raw(paddr.0, flags, size),
                r,
            ),
{
}

/// Installing a leaf by its level through a cursor does the same, and queues it.
pub proof fn law_cursor_place_call<
    'pt,
    Meta: PagingMetaData,
    Entry: PageTableEntry,
    Alloc: FrameAllocator,
    T: TlbInvalidation<Meta::VirtAddr>,
>(
    range: AddrRange<Meta::VirtAddr>,
    paddr: PhysAddr,
    flags: Entry::Flags,
    size: PageSize,
    level: u8,
    r: PagingResult,
)
    requires
        range.lo() <= range.hi(),
    ensures
        forall|cursor: &mut PageTableCursor<'pt, Meta, Entry, Alloc, T>| #[trigger]
            call_ensures(
                PageTableCursor::<'pt, Meta, Entry, Alloc, T>::map_leaf_sized_at_level,
                (cursor, range, paddr, flags, size, level),
                r,
            ) ==> {
                &&& *final(cursor).tlb == *cursor.tlb
                &&& placed::<Meta, Entry>(
                    cursor.pt@,
                    final(cursor).pt@,
                    Placement { vaddr: range.lo(), paddr: paddr.0, size, level },
                    Entry::leaf_raw(paddr.0, flags, size),
                    r,
                )
                &&& final(cursor).pending@ == if r is Err {
                    cursor.pending@
                } else {
                    queued(
                        cursor.pending@,
                        range.lo(),
                        (range.hi() - range.lo()) as u64,
                        Meta::BASE_PAGE_SIZE,
                    )
                }
            },
{
}

/// A walker that adopts a root works on it and on the frames that there are, and
/// makes no call to the allocator.
pub proof fn law_adopt_call<Meta: PagingMetaData, Entry: PageTableEntry, Alloc: FrameAllocator>(
    root: PhysAddr,
    alloc: Alloc,
    pt: PageTableWalker<Meta, Entry, Alloc>,
    read: PhysAddr,
)
    requires
        call_ensures(PageTableWalker::<Meta, Entry, Alloc>::adopt, (root, alloc), pt),
        call_ensures(PageTableWalker::<Meta, Entry, Alloc>::root, (&pt,), read),
    ensures
        read == root,
        pt@.root == root.0,
        pt@.frames == alloc.frames(),
        pt@.log == alloc.log(),
{
}

/// What the operations ask of their callers: a well-formed table, and of a request
/// that writes a leaf that the leaf can be encoded. Nothing is asked of ranges and
/// addresses.
pub proof fn law_operations_accept<
    Meta: PagingMetaData,
    Entry: PageTableEntry,
    Alloc: FrameAllocator,
    T: TlbInvalidation<Meta::VirtAddr>,
>(
    table: PageTableWalker<Meta, Entry, Alloc>,
    vaddr: Meta::VirtAddr,
    range: AddrRange<Meta::VirtAddr>,
    paddr: PhysAddr,
    flags: Entry::Flags,
)
    ensures
        table.wf() ==> call_requires(
            PageTableWalker::<Meta, Entry, Alloc>::query,
            (&table, vaddr),
        ),
        table.wf() ==> call_requires(PageTableWalker::<Meta, Entry, Alloc>::reclaim, (table,)),
        forall|pt: &mut PageTableWalker<Meta, Entry, Alloc>, tlb: &mut T|
            pt.wf() ==> #[trigger] call_requires(
                PageTableWalker::<Meta, Entry, Alloc>::unmap::<T>,
                (pt, range, tlb),
            ),
        forall|pt: &mut PageTableWalker<Meta, Entry, Alloc>, tlb: &mut T|
            pt.wf() && remappable::<Meta, Entry>(pt@, range, paddr, flags)
                ==> #[trigger] call_requires(
                PageTableWalker::<Meta, Entry, Alloc>::remap::<T>,
                (pt, range, paddr, flags, tlb),
            ),
        forall|pt: &mut PageTableWalker<Meta, Entry, Alloc>, tlb: &mut T|
            pt.wf() && protectable::<Meta, Entry>(pt@, range, flags) ==> #[trigger] call_requires(
                PageTableWalker::<Meta, Entry, Alloc>::protect::<T>,
                (pt, range, flags, tlb),
            ),
        forall|pt: &mut PageTableWalker<Meta, Entry, Alloc>, tlb: &mut T|
            pt.wf() && splittable::<Meta, Entry>(pt@, range) ==> #[trigger] call_requires(
                PageTableWalker::<Meta, Entry, Alloc>::split_at::<T>,
                (pt, range, tlb),
            ),
        forall|pt: &mut PageTableWalker<Meta, Entry, Alloc>, tlb: &mut T|
            pt.wf() && mergeable::<Meta, Entry>(pt@, range) ==> #[trigger] call_requires(
                PageTableWalker::<Meta, Entry, Alloc>::merge_at::<T>,
                (pt, range, tlb),
            ),
{
}

} // verus!
