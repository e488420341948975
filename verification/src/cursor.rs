//! Batched mapping with a cached descent.

use crate::addr::{AddrRange, MemoryAddr, PhysAddr, PhysAddrRange};
use crate::effect::{
    leaf_at, leaf_size, lemma_prepared, lemma_prepared_self, placed, prepared, protectable,
    protected, remappable, remapped, unmapped, TreeView,
};
use crate::error::{PagingError, PagingResult};
use crate::flush::{drained, queued, FlushQueue, Pending};
use crate::laws::law_cursor_maps_alike;
use crate::mapping::{
    IntoMapBacking, IntoMappingFlags, MapBacking, Mapping, MappingContiguity, MappingFlags,
};
use crate::meta::PageSize;
use crate::paging::{
    fits_bits, level_of_size, FrameAllocator, PageTableEntry, PagingMetaData, TlbInvalidation,
};
use crate::plan::{
    admitted, best_leaf_size, check_leaf_range, check_paddr, check_scatter_segment, contiguous_plan,
    exact_leaf_size, extent_plan, followed_by, granular, granule_plan, index_at,
    lemma_named_placement, lemma_next_leaf, named_leaf, named_placement, next_leaf, offset_paddr,
    offset_vaddr, one_leaf, rejected, request_plan, scatter_plan, single, total_len, well_placed,
    Placement, Plan,
};
use crate::request::{
    encodes, lemma_fails, lemma_followed_by, lemma_nothing, lemma_rejected, lemma_single,
    lemma_then, map_plan, progressed, word_of,
};
use crate::tree::{
    layout_ok, lemma_root_on_path, lemma_table, level_of, on_path, same_path, slot_of, slots,
    storable, MAX_LEVELS,
};
use crate::walker::PageTableWalker;
use vstd::prelude::*;

verus! {

/// Whether the cached tables below the root are those on the path of `last`.
pub open spec fn cached<Meta: PagingMetaData>(
    tables: Map<u64, Seq<int>>,
    frames: Seq<Option<PhysAddr>>,
    last: u64,
) -> bool {
    forall|k: int|
        0 <= k < Meta::LEVELS - 1 ==> ((#[trigger] frames[k]) matches Some(frame) ==> on_path::<
            Meta,
        >(tables, frame.0, last) && tables[frame.0].len() == Meta::LEVELS - 1 - k)
}

/// The tables that the previous operation of a cursor descended through.
pub struct Descent {
    /// `frames[L - 1]` is the table at level `L` on the path of the last
    /// address. The root is not stored here.
    frames: [Option<PhysAddr>; MAX_LEVELS],
    /// The last address mutated; `None` for a fresh cursor or after an error.
    last: Option<u64>,
}

impl Descent {
    /// Whether nothing may be reused.
    pub closed spec fn fresh(&self) -> bool {
        self.last is None
    }

    /// Whether no table is cached at any level.
    pub closed spec fn empty(&self) -> bool {
        forall|k: int| 0 <= k < MAX_LEVELS ==> #[trigger] self.frames@[k] is None
    }

    /// Whether what may be reused is on the path of the last address.
    pub closed spec fn wf<Meta: PagingMetaData>(&self, tables: Map<u64, Seq<int>>) -> bool {
        self.last matches Some(last) ==> cached::<Meta>(tables, self.frames@, last)
    }

    /// Whether every cached table is on the path of `vaddr`.
    pub closed spec fn follows<Meta: PagingMetaData>(
        &self,
        tables: Map<u64, Seq<int>>,
        vaddr: u64,
    ) -> bool {
        cached::<Meta>(tables, self.frames@, vaddr)
    }

    /// Where nothing may be reused, nothing can be wrong.
    pub proof fn lemma_fresh<Meta: PagingMetaData>(&self, tables: Map<u64, Seq<int>>)
        requires
            self.fresh(),
        ensures
            self.wf::<Meta>(tables),
    {
    }

    /// A descent with nothing cached.
    pub fn new() -> (r: Self)
        ensures
            r.fresh(),
            r.empty(),
    {
        Descent { frames: [None; MAX_LEVELS], last: None }
    }

    /// Deepest cached table that remains selected by `vaddr`. If the first
    /// differing index is at level `D`, the table at level `D` is still
    /// selected by identical higher-level indices; only the tables below have
    /// to be re-walked.
    fn reusable_level<Meta: PagingMetaData>(&self, vaddr: Meta::VirtAddr) -> (r: u8)
        requires
            layout_ok::<Meta>(),
        ensures
            1 <= r <= Meta::LEVELS,
            match self.last {
                None => r == Meta::LEVELS,
                Some(last) => same_path::<Meta>(last, vaddr.value(), (r + 1) as u8),
            },
    {
        let last: Meta::VirtAddr = match self.last {
            Some(last) => Meta::VirtAddr::from_u64(last),
            None => return Meta::LEVELS as u8,
        };
        let mut level: u8 = Meta::LEVELS as u8;
        while level > 1
            invariant
                layout_ok::<Meta>(),
                1 <= level <= Meta::LEVELS,
                self.last == Some(last.value()),
                same_path::<Meta>(last.value(), vaddr.value(), (level + 1) as u8),
            decreases level,
        {
            if index_at::<Meta>(level, last) != index_at::<Meta>(level, vaddr) {
                return level;
            }
            level = level - 1;
        }
        1
    }

    /// Invalidate cache slots below `level`.
    fn invalidate_below(&mut self, level: u8)
        requires
            1 <= level <= MAX_LEVELS,
        ensures
            final(self).last == old(self).last,
            forall|k: int|
                0 <= k < MAX_LEVELS ==> #[trigger] final(self).frames@[k] == if k < level - 1 {
                    None
                } else {
                    old(self).frames@[k]
                },
    {
        let mut i: usize = 0;
        while i < (level as usize) - 1
            invariant
                self.last == old(self).last,
                i <= level - 1,
                1 <= level <= MAX_LEVELS,
                forall|k: int|
                    0 <= k < MAX_LEVELS ==> #[trigger] self.frames@[k] == if k < i {
                        None
                    } else {
                        old(self).frames@[k]
                    },
            decreases level - i,
        {
            self.frames[i] = None;
            i = i + 1;
        }
    }

    /// Turn to the path of `vaddr`: forget the tables that are not on it.
    /// Returns the deepest level whose table may still be cached.
    fn turn_to<Meta: PagingMetaData>(
        &mut self,
        vaddr: Meta::VirtAddr,
        Ghost(tables): Ghost<Map<u64, Seq<int>>>,
    ) -> (r: u8)
        requires
            layout_ok::<Meta>(),
            old(self).wf::<Meta>(tables),
        ensures
            1 <= r <= Meta::LEVELS,
            final(self).follows::<Meta>(tables, vaddr.value()),
    {
        let reusable: u8 = self.reusable_level::<Meta>(vaddr);
        let ghost before = self.frames@;
        self.invalidate_below(reusable);
        proof {
            lemma_still_cached::<Meta>(
                tables,
                before,
                self.frames@,
                self.last,
                vaddr.value(),
                reusable,
            );
        }
        reusable
    }
}

/// What stays cached when slots below a shared level are cleared is on the new
/// path too.
proof fn lemma_still_cached<Meta: PagingMetaData>(
    tables: Map<u64, Seq<int>>,
    before: Seq<Option<PhysAddr>>,
    after: Seq<Option<PhysAddr>>,
    last: Option<u64>,
    vaddr: u64,
    level: u8,
)
    requires
        layout_ok::<Meta>(),
        before.len() == MAX_LEVELS,
        after.len() == MAX_LEVELS,
        1 <= level <= Meta::LEVELS,
        forall|k: int|
            0 <= k < MAX_LEVELS ==> #[trigger] after[k] == if k < level - 1 {
                None
            } else {
                before[k]
            },
        match last {
            None => level == Meta::LEVELS,
            Some(v) => cached::<Meta>(tables, before, v) && same_path::<Meta>(
                v,
                vaddr,
                (level + 1) as u8,
            ),
        },
    ensures
        cached::<Meta>(tables, after, vaddr),
{
    assert forall|k: int| 0 <= k < Meta::LEVELS - 1 implies ((#[trigger] after[k]) matches Some(
        frame,
    ) ==> on_path::<Meta>(tables, frame.0, vaddr) && tables[frame.0].len() == Meta::LEVELS - 1
        - k) by {
        if let Some(frame) = after[k] {
            let v = last->0;
            assert(before[k] == Some(frame));
            let n = tables[frame.0].len();
            assert(slots::<Meta>(v, n) =~= slots::<Meta>(vaddr, n)) by {
                assert forall|j: int| 0 <= j < n implies slots::<Meta>(v, n)[j] == slots::<Meta>(
                    vaddr,
                    n,
                )[j] by {
                    let l = (Meta::LEVELS - j) as u8;
                    assert(slot_of::<Meta>(l, v) == slot_of::<Meta>(l, vaddr));
                }
            }
        }
    }
}

/// Cursor for batched mapping operations.
///
/// A cursor caches the descent (the chain of tables from root down to the
/// leaf-bearing table) used by the previous operation. As long as a follow-up
/// operation's address shares a high-level prefix, the cached descent is
/// reused and the corresponding root-side reads are skipped.
///
/// TLB flushes are batched as coalesced base-granule ranges and emitted by
/// [`finish`](Self::finish).
///
/// # Errors recover the descent
///
/// If a cursor operation fails, the descent cache is invalidated: the next
/// operation re-walks fully.
pub struct PageTableCursor<
    'pt,
    Meta: PagingMetaData,
    Entry: PageTableEntry,
    Alloc: FrameAllocator,
    Tlb: TlbInvalidation<Meta::VirtAddr>,
> {
    /// The walker, borrowed until the cursor is finished.
    pub pt: &'pt mut PageTableWalker<Meta, Entry, Alloc>,
    /// Where invalidations go.
    pub tlb: &'pt mut Tlb,
    /// The cached descent.
    pub descent: Descent,
    /// The invalidations that are due.
    pub pending: FlushQueue,
}

impl<
    'pt,
    Meta: PagingMetaData,
    Entry: PageTableEntry,
    Alloc: FrameAllocator,
    Tlb: TlbInvalidation<Meta::VirtAddr>,
> PageTableCursor<'pt, Meta, Entry, Alloc, Tlb> {
    /// The cursor invariant.
    pub open spec fn wf(&self) -> bool {
        &&& self.pt.wf()
        &&& self.pending.wf(Meta::BASE_PAGE_SIZE)
        &&& self.descent.wf::<Meta>(self.pt@.tables)
    }

    /// Open a cursor.
    pub fn new(pt: &'pt mut PageTableWalker<Meta, Entry, Alloc>, tlb: &'pt mut Tlb) -> (r: Self)
        requires
            old(pt).wf(),
        ensures
            r.wf(),
            r.descent.fresh(),
            *r.pt == *old(pt),
            *r.tlb == *old(tlb),
            r.pending@ == Pending::Ranges(Set::empty()),
            *final(r.pt) == *final(pt),
            *final(r.tlb) == *final(tlb),
    {
        PageTableCursor { pt, tlb, descent: Descent::new(), pending: FlushQueue::new() }
    }

    /// Install one leaf, reusing the cached descent for shared upper levels.
    pub fn map_leaf_sized_at_level(
        &mut self,
        range: AddrRange<Meta::VirtAddr>,
        paddr: PhysAddr,
        flags: Entry::Flags,
        size: PageSize,
        target_level: u8,
    ) -> (r: PagingResult)
        requires
            old(self).wf(),
            1 <= target_level <= Meta::LEVELS,
            Entry::encodable(paddr.0),
            storable::<Entry>(Entry::leaf_raw(paddr.0, flags, size), target_level),
        ensures
            final(self).wf(),
            *final(final(self).pt) == *final(old(self).pt),
            *final(final(self).tlb) == *final(old(self).tlb),
            *final(self).tlb == *old(self).tlb,
            placed::<Meta, Entry>(
                old(self).pt@,
                final(self).pt@,
                Placement { vaddr: range.lo(), paddr: paddr.0, size, level: target_level },
                Entry::leaf_raw(paddr.0, flags, size),
                r,
            ),
            final(self).pending@ == if r is Ok {
                queued(old(self).pending@, range.lo(), range.len(), Meta::BASE_PAGE_SIZE)
            } else {
                old(self).pending@
            },
            r is Err ==> final(self).descent.fresh(),
    {
        let vaddr: Meta::VirtAddr = range.start;
        let v: u64 = vaddr.as_u64();
        let ghost raw = Entry::leaf_raw(paddr.0, flags, size);
        let ghost before = self.pt@;
        let ghost leaf = Placement { vaddr: v, paddr: paddr.0, size, level: target_level };
        let reusable: u8 = self.descent.turn_to::<Meta>(vaddr, Ghost(before.tables));
        let mut level: u8 = Meta::LEVELS as u8;
        let mut current: PhysAddr = self.pt.root();
        proof {
            lemma_root_on_path::<Meta, Entry>(before.frames, before.tables, before.root, v);
            lemma_prepared_self::<Meta, Entry>(before, leaf);
        }
        // Follow the cached tables down as far as they reach.
        while level > reusable && level > target_level
            invariant
                layout_ok::<Meta>(),
                1 <= target_level <= level <= Meta::LEVELS,
                self.descent.follows::<Meta>(before.tables, v),
                on_path::<Meta>(before.tables, current.0, v),
                level == level_of::<Meta>(before.tables, current.0),
            decreases level,
        {
            match self.descent.frames[(level - 2) as usize] {
                Some(frame) => {
                    level = level - 1;
                    current = frame;
                },
                None => break ,
            }
        }
        // Descend from there, adding tables where there are none.
        while level > target_level
            invariant
                self.pt.wf(),
                *final(self.pt) == *final(old(self).pt),
                *final(self.tlb) == *final(old(self).tlb),
                *self.tlb == *old(self).tlb,
                self.pending == old(self).pending,
                old(self).pending.wf(Meta::BASE_PAGE_SIZE),
                before == old(self).pt@,
                leaf == (Placement { vaddr: v, paddr: paddr.0, size, level: target_level }),
                raw == Entry::leaf_raw(paddr.0, flags, size),
                v == vaddr.value(),
                vaddr == range.start,
                1 <= target_level <= level <= Meta::LEVELS,
                self.descent.follows::<Meta>(self.pt@.tables, v),
                on_path::<Meta>(self.pt@.tables, current.0, v),
                level == level_of::<Meta>(self.pt@.tables, current.0),
                prepared::<Meta, Entry>(before, self.pt@, leaf),
            decreases level,
        {
            let ghost mid = self.pt@;
            match self.pt.step_down(current, level, vaddr, Ghost(leaf)) {
                Ok(child) => {
                    proof {
                        lemma_prepared::<Meta, Entry>(before, mid, self.pt@, leaf);
                        lemma_table::<Meta, Entry>(
                            self.pt@.frames,
                            self.pt@.tables,
                            self.pt@.root,
                            child.0,
                        );
                    }
                    current = child;
                },
                Err(e) => {
                    proof {
                        lemma_prepared::<Meta, Entry>(before, mid, self.pt@, leaf);
                        assert(placed::<Meta, Entry>(mid, self.pt@, leaf, raw, Err(e)));
                    }
                    self.descent.last = None;
                    return Err(e);
                },
            }
            level = level - 1;
            self.descent.frames[(level - 1) as usize] = Some(current);
        }
        let ghost mid = self.pt@;
        let r: PagingResult = self.pt.install_leaf(
            current,
            vaddr,
            paddr,
            flags,
            size,
            target_level,
        );
        proof {
            lemma_prepared::<Meta, Entry>(before, mid, self.pt@, leaf);
            assert(placed::<Meta, Entry>(mid, self.pt@, leaf, raw, r));
        }
        if r.is_err() {
            self.descent.last = None;
            return r;
        }
        self.descent.last = Some(v);
        self.pending.queue(range, Meta::BASE_PAGE_SIZE);
        r
    }

    /// Map one leaf, reusing the cached descent where possible.
    pub fn map_leaf(
        &mut self,
        range: AddrRange<Meta::VirtAddr>,
        paddr: PhysAddr,
        flags: Entry::Flags,
    ) -> (r: PagingResult)
        requires
            old(self).wf(),
            encodes::<Entry>(one_leaf(named_placement::<Meta>(range, paddr.0)), flags),
        ensures
            final(self).wf(),
            *final(final(self).pt) == *final(old(self).pt),
            *final(final(self).tlb) == *final(old(self).tlb),
            *final(self).tlb == *old(self).tlb,
            progressed::<Meta, Entry>(
                old(self).pt@,
                old(self).pending@,
                final(self).pt@,
                final(self).pending@,
                one_leaf(named_placement::<Meta>(range, paddr.0)),
                flags,
                r,
            ),
            r is Err ==> final(self).descent.fresh(),
    {
        let ghost view = self.pt@;
        let ghost due = self.pending@;
        let ghost plan = one_leaf(named_placement::<Meta>(range, paddr.0));
        let size: PageSize = match check_leaf_range::<Meta>(range) {
            Ok(size) => size,
            Err(e) => {
                proof {
                    lemma_rejected::<Meta, Entry>(view, due, flags, e);
                }
                self.descent.last = None;
                return Err(e);
            },
        };
        match check_paddr::<Meta>(paddr) {
            Ok(_) => {},
            Err(e) => {
                proof {
                    lemma_rejected::<Meta, Entry>(view, due, flags, e);
                }
                self.descent.last = None;
                return Err(e);
            },
        }
        if !size.is_aligned(paddr.as_u64()) {
            proof {
                lemma_rejected::<Meta, Entry>(view, due, flags, PagingError::NotAligned);
            }
            self.descent.last = None;
            return Err(PagingError::NotAligned);
        }
        self.map_leaf_sized(range, paddr, flags, size)
    }

    /// Map one leaf of a known size.
    fn map_leaf_sized(
        &mut self,
        range: AddrRange<Meta::VirtAddr>,
        paddr: PhysAddr,
        flags: Entry::Flags,
        size: PageSize,
    ) -> (r: PagingResult)
        requires
            old(self).wf(),
            encodes::<Entry>(one_leaf(named_placement::<Meta>(range, paddr.0)), flags),
            named_leaf::<Meta>(range) == Ok::<PageSize, PagingError>(size),
            fits_bits(paddr.0, Meta::PA_MAX_BITS),
            paddr.0 % size.len() == 0,
        ensures
            final(self).wf(),
            *final(final(self).pt) == *final(old(self).pt),
            *final(final(self).tlb) == *final(old(self).tlb),
            *final(self).tlb == *old(self).tlb,
            progressed::<Meta, Entry>(
                old(self).pt@,
                old(self).pending@,
                final(self).pt@,
                final(self).pending@,
                one_leaf(named_placement::<Meta>(range, paddr.0)),
                flags,
                r,
            ),
            r is Err ==> final(self).descent.fresh(),
    {
        let target_level: u8 = match level_of_size::<Meta>(size) {
            Some(level) => level,
            None => {
                proof {
                    lemma_rejected::<Meta, Entry>(
                        self.pt@,
                        self.pending@,
                        flags,
                        PagingError::UnsupportedSize,
                    );
                }
                self.descent.last = None;
                return Err(PagingError::UnsupportedSize);
            },
        };
        proof {
            lemma_named_len::<Meta>(range);
        }
        self.install_one(range, paddr, flags, size, target_level)
    }

    /// Map one leaf that is known to be well placed.
    fn install_one(
        &mut self,
        range: AddrRange<Meta::VirtAddr>,
        paddr: PhysAddr,
        flags: Entry::Flags,
        size: PageSize,
        target_level: u8,
    ) -> (r: PagingResult)
        requires
            old(self).wf(),
            ({
                let leaf = Placement {
                    vaddr: range.lo(),
                    paddr: paddr.0,
                    size,
                    level: target_level,
                };
                well_placed::<Meta>(leaf) && encodes::<Entry>(single(leaf), flags)
            }),
            range.len() == size.len(),
        ensures
            final(self).wf(),
            *final(final(self).pt) == *final(old(self).pt),
            *final(final(self).tlb) == *final(old(self).tlb),
            *final(self).tlb == *old(self).tlb,
            progressed::<Meta, Entry>(
                old(self).pt@,
                old(self).pending@,
                final(self).pt@,
                final(self).pending@,
                single(
                    Placement { vaddr: range.lo(), paddr: paddr.0, size, level: target_level },
                ),
                flags,
                r,
            ),
            r is Err ==> final(self).descent.fresh(),
    {
        let ghost view = self.pt@;
        let ghost due = self.pending@;
        let ghost leaf = Placement { vaddr: range.lo(), paddr: paddr.0, size, level: target_level };
        proof {
            assert(single(leaf).leaves[0] == leaf);
            assert(leaf_at::<Meta>(target_level, size));
            assert(leaf_size::<Meta>(size));
        }
        let r: PagingResult = self.map_leaf_sized_at_level(
            range,
            paddr,
            flags,
            size,
            target_level,
        );
        proof {
            lemma_single::<Meta, Entry>(view, due, self.pt@, self.pending@, leaf, flags, r);
        }
        r
    }

    /// Map an extent that is contiguous virtually and physically.
    pub fn map_contiguous(
        &mut self,
        range: AddrRange<Meta::VirtAddr>,
        phys: PhysAddrRange,
        flags: Entry::Flags,
        fixed: Option<PageSize>,
    ) -> (r: PagingResult)
        requires
            old(self).wf(),
            encodes::<Entry>(contiguous_plan::<Meta>(range, phys, fixed), flags),
        ensures
            final(self).wf(),
            *final(final(self).pt) == *final(old(self).pt),
            *final(final(self).tlb) == *final(old(self).tlb),
            *final(self).tlb == *old(self).tlb,
            progressed::<Meta, Entry>(
                old(self).pt@,
                old(self).pending@,
                final(self).pt@,
                final(self).pending@,
                contiguous_plan::<Meta>(range, phys, fixed),
                flags,
                r,
            ),
            r is Err ==> final(self).descent.fresh(),
    {
        let ghost view = self.pt@;
        let ghost due = self.pending@;
        if range.is_empty() || phys.is_empty() || range.size() != phys.size() {
            proof {
                lemma_rejected::<Meta, Entry>(view, due, flags, PagingError::InvalidMappingShape);
            }
            self.descent.last = None;
            return Err(PagingError::InvalidMappingShape);
        }
        match exact_leaf_size::<Meta>(range, phys.start, fixed) {
            Err(e) => {
                proof {
                    lemma_rejected::<Meta, Entry>(view, due, flags, e);
                }
                self.descent.last = None;
                return Err(e);
            },
            Ok(Some((size, target_level))) => {
                return self.install_one(range, phys.start, flags, size, target_level);
            },
            Ok(None) => {},
        }
        let total: u64 = range.size();
        let mut offset: u64 = 0;
        let ghost plan = contiguous_plan::<Meta>(range, phys, fixed);
        let ghost vbase = range.lo();
        let ghost pbase = phys.lo();
        let ghost done = Plan { leaves: Seq::<Placement>::empty(), stop: None };
        proof {
            lemma_nothing::<Meta, Entry>(view, due, flags);
            lemma_followed_by(plan, plan, plan);
        }
        while offset < total
            invariant
                self.wf(),
                *final(self.pt) == *final(old(self).pt),
                *final(self.tlb) == *final(old(self).tlb),
                *self.tlb == *old(self).tlb,
                view == old(self).pt@,
                due == old(self).pending@,
                vbase == range.lo(),
                pbase == phys.lo(),
                offset <= total,
                done.stop is None,
                progressed::<Meta, Entry>(
                    view,
                    due,
                    self.pt@,
                    self.pending@,
                    done,
                    flags,
                    Ok(()),
                ),
                plan == contiguous_plan::<Meta>(range, phys, fixed),
                plan == followed_by(
                    done,
                    extent_plan::<Meta>(vbase, pbase, total, offset, fixed),
                ),
                encodes::<Entry>(plan, flags),
            decreases total - offset,
        {
            let ghost mid = self.pt@;
            let ghost due_mid = self.pending@;
            let ghost rest = extent_plan::<Meta>(vbase, pbase, total, offset, fixed);
            let ghost next = next_leaf::<Meta>(vbase, pbase, total, offset, fixed);
            match self.next_placement(range.start, phys.start, total, offset, fixed) {
                Err(e) => {
                    proof {
                        lemma_rejected::<Meta, Entry>(mid, due_mid, flags, e);
                        lemma_then::<Meta, Entry>(
                            view,
                            due,
                            mid,
                            due_mid,
                            mid,
                            due_mid,
                            done,
                            rest,
                            flags,
                            Err(e),
                        );
                    }
                    self.descent.last = None;
                    return Err(e);
                },
                Ok((leaf, paddr, size)) => {
                    let ghost later = if next is Ok {
                        extent_plan::<Meta>(
                            vbase,
                            pbase,
                            total,
                            (offset + size.len()) as u64,
                            fixed,
                        )
                    } else {
                        Plan { leaves: Seq::empty(), stop: None }
                    };
                    let ghost one = one_leaf(next);
                    proof {
                        if next is Ok {
                            lemma_next_leaf::<Meta>(vbase, pbase, total, offset, fixed);
                        } else {
                            lemma_followed_by(one, one, one);
                        }
                        assert(rest == followed_by(one, later));
                        lemma_followed_by(done, one, later);
                        lemma_encodes_part::<Entry>(done, one, later, flags);
                        lemma_named_placement::<Meta>(leaf, paddr.0, size);
                    }
                    let r: PagingResult = self.map_leaf(leaf, paddr, flags);
                    match r {
                        Ok(u) => {
                            proof {
                                assert(u == ());
                                lemma_then::<Meta, Entry>(
                                    view,
                                    due,
                                    mid,
                                    due_mid,
                                    self.pt@,
                                    self.pending@,
                                    done,
                                    one,
                                    flags,
                                    Ok(()),
                                );
                                lemma_ok_stop::<Meta, Entry>(
                                    mid,
                                    due_mid,
                                    self.pt@,
                                    self.pending@,
                                    one,
                                    flags,
                                );
                                done = followed_by(done, one);
                            }
                            offset = offset + size.bytes();
                        },
                        Err(e) => {
                            proof {
                                lemma_fails::<Meta, Entry>(
                                    mid,
                                    due_mid,
                                    self.pt@,
                                    self.pending@,
                                    one,
                                    later,
                                    flags,
                                    e,
                                );
                                lemma_then::<Meta, Entry>(
                                    view,
                                    due,
                                    mid,
                                    due_mid,
                                    self.pt@,
                                    self.pending@,
                                    done,
                                    rest,
                                    flags,
                                    Err(e),
                                );
                            }
                            return Err(e);
                        },
                    }
                },
            }
        }
        proof {
            lemma_followed_by(done, done, done);
        }
        Ok(())
    }

    /// Map a request whose leaves all have the size `granule`.
    pub fn map_scattered(
        &mut self,
        range: AddrRange<Meta::VirtAddr>,
        backing: MapBacking<'_>,
        flags: Entry::Flags,
        granule: PageSize,
    ) -> (r: PagingResult)
        requires
            old(self).wf(),
            encodes::<Entry>(granule_plan::<Meta>(range, backing, granule), flags),
        ensures
            final(self).wf(),
            *final(final(self).pt) == *final(old(self).pt),
            *final(final(self).tlb) == *final(old(self).tlb),
            *final(self).tlb == *old(self).tlb,
            progressed::<Meta, Entry>(
                old(self).pt@,
                old(self).pending@,
                final(self).pt@,
                final(self).pending@,
                granule_plan::<Meta>(range, backing, granule),
                flags,
                r,
            ),
            r is Err ==> final(self).descent.fresh(),
    {
        let ghost view = self.pt@;
        let ghost due = self.pending@;
        proof {
            lemma_rejected::<Meta, Entry>(view, due, flags, PagingError::InvalidMappingShape);
            lemma_rejected::<Meta, Entry>(view, due, flags, PagingError::UnsupportedSize);
        }
        if range.is_empty() || !granule.is_aligned(range.size()) {
            self.descent.last = None;
            return Err(PagingError::InvalidMappingShape);
        }
        if level_of_size::<Meta>(granule).is_none() {
            self.descent.last = None;
            return Err(PagingError::UnsupportedSize);
        }
        match backing {
            MapBacking::Contiguous(phys) => {
                if check_scatter_segment(phys, granule).is_err() || phys.size() != range.size() {
                    self.descent.last = None;
                    return Err(PagingError::InvalidMappingShape);
                }
                self.map_contiguous(range, phys, flags, Some(granule))
            },
            MapBacking::Scattered(extents) => {
                if !check_extents(extents, granule, range.size()) {
                    self.descent.last = None;
                    return Err(PagingError::InvalidMappingShape);
                }
                self.map_extents(range, extents, flags, granule)
            },
        }
    }

    /// Map checked extents one after the other.
    fn map_extents(
        &mut self,
        range: AddrRange<Meta::VirtAddr>,
        extents: &[PhysAddrRange],
        flags: Entry::Flags,
        granule: PageSize,
    ) -> (r: PagingResult)
        requires
            old(self).wf(),
            total_len(extents@, extents@.len()) == range.len(),
            !range.empty(),
            encodes::<Entry>(
                scatter_plan::<Meta>(range.lo(), 0, extents@, 0, granule),
                flags,
            ),
        ensures
            final(self).wf(),
            *final(final(self).pt) == *final(old(self).pt),
            *final(final(self).tlb) == *final(old(self).tlb),
            *final(self).tlb == *old(self).tlb,
            progressed::<Meta, Entry>(
                old(self).pt@,
                old(self).pending@,
                final(self).pt@,
                final(self).pending@,
                scatter_plan::<Meta>(range.lo(), 0, extents@, 0, granule),
                flags,
                r,
            ),
            r is Err ==> final(self).descent.fresh(),
    {
        let ghost view = self.pt@;
        let ghost due = self.pending@;
        let ghost vbase = range.lo();
        let ghost plan = scatter_plan::<Meta>(vbase, 0, extents@, 0, granule);
        let ghost done = Plan { leaves: Seq::<Placement>::empty(), stop: None };
        proof {
            lemma_nothing::<Meta, Entry>(view, due, flags);
            lemma_followed_by(plan, plan, plan);
        }
        let mut offset: u64 = 0;
        let mut i: usize = 0;
        while i < extents.len()
            invariant
                self.wf(),
                *final(self.pt) == *final(old(self).pt),
                *final(self.tlb) == *final(old(self).tlb),
                *self.tlb == *old(self).tlb,
                view == old(self).pt@,
                due == old(self).pending@,
                vbase == range.lo(),
                i <= extents@.len(),
                offset == total_len(extents@, i as nat),
                total_len(extents@, extents@.len()) == range.len(),
                !range.empty(),
                done.stop is None,
                progressed::<Meta, Entry>(
                    view,
                    due,
                    self.pt@,
                    self.pending@,
                    done,
                    flags,
                    Ok(()),
                ),
                plan == scatter_plan::<Meta>(vbase, 0, extents@, 0, granule),
                plan == followed_by(
                    done,
                    scatter_plan::<Meta>(vbase, offset as int, extents@, i as nat, granule),
                ),
                encodes::<Entry>(plan, flags),
            decreases extents@.len() - i,
        {
            let ghost mid = self.pt@;
            let ghost due_mid = self.pending@;
            let ghost rest = scatter_plan::<Meta>(
                vbase,
                offset as int,
                extents@,
                i as nat,
                granule,
            );
            let phys: PhysAddrRange = extents[i];
            proof {
                lemma_total_len(extents@, i as nat + 1, extents@.len());
            }
            let vaddr: Meta::VirtAddr = offset_vaddr::<Meta>(range.start, offset)?;
            let vrange: AddrRange<Meta::VirtAddr> = match AddrRange::try_from_start_size(
                vaddr,
                phys.size(),
            ) {
                Some(vrange) => vrange,
                None => {
                    self.descent.last = None;
                    return Err(PagingError::AddressOutOfRange);
                },
            };
            let ghost one = contiguous_plan::<Meta>(vrange, phys, Some(granule));
            let ghost later = scatter_plan::<Meta>(
                vbase,
                offset + phys.len(),
                extents@,
                i as nat + 1,
                granule,
            );
            proof {
                assert(rest == followed_by(one, later));
                lemma_followed_by(done, one, later);
                lemma_encodes_part::<Entry>(done, one, later, flags);
            }
            match self.map_contiguous(vrange, phys, flags, Some(granule)) {
                Ok(u) => {
                    proof {
                        assert(u == ());
                        lemma_then::<Meta, Entry>(
                            view,
                            due,
                            mid,
                            due_mid,
                            self.pt@,
                            self.pending@,
                            done,
                            one,
                            flags,
                            Ok(()),
                        );
                        lemma_ok_stop::<Meta, Entry>(
                            mid,
                            due_mid,
                            self.pt@,
                            self.pending@,
                            one,
                            flags,
                        );
                        done = followed_by(done, one);
                    }
                    offset = offset + phys.size();
                    i = i + 1;
                },
                Err(e) => {
                    proof {
                        lemma_fails::<Meta, Entry>(
                            mid,
                            due_mid,
                            self.pt@,
                            self.pending@,
                            one,
                            later,
                            flags,
                            e,
                        );
                        lemma_then::<Meta, Entry>(
                            view,
                            due,
                            mid,
                            due_mid,
                            self.pt@,
                            self.pending@,
                            done,
                            rest,
                            flags,
                            Err(e),
                        );
                    }
                    return Err(e);
                },
            }
        }
        proof {
            lemma_followed_by(done, done, done);
        }
        Ok(())
    }

    /// Map a virtually-contiguous range using the cached descent where
    /// possible.
    ///
    /// Refuses on conflict like [`PageTableWalker::map`], but the TLB flush is
    /// queued rather than issued.
    pub fn map<'a, B: IntoMapBacking<'a>, F: IntoMappingFlags<Entry::Flags>>(
        &mut self,
        range: AddrRange<Meta::VirtAddr>,
        backing: B,
        flags: F,
    ) -> (r: PagingResult)
        requires
            old(self).wf(),
            backing.fits(range.len()),
            encodes::<Entry>(
                cursor_plan::<Meta, Entry, B, F>(range, backing, flags),
                flags.mapping_flags().leaf,
            ),
        ensures
            final(self).wf(),
            *final(final(self).pt) == *final(old(self).pt),
            *final(final(self).tlb) == *final(old(self).tlb),
            *final(self).tlb == *old(self).tlb,
            progressed::<Meta, Entry>(
                old(self).pt@,
                old(self).pending@,
                final(self).pt@,
                final(self).pending@,
                cursor_plan::<Meta, Entry, B, F>(range, backing, flags),
                flags.mapping_flags().leaf,
                r,
            ),
            r is Err ==> final(self).descent.fresh(),
    {
        let flags: MappingFlags<Entry::Flags> = flags.into_mapping_flags();
        match backing.into_map_backing(range.size()) {
            Err(e) => {
                proof {
                    lemma_rejected::<Meta, Entry>(self.pt@, self.pending@, flags.leaf, e);
                }
                self.descent.last = None;
                Err(e)
            },
            Ok(backing) => self.map_request(range, backing, flags),
        }
    }

    /// Map a request by its contiguity policy.
    pub fn map_request(
        &mut self,
        range: AddrRange<Meta::VirtAddr>,
        backing: MapBacking<'_>,
        flags: MappingFlags<Entry::Flags>,
    ) -> (r: PagingResult)
        requires
            old(self).wf(),
            encodes::<Entry>(
                request_plan::<Meta>(range, backing, flags.contiguity),
                flags.leaf,
            ),
        ensures
            final(self).wf(),
            *final(final(self).pt) == *final(old(self).pt),
            *final(final(self).tlb) == *final(old(self).tlb),
            *final(self).tlb == *old(self).tlb,
            progressed::<Meta, Entry>(
                old(self).pt@,
                old(self).pending@,
                final(self).pt@,
                final(self).pending@,
                request_plan::<Meta>(range, backing, flags.contiguity),
                flags.leaf,
                r,
            ),
            r is Err ==> final(self).descent.fresh(),
    {
        proof {
            lemma_rejected::<Meta, Entry>(
                self.pt@,
                self.pending@,
                flags.leaf,
                PagingError::InvalidMappingShape,
            );
        }
        match (flags.contiguity(), backing) {
            (MappingContiguity::Contiguous, MapBacking::Contiguous(phys)) => {
                self.map_contiguous(range, phys, flags.leaf(), None)
            },
            (MappingContiguity::Contiguous, MapBacking::Scattered(_)) => {
                self.descent.last = None;
                Err(PagingError::InvalidMappingShape)
            },
            (MappingContiguity::Scattered(granule), backing) => {
                self.map_scattered(range, backing, flags.leaf(), granule)
            },
        }
    }

    /// Remove the leaf at `range`. As with [`PageTableWalker::unmap`], emptied
    /// intermediates are reclaimed; the cached descent is given up, and the
    /// flush is queued.
    pub fn unmap(&mut self, range: AddrRange<Meta::VirtAddr>) -> (r: PagingResult<
        Mapping<Entry, Meta::VirtAddr>,
    >)
        requires
            old(self).wf(),
        ensures
            final(self).wf(),
            *final(final(self).pt) == *final(old(self).pt),
            *final(final(self).tlb) == *final(old(self).tlb),
            *final(self).tlb == *old(self).tlb,
            unmapped::<Meta, Entry>(old(self).pt@, final(self).pt@, range, r),
            final(self).pending@ == if r is Ok {
                queued(old(self).pending@, range.lo(), range.len(), Meta::BASE_PAGE_SIZE)
            } else {
                old(self).pending@
            },
            final(self).descent.fresh(),
    {
        self.descent.invalidate_below(Meta::LEVELS as u8);
        self.descent.last = None;
        let result: Mapping<Entry, Meta::VirtAddr> = self.pt.unmap_no_flush(range)?;
        self.pending.queue(result.range, Meta::BASE_PAGE_SIZE);
        Ok(result)
    }

    /// Batched form of [`PageTableWalker::protect`]: the flush is queued.
    pub fn protect(&mut self, range: AddrRange<Meta::VirtAddr>, flags: Entry::Flags) -> (r:
        PagingResult<Mapping<Entry, Meta::VirtAddr>>)
        requires
            old(self).wf(),
            protectable::<Meta, Entry>(old(self).pt@, range, flags),
        ensures
            final(self).wf(),
            *final(final(self).pt) == *final(old(self).pt),
            *final(final(self).tlb) == *final(old(self).tlb),
            *final(self).tlb == *old(self).tlb,
            protected::<Meta, Entry>(old(self).pt@, final(self).pt@, range, flags, r),
            final(self).pending@ == if r is Ok {
                queued(old(self).pending@, range.lo(), range.len(), Meta::BASE_PAGE_SIZE)
            } else {
                old(self).pending@
            },
            r is Err ==> final(self).descent.fresh(),
    {
        match self.pt.protect_no_flush(range, flags) {
            Ok(mapping) => {
                self.pending.queue(mapping.range, Meta::BASE_PAGE_SIZE);
                Ok(mapping)
            },
            Err(e) => {
                self.descent.last = None;
                Err(e)
            },
        }
    }

    /// Batched form of [`PageTableWalker::remap`]: the flush is queued.
    pub fn remap(
        &mut self,
        range: AddrRange<Meta::VirtAddr>,
        paddr: PhysAddr,
        flags: Entry::Flags,
    ) -> (r: PagingResult<Mapping<Entry, Meta::VirtAddr>>)
        requires
            old(self).wf(),
            remappable::<Meta, Entry>(old(self).pt@, range, paddr, flags),
        ensures
            final(self).wf(),
            *final(final(self).pt) == *final(old(self).pt),
            *final(final(self).tlb) == *final(old(self).tlb),
            *final(self).tlb == *old(self).tlb,
            remapped::<Meta, Entry>(old(self).pt@, final(self).pt@, range, paddr, flags, r),
            final(self).pending@ == if r is Ok {
                queued(old(self).pending@, range.lo(), range.len(), Meta::BASE_PAGE_SIZE)
            } else {
                old(self).pending@
            },
            r is Err ==> final(self).descent.fresh(),
    {
        match self.pt.remap_no_flush(range, paddr, flags) {
            Ok(mapping) => {
                self.pending.queue(mapping.range, Meta::BASE_PAGE_SIZE);
                Ok(mapping)
            },
            Err(e) => {
                self.descent.last = None;
                Err(e)
            },
        }
    }

    /// Emit the accumulated TLB flushes.
    pub fn flush_pending(&mut self)
        requires
            old(self).wf(),
        ensures
            final(self).wf(),
            *final(final(self).pt) == *final(old(self).pt),
            *final(final(self).tlb) == *final(old(self).tlb),
            *final(self).pt == *old(self).pt,
            *final(self).tlb == drained::<Meta::VirtAddr, Tlb>(
                *old(self).tlb,
                old(self).pending@,
                Meta::BASE_PAGE_SIZE,
            ),
            final(self).pending@ == Pending::Ranges(Set::empty()),
    {
        self.pending.drain::<Meta::VirtAddr, Tlb>(self.tlb, Meta::BASE_PAGE_SIZE);
    }

    /// Drain the pending TLB invalidations and consume the cursor.
    pub fn finish(self) -> (r: PagingResult)
        requires
            self.wf(),
        ensures
            r is Ok,
            *final(self.pt) == *old(self.pt),
            *final(self.tlb) == drained::<Meta::VirtAddr, Tlb>(
                *old(self.tlb),
                self.pending@,
                Meta::BASE_PAGE_SIZE,
            ),
    {
        let mut cursor: Self = self;
        cursor.flush_pending();
        Ok(())
    }

    /// The range, backing and size of the next leaf of an extent.
    fn next_placement(
        &self,
        vbase: Meta::VirtAddr,
        pbase: PhysAddr,
        total: u64,
        offset: u64,
        fixed: Option<PageSize>,
    ) -> (r: PagingResult<(AddrRange<Meta::VirtAddr>, PhysAddr, PageSize)>)
        requires
            layout_ok::<Meta>(),
            offset < total,
        ensures
            match r {
                Err(e) => next_leaf::<Meta>(vbase.value(), pbase.0, total, offset, fixed) == Err::<
                    Placement,
                    PagingError,
                >(e),
                Ok((range, paddr, size)) => {
                    &&& range.lo() == vbase.value() + offset
                    &&& paddr.0 == pbase.0 + offset
                    &&& size.len() <= total - offset
                    &&& range.lo() + size.len() == range.hi()
                    &&& next_leaf::<Meta>(vbase.value(), pbase.0, total, offset, fixed)
                        == admitted::<Meta>(range.lo(), range.hi(), paddr.0, size)
                },
            },
    {
        let vaddr: Meta::VirtAddr = offset_vaddr::<Meta>(vbase, offset)?;
        let paddr: PhysAddr = offset_paddr(pbase, offset)?;
        let remaining: u64 = total - offset;
        let size: PageSize = match fixed {
            Some(size) => {
                if remaining < size.bytes() {
                    return Err(PagingError::InvalidMappingShape);
                }
                size
            },
            None => best_leaf_size::<Meta>(vaddr, paddr, remaining)?,
        };
        match AddrRange::try_from_start_size(vaddr, size.bytes()) {
            Some(range) => Ok((range, paddr, size)),
            None => Err(PagingError::AddressOutOfRange),
        }
    }
}

/// The plan of a request to a cursor.
pub open spec fn cursor_plan<
    'a,
    Meta: PagingMetaData,
    Entry: PageTableEntry,
    B: IntoMapBacking<'a>,
    F: IntoMappingFlags<Entry::Flags>,
>(range: AddrRange<Meta::VirtAddr>, backing: B, flags: F) -> Plan {
    match backing.backing(range.len()) {
        Err(e) => rejected(e),
        Ok(backing) => request_plan::<Meta>(range, backing, flags.mapping_flags().contiguity),
    }
}

/// A cursor takes its requests as the walker does: it cuts them by the same backing
/// and contiguity into the same leaves, and ends them with the same error.
pub proof fn law_cursor_plans_alike<
    'a,
    Meta: PagingMetaData,
    Entry: PageTableEntry,
    B: IntoMapBacking<'a>,
    F: IntoMappingFlags<Entry::Flags>,
>(range: AddrRange<Meta::VirtAddr>, backing: B, flags: F)
    requires
        range.lo() <= range.hi(),
    ensures
        cursor_plan::<Meta, Entry, B, F>(range, backing, flags) == map_plan::<Meta>(
            range,
            backing.backing((range.hi() - range.lo()) as u64),
            flags.mapping_flags().contiguity,
        ),
{
    if let Ok(b) = backing.backing(range.len()) {
        law_cursor_maps_alike::<Meta>(range, b, flags.mapping_flags().contiguity);
    }
}

/// Whether extents are all whole granules and together `total` bytes long.
fn check_extents(extents: &[PhysAddrRange], granule: PageSize, total: u64) -> (r: bool)
    ensures
        r == (extents@.len() > 0 && (forall|i: int|
            0 <= i < extents@.len() ==> granular(#[trigger] extents@[i], granule)) && total_len(
            extents@,
            extents@.len(),
        ) == total),
{
    if extents.len() == 0 {
        return false;
    }
    let mut sum: u64 = 0;
    let mut i: usize = 0;
    while i < extents.len()
        invariant
            i <= extents@.len(),
            sum == total_len(extents@, i as nat),
            sum <= total,
            forall|j: int| 0 <= j < i ==> granular(#[trigger] extents@[j], granule),
        decreases extents@.len() - i,
    {
        let phys: PhysAddrRange = extents[i];
        if check_scatter_segment(phys, granule).is_err() {
            return false;
        }
        proof {
            lemma_total_len(extents@, i as nat + 1, extents@.len());
        }
        match sum.checked_add(phys.size()) {
            None => return false,
            Some(end) => {
                if end > total {
                    return false;
                }
                sum = end;
            },
        }
        i = i + 1;
    }
    sum == total
}

/// More extents are no shorter.
proof fn lemma_total_len(extents: Seq<PhysAddrRange>, m: nat, n: nat)
    requires
        m <= n,
    ensures
        total_len(extents, m) <= total_len(extents, n),
    decreases n,
{
    if m < n {
        lemma_total_len(extents, m, (n - 1) as nat);
    }
}

/// A range that names a leaf is as long as the leaf.
proof fn lemma_named_len<Meta: PagingMetaData>(range: AddrRange<Meta::VirtAddr>)
    ensures
        named_leaf::<Meta>(range) matches Ok(size) ==> range.len() == size.len(),
{
    if let Some(size) = PageSize::of_len(range.len()) {
        let s: PageSize = choose|s: PageSize| s.len() == range.len();
        assert(s.len() == range.len());
    }
}

/// A part of a plan that encodes encodes.
proof fn lemma_encodes_part<Entry: PageTableEntry>(
    before: Plan,
    part: Plan,
    after: Plan,
    flags: Entry::Flags,
)
    requires
        before.stop is None,
        encodes::<Entry>(followed_by(before, followed_by(part, after)), flags),
    ensures
        encodes::<Entry>(part, flags),
        part.stop is None ==> encodes::<Entry>(after, flags),
{
    let whole = followed_by(before, followed_by(part, after));
    assert forall|k: int| 0 <= k < part.leaves.len() implies storable::<Entry>(
        word_of::<Entry>(#[trigger] part.leaves[k], flags),
        part.leaves[k].level,
    ) by {
        assert(whole.leaves[before.leaves.len() + k] == part.leaves[k]);
    }
    if part.stop is None {
        assert forall|k: int| 0 <= k < after.leaves.len() implies storable::<Entry>(
            word_of::<Entry>(#[trigger] after.leaves[k], flags),
            after.leaves[k].level,
        ) by {
            assert(whole.leaves[before.leaves.len() + part.leaves.len() + k] == after.leaves[k]);
        }
    }
}

/// Only a plan without a stop succeeds.
proof fn lemma_ok_stop<Meta: PagingMetaData, Entry: PageTableEntry>(
    before: TreeView,
    due: Pending,
    after: TreeView,
    due_after: Pending,
    plan: Plan,
    flags: Entry::Flags,
)
    requires
        progressed::<Meta, Entry>(before, due, after, due_after, plan, flags, Ok(())),
    ensures
        plan.stop is None,
{
}

} // verus!
