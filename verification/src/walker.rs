//! Generic page-table walker.
//!
//! [`PageTableWalker`] is the single walker reused across every format and
//! every consumer. All semantic policy lives in the trait implementations;
//! this module implements the mechanism of descending the tree, allocating
//! intermediates, swapping leaves, and reclaiming frames.
//!
//! What a walker does is stated over its view, a [`TreeView`]: the words of
//! table memory, the tables of the tree, and the calls made to the allocator.

use core::marker::PhantomData;
use crate::addr::{AddrRange, MemoryAddr, PhysAddr, PhysAddrRange};
use crate::cursor::PageTableCursor;
use crate::effect::{
    declined, divided, divisible, flushed, formats_ok, frame_range, grown, keeps, kept_throughout,
    leaf_at, leaf_size, lemma_deep_leaf, lemma_empty_tree, lemma_fold, lemma_foreign, lemma_link,
    lemma_nothing_below, lemma_prepared, lemma_prepared_self, lemma_prune_start, lemma_prune_step,
    lemma_shows_self, lemma_split, linked, located, lookup, memory_kept, merge_goal, mergeable,
    merged, one_word, outcome, part, part_raw, parts_stored, placed, prepared, protectable,
    protected, pruned, pruning, remappable, remapped, rewritten, seamless, split, splittable,
    stacked, steady, supplied, switches, table_at, tight, turned_down, uniform, unmapped, unmoved,
    vacant, well_shaped, LeafWord, TreeView,
};
use crate::error::{PagingError, PagingResult};
use crate::flush::{lemma_drained_nothing, queued, Pending};
use crate::mapping::{
    IntoMapBacking, IntoMappingFlags, MapBacking, Mapping, MappingContiguity, MappingFlags,
};
use crate::meta::PageSize;
use crate::paging::{
    level_of_size, poke, zeroed, FrameAllocator, FrameEvent, PageTableEntry, PageTableEntryKind,
    PagingMetaData, TlbInvalidation,
};
use crate::plan::{
    check_leaf_range, check_paddr, check_vaddr, entry_is_leaf, exact_leaf_size, index_at,
    leaf_range, single, well_placed, Placement,
};
use crate::reclaim::{drop_subtree, released_in_order, subtree_order, under};
use crate::request::{
    encodes, lemma_rejected, lemma_single, map_effect, map_flush, map_plan, progressed, whole_leaf,
};
use crate::tree::{
    ending, layout_ok, lemma_descend, lemma_obstacle_via, lemma_root, lemma_root_on_path,
    lemma_set_word, lemma_slot_bound, lemma_table, lemma_walk_via, lemma_word, level_of, on_path,
    same_path, slot_of, storable, tableish, top, tree, walk, MAX_LEVELS, Walk,
};
use vstd::prelude::*;
use vstd::std_specs::cmp::PartialEqSpec;

verus! {

/// Allocate a zeroed table frame.
///
/// A range of the wrong shape is handed back to the allocator.
pub fn alloc_table_frame<Meta: PagingMetaData, Alloc: FrameAllocator>(alloc: &mut Alloc) -> (r:
    PagingResult<PhysAddr>)
    requires
        old(alloc).valid(),
    ensures
        final(alloc).valid(),
        old(alloc).log().is_prefix_of(final(alloc).log()),
        old(alloc).history().is_prefix_of(final(alloc).history()),
        forall|k: int|
            old(alloc).history().len() <= k < final(alloc).history().len() ==> keeps(
                old(alloc).frames(),
                #[trigger] final(alloc).history()[k],
            ),
        match r {
            Ok(frame) => {
                &&& Alloc::places(frame.0)
                &&& frame.0 % Meta::TABLE_FRAME_SIZE.len() == 0
                &&& !old(alloc).frames().contains_key(frame.0)
                &&& final(alloc).frames() == old(alloc).frames().insert(
                    frame.0,
                    zeroed(Meta::TABLE_FRAME_SIZE.len()),
                )
                &&& final(alloc).log().len() == old(alloc).log().len() + 1
                &&& final(alloc).log().last() matches FrameEvent::Allocated {
                    size,
                    align,
                    granted: Ok(range),
                }
                &&& size == Meta::TABLE_FRAME_SIZE.len()
                &&& align == Meta::TABLE_FRAME_SIZE
                &&& range.lo() == frame.0
                &&& well_shaped::<Meta>(range)
            },
            Err(e) => {
                &&& declined::<Meta>(old(alloc).log(), final(alloc).log(), e)
                &&& forall|f: u64| #[trigger]
                    old(alloc).frames().contains_key(f) ==> final(alloc).frames().contains_key(f)
                        && final(alloc).frames()[f] == old(alloc).frames()[f]
            },
        },
{
    let table_size: PageSize = Meta::TABLE_FRAME_SIZE;
    let ghost log0 = alloc.log();
    let ghost history0 = alloc.history();
    match alloc.allocate(table_size.bytes(), table_size) {
        Err(e) => {
            proof {
                assert(log0 =~= alloc.log().subrange(0, log0.len() as int));
                assert(history0 =~= alloc.history().subrange(0, history0.len() as int));
            }
            Err(e)
        },
        Ok(range) => {
            proof {
                assert(log0 =~= alloc.log().subrange(0, log0.len() as int));
                assert(history0 =~= alloc.history().subrange(0, history0.len() as int));
            }
            if range.size() != table_size.bytes() || !table_size.is_aligned(
                range.start.as_u64(),
            ) {
                let _ = alloc.deallocate(range);
                proof {
                    assert(log0 =~= alloc.log().subrange(0, log0.len() as int));
                    assert(history0 =~= alloc.history().subrange(0, history0.len() as int));
                }
                return Err(PagingError::NotAligned);
            }
            Ok(range.start)
        },
    }
}

/// Release a table frame.
pub fn dealloc_table_frame<Meta: PagingMetaData, Alloc: FrameAllocator>(
    alloc: &mut Alloc,
    paddr: PhysAddr,
) -> (r: PagingResult)
    requires
        old(alloc).valid(),
        old(alloc).frames().contains_key(paddr.0),
        paddr.0 + Meta::TABLE_FRAME_SIZE.len() <= u64::MAX,
    ensures
        final(alloc).valid(),
        final(alloc).log() == old(alloc).log().push(
            FrameEvent::Deallocated { range: frame_range::<Meta>(paddr.0), released: r },
        ),
        final(alloc).history() == old(alloc).history().push(final(alloc).frames()),
        final(alloc).frames() == match r {
            Ok(()) => old(alloc).frames().remove(paddr.0),
            Err(_) => old(alloc).frames(),
        },
{
    alloc.deallocate(PhysAddrRange::from_start_size(paddr, Meta::TABLE_FRAME_SIZE.bytes()))
}

/// Generic page-table walker.
///
/// Consumers parameterize over a [`PagingMetaData`], a [`PageTableEntry`], and
/// a [`FrameAllocator`] that supplies and reclaims table frames.
pub struct PageTableWalker<Meta: PagingMetaData, Entry: PageTableEntry, Alloc: FrameAllocator> {
    root: PhysAddr,
    alloc: Alloc,
    tables: Ghost<Map<u64, Seq<int>>>,
    formats: PhantomData<(Meta, Entry)>,
}

impl<Meta: PagingMetaData, Entry: PageTableEntry, Alloc: FrameAllocator> View for PageTableWalker<
    Meta,
    Entry,
    Alloc,
> {
    type V = TreeView;

    closed spec fn view(&self) -> TreeView {
        TreeView {
            root: self.root.0,
            frames: self.alloc.frames(),
            tables: self.tables@,
            log: self.alloc.log(),
            history: self.alloc.history(),
        }
    }
}

impl<Meta: PagingMetaData, Entry: PageTableEntry, Alloc: FrameAllocator> PageTableWalker<
    Meta,
    Entry,
    Alloc,
> {
    /// Whether the allocator is in a usable state.
    pub closed spec fn alloc_valid(&self) -> bool {
        self.alloc.valid()
    }

    /// The walker invariant: the geometry and the formats suit each other, and
    /// the tables form a tree.
    pub open spec fn wf(&self) -> bool {
        &&& layout_ok::<Meta>()
        &&& formats_ok::<Meta, Entry, Alloc>()
        &&& self.alloc_valid()
        &&& tree::<Meta, Entry>(self@.frames, self@.tables, self@.root)
    }

    /// Read a word of a table.
    fn read(&self, table: PhysAddr, idx: usize) -> (r: Entry)
        requires
            self.wf(),
            self@.tables.contains_key(table.0),
            idx < Meta::ENTRIES_PER_TABLE,
        ensures
            r.raw() == self@.frames[table.0][idx as int],
    {
        proof {
            lemma_table::<Meta, Entry>(self@.frames, self@.tables, self@.root, table.0);
        }
        Entry::from_bits(self.alloc.read_entry(table, idx))
    }

    /// Allocate a fresh root frame and return a walker bound to it.
    ///
    /// The allocator alone decides whether there is one: see
    /// [`alloc_table_frame`]. Where there is none, it is handed back.
    pub fn try_new(alloc: Alloc) -> (r: Result<Self, (PagingError, Alloc)>)
        requires
            layout_ok::<Meta>(),
            formats_ok::<Meta, Entry, Alloc>(),
            alloc.valid(),
        ensures
            match r {
                Ok(pt) => {
                    &&& pt.wf()
                    &&& !alloc.frames().contains_key(pt@.root)
                    &&& pt@.frames == alloc.frames().insert(
                        pt@.root,
                        zeroed(Meta::TABLE_FRAME_SIZE.len()),
                    )
                    &&& pt@.tables == Map::<u64, Seq<int>>::empty().insert(pt@.root, Seq::empty())
                    &&& pt@.root % Meta::TABLE_FRAME_SIZE.len() == 0
                    &&& forall|w: u64| #[trigger] outcome::<Meta, Entry>(pt@, w) == Walk::Absent
                    &&& alloc.log().is_prefix_of(pt@.log)
                    &&& pt@.log.len() == alloc.log().len() + 1
                    &&& pt@.log.last() matches FrameEvent::Allocated {
                        size,
                        align,
                        granted: Ok(range),
                    }
                    &&& size == Meta::TABLE_FRAME_SIZE.len()
                    &&& align == Meta::TABLE_FRAME_SIZE
                    &&& range.lo() == pt@.root
                },
                Err((e, back)) => {
                    &&& back.valid()
                    &&& declined::<Meta>(alloc.log(), back.log(), e)
                    &&& forall|f: u64| #[trigger]
                        alloc.frames().contains_key(f) ==> back.frames().contains_key(f)
                            && back.frames()[f] == alloc.frames()[f]
                },
            },
    {
        let mut alloc: Alloc = alloc;
        let root: PhysAddr = match alloc_table_frame::<Meta, Alloc>(&mut alloc) {
            Ok(root) => root,
            Err(e) => return Err((e, alloc)),
        };
        let ghost tables = Map::<u64, Seq<int>>::empty().insert(root.0, Seq::empty());
        let pt: Self = PageTableWalker { root, alloc, tables: Ghost(tables), formats: PhantomData };
        proof {
            lemma_empty_tree::<Meta, Entry, Alloc>(pt@);
        }
        Ok(pt)
    }

    /// Construct a walker over an existing root table: a bootloader-provided
    /// root, an address space inherited at fork, and the like. This does not
    /// allocate; new tables added by subsequent map operations come from
    /// `alloc`.
    pub fn adopt(root: PhysAddr, alloc: Alloc) -> (r: Self)
        requires
            layout_ok::<Meta>(),
            formats_ok::<Meta, Entry, Alloc>(),
            alloc.valid(),
            exists|tables: Map<u64, Seq<int>>|
                tree::<Meta, Entry>(alloc.frames(), tables, root.0),
        ensures
            r.wf(),
            r@.root == root.0,
            r@.frames == alloc.frames(),
            r@.log == alloc.log(),
            r@.history == alloc.history(),
    {
        let ghost tables = choose|tables: Map<u64, Seq<int>>|
            tree::<Meta, Entry>(alloc.frames(), tables, root.0);
        PageTableWalker { root, alloc, tables: Ghost(tables), formats: PhantomData }
    }

    /// Return every table, the root included, to the allocator, and give the
    /// allocator back. Frames that leaves point at are not touched: the
    /// consumer manages their lifetime.
    pub fn reclaim(self) -> (r: Alloc)
        requires
            self.wf(),
        ensures
            r.valid(),
            released_in_order::<Meta>(
                self@.frames,
                self@.log,
                r.frames(),
                r.log(),
                subtree_order::<Meta, Entry>(self@.frames, self@.root, top::<Meta>()),
            ),
    {
        proof {
            lemma_root::<Meta, Entry>(self@.frames, self@.tables, self@.root);
            assert forall|t: u64| #[trigger]
                under(self@.tables, t, self@.tables[self@.root]) implies self@.frames.contains_key(
                t,
            ) by {
                lemma_table::<Meta, Entry>(self@.frames, self@.tables, self@.root, t);
            }
        }
        let ghost view = self@;
        let mut alloc: Alloc = self.alloc;
        drop_subtree::<Meta, Entry, Alloc>(
            &mut alloc,
            self.root,
            Meta::LEVELS as u8,
            Ghost(view.frames),
            Ghost(view.tables),
            Ghost(view.root),
        );
        alloc
    }

    /// Physical address of the root table, used by the consumer to program
    /// the hardware translation register.
    pub fn root(&self) -> (r: PhysAddr)
        ensures
            r == PhysAddr(self@.root),
    {
        self.root
    }

    /// Look up the leaf mapping covering `vaddr`.
    pub fn query(&self, vaddr: Meta::VirtAddr) -> (r: PagingResult<Mapping<Entry, Meta::VirtAddr>>)
        requires
            self.wf(),
        ensures
            r == lookup::<Meta, Entry>(self@, vaddr.value()),
    {
        check_vaddr::<Meta>(vaddr)?;
        let ghost v = vaddr.value();
        let mut current: PhysAddr = self.root;
        let mut level: u8 = Meta::LEVELS as u8;
        proof {
            lemma_root_on_path::<Meta, Entry>(self@.frames, self@.tables, self@.root, v);
        }
        loop
            invariant
                self.wf(),
                v == vaddr.value(),
                Meta::in_range(v),
                on_path::<Meta>(self@.tables, current.0, v),
                level == level_of::<Meta>(self@.tables, current.0),
            decreases level,
        {
            proof {
                lemma_table::<Meta, Entry>(self@.frames, self@.tables, self@.root, current.0);
                lemma_walk_via::<Meta, Entry>(
                    self@.frames,
                    self@.tables,
                    self@.root,
                    current.0,
                    v,
                );
            }
            let idx: usize = index_at::<Meta>(level, vaddr);
            let pte: Entry = self.read(current, idx);
            proof {
                lemma_word::<Meta, Entry>(
                    self@.frames,
                    self@.tables,
                    self@.root,
                    current.0,
                    idx as int,
                );
            }
            if !pte.is_present() {
                return Err(PagingError::NotMapped);
            }
            if entry_is_leaf::<Entry>(pte, level)? {
                let size: PageSize = match Meta::leaf_size_at_level(level) {
                    Some(size) => size,
                    None => return Err(PagingError::UnsupportedSize),
                };
                let range: AddrRange<Meta::VirtAddr> = leaf_range::<Meta>(vaddr, size)?;
                return Ok(Mapping::new(range, pte.paddr(), pte.flags()));
            }
            proof {
                lemma_descend::<Meta, Entry>(
                    self@.frames,
                    self@.tables,
                    self@.root,
                    current.0,
                    v,
                );
            }
            current = pte.paddr();
            level = level - 1;
        }
    }

    /// The table, slot and entry of the leaf that covers exactly `range`.
    fn exact_leaf_slot(&self, range: AddrRange<Meta::VirtAddr>) -> (r: PagingResult<
        (PhysAddr, usize, Entry, PageSize),
    >)
        requires
            self.wf(),
        ensures
            match (r, located::<Meta, Entry>(self@, range)) {
                (Err(e), Err(f)) => e == f,
                (Ok(found), Ok(leaf)) => {
                    &&& on_path::<Meta>(self@.tables, found.0.0, range.lo())
                    &&& level_of::<Meta>(self@.tables, found.0.0) == leaf.level
                    &&& found.1 == slot_of::<Meta>(leaf.level, range.lo())
                    &&& found.2.raw() == leaf.raw
                    &&& found.3 == leaf.size
                    &&& leaf.raw == self@.frames[found.0.0][found.1 as int]
                    &&& 1 <= leaf.level <= Meta::LEVELS
                    &&& leaf_size::<Meta>(leaf.size)
                    &&& Entry::present(leaf.raw)
                    &&& Entry::kind(leaf.raw, leaf.level) == PageTableEntryKind::Leaf
                    &&& Entry::decodable(leaf.raw)
                    &&& Entry::encodable(Entry::target(leaf.raw))
                },
                _ => false,
            },
    {
        let vaddr: Meta::VirtAddr = range.start;
        check_vaddr::<Meta>(vaddr)?;
        let ghost v = vaddr.value();
        let mut current: PhysAddr = self.root;
        let mut level: u8 = Meta::LEVELS as u8;
        proof {
            lemma_root_on_path::<Meta, Entry>(self@.frames, self@.tables, self@.root, v);
        }
        loop
            invariant
                self.wf(),
                v == vaddr.value(),
                vaddr == range.start,
                Meta::in_range(v),
                on_path::<Meta>(self@.tables, current.0, v),
                level == level_of::<Meta>(self@.tables, current.0),
            decreases level,
        {
            proof {
                lemma_table::<Meta, Entry>(self@.frames, self@.tables, self@.root, current.0);
                lemma_walk_via::<Meta, Entry>(
                    self@.frames,
                    self@.tables,
                    self@.root,
                    current.0,
                    v,
                );
            }
            let idx: usize = index_at::<Meta>(level, vaddr);
            let pte: Entry = self.read(current, idx);
            proof {
                lemma_word::<Meta, Entry>(
                    self@.frames,
                    self@.tables,
                    self@.root,
                    current.0,
                    idx as int,
                );
            }
            if !pte.is_present() {
                return Err(PagingError::NotMapped);
            }
            if entry_is_leaf::<Entry>(pte, level)? {
                let size: PageSize = match Meta::leaf_size_at_level(level) {
                    Some(size) => size,
                    None => return Err(PagingError::UnsupportedSize),
                };
                if !leaf_range::<Meta>(vaddr, size)?.same(range) {
                    return Err(PagingError::NotMapped);
                }
                proof {
                    assert(leaf_at::<Meta>(level, size));
                }
                return Ok((current, idx, pte, size));
            }
            proof {
                lemma_descend::<Meta, Entry>(
                    self@.frames,
                    self@.tables,
                    self@.root,
                    current.0,
                    v,
                );
            }
            current = pte.paddr();
            level = level - 1;
        }
    }

    /// Invalidate what a change to `range` made stale.
    fn flush_leaf_range<T: TlbInvalidation<Meta::VirtAddr>>(
        range: AddrRange<Meta::VirtAddr>,
        tlb: &mut T,
    )
        ensures
            *final(tlb) == flushed::<Meta::VirtAddr, T>(*old(tlb), range, Meta::BASE_PAGE_SIZE),
    {
        proof {
            Meta::BASE_PAGE_SIZE.lemma_len();
        }
        let count_pages: u64 = range.size() / Meta::BASE_PAGE_SIZE.bytes();
        if tlb.prefer_full_flush(count_pages) {
            tlb.flush_tlb_all_local();
        } else {
            tlb.flush_tlb_range_local(range.start, Meta::BASE_PAGE_SIZE, count_pages);
        }
    }

    /// Put a new leaf word in place of one that is no table pointer.
    fn rewrite(&mut self, table: PhysAddr, idx: usize, entry: Entry, Ghost(v): Ghost<u64>)
        requires
            old(self).wf(),
            on_path::<Meta>(old(self)@.tables, table.0, v),
            idx == slot_of::<Meta>(level_of::<Meta>(old(self)@.tables, table.0), v),
            !tableish::<Entry>(
                old(self)@.frames[table.0][idx as int],
                level_of::<Meta>(old(self)@.tables, table.0),
            ),
            storable::<Entry>(entry.raw(), level_of::<Meta>(old(self)@.tables, table.0)),
        ensures
            final(self).wf(),
            rewritten::<Meta, Entry>(
                old(self)@,
                final(self)@,
                v,
                level_of::<Meta>(old(self)@.tables, table.0),
                entry.raw(),
            ),
            final(self)@.frames == poke(old(self)@.frames, table.0, idx as int, entry.raw()),
            final(self)@.history == old(self)@.history.push(final(self)@.frames),
    {
        proof {
            lemma_table::<Meta, Entry>(self@.frames, self@.tables, self@.root, table.0);
            lemma_slot_bound::<Meta>(level_of::<Meta>(self@.tables, table.0), v);
            lemma_set_word::<Meta, Entry>(
                self@.frames,
                self@.tables,
                self@.root,
                table.0,
                v,
                entry.raw(),
            );
        }
        self.alloc.write_entry(table, idx, entry.bits());
        proof {
            let level = level_of::<Meta>(old(self)@.tables, table.0);
            assert(table_at::<Meta>(old(self)@.tables, table.0, v, level));
            assert(one_word::<Meta>(old(self)@, self@.frames, v, level, entry.raw()));
            lemma_shows_self::<Meta, Entry>(self@);
            assert(old(self)@.history =~= self@.history.subrange(
                0,
                old(self)@.history.len() as int,
            ));
            assert(switches::<Meta, Entry>(old(self)@, self@, old(self)@.history.len() as int));
            assert forall|w: u64| #[trigger]
                outcome::<Meta, Entry>(self@, w) == if same_path::<Meta>(
                    v,
                    w,
                    level_of::<Meta>(old(self)@.tables, table.0),
                ) {
                    ending::<Entry>(entry.raw(), level_of::<Meta>(old(self)@.tables, table.0))
                } else {
                    outcome::<Meta, Entry>(old(self)@, w)
                } by {
                assert(walk::<Meta, Entry>(self@.frames, self@.root, top::<Meta>(), w) == outcome::<
                    Meta,
                    Entry,
                >(self@, w));
            }
        }
    }

    /// Descend from the table `current` at `level` towards the leaf of `vaddr`
    /// at a level below, adding a table where there is none.
    pub(crate) fn step_down(
        &mut self,
        current: PhysAddr,
        level: u8,
        vaddr: Meta::VirtAddr,
        Ghost(leaf): Ghost<Placement>,
    ) -> (r: PagingResult<PhysAddr>)
        requires
            old(self).wf(),
            on_path::<Meta>(old(self)@.tables, current.0, vaddr.value()),
            level == level_of::<Meta>(old(self)@.tables, current.0),
            leaf.vaddr == vaddr.value(),
            1 <= leaf.level < level,
        ensures
            final(self).wf(),
            match r {
                Ok(child) => {
                    &&& prepared::<Meta, Entry>(old(self)@, final(self)@, leaf)
                    &&& on_path::<Meta>(final(self)@.tables, child.0, vaddr.value())
                    &&& level_of::<Meta>(final(self)@.tables, child.0) == level - 1
                },
                Err(e) => turned_down::<Meta, Entry>(old(self)@, final(self)@, leaf, e),
            },
    {
        let ghost v = vaddr.value();
        let ghost before = self@;
        proof {
            lemma_table::<Meta, Entry>(self@.frames, self@.tables, self@.root, current.0);
            lemma_obstacle_via::<Meta, Entry>(
                self@.frames,
                self@.tables,
                self@.root,
                current.0,
                v,
                leaf.level,
            );
            lemma_walk_via::<Meta, Entry>(self@.frames, self@.tables, self@.root, current.0, v);
        }
        let idx: usize = index_at::<Meta>(level, vaddr);
        let pte: Entry = self.read(current, idx);
        if pte.is_present() {
            if entry_is_leaf::<Entry>(pte, level)? {
                return Err(PagingError::AlreadyMapped);
            }
            proof {
                lemma_descend::<Meta, Entry>(
                    self@.frames,
                    self@.tables,
                    self@.root,
                    current.0,
                    v,
                );
            }
            return Ok(pte.paddr());
        }
        let child: PhysAddr = match alloc_table_frame::<Meta, Alloc>(&mut self.alloc) {
            Ok(child) => child,
            Err(e) => {
                proof {
                    lemma_foreign::<Meta, Entry>(before, self@);
                }
                return Err(e);
            },
        };
        let ghost mid = self@;
        proof {
            lemma_foreign::<Meta, Entry>(before, mid);
            lemma_link::<Meta, Entry, Alloc>(before, mid, current.0, child.0, leaf);
        }
        let entry: Entry = Entry::new_table(child, level);
        self.alloc.write_entry(current, idx, entry.bits());
        self.tables = Ghost(self.tables@.insert(child.0, self.tables@[current.0].push(idx as int)));
        proof {
            assert(prepared::<Meta, Entry>(before, self@, leaf));
        }
        Ok(child)
    }

    /// Install a leaf in the table `current` of its level, which has to have
    /// no entry there yet.
    pub(crate) fn install_leaf(
        &mut self,
        current: PhysAddr,
        vaddr: Meta::VirtAddr,
        paddr: PhysAddr,
        flags: Entry::Flags,
        size: PageSize,
        level: u8,
    ) -> (r: PagingResult)
        requires
            old(self).wf(),
            on_path::<Meta>(old(self)@.tables, current.0, vaddr.value()),
            level == level_of::<Meta>(old(self)@.tables, current.0),
            Entry::encodable(paddr.0),
            storable::<Entry>(Entry::leaf_raw(paddr.0, flags, size), level),
        ensures
            final(self).wf(),
            placed::<Meta, Entry>(
                old(self)@,
                final(self)@,
                Placement { vaddr: vaddr.value(), paddr: paddr.0, size, level },
                Entry::leaf_raw(paddr.0, flags, size),
                r,
            ),
            r is Ok ==> final(self)@.tables == old(self)@.tables,
    {
        let ghost v = vaddr.value();
        proof {
            lemma_table::<Meta, Entry>(self@.frames, self@.tables, self@.root, current.0);
            lemma_obstacle_via::<Meta, Entry>(
                self@.frames,
                self@.tables,
                self@.root,
                current.0,
                v,
                level,
            );
        }
        let idx: usize = index_at::<Meta>(level, vaddr);
        let existing: Entry = self.read(current, idx);
        if existing.is_present() {
            return Err(PagingError::AlreadyMapped);
        }
        let entry: Entry = Entry::new_leaf(paddr, flags, size);
        self.rewrite(current, idx, entry, Ghost(v));
        Ok(())
    }

    /// Replace the physical address and flags of an exact existing
    /// leaf, keeping the leaf size unchanged, without a flush.
    pub fn remap_no_flush(
        &mut self,
        range: AddrRange<Meta::VirtAddr>,
        paddr: PhysAddr,
        flags: Entry::Flags,
    ) -> (r: PagingResult<Mapping<Entry, Meta::VirtAddr>>)
        requires
            old(self).wf(),
            remappable::<Meta, Entry>(old(self)@, range, paddr, flags),
        ensures
            final(self).wf(),
            remapped::<Meta, Entry>(old(self)@, final(self)@, range, paddr, flags, r),
    {
        check_paddr::<Meta>(paddr)?;
        let (current, idx, pte, size) = self.exact_leaf_slot(range)?;
        if !size.is_aligned(paddr.as_u64()) {
            return Err(PagingError::NotAligned);
        }
        let entry: Entry = Entry::new_leaf(paddr, flags, size);
        self.rewrite(current, idx, entry, Ghost(range.lo()));
        Ok(Mapping::new(range, paddr, flags))
    }

    /// Replace the physical address and flags of an exact existing
    /// leaf, keeping the leaf size unchanged.
    pub fn remap<T: TlbInvalidation<Meta::VirtAddr>>(
        &mut self,
        range: AddrRange<Meta::VirtAddr>,
        paddr: PhysAddr,
        flags: Entry::Flags,
        tlb: &mut T,
    ) -> (r: PagingResult<Mapping<Entry, Meta::VirtAddr>>)
        requires
            old(self).wf(),
            remappable::<Meta, Entry>(old(self)@, range, paddr, flags),
        ensures
            final(self).wf(),
            remapped::<Meta, Entry>(old(self)@, final(self)@, range, paddr, flags, r),
            *final(tlb) == if r is Ok {
                flushed::<Meta::VirtAddr, T>(*old(tlb), range, Meta::BASE_PAGE_SIZE)
            } else {
                *old(tlb)
            },
    {
        let mapping: Mapping<Entry, Meta::VirtAddr> = self.remap_no_flush(range, paddr, flags)?;
        Self::flush_leaf_range(mapping.range, tlb);
        Ok(mapping)
    }

    /// Modify only the flags of an exact existing leaf, keeping paddr
    /// and size, without a flush.
    pub fn protect_no_flush(&mut self, range: AddrRange<Meta::VirtAddr>, flags: Entry::Flags) -> (r:
        PagingResult<Mapping<Entry, Meta::VirtAddr>>)
        requires
            old(self).wf(),
            protectable::<Meta, Entry>(old(self)@, range, flags),
        ensures
            final(self).wf(),
            protected::<Meta, Entry>(old(self)@, final(self)@, range, flags, r),
    {
        let (current, idx, pte, size) = self.exact_leaf_slot(range)?;
        let paddr: PhysAddr = pte.paddr();
        let entry: Entry = Entry::new_leaf(paddr, flags, size);
        self.rewrite(current, idx, entry, Ghost(range.lo()));
        Ok(Mapping::new(range, paddr, flags))
    }

    /// Modify only the flags of an exact existing leaf, keeping paddr
    /// and size.
    pub fn protect<T: TlbInvalidation<Meta::VirtAddr>>(
        &mut self,
        range: AddrRange<Meta::VirtAddr>,
        flags: Entry::Flags,
        tlb: &mut T,
    ) -> (r: PagingResult<Mapping<Entry, Meta::VirtAddr>>)
        requires
            old(self).wf(),
            protectable::<Meta, Entry>(old(self)@, range, flags),
        ensures
            final(self).wf(),
            protected::<Meta, Entry>(old(self)@, final(self)@, range, flags, r),
            *final(tlb) == if r is Ok {
                flushed::<Meta::VirtAddr, T>(*old(tlb), range, Meta::BASE_PAGE_SIZE)
            } else {
                *old(tlb)
            },
    {
        let mapping: Mapping<Entry, Meta::VirtAddr> = self.protect_no_flush(range, flags)?;
        Self::flush_leaf_range(mapping.range, tlb);
        Ok(mapping)
    }

    /// Install one leaf, descending from the root.
    pub fn map_leaf_direct_sized_no_flush(
        &mut self,
        range: AddrRange<Meta::VirtAddr>,
        paddr: PhysAddr,
        flags: Entry::Flags,
        size: PageSize,
        target_level: u8,
    ) -> (r: PagingResult)
        requires
            old(self).wf(),
            1 <= target_level <= Meta::LEVELS,
            Entry::encodable(paddr.0),
            storable::<Entry>(Entry::leaf_raw(paddr.0, flags, size), target_level),
        ensures
            final(self).wf(),
            placed::<Meta, Entry>(
                old(self)@,
                final(self)@,
                Placement { vaddr: range.lo(), paddr: paddr.0, size, level: target_level },
                Entry::leaf_raw(paddr.0, flags, size),
                r,
            ),
    {
        let vaddr: Meta::VirtAddr = range.start;
        let mut current: PhysAddr = self.root;
        let mut level: u8 = Meta::LEVELS as u8;
        let ghost before = self@;
        let ghost leaf = Placement {
            vaddr: vaddr.value(),
            paddr: paddr.0,
            size,
            level: target_level,
        };
        proof {
            lemma_root_on_path::<Meta, Entry>(
                self@.frames,
                self@.tables,
                self@.root,
                vaddr.value(),
            );
            lemma_prepared_self::<Meta, Entry>(before, leaf);
        }
        while level > target_level
            invariant
                self.wf(),
                vaddr == range.start,
                before == old(self)@,
                leaf == (Placement {
                    vaddr: vaddr.value(),
                    paddr: paddr.0,
                    size,
                    level: target_level,
                }),
                1 <= target_level <= level,
                on_path::<Meta>(self@.tables, current.0, vaddr.value()),
                level == level_of::<Meta>(self@.tables, current.0),
                prepared::<Meta, Entry>(before, self@, leaf),
            decreases level,
        {
            let ghost mid = self@;
            match self.step_down(current, level, vaddr, Ghost(leaf)) {
                Ok(child) => {
                    proof {
                        lemma_prepared::<Meta, Entry>(before, mid, self@, leaf);
                    }
                    current = child;
                },
                Err(e) => {
                    proof {
                        lemma_prepared::<Meta, Entry>(before, mid, self@, leaf);
                        let raw = Entry::leaf_raw(paddr.0, flags, size);
                        assert(placed::<Meta, Entry>(mid, self@, leaf, raw, Err(e)));
                    }
                    return Err(e);
                },
            }
            level = level - 1;
        }
        let ghost mid = self@;
        let r: PagingResult = self.install_leaf(current, vaddr, paddr, flags, size, target_level);
        proof {
            lemma_prepared::<Meta, Entry>(before, mid, self@, leaf);
            let raw = Entry::leaf_raw(paddr.0, flags, size);
            assert(placed::<Meta, Entry>(mid, self@, leaf, raw, r));
        }
        r
    }

    /// Whether the table has no present entry.
    fn is_table_empty(&self, table: PhysAddr) -> (r: bool)
        requires
            self.wf(),
            self@.tables.contains_key(table.0),
        ensures
            r == vacant::<Meta, Entry>(self@.frames, table.0),
    {
        let mut i: usize = 0;
        while i < Meta::ENTRIES_PER_TABLE
            invariant
                self.wf(),
                self@.tables.contains_key(table.0),
                i <= Meta::ENTRIES_PER_TABLE,
                forall|j: int|
                    0 <= j < i ==> !Entry::present(#[trigger] self@.frames[table.0][j]),
            decreases Meta::ENTRIES_PER_TABLE - i,
        {
            let pte: Entry = self.read(table, i);
            if pte.is_present() {
                return false;
            }
            i = i + 1;
        }
        true
    }

    /// Remove the exact leaf at `range` without a flush. After clearing the
    /// leaf, walk back up and reclaim any intermediate tables whose entries
    /// are now all unused.
    pub fn unmap_no_flush(&mut self, range: AddrRange<Meta::VirtAddr>) -> (r: PagingResult<
        Mapping<Entry, Meta::VirtAddr>,
    >)
        requires
            old(self).wf(),
        ensures
            final(self).wf(),
            unmapped::<Meta, Entry>(old(self)@, final(self)@, range, r),
    {
        let vaddr: Meta::VirtAddr = range.start;
        check_vaddr::<Meta>(vaddr)?;
        let ghost v = vaddr.value();
        let ghost before = self@;
        // Every table walked above the leaf, with the slot taken there.
        let mut parents: [(PhysAddr, usize); MAX_LEVELS] = [(PhysAddr(0), 0usize); MAX_LEVELS];
        let mut depth: usize = 0;
        let mut current: PhysAddr = self.root;
        let mut level: u8 = Meta::LEVELS as u8;
        proof {
            lemma_root_on_path::<Meta, Entry>(self@.frames, self@.tables, self@.root, v);
        }
        let mapping: Mapping<Entry, Meta::VirtAddr>;
        loop
            invariant_except_break
                self@ == before,
                self.wf(),
                v == vaddr.value(),
                vaddr == range.start,
                Meta::in_range(v),
                level + depth == Meta::LEVELS,
                on_path::<Meta>(self@.tables, current.0, v),
                level == level_of::<Meta>(self@.tables, current.0),
                stacked::<Meta>(self@.tables, parents@, depth as int, v),
            invariant
                before == old(self)@,
            ensures
                self.wf(),
                v == vaddr.value(),
                vaddr == range.start,
                level + depth == Meta::LEVELS,
                level == level_of::<Meta>(self@.tables, current.0),
                stacked::<Meta>(self@.tables, parents@, depth as int, v),
                pruning::<Meta, Entry>(before, self@, v, level, current.0),
                located::<Meta, Entry>(before, range) matches Ok(leaf) && leaf.level == level
                    && mapping.range == range && mapping.paddr == PhysAddr(Entry::target(leaf.raw))
                    && mapping.flags == Entry::flags_of(leaf.raw),
            decreases level,
        {
            proof {
                lemma_table::<Meta, Entry>(self@.frames, self@.tables, self@.root, current.0);
                lemma_walk_via::<Meta, Entry>(
                    self@.frames,
                    self@.tables,
                    self@.root,
                    current.0,
                    v,
                );
            }
            let idx: usize = index_at::<Meta>(level, vaddr);
            let pte: Entry = self.read(current, idx);
            proof {
                lemma_word::<Meta, Entry>(
                    self@.frames,
                    self@.tables,
                    self@.root,
                    current.0,
                    idx as int,
                );
            }
            if !pte.is_present() {
                return Err(PagingError::NotMapped);
            }
            if entry_is_leaf::<Entry>(pte, level)? {
                let paddr: PhysAddr = pte.paddr();
                let flags: Entry::Flags = pte.flags();
                let size: PageSize = match Meta::leaf_size_at_level(level) {
                    Some(size) => size,
                    None => return Err(PagingError::UnsupportedSize),
                };
                let leaf_range: AddrRange<Meta::VirtAddr> = leaf_range::<Meta>(vaddr, size)?;
                if !leaf_range.same(range) {
                    return Err(PagingError::NotMapped);
                }
                let mut cleared: Entry = pte;
                cleared.clear();
                self.rewrite(current, idx, cleared, Ghost(v));
                proof {
                    lemma_prune_start::<Meta, Entry>(before, self@, v, current.0);
                }
                mapping = Mapping::new(leaf_range, paddr, flags);
                break ;
            }
            proof {
                lemma_descend::<Meta, Entry>(
                    self@.frames,
                    self@.tables,
                    self@.root,
                    current.0,
                    v,
                );
            }
            parents[depth] = (current, idx);
            depth = depth + 1;
            current = pte.paddr();
            level = level - 1;
        }
        let ghost low = level;
        while depth > 0
            invariant
                self.wf(),
                before == old(self)@,
                old(self).wf(),
                v == vaddr.value(),
                vaddr == range.start,
                level + depth == Meta::LEVELS,
                level == level_of::<Meta>(self@.tables, current.0),
                stacked::<Meta>(self@.tables, parents@, depth as int, v),
                pruning::<Meta, Entry>(before, self@, v, low, current.0),
                located::<Meta, Entry>(before, range) matches Ok(leaf) && leaf.level == low
                    && mapping.range == range && mapping.paddr == PhysAddr(Entry::target(leaf.raw))
                    && mapping.flags == Entry::flags_of(leaf.raw),
            ensures
                tight::<Meta, Entry>(self@, v, level),
            decreases depth,
        {
            if !self.is_table_empty(current) {
                proof {
                    assert(on_path::<Meta>(self@.tables, current.0, v));
                }
                break ;
            }
            depth = depth - 1;
            let (parent, parent_idx) = parents[depth];
            let ghost mid = self@;
            proof {
                assert(parents@[depth as int] == (parent, parent_idx));
                lemma_table::<Meta, Entry>(self@.frames, self@.tables, self@.root, parent.0);
                lemma_table::<Meta, Entry>(self@.frames, self@.tables, self@.root, current.0);
                lemma_slot_bound::<Meta>((level + 1) as u8, v);
            }
            let mut zero: Entry = Entry::from_bits(0);
            zero.clear();
            self.alloc.write_entry(parent, parent_idx, zero.bits());
            self.tables = Ghost(self.tables@.remove(current.0));
            let ghost cut = self@;
            let released: PagingResult = dealloc_table_frame::<Meta, Alloc>(
                &mut self.alloc,
                current,
            );
            proof {
                lemma_prune_step::<Meta, Entry>(
                    before,
                    mid,
                    cut,
                    self@,
                    v,
                    low,
                    current.0,
                    parent.0,
                    released,
                );
            }
            released?;
            current = parent;
            level = level + 1;
        }
        proof {
            assert(pruned::<Meta, Entry>(before, self@, v, low, level, Ok(())));
        }
        Ok(mapping)
    }

    /// Remove the exact leaf at `range`. After clearing the leaf, walk
    /// back up and reclaim any intermediate tables whose entries are now all
    /// unused.
    pub fn unmap<T: TlbInvalidation<Meta::VirtAddr>>(
        &mut self,
        range: AddrRange<Meta::VirtAddr>,
        tlb: &mut T,
    ) -> (r: PagingResult<Mapping<Entry, Meta::VirtAddr>>)
        requires
            old(self).wf(),
        ensures
            final(self).wf(),
            unmapped::<Meta, Entry>(old(self)@, final(self)@, range, r),
            *final(tlb) == if r is Ok {
                flushed::<Meta::VirtAddr, T>(*old(tlb), range, Meta::BASE_PAGE_SIZE)
            } else {
                *old(tlb)
            },
    {
        let result: Mapping<Entry, Meta::VirtAddr> = self.unmap_no_flush(range)?;
        Self::flush_leaf_range(result.range, tlb);
        Ok(result)
    }

    /// Split the exact leaf at `range` into one table of entries one level
    /// finer. Returns the new leaf size. Errors if the entry is not
    /// present or already at the finest granularity.
    pub fn split_at<T: TlbInvalidation<Meta::VirtAddr>>(
        &mut self,
        range: AddrRange<Meta::VirtAddr>,
        tlb: &mut T,
    ) -> (r: PagingResult<PageSize>)
        requires
            old(self).wf(),
            splittable::<Meta, Entry>(old(self)@, range),
        ensures
            final(self).wf(),
            split::<Meta, Entry>(old(self)@, final(self)@, range, r),
            *final(tlb) == if r is Ok {
                flushed::<Meta::VirtAddr, T>(*old(tlb), range, Meta::BASE_PAGE_SIZE)
            } else {
                *old(tlb)
            },
    {
        let vaddr: Meta::VirtAddr = range.start;
        check_vaddr::<Meta>(vaddr)?;
        let ghost v = vaddr.value();
        let mut current: PhysAddr = self.root;
        let mut level: u8 = Meta::LEVELS as u8;
        proof {
            lemma_root_on_path::<Meta, Entry>(self@.frames, self@.tables, self@.root, v);
        }
        loop
            invariant
                self.wf(),
                *self == *old(self),
                *tlb == *old(tlb),
                splittable::<Meta, Entry>(self@, range),
                v == vaddr.value(),
                vaddr == range.start,
                Meta::in_range(v),
                on_path::<Meta>(self@.tables, current.0, v),
                level == level_of::<Meta>(self@.tables, current.0),
            decreases level,
        {
            proof {
                lemma_table::<Meta, Entry>(self@.frames, self@.tables, self@.root, current.0);
                lemma_walk_via::<Meta, Entry>(
                    self@.frames,
                    self@.tables,
                    self@.root,
                    current.0,
                    v,
                );
            }
            let idx: usize = index_at::<Meta>(level, vaddr);
            let pte: Entry = self.read(current, idx);
            proof {
                lemma_word::<Meta, Entry>(
                    self@.frames,
                    self@.tables,
                    self@.root,
                    current.0,
                    idx as int,
                );
            }
            if !pte.is_present() {
                return Err(PagingError::NotMapped);
            }
            if entry_is_leaf::<Entry>(pte, level)? {
                // A leaf at the lowest level is as fine as leaves get.
                if level == 1 {
                    return Err(PagingError::NotMapped);
                }
                let leaf_size: PageSize = match Meta::leaf_size_at_level(level) {
                    Some(size) => size,
                    None => return Err(PagingError::UnsupportedSize),
                };
                if !leaf_range::<Meta>(vaddr, leaf_size)?.same(range) {
                    return Err(PagingError::NotMapped);
                }
                let finer_size: PageSize = match Meta::leaf_size_at_level(level - 1) {
                    Some(size) => size,
                    None => return Err(PagingError::UnsupportedSize),
                };
                let r: PagingResult<PageSize> = self.split_slot(
                    current,
                    idx,
                    level,
                    pte,
                    finer_size,
                    Ghost(v),
                    Ghost(leaf_size),
                );
                if r.is_ok() {
                    Self::flush_leaf_range(range, tlb);
                }
                return r;
            }
            proof {
                lemma_descend::<Meta, Entry>(
                    self@.frames,
                    self@.tables,
                    self@.root,
                    current.0,
                    v,
                );
            }
            current = pte.paddr();
            level = level - 1;
        }
    }

    /// Replace the leaf in a slot by a table of its parts.
    fn split_slot(
        &mut self,
        current: PhysAddr,
        idx: usize,
        level: u8,
        pte: Entry,
        finer_size: PageSize,
        Ghost(v): Ghost<u64>,
        Ghost(size): Ghost<PageSize>,
    ) -> (r: PagingResult<PageSize>)
        requires
            old(self).wf(),
            on_path::<Meta>(old(self)@.tables, current.0, v),
            level == level_of::<Meta>(old(self)@.tables, current.0),
            level > 1,
            idx == slot_of::<Meta>(level, v),
            pte.raw() == old(self)@.frames[current.0][idx as int],
            !tableish::<Entry>(pte.raw(), level),
            Entry::decodable(pte.raw()),
            divisible::<Meta, Entry>(LeafWord { level, raw: pte.raw(), size }, finer_size),
        ensures
            final(self).wf(),
            match r {
                Ok(s) => {
                    &&& s == finer_size
                    &&& grown::<Meta>(
                        old(self)@,
                        final(self)@,
                        seq![
                            Placement {
                                vaddr: v,
                                paddr: Entry::target(pte.raw()),
                                size: finer_size,
                                level: (level - 1) as u8,
                            },
                        ],
                    )
                    &&& supplied::<Meta>(old(self)@, final(self)@)
                    &&& final(self)@.log.len() == old(self)@.log.len() + 1
                    &&& divided::<Meta, Entry>(
                        old(self)@,
                        final(self)@,
                        v,
                        LeafWord { level, raw: pte.raw(), size },
                        finer_size,
                    )
                    &&& parts_stored::<Meta, Entry>(
                        final(self)@,
                        v,
                        LeafWord { level, raw: pte.raw(), size },
                        finer_size,
                    )
                    &&& linked::<Meta, Entry>(old(self)@, final(self)@, v, level)
                    &&& seamless::<Meta, Entry>(old(self)@, final(self)@)
                },
                Err(e) => {
                    &&& declined::<Meta>(old(self)@.log, final(self)@.log, e)
                    &&& grown::<Meta>(old(self)@, final(self)@, Seq::empty())
                    &&& memory_kept(old(self)@, final(self)@)
                    &&& steady::<Meta, Entry>(old(self)@, final(self)@)
                    &&& unmoved::<Meta, Entry>(old(self)@, final(self)@)
                },
            },
    {
        let ghost before = self@;
        let ghost leaf = LeafWord { level, raw: pte.raw(), size };
        let leaf_paddr: PhysAddr = pte.paddr();
        let leaf_flags: Entry::Flags = pte.flags();
        let child: PhysAddr = match alloc_table_frame::<Meta, Alloc>(&mut self.alloc) {
            Ok(child) => child,
            Err(e) => {
                proof {
                    lemma_foreign::<Meta, Entry>(before, self@);
                    assert(grown::<Meta>(before, self@, Seq::empty()));
                }
                return Err(e);
            },
        };
        let ghost log = self@.log;
        proof {
            Meta::TABLE_FRAME_SIZE.lemma_len();
            finer_size.lemma_len();
        }
        let mut i: usize = 0;
        while i < Meta::ENTRIES_PER_TABLE
            invariant
                layout_ok::<Meta>(),
                i <= Meta::ENTRIES_PER_TABLE,
                self.alloc_valid(),
                before == old(self)@,
                self@.root == before.root,
                self@.tables == before.tables,
                self@.log == log,
                kept_throughout(before, self@),
                !before.frames.contains_key(child.0),
                self@.frames.contains_key(child.0),
                self@.frames.remove(child.0) == before.frames,
                self@.frames[child.0].len() >= Meta::ENTRIES_PER_TABLE,
                forall|f: u64| #[trigger]
                    before.frames.contains_key(f) ==> self@.frames.contains_key(f)
                        && self@.frames[f] == before.frames[f],
                forall|j: int|
                    0 <= j < i ==> #[trigger] self@.frames[child.0][j] == part_raw::<Entry>(
                        leaf,
                        finer_size,
                        j,
                    ),
                leaf == (LeafWord { level, raw: pte.raw(), size }),
                leaf_paddr.0 == Entry::target(pte.raw()),
                leaf_flags == Entry::flags_of(pte.raw()),
                divisible::<Meta, Entry>(leaf, finer_size),
                finer_size.len() > 0,
            decreases Meta::ENTRIES_PER_TABLE - i,
        {
            proof {
                let p = part::<Entry>(leaf, finer_size, i as int);
                assert(p <= u64::MAX);
                assert(0 <= i * finer_size.len()) by (nonlinear_arith);
            }
            let sub_paddr: PhysAddr = PhysAddr(
                leaf_paddr.as_u64() + (i as u64) * finer_size.bytes(),
            );
            let entry: Entry = Entry::new_leaf(sub_paddr, leaf_flags, finer_size);
            self.alloc.write_entry(child, i, entry.bits());
            i = i + 1;
        }
        proof {
            lemma_split::<Meta, Entry, Alloc>(
                before,
                self@,
                current.0,
                child.0,
                v,
                leaf,
                finer_size,
            );
        }
        let entry: Entry = Entry::new_table(child, level);
        self.alloc.write_entry(current, idx, entry.bits());
        self.tables = Ghost(self.tables@.insert(child.0, self.tables@[current.0].push(idx as int)));
        proof {
            lemma_table::<Meta, Entry>(before.frames, before.tables, before.root, current.0);
            assert(table_at::<Meta>(before.tables, current.0, v, level));
            assert(self@.frames.remove(child.0) =~= poke(
                before.frames,
                current.0,
                idx as int,
                entry.raw(),
            ));
            assert(one_word::<Meta>(before, self@.frames.remove(child.0), v, level, entry.raw()));
            assert(table_at::<Meta>(self@.tables, child.0, v, (level - 1) as u8));
            if before.tables.contains_key(child.0) {
                lemma_table::<Meta, Entry>(before.frames, before.tables, before.root, child.0);
            }
            assert(self@.tables.remove(child.0) =~= before.tables);
        }
        Ok(finer_size)
    }

    /// Whether the leaves of the table `child` make up one leaf of size
    /// `target`: its address and flags.
    fn coalesced(&self, child: PhysAddr, level: u8, target: PageSize, finer: PageSize) -> (r: Option<
        (PhysAddr, Entry::Flags),
    >)
        requires
            self.wf(),
            self@.tables.contains_key(child.0),
            level == level_of::<Meta>(self@.tables, child.0),
        ensures
            match r {
                Some((paddr, flags)) => {
                    &&& uniform::<Meta, Entry>(self@.frames, child.0, level, target, finer)
                    &&& paddr.0 == Entry::target(self@.frames[child.0][0])
                    &&& flags == Entry::flags_of(self@.frames[child.0][0])
                    &&& Entry::encodable(paddr.0)
                },
                None => !uniform::<Meta, Entry>(self@.frames, child.0, level, target, finer),
            },
    {
        proof {
            lemma_table::<Meta, Entry>(self@.frames, self@.tables, self@.root, child.0);
            lemma_slot_bound::<Meta>(level, 0);
            lemma_word::<Meta, Entry>(self@.frames, self@.tables, self@.root, child.0, 0);
        }
        let ghost words = self@.frames[child.0];
        let first: Entry = self.read(child, 0);
        proof {
            assert(words[0] == first.raw());
        }
        if !first.is_present() || !first.is_leaf_at(level) {
            return None;
        }
        let base_paddr: PhysAddr = first.paddr();
        let base_flags: Entry::Flags = first.flags();
        if !target.is_aligned(base_paddr.as_u64()) {
            return None;
        }
        let mut i: usize = 1;
        while i < Meta::ENTRIES_PER_TABLE
            invariant
                self.wf(),
                self@.tables.contains_key(child.0),
                level == level_of::<Meta>(self@.tables, child.0),
                words == self@.frames[child.0],
                1 <= i <= Meta::ENTRIES_PER_TABLE,
                first.raw() == words[0],
                base_paddr.0 == Entry::target(first.raw()),
                base_flags == Entry::flags_of(first.raw()),
                base_paddr.0 % target.len() == 0,
                Entry::encodable(base_paddr.0),
                <Entry::Flags>::obeys_eq_spec(),
                forall|a: Entry::Flags, b: Entry::Flags| #[trigger] a.eq_spec(&b) == (a == b),
                forall|j: int|
                    0 <= j < i ==> {
                        let raw = #[trigger] words[j];
                        &&& Entry::present(raw)
                        &&& Entry::kind(raw, level) == PageTableEntryKind::Leaf
                        &&& Entry::flags_of(raw) == Entry::flags_of(words[0])
                        &&& Entry::target(raw) == Entry::target(words[0]) + j * finer.len()
                    },
            decreases Meta::ENTRIES_PER_TABLE - i,
        {
            let pte: Entry = self.read(child, i);
            proof {
                lemma_word::<Meta, Entry>(
                    self@.frames,
                    self@.tables,
                    self@.root,
                    child.0,
                    i as int,
                );
                assert(words[i as int] == pte.raw());
            }
            if !pte.is_present() || !pte.is_leaf_at(level) {
                return None;
            }
            let flags: Entry::Flags = pte.flags();
            if !(flags == base_flags) {
                return None;
            }
            let expected: Option<u64> = match (i as u64).checked_mul(finer.bytes()) {
                Some(offset) => base_paddr.as_u64().checked_add(offset),
                None => None,
            };
            if expected != Some(pte.paddr().as_u64()) {
                return None;
            }
            i = i + 1;
        }
        Some((base_paddr, base_flags))
    }

    /// Coalesce all finer-grained sibling leaves in `range` into a
    /// single block leaf.
    ///
    /// Preconditions verified by this method:
    /// * `range.start` is aligned to `range.size()`.
    /// * The level above the children holds a non-leaf entry pointing
    ///   at a child table.
    /// * All child entries are present and leaves.
    /// * All children share identical flags.
    /// * All children are physically contiguous starting at a
    ///   range-size-aligned base address.
    ///
    /// Any failure of these is [`PagingError::NotCoalescable`] with the tree
    /// unmodified.
    pub fn merge_at<T: TlbInvalidation<Meta::VirtAddr>>(
        &mut self,
        range: AddrRange<Meta::VirtAddr>,
        tlb: &mut T,
    ) -> (r: PagingResult<PageSize>)
        requires
            old(self).wf(),
            mergeable::<Meta, Entry>(old(self)@, range),
        ensures
            final(self).wf(),
            merged::<Meta, Entry>(old(self)@, final(self)@, range, r),
            *final(tlb) == if r is Ok {
                flushed::<Meta::VirtAddr, T>(*old(tlb), range, Meta::BASE_PAGE_SIZE)
            } else {
                *old(tlb)
            },
    {
        let target_size: PageSize = match check_leaf_range::<Meta>(range) {
            Ok(size) => size,
            Err(PagingError::NotAligned) => return Err(PagingError::NotCoalescable),
            Err(e) => return Err(e),
        };
        let vaddr: Meta::VirtAddr = range.start;
        let ghost v = vaddr.value();
        let target_level: u8 = match level_of_size::<Meta>(target_size) {
            Some(level) => level,
            None => return Err(PagingError::UnsupportedSize),
        };
        if target_level <= 1 {
            return Err(PagingError::NotCoalescable);
        }
        let mut current: PhysAddr = self.root;
        let mut level: u8 = Meta::LEVELS as u8;
        proof {
            lemma_root_on_path::<Meta, Entry>(self@.frames, self@.tables, self@.root, v);
        }
        while level > target_level
            invariant
                self.wf(),
                *self == *old(self),
                *tlb == *old(tlb),
                v == vaddr.value(),
                vaddr == range.start,
                merge_goal::<Meta>(range) == Ok::<(PageSize, u8), PagingError>(
                    (target_size, target_level),
                ),
                1 < target_level <= level,
                on_path::<Meta>(self@.tables, current.0, v),
                level == level_of::<Meta>(self@.tables, current.0),
            decreases level,
        {
            proof {
                lemma_table::<Meta, Entry>(self@.frames, self@.tables, self@.root, current.0);
                lemma_walk_via::<Meta, Entry>(
                    self@.frames,
                    self@.tables,
                    self@.root,
                    current.0,
                    v,
                );
            }
            let idx: usize = index_at::<Meta>(level, vaddr);
            let pte: Entry = self.read(current, idx);
            if !pte.is_present() || !pte.entry_kind(level).is_table() {
                proof {
                    lemma_nothing_below::<Meta, Entry>(self@, current.0, v, target_level);
                }
                return Err(PagingError::NotCoalescable);
            }
            proof {
                lemma_descend::<Meta, Entry>(
                    self@.frames,
                    self@.tables,
                    self@.root,
                    current.0,
                    v,
                );
            }
            current = pte.paddr();
            level = level - 1;
        }
        proof {
            lemma_table::<Meta, Entry>(self@.frames, self@.tables, self@.root, current.0);
            lemma_walk_via::<Meta, Entry>(self@.frames, self@.tables, self@.root, current.0, v);
        }
        let idx: usize = index_at::<Meta>(target_level, vaddr);
        let parent_pte: Entry = self.read(current, idx);
        if !parent_pte.is_present() || !parent_pte.entry_kind(level).is_table() {
            proof {
                lemma_nothing_below::<Meta, Entry>(self@, current.0, v, target_level);
            }
            return Err(PagingError::NotCoalescable);
        }
        proof {
            lemma_descend::<Meta, Entry>(self@.frames, self@.tables, self@.root, current.0, v);
        }
        let child: PhysAddr = parent_pte.paddr();
        proof {
            assert(table_at::<Meta>(self@.tables, child.0, v, (target_level - 1) as u8));
            lemma_table::<Meta, Entry>(self@.frames, self@.tables, self@.root, child.0);
            lemma_walk_via::<Meta, Entry>(self@.frames, self@.tables, self@.root, child.0, v);
            lemma_deep_leaf::<Meta, Entry>(self@, child.0, v);
        }
        let finer_level: u8 = target_level - 1;
        let finer_size: PageSize = match Meta::leaf_size_at_level(finer_level) {
            Some(size) => size,
            None => return Err(PagingError::UnsupportedSize),
        };
        let (base_paddr, base_flags) = match self.coalesced(
            child,
            finer_level,
            target_size,
            finer_size,
        ) {
            Some(found) => found,
            None => return Err(PagingError::NotCoalescable),
        };
        let ghost before = self@;
        let entry: Entry = Entry::new_leaf(base_paddr, base_flags, target_size);
        self.alloc.write_entry(current, idx, entry.bits());
        self.tables = Ghost(self.tables@.remove(child.0));
        let ghost cut = self@;
        let released: PagingResult = dealloc_table_frame::<Meta, Alloc>(&mut self.alloc, child);
        proof {
            lemma_fold::<Meta, Entry>(
                before,
                cut,
                self@,
                v,
                target_level,
                target_size,
                finer_size,
                current.0,
                child.0,
                released,
            );
            if released is Ok {
                assert(released->Ok_0 == ());
            }
        }
        released?;
        Self::flush_leaf_range(range, tlb);
        Ok(target_size)
    }

    /// Open a cursor for a batch of operations whose flushes are issued
    /// together when it is finished.
    pub fn cursor<'pt, T: TlbInvalidation<Meta::VirtAddr>>(
        &'pt mut self,
        tlb: &'pt mut T,
    ) -> (r: PageTableCursor<'pt, Meta, Entry, Alloc, T>)
        requires
            old(self).wf(),
        ensures
            r.wf(),
            r.descent.fresh(),
            *r.pt == *old(self),
            *r.tlb == *old(tlb),
            r.pending@ == Pending::Ranges(Set::empty()),
            *final(r.pt) == *final(self),
            *final(r.tlb) == *final(tlb),
    {
        PageTableCursor::new(self, tlb)
    }

    /// Install fresh mappings over a virtually-contiguous range.
    ///
    /// `backing` supplies either one physical range or an ordered
    /// scatter list. [`MappingFlags::contiguity`] decides whether the
    /// request requires one contiguous extent or maps every scattered
    /// leaf at an explicit granule.
    pub fn map<
        'a,
        B: IntoMapBacking<'a>,
        F: IntoMappingFlags<Entry::Flags>,
        T: TlbInvalidation<Meta::VirtAddr>,
    >(&mut self, range: AddrRange<Meta::VirtAddr>, backing: B, flags: F, tlb: &mut T) -> (r:
        PagingResult)
        requires
            old(self).wf(),
            backing.fits(range.len()),
            encodes::<Entry>(
                map_plan::<Meta>(
                    range,
                    backing.backing(range.len()),
                    flags.mapping_flags().contiguity,
                ),
                flags.mapping_flags().leaf,
            ),
        ensures
            final(self).wf(),
            exists|due: Pending|
                {
                    &&& #[trigger] map_effect::<Meta, Entry>(
                        old(self)@,
                        final(self)@,
                        range,
                        backing.backing(range.len()),
                        flags.mapping_flags(),
                        due,
                        r,
                    )
                    &&& *final(tlb) == map_flush::<Meta::VirtAddr, T>(
                        *old(tlb),
                        range,
                        whole_leaf::<Meta>(
                            range,
                            backing.backing(range.len()),
                            flags.mapping_flags().contiguity,
                        ),
                        due,
                        r,
                        Meta::BASE_PAGE_SIZE,
                    )
                },
    {
        let ghost supplied_backing = backing.backing(range.len());
        let ghost view = self@;
        let flags: MappingFlags<Entry::Flags> = flags.into_mapping_flags();
        let (r, due): (PagingResult, Ghost<Pending>) = match backing.into_map_backing(
            range.size(),
        ) {
            Ok(backing) => self.map_backing(range, backing, flags, tlb),
            Err(e) => {
                let ghost none = Pending::Ranges(Set::empty());
                proof {
                    lemma_drained_nothing::<Meta::VirtAddr, T>(*tlb, Meta::BASE_PAGE_SIZE);
                    lemma_rejected::<Meta, Entry>(view, none, flags.leaf, e);
                }
                (Err(e), Ghost(none))
            },
        };
        proof {
            assert(map_effect::<Meta, Entry>(
                view,
                self@,
                range,
                supplied_backing,
                flags,
                due@,
                r,
            ));
        }
        r
    }

    /// Carry out a map request; also returns the invalidations that were due
    /// in the end.
    fn map_backing<'a, T: TlbInvalidation<Meta::VirtAddr>>(
        &mut self,
        range: AddrRange<Meta::VirtAddr>,
        backing: MapBacking<'a>,
        flags: MappingFlags<Entry::Flags>,
        tlb: &mut T,
    ) -> (r: (PagingResult, Ghost<Pending>))
        requires
            old(self).wf(),
            encodes::<Entry>(map_plan::<Meta>(range, Ok(backing), flags.contiguity), flags.leaf),
        ensures
            final(self).wf(),
            map_effect::<Meta, Entry>(
                old(self)@,
                final(self)@,
                range,
                Ok(backing),
                flags,
                r.1@,
                r.0,
            ),
            *final(tlb) == map_flush::<Meta::VirtAddr, T>(
                *old(tlb),
                range,
                whole_leaf::<Meta>(range, Ok(backing), flags.contiguity),
                r.1@,
                r.0,
                Meta::BASE_PAGE_SIZE,
            ),
    {
        let ghost view = self@;
        let ghost none = Pending::Ranges(Set::empty());
        proof {
            lemma_drained_nothing::<Meta::VirtAddr, T>(*tlb, Meta::BASE_PAGE_SIZE);
        }
        match (flags.contiguity(), backing) {
            (MappingContiguity::Contiguous, MapBacking::Contiguous(phys)) => {
                if phys.is_empty() || range.size() != phys.size() {
                    proof {
                        lemma_rejected::<Meta, Entry>(
                            view,
                            none,
                            flags.leaf,
                            PagingError::InvalidMappingShape,
                        );
                    }
                    return (Err(PagingError::InvalidMappingShape), Ghost(none));
                }
                match exact_leaf_size::<Meta>(range, phys.start, None) {
                    Err(e) => {
                        proof {
                            lemma_rejected::<Meta, Entry>(view, none, flags.leaf, e);
                        }
                        return (Err(e), Ghost(none));
                    },
                    Ok(Some((size, target_level))) => {
                        return self.map_whole(range, phys.start, flags.leaf(), size, target_level, tlb);
                    },
                    Ok(None) => {},
                }
            },
            _ => {},
        }
        let mut cursor: PageTableCursor<'_, Meta, Entry, Alloc, T> = self.cursor(tlb);
        let r: PagingResult = cursor.map(range, backing, flags);
        let ghost due = cursor.pending@;
        let _ = cursor.finish();
        (r, Ghost(due))
    }

    /// Carry out a map request that is one leaf.
    fn map_whole<T: TlbInvalidation<Meta::VirtAddr>>(
        &mut self,
        range: AddrRange<Meta::VirtAddr>,
        paddr: PhysAddr,
        flags: Entry::Flags,
        size: PageSize,
        target_level: u8,
        tlb: &mut T,
    ) -> (r: (PagingResult, Ghost<Pending>))
        requires
            old(self).wf(),
            ({
                let leaf = Placement {
                    vaddr: range.lo(),
                    paddr: paddr.0,
                    size,
                    level: target_level,
                };
                well_placed::<Meta>(leaf) && encodes::<Entry>(single(leaf), flags)
            }),
        ensures
            final(self).wf(),
            progressed::<Meta, Entry>(
                old(self)@,
                Pending::Ranges(Set::empty()),
                final(self)@,
                r.1@,
                single(
                    Placement { vaddr: range.lo(), paddr: paddr.0, size, level: target_level },
                ),
                flags,
                r.0,
            ),
            *final(tlb) == if r.0 is Ok {
                flushed::<Meta::VirtAddr, T>(*old(tlb), range, Meta::BASE_PAGE_SIZE)
            } else {
                *old(tlb)
            },
    {
        let ghost view = self@;
        let ghost none = Pending::Ranges(Set::empty());
        let ghost leaf = Placement { vaddr: range.lo(), paddr: paddr.0, size, level: target_level };
        proof {
            assert(single(leaf).leaves[0] == leaf);
            assert(leaf_at::<Meta>(target_level, size));
            assert(leaf_size::<Meta>(size));
        }
        let r: PagingResult = self.map_leaf_direct_sized_no_flush(
            range,
            paddr,
            flags,
            size,
            target_level,
        );
        let ghost due = if r is Ok {
            queued(none, leaf.vaddr, leaf.size.len(), Meta::BASE_PAGE_SIZE)
        } else {
            none
        };
        proof {
            lemma_single::<Meta, Entry>(view, none, self@, due, leaf, flags, r);
        }
        if r.is_ok() {
            Self::flush_leaf_range(range, tlb);
        }
        (r, Ghost(due))
    }
}

} // verus!
