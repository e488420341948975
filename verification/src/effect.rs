//! What operations on a translation tree do.
//!
//! A [`TreeView`] is a tree at one moment. The predicates here relate the
//! views before and after an operation, and say which of its results goes with
//! which change.

use crate::addr::{AddrRange, MemoryAddr, PhysAddr, PhysAddrRange};
use crate::error::{PagingError, PagingResult};
use crate::mapping::Mapping;
use crate::meta::PageSize;
use crate::paging::{
    fits_bits, flags_comparable, level_for, poke, zeroed, FrameAllocator, FrameEvent,
    PageTableEntry, PageTableEntryKind, PagingMetaData, TlbInvalidation,
};
use crate::plan::{covering, named_leaf, Placement};
use crate::tree::{
    ending, entry_fits, layout_ok, lemma_attach, lemma_descend, lemma_detach, lemma_foreign_frames,
    lemma_obstacle_via, lemma_parent, lemma_path_end, lemma_path_level, lemma_shared_slot,
    lemma_slot_bound, lemma_table, lemma_walk_via, level_of, obstacle, on_path, same_path, slot_of,
    storable, table_frame, tableish, top, tree, walk, MAX_LEVELS, Walk,
};
use vstd::prelude::*;

verus! {

/// What a walker stands for.
#[verifier::ext_equal]
pub struct TreeView {
    /// The root frame.
    pub root: u64,
    /// The words of every live frame of the allocator.
    pub frames: Map<u64, Seq<u64>>,
    /// The tables of the tree, each with the slots that lead to it.
    pub tables: Map<u64, Seq<int>>,
    /// The allocations and releases so far.
    pub log: Seq<FrameEvent>,
    /// Table memory after each allocation, release and write so far.
    pub history: Seq<Map<u64, Seq<u64>>>,
}

/// Whether table memory `mem` shows every address the translation that it has in
/// `view`.
pub open spec fn shows<Meta: PagingMetaData, Entry: PageTableEntry>(
    mem: Map<u64, Seq<u64>>,
    view: TreeView,
) -> bool {
    unmoved::<Meta, Entry>(view, TreeView { frames: mem, ..view })
}

/// Whether table memory showed the translations of `before` all the way to
/// `after`.
pub open spec fn steady<Meta: PagingMetaData, Entry: PageTableEntry>(
    before: TreeView,
    after: TreeView,
) -> bool {
    &&& before.history.is_prefix_of(after.history)
    &&& forall|k: int|
        before.history.len() <= k < after.history.len() ==> shows::<Meta, Entry>(
            #[trigger] after.history[k],
            before,
        )
}

/// Whether table memory showed the translations of `before` up to the change
/// `at`, and from then on those of `after`.
pub open spec fn switches<Meta: PagingMetaData, Entry: PageTableEntry>(
    before: TreeView,
    after: TreeView,
    at: int,
) -> bool {
    &&& before.history.is_prefix_of(after.history)
    &&& before.history.len() <= at <= after.history.len()
    &&& forall|k: int|
        before.history.len() <= k < after.history.len() ==> shows::<Meta, Entry>(
            #[trigger] after.history[k],
            if k < at {
                before
            } else {
                after
            },
        )
}

/// Whether translations went from those of `before` to those of `after` in one
/// step: no memory on the way showed anything else.
pub open spec fn seamless<Meta: PagingMetaData, Entry: PageTableEntry>(
    before: TreeView,
    after: TreeView,
) -> bool {
    exists|at: int| switches::<Meta, Entry>(before, after, at)
}

/// Whether every frame that was live in `before` stayed as it was, all the way to
/// `after`.
pub open spec fn kept_throughout(before: TreeView, after: TreeView) -> bool {
    &&& before.history.is_prefix_of(after.history)
    &&& forall|k: int|
        before.history.len() <= k < after.history.len() ==> keeps(
            before.frames,
            #[trigger] after.history[k],
        )
}

/// Whether `mem` holds the frames of `frames` as they are there.
pub open spec fn keeps(frames: Map<u64, Seq<u64>>, mem: Map<u64, Seq<u64>>) -> bool {
    forall|f: u64| #[trigger]
        frames.contains_key(f) ==> mem.contains_key(f) && mem[f] == frames[f]
}

/// The outcome of translating `vaddr`.
pub open spec fn outcome<Meta: PagingMetaData, Entry: PageTableEntry>(
    view: TreeView,
    vaddr: u64,
) -> Walk {
    walk::<Meta, Entry>(view.frames, view.root, top::<Meta>(), vaddr)
}

/// What stands in the way of a new leaf at `level` for `vaddr`.
pub open spec fn hindrance<Meta: PagingMetaData, Entry: PageTableEntry>(
    view: TreeView,
    vaddr: u64,
    level: u8,
) -> Option<PagingError> {
    obstacle::<Meta, Entry>(view.frames, view.root, top::<Meta>(), vaddr, level)
}

/// Whether leaves of `size` occur at `level`.
pub open spec fn leaf_at<Meta: PagingMetaData>(level: u8, size: PageSize) -> bool {
    &&& 1 <= level <= Meta::LEVELS
    &&& Meta::supports(level, size) || PageSize::of_shift(Meta::shift(level)) == Some(size)
}

/// Whether leaves of `size` occur in a geometry.
pub open spec fn leaf_size<Meta: PagingMetaData>(size: PageSize) -> bool {
    exists|level: u8| leaf_at::<Meta>(level, size)
}

/// Whether an entry format can express a geometry: zeroed memory holds no
/// present entry, flags can be compared, every aligned leaf address can be
/// encoded, and pointers to every frame that the allocator may place
/// decode to that frame at every level above the lowest.
pub open spec fn formats_ok<Meta: PagingMetaData, Entry: PageTableEntry, Alloc: FrameAllocator>() -> bool {
    &&& !Entry::present(0)
    &&& flags_comparable::<Entry>()
    &&& forall|paddr: u64, size: PageSize|
        fits_bits(paddr, Meta::PA_MAX_BITS) && paddr % size.len() == 0 && #[trigger] leaf_size::<
            Meta,
        >(size) ==> #[trigger] Entry::encodable(paddr)
    &&& forall|paddr: u64, level: u8|
        #![trigger Entry::table_raw(paddr, level)]
        Alloc::places(paddr) && paddr % Meta::TABLE_FRAME_SIZE.len() == 0 && 2 <= level
            <= Meta::LEVELS ==> {
            &&& Entry::encodable(paddr)
            &&& tableish::<Entry>(Entry::table_raw(paddr, level), level)
            &&& Entry::target(Entry::table_raw(paddr, level)) == paddr
        }
    &&& forall|paddr: u64| #[trigger]
        Alloc::places(paddr) ==> paddr + Meta::TABLE_FRAME_SIZE.len() <= u64::MAX
}

/// Whether an allocated range can serve as a table frame.
pub open spec fn well_shaped<Meta: PagingMetaData>(range: PhysAddrRange) -> bool {
    range.len() == Meta::TABLE_FRAME_SIZE.len() && range.lo() % Meta::TABLE_FRAME_SIZE.len() == 0
}

/// Whether the calls that turned `before` into `after` end with the allocator
/// refusing a table frame, seen as `error`: it had none to give, or it gave a
/// range of the wrong shape, which was handed back.
pub open spec fn refused<Meta: PagingMetaData>(
    before: Seq<FrameEvent>,
    after: Seq<FrameEvent>,
    error: PagingError,
) -> bool {
    let n = after.len() as int;
    &&& before.len() < n
    &&& {
        ||| after[n - 1] matches FrameEvent::Allocated { size, align, granted: Err(e) } && e
            == error && size == Meta::TABLE_FRAME_SIZE.len() && align == Meta::TABLE_FRAME_SIZE
        ||| {
            &&& error == PagingError::NotAligned
            &&& before.len() + 1 < n
            &&& after[n - 2] matches FrameEvent::Allocated { size, align, granted: Ok(range) }
            &&& size == Meta::TABLE_FRAME_SIZE.len()
            &&& align == Meta::TABLE_FRAME_SIZE
            &&& !well_shaped::<Meta>(range)
            &&& after[n - 1] matches FrameEvent::Deallocated { range: back, .. }
            &&& back == range
        }
    }
}

/// Whether a single request for a table frame turned `before` into `after` and
/// was refused, seen as `error`.
pub open spec fn declined<Meta: PagingMetaData>(
    before: Seq<FrameEvent>,
    after: Seq<FrameEvent>,
    error: PagingError,
) -> bool {
    &&& before.is_prefix_of(after)
    &&& refused::<Meta>(before, after, error)
    &&& after.len() == before.len() + if after.last() is Allocated {
        1int
    } else {
        2int
    }
}

/// The leaf that covers `vaddr`.
pub open spec fn lookup<Meta: PagingMetaData, Entry: PageTableEntry>(
    view: TreeView,
    vaddr: u64,
) -> PagingResult<Mapping<Entry, Meta::VirtAddr>> {
    if !Meta::in_range(vaddr) {
        Err(PagingError::AddressOutOfRange)
    } else {
        match outcome::<Meta, Entry>(view, vaddr) {
            Walk::Absent => Err(PagingError::NotMapped),
            Walk::Invalid => Err(PagingError::InvalidEntryKind),
            Walk::Leaf { level, raw } => match PageSize::of_shift(Meta::shift(level)) {
                None => Err(PagingError::UnsupportedSize),
                Some(size) => match covering::<Meta::VirtAddr>(vaddr, size) {
                    Err(e) => Err(e),
                    Ok(range) => Ok(
                        Mapping {
                            range,
                            paddr: PhysAddr(Entry::target(raw)),
                            flags: Entry::flags_of(raw),
                        },
                    ),
                },
            },
        }
    }
}

/// Whether an operation failed with `error`.
pub open spec fn fails_with<T>(r: PagingResult<T>, error: PagingError) -> bool {
    r matches Err(e) && e == error
}

/// Whether an operation returned the mapping of `range` to `paddr` with `flags`.
pub open spec fn yields<Entry: PageTableEntry, V: MemoryAddr>(
    r: PagingResult<Mapping<Entry, V>>,
    range: AddrRange<V>,
    paddr: PhysAddr,
    flags: Entry::Flags,
) -> bool {
    r matches Ok(m) && m.range == range && m.paddr == paddr && m.flags == flags
}

/// A leaf of the tree: its level, its word and its size.
pub struct LeafWord {
    pub level: u8,
    pub raw: u64,
    pub size: PageSize,
}

/// The leaf that covers exactly `range`.
pub open spec fn located<Meta: PagingMetaData, Entry: PageTableEntry>(
    view: TreeView,
    range: AddrRange<Meta::VirtAddr>,
) -> PagingResult<LeafWord> {
    if !Meta::in_range(range.lo()) {
        Err(PagingError::AddressOutOfRange)
    } else {
        match outcome::<Meta, Entry>(view, range.lo()) {
            Walk::Absent => Err(PagingError::NotMapped),
            Walk::Invalid => Err(PagingError::InvalidEntryKind),
            Walk::Leaf { level, raw } => match PageSize::of_shift(Meta::shift(level)) {
                None => Err(PagingError::UnsupportedSize),
                Some(size) => match covering::<Meta::VirtAddr>(range.lo(), size) {
                    Err(e) => Err(e),
                    Ok(covered) => if covered != range {
                        Err(PagingError::NotMapped)
                    } else {
                        Ok(LeafWord { level, raw, size })
                    },
                },
            },
        }
    }
}

/// Frames outside the tree, which an operation on it leaves alone.
pub open spec fn bystanders_kept(before: TreeView, after: TreeView) -> bool {
    forall|f: u64|
        #[trigger] before.frames.contains_key(f) && !before.tables.contains_key(f) ==> {
            &&& after.frames.contains_key(f)
            &&& after.frames[f] == before.frames[f]
            &&& !after.tables.contains_key(f)
        }
}

/// Whether translation changed for the addresses that share the path of
/// `vaddr` down to `level`, to `raw` at that level, and for no others.
pub open spec fn replaced<Meta: PagingMetaData, Entry: PageTableEntry>(
    before: TreeView,
    after: TreeView,
    vaddr: u64,
    level: u8,
    raw: u64,
) -> bool {
    forall|w: u64| #[trigger]
        outcome::<Meta, Entry>(after, w) == if same_path::<Meta>(vaddr, w, level) {
            ending::<Entry>(raw, level)
        } else {
            outcome::<Meta, Entry>(before, w)
        }
}

/// Whether table memory is what it was but for one word: that of the table at
/// `level` on the path of `vaddr`, which is now `raw`.
pub open spec fn one_word<Meta: PagingMetaData>(
    before: TreeView,
    frames: Map<u64, Seq<u64>>,
    vaddr: u64,
    level: u8,
    raw: u64,
) -> bool {
    exists|t: u64| #[trigger]
        table_at::<Meta>(before.tables, t, vaddr, level) && frames == poke(
            before.frames,
            t,
            slot_of::<Meta>(level, vaddr),
            raw,
        )
}

/// Whether every live frame was left as it was.
pub open spec fn memory_kept(before: TreeView, after: TreeView) -> bool {
    forall|f: u64| #[trigger]
        before.frames.contains_key(f) ==> after.frames.contains_key(f) && after.frames[f]
            == before.frames[f]
}

/// Whether one leaf was rewritten in place, by writing one word.
pub open spec fn rewritten<Meta: PagingMetaData, Entry: PageTableEntry>(
    before: TreeView,
    after: TreeView,
    vaddr: u64,
    level: u8,
    raw: u64,
) -> bool {
    &&& after.root == before.root
    &&& after.tables == before.tables
    &&& after.log == before.log
    &&& one_word::<Meta>(before, after.frames, vaddr, level, raw)
    &&& seamless::<Meta, Entry>(before, after)
    &&& bystanders_kept(before, after)
    &&& replaced::<Meta, Entry>(before, after, vaddr, level, raw)
}

/// Whether no translation changed.
pub open spec fn unmoved<Meta: PagingMetaData, Entry: PageTableEntry>(
    before: TreeView,
    after: TreeView,
) -> bool {
    forall|w: u64| #[trigger]
        outcome::<Meta, Entry>(after, w) == outcome::<Meta, Entry>(before, w)
}

/// Whether a table lies on the way to one of `leaves`, above it or at its
/// level.
pub open spec fn leads_to<Meta: PagingMetaData>(
    tables: Map<u64, Seq<int>>,
    t: u64,
    leaves: Seq<Placement>,
) -> bool {
    exists|k: int|
        #![trigger leaves[k]]
        0 <= k < leaves.len() && on_path::<Meta>(tables, t, leaves[k].vaddr) && leaves[k].level
            <= level_of::<Meta>(tables, t)
}

/// Whether the tree kept all its tables and gained none but on the way to
/// `leaves`.
pub open spec fn grown<Meta: PagingMetaData>(
    before: TreeView,
    after: TreeView,
    leaves: Seq<Placement>,
) -> bool {
    &&& after.root == before.root
    &&& bystanders_kept(before, after)
    &&& before.log.is_prefix_of(after.log)
    &&& forall|t: u64| #[trigger]
        before.tables.contains_key(t) ==> after.tables.contains_key(t) && after.tables[t]
            == before.tables[t]
    &&& forall|t: u64| #[trigger]
        after.tables.contains_key(t) && !before.tables.contains_key(t) ==> leads_to::<Meta>(
            after.tables,
            t,
            leaves,
        )
}

/// Whether the allocator calls since `before`, up to but not including the one at
/// `end`, each supplied a table of the tree.
pub open spec fn supplied_until<Meta: PagingMetaData>(
    before: TreeView,
    after: TreeView,
    end: int,
) -> bool {
    forall|i: int|
        before.log.len() <= i < end ==> supplies::<Meta>(before, after, #[trigger] after.log[i])
}

/// Whether an allocator call supplied a table that is new in `after`.
pub open spec fn supplies<Meta: PagingMetaData>(
    before: TreeView,
    after: TreeView,
    event: FrameEvent,
) -> bool {
    event matches FrameEvent::Allocated { size, align, granted: Ok(range) } && size
        == Meta::TABLE_FRAME_SIZE.len() && align == Meta::TABLE_FRAME_SIZE && well_shaped::<Meta>(
        range,
    ) && after.tables.contains_key(range.lo()) && !before.tables.contains_key(range.lo())
}

/// Whether every allocator call since `before` supplied a table of the tree.
pub open spec fn supplied<Meta: PagingMetaData>(before: TreeView, after: TreeView) -> bool {
    supplied_until::<Meta>(before, after, after.log.len() as int)
}

/// Where the calls of a refused request begin in a log that ends with them: it is
/// the last call, or the last but one if what it gave was handed back.
pub open spec fn refusal_start(log: Seq<FrameEvent>) -> int {
    if log.last() is Allocated {
        log.len() - 1
    } else {
        log.len() - 2
    }
}

/// Whether the table `p` points at the table `t` with the word that the format
/// has for that.
pub open spec fn pointer_to<Meta: PagingMetaData, Entry: PageTableEntry>(
    view: TreeView,
    p: u64,
    t: u64,
) -> bool {
    let slot = view.tables[t].last();
    let raw = view.frames[p][slot];
    &&& view.tables.contains_key(p)
    &&& view.tables.contains_key(t)
    &&& view.tables[t] == view.tables[p].push(slot)
    &&& 0 <= slot < Meta::ENTRIES_PER_TABLE
    &&& Entry::present(raw)
    &&& raw == Entry::table_raw(t, level_of::<Meta>(view.tables, p))
}

/// Whether nothing was overwritten, and nothing written but on the way to
/// `vaddr`: present words and words off that path are what they were, new tables
/// hold nothing off that path, and each is pointed at by the word that the
/// format has for that.
pub open spec fn additive<Meta: PagingMetaData, Entry: PageTableEntry>(
    before: TreeView,
    after: TreeView,
    vaddr: u64,
) -> bool {
    &&& forall|t: u64, j: int|
        before.tables.contains_key(t) && 0 <= j < Meta::ENTRIES_PER_TABLE && (j != slot_of::<Meta>(
            level_of::<Meta>(before.tables, t),
            vaddr,
        ) || Entry::present(before.frames[t][j])) ==> #[trigger] after.frames[t][j]
            == before.frames[t][j]
    &&& forall|t: u64| #[trigger]
        after.tables.contains_key(t) && !before.tables.contains_key(t) ==> vacant_but::<
            Meta,
            Entry,
        >(after.frames, t, slot_of::<Meta>(level_of::<Meta>(after.tables, t), vaddr))
    &&& forall|t: u64| #[trigger]
        after.tables.contains_key(t) && !before.tables.contains_key(t) ==> exists|p: u64| #[trigger]
            pointer_to::<Meta, Entry>(after, p, t)
}

/// Whether tables were added on the way to `leaf` and nothing else happened.
/// Where something stands in the way of the leaf, nothing happened at all.
pub open spec fn prepared<Meta: PagingMetaData, Entry: PageTableEntry>(
    before: TreeView,
    after: TreeView,
    leaf: Placement,
) -> bool {
    let hindered = hindrance::<Meta, Entry>(before, leaf.vaddr, leaf.level);
    &&& grown::<Meta>(before, after, seq![leaf])
    &&& unmoved::<Meta, Entry>(before, after)
    &&& supplied::<Meta>(before, after)
    &&& additive::<Meta, Entry>(before, after, leaf.vaddr)
    &&& steady::<Meta, Entry>(before, after)
    &&& hindrance::<Meta, Entry>(after, leaf.vaddr, leaf.level) == hindered
    &&& hindered is Some ==> after == before
}

/// Whether `leaf` was refused with `error`: because something stands in its
/// way, and then nothing changed; or because the allocator refused a table on
/// the way to it, after it had supplied those above.
pub open spec fn turned_down<Meta: PagingMetaData, Entry: PageTableEntry>(
    before: TreeView,
    after: TreeView,
    leaf: Placement,
    error: PagingError,
) -> bool {
    let hindered = hindrance::<Meta, Entry>(before, leaf.vaddr, leaf.level);
    &&& grown::<Meta>(before, after, seq![leaf])
    &&& unmoved::<Meta, Entry>(before, after)
    &&& additive::<Meta, Entry>(before, after, leaf.vaddr)
    &&& steady::<Meta, Entry>(before, after)
    &&& hindrance::<Meta, Entry>(after, leaf.vaddr, leaf.level) == hindered
    &&& match hindered {
        Some(e) => error == e && after == before,
        None => refused::<Meta>(before.log, after.log, error) && supplied_until::<Meta>(
            before,
            after,
            refusal_start(after.log),
        ),
    }
}

/// What installing `leaf` with the word `raw` does.
pub open spec fn placed<Meta: PagingMetaData, Entry: PageTableEntry>(
    before: TreeView,
    after: TreeView,
    leaf: Placement,
    raw: u64,
    r: PagingResult,
) -> bool {
    match r {
        Ok(()) => {
            &&& hindrance::<Meta, Entry>(before, leaf.vaddr, leaf.level) is None
            &&& grown::<Meta>(before, after, seq![leaf])
            &&& supplied::<Meta>(before, after)
            &&& additive::<Meta, Entry>(before, after, leaf.vaddr)
            &&& seamless::<Meta, Entry>(before, after)
            &&& replaced::<Meta, Entry>(before, after, leaf.vaddr, leaf.level, raw)
        },
        Err(e) => turned_down::<Meta, Entry>(before, after, leaf, e),
    }
}

/// Growth composes.
pub proof fn lemma_grown<Meta: PagingMetaData>(
    a: TreeView,
    b: TreeView,
    c: TreeView,
    first: Seq<Placement>,
    second: Seq<Placement>,
    both: Seq<Placement>,
)
    requires
        grown::<Meta>(a, b, first),
        grown::<Meta>(b, c, second),
        forall|k: int| 0 <= k < first.len() ==> both.contains(#[trigger] first[k]),
        forall|k: int| 0 <= k < second.len() ==> both.contains(#[trigger] second[k]),
    ensures
        grown::<Meta>(a, c, both),
{
    assert forall|f: u64|
        #[trigger] a.frames.contains_key(f) && !a.tables.contains_key(f) implies {
        &&& c.frames.contains_key(f)
        &&& c.frames[f] == a.frames[f]
        &&& !c.tables.contains_key(f)
    } by {
        assert(b.frames.contains_key(f));
    }
    assert forall|t: u64| #[trigger]
        c.tables.contains_key(t) && !a.tables.contains_key(t) implies leads_to::<Meta>(
        c.tables,
        t,
        both,
    ) by {
        let (k, leaf) = if b.tables.contains_key(t) {
            let k: int = choose|k: int|
                #![trigger first[k]]
                0 <= k < first.len() && on_path::<Meta>(b.tables, t, first[k].vaddr)
                    && first[k].level <= level_of::<Meta>(b.tables, t);
            (k, first[k])
        } else {
            let k: int = choose|k: int|
                #![trigger second[k]]
                0 <= k < second.len() && on_path::<Meta>(c.tables, t, second[k].vaddr)
                    && second[k].level <= level_of::<Meta>(c.tables, t);
            (k, second[k])
        };
        assert(both.contains(leaf));
        let j: int = choose|j: int| 0 <= j < both.len() && both[j] == leaf;
        assert(both[j] == leaf);
    }
    assert(a.log =~= c.log.subrange(0, a.log.len() as int)) by {
        assert forall|i: int| 0 <= i < a.log.len() implies a.log[i] == c.log[i] by {
            assert(a.log[i] == b.log.subrange(0, a.log.len() as int)[i]);
            assert(b.log[i] == c.log.subrange(0, b.log.len() as int)[i]);
        }
    }
}

/// Additions on the way to one address compose.
proof fn lemma_additive<Meta: PagingMetaData, Entry: PageTableEntry>(
    a: TreeView,
    b: TreeView,
    c: TreeView,
    leaves: Seq<Placement>,
    vaddr: u64,
)
    requires
        additive::<Meta, Entry>(a, b, vaddr),
        additive::<Meta, Entry>(b, c, vaddr),
        grown::<Meta>(a, b, leaves),
        grown::<Meta>(b, c, leaves),
    ensures
        additive::<Meta, Entry>(a, c, vaddr),
{
    assert forall|t: u64, j: int|
        a.tables.contains_key(t) && 0 <= j < Meta::ENTRIES_PER_TABLE && (j != slot_of::<Meta>(
            level_of::<Meta>(a.tables, t),
            vaddr,
        ) || Entry::present(a.frames[t][j])) implies #[trigger] c.frames[t][j]
        == a.frames[t][j] by {
        assert(b.tables.contains_key(t));
        assert(b.frames[t][j] == a.frames[t][j]);
    }
    assert forall|t: u64| #[trigger]
        c.tables.contains_key(t) && !a.tables.contains_key(t) implies vacant_but::<Meta, Entry>(
        c.frames,
        t,
        slot_of::<Meta>(level_of::<Meta>(c.tables, t), vaddr),
    ) by {
        if b.tables.contains_key(t) {
            let i = slot_of::<Meta>(level_of::<Meta>(b.tables, t), vaddr);
            assert(vacant_but::<Meta, Entry>(b.frames, t, i));
            assert forall|j: int| 0 <= j < Meta::ENTRIES_PER_TABLE && j != i implies
                !Entry::present(#[trigger] c.frames[t][j]) by {
                assert(!Entry::present(b.frames[t][j]));
            }
        }
    }
    assert forall|t: u64| #[trigger]
        c.tables.contains_key(t) && !a.tables.contains_key(t) implies exists|p: u64| #[trigger]
        pointer_to::<Meta, Entry>(c, p, t) by {
        if b.tables.contains_key(t) {
            let p: u64 = choose|p: u64| #[trigger] pointer_to::<Meta, Entry>(b, p, t);
            assert(pointer_to::<Meta, Entry>(b, p, t));
            let slot = b.tables[t].last();
            assert(c.frames[p][slot] == b.frames[p][slot]);
            assert(pointer_to::<Meta, Entry>(c, p, t));
        }
    }
}

/// What holds steady and then switches, or stays, does so from the start.
proof fn lemma_steady<Meta: PagingMetaData, Entry: PageTableEntry>(
    a: TreeView,
    b: TreeView,
    c: TreeView,
)
    requires
        a.root == b.root,
        steady::<Meta, Entry>(a, b),
        unmoved::<Meta, Entry>(a, b),
    ensures
        steady::<Meta, Entry>(b, c) ==> steady::<Meta, Entry>(a, c),
        seamless::<Meta, Entry>(b, c) ==> seamless::<Meta, Entry>(a, c),
{
    if b.history.is_prefix_of(c.history) {
        lemma_prefix(a.history, b.history, c.history);
        assert forall|k: int| a.history.len() <= k < b.history.len() implies shows::<Meta, Entry>(
            #[trigger] c.history[k],
            a,
        ) by {
            assert(c.history[k] == b.history[k]);
        }
        assert forall|mem: Map<u64, Seq<u64>>| #[trigger] shows::<Meta, Entry>(mem, b) implies shows::<
            Meta,
            Entry,
        >(mem, a) by {
            lemma_shows::<Meta, Entry>(mem, a, b);
        }
        if exists|at: int| switches::<Meta, Entry>(b, c, at) {
            let at: int = choose|at: int| switches::<Meta, Entry>(b, c, at);
            assert(switches::<Meta, Entry>(a, c, at));
        }
    }
}

/// Memory that shows the translations of a view shows those of any other that
/// has the same.
proof fn lemma_shows<Meta: PagingMetaData, Entry: PageTableEntry>(
    mem: Map<u64, Seq<u64>>,
    a: TreeView,
    b: TreeView,
)
    requires
        a.root == b.root,
        unmoved::<Meta, Entry>(a, b),
        shows::<Meta, Entry>(mem, b),
    ensures
        shows::<Meta, Entry>(mem, a),
{
    let at_a = TreeView { frames: mem, ..a };
    let at_b = TreeView { frames: mem, ..b };
    assert forall|w: u64| #[trigger]
        outcome::<Meta, Entry>(at_a, w) == outcome::<Meta, Entry>(a, w) by {
        assert(outcome::<Meta, Entry>(at_b, w) == outcome::<Meta, Entry>(b, w));
        assert(outcome::<Meta, Entry>(b, w) == outcome::<Meta, Entry>(a, w));
    }
}

/// Beginnings compose.
proof fn lemma_prefix<T>(a: Seq<T>, b: Seq<T>, c: Seq<T>)
    requires
        a.is_prefix_of(b),
        b.is_prefix_of(c),
    ensures
        a.is_prefix_of(c),
        forall|i: int| 0 <= i < b.len() ==> #[trigger] c[i] == b[i],
        forall|i: int| 0 <= i < a.len() ==> #[trigger] c[i] == a[i],
{
    assert forall|i: int| 0 <= i < b.len() implies #[trigger] c[i] == b[i] by {
        assert(b[i] == c.subrange(0, b.len() as int)[i]);
    }
    assert forall|i: int| 0 <= i < a.len() implies #[trigger] c[i] == a[i] by {
        assert(a[i] == b.subrange(0, a.len() as int)[i]);
    }
    assert(a =~= c.subrange(0, a.len() as int));
}

/// Preparation composes with whatever is decided for the leaf in the end.
pub proof fn lemma_prepared<Meta: PagingMetaData, Entry: PageTableEntry>(
    a: TreeView,
    b: TreeView,
    c: TreeView,
    leaf: Placement,
)
    requires
        prepared::<Meta, Entry>(a, b, leaf),
    ensures
        prepared::<Meta, Entry>(b, c, leaf) ==> prepared::<Meta, Entry>(a, c, leaf),
        forall|raw: u64, r: PagingResult| #[trigger]
            placed::<Meta, Entry>(b, c, leaf, raw, r) ==> placed::<Meta, Entry>(a, c, leaf, raw, r),
{
    let one = seq![leaf];
    assert(one[0] == leaf);
    assert(forall|k: int| 0 <= k < one.len() ==> one.contains(#[trigger] one[k]));
    if grown::<Meta>(b, c, one) {
        lemma_grown::<Meta>(a, b, c, one, one, one);
        if additive::<Meta, Entry>(b, c, leaf.vaddr) {
            lemma_additive::<Meta, Entry>(a, b, c, one, leaf.vaddr);
        }
    }
    lemma_steady::<Meta, Entry>(a, b, c);
    if grown::<Meta>(b, c, one) {
        assert forall|end: int|
            supplied_until::<Meta>(b, c, end) implies #[trigger] supplied_until::<Meta>(
            a,
            c,
            end,
        ) by {
            assert forall|i: int| a.log.len() <= i < end implies supplies::<Meta>(
                a,
                c,
                #[trigger] c.log[i],
            ) by {
                if i < b.log.len() {
                    assert(c.log.subrange(0, b.log.len() as int)[i] == b.log[i]);
                    assert(supplies::<Meta>(a, b, b.log[i]));
                }
            }
        }
    }
}

/// The tree depends on the frames of its tables alone.
pub proof fn lemma_unaffected<Meta: PagingMetaData, Entry: PageTableEntry>(
    before: TreeView,
    after: TreeView,
)
    requires
        layout_ok::<Meta>(),
        tree::<Meta, Entry>(before.frames, before.tables, before.root),
        after.root == before.root,
        after.tables == before.tables,
        forall|t: u64| #[trigger]
            before.tables.contains_key(t) ==> after.frames.contains_key(t) && after.frames[t]
                == before.frames[t],
    ensures
        tree::<Meta, Entry>(after.frames, after.tables, after.root),
        unmoved::<Meta, Entry>(before, after),
        forall|w: u64, level: u8| #[trigger]
            hindrance::<Meta, Entry>(after, w, level) == hindrance::<Meta, Entry>(before, w, level),
{
    lemma_foreign_frames::<Meta, Entry>(before.frames, before.tables, before.root, after.frames);
    assert forall|w: u64| #[trigger]
        outcome::<Meta, Entry>(after, w) == outcome::<Meta, Entry>(before, w) by {
        assert(walk::<Meta, Entry>(after.frames, before.root, top::<Meta>(), w) == walk::<
            Meta,
            Entry,
        >(before.frames, before.root, top::<Meta>(), w));
    }
}

/// Frames that an allocator adds or hands back beside the tree do not touch it.
pub proof fn lemma_foreign<Meta: PagingMetaData, Entry: PageTableEntry>(
    before: TreeView,
    after: TreeView,
)
    requires
        layout_ok::<Meta>(),
        tree::<Meta, Entry>(before.frames, before.tables, before.root),
        after.root == before.root,
        after.tables == before.tables,
        before.log.is_prefix_of(after.log),
        kept_throughout(before, after),
        forall|f: u64| #[trigger]
            before.frames.contains_key(f) ==> after.frames.contains_key(f) && after.frames[f]
                == before.frames[f],
    ensures
        tree::<Meta, Entry>(after.frames, after.tables, after.root),
        unmoved::<Meta, Entry>(before, after),
        steady::<Meta, Entry>(before, after),
        forall|leaves: Seq<Placement>| #[trigger] grown::<Meta>(before, after, leaves),
        forall|v: u64| #[trigger] additive::<Meta, Entry>(before, after, v),
        forall|w: u64, level: u8| #[trigger]
            hindrance::<Meta, Entry>(after, w, level) == hindrance::<Meta, Entry>(before, w, level),
{
    assert forall|t: u64| #[trigger] before.tables.contains_key(t) implies after.frames.contains_key(
        t,
    ) && after.frames[t] == before.frames[t] by {
        lemma_table::<Meta, Entry>(before.frames, before.tables, before.root, t);
        assert(before.frames.contains_key(t));
    }
    lemma_unaffected::<Meta, Entry>(before, after);
    lemma_kept_is_steady::<Meta, Entry>(before, after);
}

/// Where the frames of a tree are kept throughout, its translations are steady.
pub proof fn lemma_kept_is_steady<Meta: PagingMetaData, Entry: PageTableEntry>(
    before: TreeView,
    after: TreeView,
)
    requires
        layout_ok::<Meta>(),
        tree::<Meta, Entry>(before.frames, before.tables, before.root),
        kept_throughout(before, after),
    ensures
        steady::<Meta, Entry>(before, after),
{
    assert forall|k: int| before.history.len() <= k < after.history.len() implies shows::<
        Meta,
        Entry,
    >(#[trigger] after.history[k], before) by {
        let mem = after.history[k];
        assert(keeps(before.frames, mem));
        assert forall|t: u64| #[trigger] before.tables.contains_key(t) implies mem.contains_key(t)
            && mem[t] == before.frames[t] by {
            lemma_table::<Meta, Entry>(before.frames, before.tables, before.root, t);
            assert(before.frames.contains_key(t));
        }
        lemma_unaffected::<Meta, Entry>(before, TreeView { frames: mem, ..before });
    }
}

/// Linking a zeroed frame into the tree on the way to `leaf`.
pub proof fn lemma_link<Meta: PagingMetaData, Entry: PageTableEntry, Alloc: FrameAllocator>(
    before: TreeView,
    mid: TreeView,
    current: u64,
    child: u64,
    leaf: Placement,
)
    requires
        layout_ok::<Meta>(),
        formats_ok::<Meta, Entry, Alloc>(),
        tree::<Meta, Entry>(before.frames, before.tables, before.root),
        mid.root == before.root,
        mid.tables == before.tables,
        mid.frames == before.frames.insert(child, zeroed(Meta::TABLE_FRAME_SIZE.len())),
        !before.frames.contains_key(child),
        Alloc::places(child),
        child % Meta::TABLE_FRAME_SIZE.len() == 0,
        kept_throughout(before, mid),
        before.log.is_prefix_of(mid.log),
        mid.log.len() == before.log.len() + 1,
        mid.log.last() matches FrameEvent::Allocated { size, align, granted: Ok(range) } && size
            == Meta::TABLE_FRAME_SIZE.len() && align == Meta::TABLE_FRAME_SIZE && range.lo()
            == child && well_shaped::<Meta>(range),
        on_path::<Meta>(before.tables, current, leaf.vaddr),
        1 <= leaf.level < level_of::<Meta>(before.tables, current),
        !Entry::present(
            before.frames[current][slot_of::<Meta>(
                level_of::<Meta>(before.tables, current),
                leaf.vaddr,
            )],
        ),
    ensures
        ({
            let level = level_of::<Meta>(before.tables, current);
            let slot = slot_of::<Meta>(level, leaf.vaddr);
            let after = TreeView {
                root: mid.root,
                frames: poke(mid.frames, current, slot, Entry::table_raw(child, level)),
                tables: before.tables.insert(child, before.tables[current].push(slot)),
                log: mid.log,
                history: mid.history.push(
                    poke(mid.frames, current, slot, Entry::table_raw(child, level)),
                ),
            };
            &&& Entry::encodable(child)
            &&& mid.frames.contains_key(current)
            &&& slot < mid.frames[current].len()
            &&& tree::<Meta, Entry>(after.frames, after.tables, after.root)
            &&& prepared::<Meta, Entry>(before, after, leaf)
            &&& on_path::<Meta>(after.tables, child, leaf.vaddr)
            &&& level_of::<Meta>(after.tables, child) == level - 1
        }),
{
    let level = level_of::<Meta>(before.tables, current);
    let v = leaf.vaddr;
    let slot = slot_of::<Meta>(level, v);
    let raw = Entry::table_raw(child, level);
    let after = TreeView {
        root: mid.root,
        frames: poke(mid.frames, current, slot, raw),
        tables: before.tables.insert(child, before.tables[current].push(slot)),
        log: mid.log,
        history: mid.history.push(poke(mid.frames, current, slot, raw)),
    };
    lemma_table::<Meta, Entry>(before.frames, before.tables, before.root, current);
    lemma_slot_bound::<Meta>(level, v);
    lemma_foreign::<Meta, Entry>(before, mid);
    Meta::TABLE_FRAME_SIZE.lemma_len();
    assert(!before.tables.contains_key(child)) by {
        if before.tables.contains_key(child) {
            lemma_table::<Meta, Entry>(before.frames, before.tables, before.root, child);
        }
    }
    assert(table_frame::<Meta>(mid.frames, child)) by {
        assert(Alloc::places(child));
    }
    assert forall|j: int| 0 <= j < Meta::ENTRIES_PER_TABLE implies storable::<Entry>(
        #[trigger] mid.frames[child][j],
        (level - 1) as u8,
    ) by {
        assert(mid.frames[child][j] == 0);
    }
    lemma_attach::<Meta, Entry>(mid.frames, mid.tables, mid.root, current, v, raw);
    assert forall|w: u64| #[trigger]
        outcome::<Meta, Entry>(after, w) == outcome::<Meta, Entry>(before, w) by {
        assert(outcome::<Meta, Entry>(mid, w) == outcome::<Meta, Entry>(before, w));
        assert(walk::<Meta, Entry>(after.frames, mid.root, top::<Meta>(), w) == outcome::<
            Meta,
            Entry,
        >(after, w));
        if same_path::<Meta>(v, w, level) {
            lemma_shared_slot::<Meta>(before.tables, current, v, w);
            lemma_slot_bound::<Meta>((level - 1) as u8, w);
            assert(mid.frames[child][slot_of::<Meta>((level - 1) as u8, w)] == 0);
            lemma_walk_via::<Meta, Entry>(
                before.frames,
                before.tables,
                before.root,
                current,
                w,
            );
        }
    }
    assert(hindrance::<Meta, Entry>(before, v, leaf.level) is None) by {
        lemma_obstacle_via::<Meta, Entry>(
            before.frames,
            before.tables,
            before.root,
            current,
            v,
            leaf.level,
        );
    }
    assert(hindrance::<Meta, Entry>(after, v, leaf.level) is None) by {
        lemma_obstacle_via::<Meta, Entry>(
            after.frames,
            after.tables,
            after.root,
            child,
            v,
            leaf.level,
        );
        lemma_slot_bound::<Meta>((level - 1) as u8, v);
        assert(after.frames[child][slot_of::<Meta>((level - 1) as u8, v)] == 0);
    }
    assert(grown::<Meta>(before, after, seq![leaf])) by {
        assert(seq![leaf][0] == leaf);
        assert(leads_to::<Meta>(after.tables, child, seq![leaf]));
        assert(grown::<Meta>(before, mid, seq![leaf]));
        assert forall|f: u64|
            #[trigger] before.frames.contains_key(f) && !before.tables.contains_key(f) implies {
            &&& after.frames.contains_key(f)
            &&& after.frames[f] == before.frames[f]
            &&& !after.tables.contains_key(f)
        } by {
            assert(mid.frames.contains_key(f));
        }
    }
    assert(steady::<Meta, Entry>(before, after)) by {
        assert(after.history.subrange(0, mid.history.len() as int) =~= mid.history);
        lemma_prefix(before.history, mid.history, after.history);
        lemma_shows_self::<Meta, Entry>(after);
        lemma_shows::<Meta, Entry>(after.frames, before, after);
    }
    assert(additive::<Meta, Entry>(before, after, v)) by {
        assert(after.tables[child].last() == slot);
        assert(pointer_to::<Meta, Entry>(after, current, child));
    }
}

/// A view's own memory shows its translations.
pub proof fn lemma_shows_self<Meta: PagingMetaData, Entry: PageTableEntry>(view: TreeView)
    ensures
        shows::<Meta, Entry>(view.frames, view),
{
    assert(TreeView { frames: view.frames, ..view } == view);
}

/// A zeroed root frame is a tree that maps nothing.
pub proof fn lemma_empty_tree<Meta: PagingMetaData, Entry: PageTableEntry, Alloc: FrameAllocator>(
    view: TreeView,
)
    requires
        layout_ok::<Meta>(),
        formats_ok::<Meta, Entry, Alloc>(),
        Alloc::places(view.root),
        view.frames.contains_key(view.root),
        view.frames[view.root] == zeroed(Meta::TABLE_FRAME_SIZE.len()),
        view.tables == Map::<u64, Seq<int>>::empty().insert(view.root, Seq::empty()),
    ensures
        tree::<Meta, Entry>(view.frames, view.tables, view.root),
        forall|w: u64| #[trigger] outcome::<Meta, Entry>(view, w) == Walk::Absent,
{
    reveal(tree);
    Meta::TABLE_FRAME_SIZE.lemma_len();
    assert forall|t: u64, i: int|
        view.tables.contains_key(t) && 0 <= i < Meta::ENTRIES_PER_TABLE implies entry_fits::<
        Meta,
        Entry,
    >(view.tables, t, i, #[trigger] view.frames[t][i]) by {
        assert(view.frames[t][i] == 0);
    }
    assert forall|w: u64| #[trigger] outcome::<Meta, Entry>(view, w) == Walk::Absent by {
        lemma_slot_bound::<Meta>(top::<Meta>(), w);
        assert(view.frames[view.root][slot_of::<Meta>(top::<Meta>(), w)] == 0);
    }
}

/// The flush that makes a change to `range` visible: the pages of the range,
/// or everything where the policy prefers it.
pub open spec fn flushed<V: MemoryAddr, T: TlbInvalidation<V>>(
    tlb: T,
    range: AddrRange<V>,
    page: PageSize,
) -> T {
    let count = (range.len() / page.len()) as u64;
    if tlb.wants_full(count) {
        tlb.after_all()
    } else {
        tlb.after_range(range.start, page, count)
    }
}

/// Nothing is a preparation.
pub proof fn lemma_prepared_self<Meta: PagingMetaData, Entry: PageTableEntry>(
    view: TreeView,
    leaf: Placement,
)
    ensures
        prepared::<Meta, Entry>(view, view, leaf),
{
    assert(view.log =~= view.log.subrange(0, view.log.len() as int));
    assert(view.history =~= view.history.subrange(0, view.history.len() as int));
}

/// Whether the leaf that new flags encode is one, and points where the old one
/// did.
pub open spec fn protectable<Meta: PagingMetaData, Entry: PageTableEntry>(
    view: TreeView,
    range: AddrRange<Meta::VirtAddr>,
    flags: Entry::Flags,
) -> bool {
    match located::<Meta, Entry>(view, range) {
        Ok(leaf) => storable::<Entry>(
            Entry::leaf_raw(Entry::target(leaf.raw), flags, leaf.size),
            leaf.level,
        ),
        Err(_) => true,
    }
}

/// What replacing the flags of the leaf at `range` does.
pub open spec fn protected<Meta: PagingMetaData, Entry: PageTableEntry>(
    before: TreeView,
    after: TreeView,
    range: AddrRange<Meta::VirtAddr>,
    flags: Entry::Flags,
    r: PagingResult<Mapping<Entry, Meta::VirtAddr>>,
) -> bool {
    match located::<Meta, Entry>(before, range) {
        Err(e) => fails_with(r, e) && after == before,
        Ok(leaf) => {
            &&& yields(r, range, PhysAddr(Entry::target(leaf.raw)), flags)
            &&& rewritten::<Meta, Entry>(
                before,
                after,
                range.lo(),
                leaf.level,
                Entry::leaf_raw(Entry::target(leaf.raw), flags, leaf.size),
            )
        },
    }
}

/// Whether the leaf that a replacement encodes is one: a format may have flag
/// combinations whose encoding reads as a table pointer.
pub open spec fn remappable<Meta: PagingMetaData, Entry: PageTableEntry>(
    view: TreeView,
    range: AddrRange<Meta::VirtAddr>,
    paddr: PhysAddr,
    flags: Entry::Flags,
) -> bool {
    match located::<Meta, Entry>(view, range) {
        Ok(leaf) => fits_bits(paddr.0, Meta::PA_MAX_BITS) && paddr.0 % leaf.size.len() == 0
            ==> storable::<Entry>(Entry::leaf_raw(paddr.0, flags, leaf.size), leaf.level),
        Err(_) => true,
    }
}

/// What replacing the address and flags of the leaf at `range` does.
pub open spec fn remapped<Meta: PagingMetaData, Entry: PageTableEntry>(
    before: TreeView,
    after: TreeView,
    range: AddrRange<Meta::VirtAddr>,
    paddr: PhysAddr,
    flags: Entry::Flags,
    r: PagingResult<Mapping<Entry, Meta::VirtAddr>>,
) -> bool {
    if !fits_bits(paddr.0, Meta::PA_MAX_BITS) {
        fails_with(r, PagingError::AddressOutOfRange) && after == before
    } else {
        match located::<Meta, Entry>(before, range) {
            Err(e) => fails_with(r, e) && after == before,
            Ok(leaf) => if paddr.0 % leaf.size.len() != 0 {
                fails_with(r, PagingError::NotAligned) && after == before
            } else {
                &&& yields(r, range, paddr, flags)
                &&& rewritten::<Meta, Entry>(
                    before,
                    after,
                    range.lo(),
                    leaf.level,
                    Entry::leaf_raw(paddr.0, flags, leaf.size),
                )
            },
        }
    }
}

/// The physical range of the table frame `t`.
pub open spec fn frame_range<Meta: PagingMetaData>(t: u64) -> PhysAddrRange {
    AddrRange { start: PhysAddr(t), end: PhysAddr((t + Meta::TABLE_FRAME_SIZE.len()) as u64) }
}

/// Whether a table has no present entry, but perhaps in the slot `i`.
pub open spec fn vacant_but<Meta: PagingMetaData, Entry: PageTableEntry>(
    frames: Map<u64, Seq<u64>>,
    t: u64,
    i: int,
) -> bool {
    forall|j: int|
        0 <= j < Meta::ENTRIES_PER_TABLE && j != i ==> !Entry::present(#[trigger] frames[t][j])
}

/// Whether a table has no present entry.
pub open spec fn vacant<Meta: PagingMetaData, Entry: PageTableEntry>(
    frames: Map<u64, Seq<u64>>,
    t: u64,
) -> bool {
    vacant_but::<Meta, Entry>(frames, t, -1)
}

/// Whether the addresses that share the path of `vaddr` down to `level` lost
/// their translation, and no others did.
pub open spec fn vanished<Meta: PagingMetaData, Entry: PageTableEntry>(
    before: TreeView,
    after: TreeView,
    vaddr: u64,
    level: u8,
) -> bool {
    forall|w: u64| #[trigger]
        outcome::<Meta, Entry>(after, w) == if same_path::<Meta>(vaddr, w, level) {
            Walk::Absent
        } else {
            outcome::<Meta, Entry>(before, w)
        }
}

/// Whether `event` releases the table on the path of `vaddr` at `level`, with
/// the answer `released`.
pub open spec fn releases<Meta: PagingMetaData>(
    event: FrameEvent,
    tables: Map<u64, Seq<int>>,
    vaddr: u64,
    level: int,
    released: PagingResult,
) -> bool {
    exists|t: u64|
        event == (FrameEvent::Deallocated { range: frame_range::<Meta>(t), released })
            && #[trigger] on_path::<Meta>(tables, t, vaddr) && level_of::<Meta>(tables, t) == level
}

/// Whether the tables on the path of `vaddr` from level `low` up to, but not
/// including, `high` were released in that order: each held nothing but what
/// leads to `vaddr`, and each release succeeded but for the last, whose answer
/// is `r`. In the table at `high` the slot of `vaddr` was zeroed; no other
/// word of the tables that are left changed.
pub open spec fn pruned<Meta: PagingMetaData, Entry: PageTableEntry>(
    before: TreeView,
    after: TreeView,
    vaddr: u64,
    low: u8,
    high: u8,
    r: PagingResult,
) -> bool {
    &&& low <= high <= Meta::LEVELS
    &&& after.root == before.root
    &&& bystanders_kept(before, after)
    &&& forall|t: u64| #[trigger]
        after.tables.contains_key(t) <==> before.tables.contains_key(t) && !(on_path::<Meta>(
            before.tables,
            t,
            vaddr,
        ) && level_of::<Meta>(before.tables, t) < high)
    &&& forall|t: u64| #[trigger]
        after.tables.contains_key(t) ==> after.tables[t] == before.tables[t]
    &&& forall|t: u64| #[trigger]
        before.tables.contains_key(t) && !after.tables.contains_key(t) ==> {
            &&& vacant_but::<Meta, Entry>(
                before.frames,
                t,
                slot_of::<Meta>(level_of::<Meta>(before.tables, t), vaddr),
            )
            &&& r is Ok ==> !after.frames.contains_key(t)
        }
    &&& forall|t: u64, j: int|
        after.tables.contains_key(t) && 0 <= j < Meta::ENTRIES_PER_TABLE && !(table_at::<Meta>(
            after.tables,
            t,
            vaddr,
            high,
        ) && j == slot_of::<Meta>(high, vaddr)) ==> #[trigger] after.frames[t][j]
            == before.frames[t][j]
    &&& forall|t: u64| #[trigger]
        table_at::<Meta>(after.tables, t, vaddr, high) ==> {
            let raw = after.frames[t][slot_of::<Meta>(high, vaddr)];
            raw == 0 && !Entry::present(raw)
        }
    &&& before.log.is_prefix_of(after.log)
    &&& after.log.len() == before.log.len() + (high - low)
    &&& forall|j: int|
        before.log.len() <= j < after.log.len() ==> releases::<Meta>(
            #[trigger] after.log[j],
            before.tables,
            vaddr,
            low + (j - before.log.len()),
            if j == after.log.len() - 1 {
                r
            } else {
                Ok(())
            },
        )
    &&& r is Err ==> low < high
}

/// Whether the lowest table left on the path of `vaddr`, at `high`, is the
/// root or still in use.
pub open spec fn tight<Meta: PagingMetaData, Entry: PageTableEntry>(
    view: TreeView,
    vaddr: u64,
    high: u8,
) -> bool {
    high == Meta::LEVELS || exists|t: u64| #[trigger]
        on_path::<Meta>(view.tables, t, vaddr) && level_of::<Meta>(view.tables, t) == high
            && !vacant::<Meta, Entry>(view.frames, t)
}

/// A result without its value.
pub open spec fn status<T>(r: PagingResult<T>) -> PagingResult {
    match r {
        Ok(_) => Ok(()),
        Err(e) => Err(e),
    }
}

/// What removing the leaf at `range` does: it loses its translation, and the
/// tables that this leaves empty are released. The answer of a release that
/// fails is passed on.
pub open spec fn unmapped<Meta: PagingMetaData, Entry: PageTableEntry>(
    before: TreeView,
    after: TreeView,
    range: AddrRange<Meta::VirtAddr>,
    r: PagingResult<Mapping<Entry, Meta::VirtAddr>>,
) -> bool {
    match located::<Meta, Entry>(before, range) {
        Err(e) => fails_with(r, e) && after == before,
        Ok(leaf) => {
            &&& vanished::<Meta, Entry>(before, after, range.lo(), leaf.level)
            &&& seamless::<Meta, Entry>(before, after)
            &&& exists|high: u8|
                {
                    &&& #[trigger] pruned::<Meta, Entry>(
                        before,
                        after,
                        range.lo(),
                        leaf.level,
                        high,
                        status(r),
                    )
                    &&& r is Ok ==> tight::<Meta, Entry>(after, range.lo(), high)
                }
            &&& r is Ok ==> yields(
                r,
                range,
                PhysAddr(Entry::target(leaf.raw)),
                Entry::flags_of(leaf.raw),
            )
        },
    }
}

/// Whether the first `depth` of `parents` are the topmost tables on the path
/// of `vaddr`, root first, each with the slot that `vaddr` selects there.
pub open spec fn stacked<Meta: PagingMetaData>(
    tables: Map<u64, Seq<int>>,
    parents: Seq<(PhysAddr, usize)>,
    depth: int,
    vaddr: u64,
) -> bool {
    &&& parents.len() == MAX_LEVELS
    &&& forall|d: int|
        0 <= d < depth ==> {
            let t = (#[trigger] parents[d]).0.0;
            &&& on_path::<Meta>(tables, t, vaddr)
            &&& level_of::<Meta>(tables, t) == Meta::LEVELS - d
            &&& parents[d].1 == slot_of::<Meta>((Meta::LEVELS - d) as u8, vaddr)
        }
}

/// The state of pruning: everything below `child` is released, and `child`
/// itself differs from what it was in the slot of `vaddr` alone, which is no
/// longer present.
pub open spec fn pruning<Meta: PagingMetaData, Entry: PageTableEntry>(
    before: TreeView,
    mid: TreeView,
    vaddr: u64,
    low: u8,
    child: u64,
) -> bool {
    let level = level_of::<Meta>(mid.tables, child);
    let slot = slot_of::<Meta>(level, vaddr);
    &&& pruned::<Meta, Entry>(before, mid, vaddr, low, level, Ok(()))
    &&& vanished::<Meta, Entry>(before, mid, vaddr, low)
    &&& switches::<Meta, Entry>(before, mid, before.history.len() as int)
    &&& on_path::<Meta>(mid.tables, child, vaddr)
    &&& mid.frames[child][slot] == 0
    &&& !Entry::present(mid.frames[child][slot])
    &&& forall|j: int|
        0 <= j < Meta::ENTRIES_PER_TABLE && j != slot ==> #[trigger] mid.frames[child][j]
            == before.frames[child][j]
    &&& forall|t: u64| #[trigger]
        mid.tables.contains_key(t) && t != child ==> mid.frames[t] == before.frames[t]
}

/// Pruning begins where a leaf was cleared.
pub proof fn lemma_prune_start<Meta: PagingMetaData, Entry: PageTableEntry>(
    before: TreeView,
    mid: TreeView,
    vaddr: u64,
    t: u64,
)
    requires
        !Entry::present(0),
        layout_ok::<Meta>(),
        tree::<Meta, Entry>(before.frames, before.tables, before.root),
        on_path::<Meta>(before.tables, t, vaddr),
        ({
            let level = level_of::<Meta>(before.tables, t);
            let slot = slot_of::<Meta>(level, vaddr);
            &&& !tableish::<Entry>(before.frames[t][slot], level)
            &&& mid.frames == poke(before.frames, t, slot, 0)
            &&& rewritten::<Meta, Entry>(before, mid, vaddr, level, 0)
            &&& mid.history == before.history.push(mid.frames)
        }),
    ensures
        pruning::<Meta, Entry>(before, mid, vaddr, level_of::<Meta>(before.tables, t), t),
{
    let level = level_of::<Meta>(before.tables, t);
    lemma_table::<Meta, Entry>(before.frames, before.tables, before.root, t);
    lemma_slot_bound::<Meta>(level, vaddr);
    assert forall|x: u64| on_path::<Meta>(before.tables, x, vaddr) implies level_of::<Meta>(
        before.tables,
        x,
    ) >= level by {
        lemma_path_end::<Meta, Entry>(before.frames, before.tables, before.root, t, x, vaddr);
    }
    assert forall|x: u64| table_at::<Meta>(mid.tables, x, vaddr, level) implies x == t by {
        lemma_path_level::<Meta, Entry>(
            before.frames,
            before.tables,
            before.root,
            x,
            t,
            vaddr,
        );
    }
    assert(before.log =~= mid.log.subrange(0, before.log.len() as int));
    assert(before.history =~= mid.history.subrange(0, before.history.len() as int));
    lemma_shows_self::<Meta, Entry>(mid);
}

/// Releasing an empty table and clearing its parent's pointer to it.
pub proof fn lemma_prune_step<Meta: PagingMetaData, Entry: PageTableEntry>(
    before: TreeView,
    mid: TreeView,
    cut: TreeView,
    after: TreeView,
    vaddr: u64,
    low: u8,
    child: u64,
    parent: u64,
    released: PagingResult,
)
    requires
        !Entry::present(0),
        layout_ok::<Meta>(),
        tree::<Meta, Entry>(before.frames, before.tables, before.root),
        tree::<Meta, Entry>(mid.frames, mid.tables, mid.root),
        pruning::<Meta, Entry>(before, mid, vaddr, low, child),
        vacant::<Meta, Entry>(mid.frames, child),
        on_path::<Meta>(mid.tables, parent, vaddr),
        level_of::<Meta>(mid.tables, parent) == level_of::<Meta>(mid.tables, child) + 1,
        cut.root == mid.root,
        cut.frames == poke(
            mid.frames,
            parent,
            slot_of::<Meta>(level_of::<Meta>(mid.tables, parent), vaddr),
            0,
        ),
        cut.tables == mid.tables.remove(child),
        cut.log == mid.log,
        cut.history == mid.history.push(cut.frames),
        after.root == mid.root,
        after.frames == if released is Ok {
            cut.frames.remove(child)
        } else {
            cut.frames
        },
        after.tables == cut.tables,
        after.history == cut.history.push(after.frames),
        after.log == mid.log.push(
            FrameEvent::Deallocated { range: frame_range::<Meta>(child), released },
        ),
    ensures
        tree::<Meta, Entry>(after.frames, after.tables, after.root),
        vanished::<Meta, Entry>(before, after, vaddr, low),
        switches::<Meta, Entry>(before, after, before.history.len() as int),
        pruned::<Meta, Entry>(
            before,
            after,
            vaddr,
            low,
            level_of::<Meta>(mid.tables, parent),
            released,
        ),
        level_of::<Meta>(after.tables, parent) == level_of::<Meta>(mid.tables, parent),
        released is Ok ==> pruning::<Meta, Entry>(before, after, vaddr, low, parent),
{
    let level = level_of::<Meta>(mid.tables, parent);
    let slot = slot_of::<Meta>(level, vaddr);
    lemma_table::<Meta, Entry>(mid.frames, mid.tables, mid.root, parent);
    lemma_table::<Meta, Entry>(mid.frames, mid.tables, mid.root, child);
    lemma_parent::<Meta, Entry>(mid.frames, mid.tables, mid.root, parent, child, vaddr);
    lemma_slot_bound::<Meta>(level, vaddr);
    assert forall|j: int| 0 <= j < Meta::ENTRIES_PER_TABLE implies !tableish::<Entry>(
        #[trigger] mid.frames[child][j],
        (level - 1) as u8,
    ) by {}
    lemma_detach::<Meta, Entry>(mid.frames, mid.tables, mid.root, parent, vaddr, 0);
    assert forall|w: u64| #[trigger]
        outcome::<Meta, Entry>(cut, w) == outcome::<Meta, Entry>(mid, w) by {
        assert(walk::<Meta, Entry>(cut.frames, mid.root, top::<Meta>(), w) == outcome::<
            Meta,
            Entry,
        >(cut, w));
        if same_path::<Meta>(vaddr, w, level) {
            lemma_shared_slot::<Meta>(mid.tables, parent, vaddr, w);
            lemma_descend::<Meta, Entry>(mid.frames, mid.tables, mid.root, parent, w);
            lemma_walk_via::<Meta, Entry>(mid.frames, mid.tables, mid.root, child, w);
            lemma_slot_bound::<Meta>((level - 1) as u8, w);
            assert(!Entry::present(
                mid.frames[child][slot_of::<Meta>((level - 1) as u8, w)],
            ));
        }
    }
    assert forall|t: u64| #[trigger] cut.tables.contains_key(t) implies after.frames.contains_key(t)
        && after.frames[t] == cut.frames[t] by {
        lemma_table::<Meta, Entry>(cut.frames, cut.tables, cut.root, t);
    }
    lemma_unaffected::<Meta, Entry>(cut, after);
    assert(vanished::<Meta, Entry>(before, after, vaddr, low)) by {
        assert forall|w: u64| #[trigger]
            outcome::<Meta, Entry>(after, w) == if same_path::<Meta>(vaddr, w, low) {
                Walk::Absent
            } else {
                outcome::<Meta, Entry>(before, w)
            } by {
            assert(outcome::<Meta, Entry>(after, w) == outcome::<Meta, Entry>(cut, w));
            assert(outcome::<Meta, Entry>(cut, w) == outcome::<Meta, Entry>(mid, w));
        }
    }
    assert(switches::<Meta, Entry>(before, after, before.history.len() as int)) by {
        assert(mid.history =~= after.history.subrange(0, mid.history.len() as int));
        lemma_prefix(before.history, mid.history, after.history);
        assert forall|w: u64| #[trigger]
            outcome::<Meta, Entry>(mid, w) == outcome::<Meta, Entry>(after, w) by {
            assert(outcome::<Meta, Entry>(after, w) == outcome::<Meta, Entry>(cut, w));
            assert(outcome::<Meta, Entry>(cut, w) == outcome::<Meta, Entry>(mid, w));
        }
        lemma_shows_self::<Meta, Entry>(cut);
        lemma_shows::<Meta, Entry>(cut.frames, after, cut);
        lemma_shows_self::<Meta, Entry>(after);
        assert forall|k: int| before.history.len() <= k < after.history.len() implies shows::<
            Meta,
            Entry,
        >(#[trigger] after.history[k], after) by {
            if k < mid.history.len() {
                assert(after.history[k] == mid.history[k]);
                lemma_shows::<Meta, Entry>(mid.history[k], after, mid);
            }
        }
    }
    assert(after.frames[parent][slot] == 0);
    assert forall|t: u64| #[trigger]
        after.tables.contains_key(t) <==> before.tables.contains_key(t) && !(on_path::<Meta>(
            before.tables,
            t,
            vaddr,
        ) && level_of::<Meta>(before.tables, t) < level) by {
        if t == child {
            assert(before.tables.contains_key(t));
        } else if before.tables.contains_key(t) && on_path::<Meta>(before.tables, t, vaddr)
            && level_of::<Meta>(before.tables, t) == level - 1 {
            assert(mid.tables.contains_key(child));
            lemma_path_level::<Meta, Entry>(
                before.frames,
                before.tables,
                before.root,
                t,
                child,
                vaddr,
            );
        }
    }
    assert forall|t: u64| #[trigger]
        before.tables.contains_key(t) && !after.tables.contains_key(t) implies {
        &&& vacant_but::<Meta, Entry>(
            before.frames,
            t,
            slot_of::<Meta>(level_of::<Meta>(before.tables, t), vaddr),
        )
        &&& released is Ok ==> !after.frames.contains_key(t)
    } by {
        if t == child {
            let own = slot_of::<Meta>(level_of::<Meta>(before.tables, t), vaddr);
            assert forall|j: int| 0 <= j < Meta::ENTRIES_PER_TABLE && j != own implies
                !Entry::present(#[trigger] before.frames[t][j]) by {
                assert(mid.frames[child][j] == before.frames[child][j]);
            }
        } else {
            assert(!mid.tables.contains_key(t));
            assert(t != parent);
        }
    }
    assert(before.log =~= after.log.subrange(0, before.log.len() as int)) by {
        assert forall|i: int| 0 <= i < before.log.len() implies before.log[i] == after.log[i] by {
            assert(before.log[i] == mid.log.subrange(0, before.log.len() as int)[i]);
        }
    }
    assert forall|j: int| before.log.len() <= j < after.log.len() implies releases::<Meta>(
        #[trigger] after.log[j],
        before.tables,
        vaddr,
        low + (j - before.log.len()),
        if j == after.log.len() - 1 {
            released
        } else {
            Ok(())
        },
    ) by {
        if j < mid.log.len() {
            assert(after.log[j] == mid.log[j]);
        } else {
            assert(on_path::<Meta>(before.tables, child, vaddr));
        }
    }
    assert forall|f: u64|
        #[trigger] before.frames.contains_key(f) && !before.tables.contains_key(f) implies {
        &&& after.frames.contains_key(f)
        &&& after.frames[f] == before.frames[f]
        &&& !after.tables.contains_key(f)
    } by {
        assert(mid.frames.contains_key(f));
    }
    assert forall|x: u64| table_at::<Meta>(after.tables, x, vaddr, level) implies x == parent by {
        lemma_path_level::<Meta, Entry>(mid.frames, mid.tables, mid.root, x, parent, vaddr);
    }
    assert(after.tables.contains_key(parent) && parent != child);
    assert forall|t: u64, j: int|
        after.tables.contains_key(t) && 0 <= j < Meta::ENTRIES_PER_TABLE && !(table_at::<Meta>(
            after.tables,
            t,
            vaddr,
            level,
        ) && j == slot) implies #[trigger] after.frames[t][j] == before.frames[t][j] by {
        assert(mid.tables.contains_key(t) && t != child);
        lemma_table::<Meta, Entry>(mid.frames, mid.tables, mid.root, t);
        assert(mid.frames[t] == before.frames[t]);
        if t == parent {
            assert(table_at::<Meta>(after.tables, t, vaddr, level));
        }
    }
    if released is Ok {
        assert(released->Ok_0 == ());
        assert(released == Ok::<(), PagingError>(()));
        assert(parent != child);
        assert forall|t: u64| #[trigger]
            after.tables.contains_key(t) && t != parent implies after.frames[t]
            == before.frames[t] by {
            assert(mid.tables.contains_key(t));
        }
        assert(mid.frames[parent] == before.frames[parent]) by {
            assert(mid.tables.contains_key(parent));
        }
    }
}

/// The leaf that splitting `range` replaces and the size of its parts.
pub open spec fn split_leaf<Meta: PagingMetaData, Entry: PageTableEntry>(
    view: TreeView,
    range: AddrRange<Meta::VirtAddr>,
) -> PagingResult<(LeafWord, PageSize)> {
    if Meta::in_range(range.lo()) && is_leaf_level::<Meta, Entry>(view, range.lo(), 1) {
        Err(PagingError::NotMapped)
    } else {
        match located::<Meta, Entry>(view, range) {
            Err(e) => Err(e),
            Ok(leaf) => match PageSize::of_shift(Meta::shift((leaf.level - 1) as u8)) {
                None => Err(PagingError::UnsupportedSize),
                Some(finer) => Ok((leaf, finer)),
            },
        }
    }
}

/// The physical address of the `i`-th part of a leaf.
pub open spec fn part<Entry: PageTableEntry>(leaf: LeafWord, finer: PageSize, i: int) -> int {
    Entry::target(leaf.raw) + i * finer.len()
}

/// The word of the `i`-th part of a leaf.
pub open spec fn part_raw<Entry: PageTableEntry>(leaf: LeafWord, finer: PageSize, i: int) -> u64 {
    Entry::leaf_raw(part::<Entry>(leaf, finer, i) as u64, Entry::flags_of(leaf.raw), finer)
}

/// Whether every part of a leaf is a leaf that can be encoded.
pub open spec fn divisible<Meta: PagingMetaData, Entry: PageTableEntry>(
    leaf: LeafWord,
    finer: PageSize,
) -> bool {
    forall|i: int|
        0 <= i < Meta::ENTRIES_PER_TABLE ==> {
            &&& #[trigger] part::<Entry>(leaf, finer, i) <= u64::MAX
            &&& Entry::encodable(part::<Entry>(leaf, finer, i) as u64)
            &&& storable::<Entry>(part_raw::<Entry>(leaf, finer, i), (leaf.level - 1) as u8)
        }
}

/// Whether the leaf at `range`, if it can be split, has encodable parts.
pub open spec fn splittable<Meta: PagingMetaData, Entry: PageTableEntry>(
    view: TreeView,
    range: AddrRange<Meta::VirtAddr>,
) -> bool {
    match split_leaf::<Meta, Entry>(view, range) {
        Ok((leaf, finer)) => divisible::<Meta, Entry>(leaf, finer),
        Err(_) => true,
    }
}

/// Whether the addresses that share the path of `vaddr` down to the level of
/// `leaf` are now mapped by its parts, each by the one that its slot selects,
/// and no other translation changed.
pub open spec fn divided<Meta: PagingMetaData, Entry: PageTableEntry>(
    before: TreeView,
    after: TreeView,
    vaddr: u64,
    leaf: LeafWord,
    finer: PageSize,
) -> bool {
    let below = (leaf.level - 1) as u8;
    forall|w: u64| #[trigger]
        outcome::<Meta, Entry>(after, w) == if same_path::<Meta>(vaddr, w, leaf.level) {
            ending::<Entry>(
                part_raw::<Entry>(leaf, finer, slot_of::<Meta>(below, w)),
                below,
            )
        } else {
            outcome::<Meta, Entry>(before, w)
        }
}

/// Whether the table below the place of `leaf` on the path of `vaddr` holds
/// its parts.
pub open spec fn parts_stored<Meta: PagingMetaData, Entry: PageTableEntry>(
    view: TreeView,
    vaddr: u64,
    leaf: LeafWord,
    finer: PageSize,
) -> bool {
    exists|t: u64|
        {
            &&& #[trigger] table_at::<Meta>(view.tables, t, vaddr, (leaf.level - 1) as u8)
            &&& forall|j: int|
                0 <= j < Meta::ENTRIES_PER_TABLE ==> #[trigger] view.frames[t][j] == part_raw::<
                    Entry,
                >(leaf, finer, j)
        }
}

/// Whether a new table was linked in at `level` on the path of `vaddr` by
/// writing one word of the memory that there was.
pub open spec fn linked<Meta: PagingMetaData, Entry: PageTableEntry>(
    before: TreeView,
    after: TreeView,
    vaddr: u64,
    level: u8,
) -> bool {
    exists|child: u64|
        {
            &&& !before.frames.contains_key(child)
            &&& #[trigger] table_at::<Meta>(after.tables, child, vaddr, (level - 1) as u8)
            &&& after.tables.remove(child) == before.tables
            &&& after.frames.contains_key(child)
            &&& one_word::<Meta>(
                before,
                after.frames.remove(child),
                vaddr,
                level,
                Entry::table_raw(child, level),
            )
        }
}

/// What splitting the leaf at `range` does.
pub open spec fn split<Meta: PagingMetaData, Entry: PageTableEntry>(
    before: TreeView,
    after: TreeView,
    range: AddrRange<Meta::VirtAddr>,
    r: PagingResult<PageSize>,
) -> bool {
    match split_leaf::<Meta, Entry>(before, range) {
        Err(e) => fails_with(r, e) && after == before,
        Ok((leaf, finer)) => {
            let below = Placement {
                vaddr: range.lo(),
                paddr: Entry::target(leaf.raw),
                size: finer,
                level: (leaf.level - 1) as u8,
            };
            match r {
                Ok(size) => {
                    &&& size == finer
                    &&& grown::<Meta>(before, after, seq![below])
                    &&& supplied::<Meta>(before, after)
                    &&& after.log.len() == before.log.len() + 1
                    &&& divided::<Meta, Entry>(before, after, range.lo(), leaf, finer)
                    &&& parts_stored::<Meta, Entry>(after, range.lo(), leaf, finer)
                    &&& linked::<Meta, Entry>(before, after, range.lo(), leaf.level)
                    &&& seamless::<Meta, Entry>(before, after)
                },
                Err(e) => {
                    &&& declined::<Meta>(before.log, after.log, e)
                    &&& grown::<Meta>(before, after, Seq::empty())
                    &&& memory_kept(before, after)
                    &&& steady::<Meta, Entry>(before, after)
                    &&& unmoved::<Meta, Entry>(before, after)
                },
            }
        },
    }
}

/// Linking a table of parts in place of the leaf they make up.
pub proof fn lemma_split<Meta: PagingMetaData, Entry: PageTableEntry, Alloc: FrameAllocator>(
    before: TreeView,
    mid: TreeView,
    current: u64,
    child: u64,
    vaddr: u64,
    leaf: LeafWord,
    finer: PageSize,
)
    requires
        layout_ok::<Meta>(),
        formats_ok::<Meta, Entry, Alloc>(),
        tree::<Meta, Entry>(before.frames, before.tables, before.root),
        mid.root == before.root,
        mid.tables == before.tables,
        !before.frames.contains_key(child),
        mid.frames.contains_key(child),
        mid.frames[child].len() >= Meta::ENTRIES_PER_TABLE,
        forall|f: u64| #[trigger]
            before.frames.contains_key(f) ==> mid.frames.contains_key(f) && mid.frames[f]
                == before.frames[f],
        forall|j: int|
            0 <= j < Meta::ENTRIES_PER_TABLE ==> #[trigger] mid.frames[child][j] == part_raw::<
                Entry,
            >(leaf, finer, j),
        Alloc::places(child),
        child % Meta::TABLE_FRAME_SIZE.len() == 0,
        kept_throughout(before, mid),
        before.log.is_prefix_of(mid.log),
        mid.log.len() == before.log.len() + 1,
        mid.log.last() matches FrameEvent::Allocated { size, align, granted: Ok(range) } && size
            == Meta::TABLE_FRAME_SIZE.len() && align == Meta::TABLE_FRAME_SIZE && range.lo()
            == child && well_shaped::<Meta>(range),
        on_path::<Meta>(before.tables, current, vaddr),
        leaf.level == level_of::<Meta>(before.tables, current),
        leaf.level > 1,
        divisible::<Meta, Entry>(leaf, finer),
        !tableish::<Entry>(
            before.frames[current][slot_of::<Meta>(leaf.level, vaddr)],
            leaf.level,
        ),
    ensures
        ({
            let slot = slot_of::<Meta>(leaf.level, vaddr);
            let after = TreeView {
                root: mid.root,
                frames: poke(mid.frames, current, slot, Entry::table_raw(child, leaf.level)),
                tables: before.tables.insert(child, before.tables[current].push(slot)),
                log: mid.log,
                history: mid.history.push(
                    poke(mid.frames, current, slot, Entry::table_raw(child, leaf.level)),
                ),
            };
            let below = Placement {
                vaddr,
                paddr: Entry::target(leaf.raw),
                size: finer,
                level: (leaf.level - 1) as u8,
            };
            &&& Entry::encodable(child)
            &&& mid.frames.contains_key(current)
            &&& slot < mid.frames[current].len()
            &&& tree::<Meta, Entry>(after.frames, after.tables, after.root)
            &&& grown::<Meta>(before, after, seq![below])
            &&& supplied::<Meta>(before, after)
            &&& divided::<Meta, Entry>(before, after, vaddr, leaf, finer)
            &&& parts_stored::<Meta, Entry>(after, vaddr, leaf, finer)
            &&& seamless::<Meta, Entry>(before, after)
        }),
{
    let level = leaf.level;
    let slot = slot_of::<Meta>(level, vaddr);
    let raw = Entry::table_raw(child, level);
    let after = TreeView {
        root: mid.root,
        frames: poke(mid.frames, current, slot, raw),
        tables: before.tables.insert(child, before.tables[current].push(slot)),
        log: mid.log,
        history: mid.history.push(poke(mid.frames, current, slot, raw)),
    };
    let below = Placement {
        vaddr,
        paddr: Entry::target(leaf.raw),
        size: finer,
        level: (level - 1) as u8,
    };
    lemma_table::<Meta, Entry>(before.frames, before.tables, before.root, current);
    lemma_slot_bound::<Meta>(level, vaddr);
    lemma_foreign::<Meta, Entry>(before, mid);
    assert(mid.frames.contains_key(current) && mid.frames[current] == before.frames[current]) by {
        assert(before.frames.contains_key(current));
    }
    assert(!before.tables.contains_key(child)) by {
        if before.tables.contains_key(child) {
            lemma_table::<Meta, Entry>(before.frames, before.tables, before.root, child);
        }
    }
    assert(table_frame::<Meta>(mid.frames, child)) by {
        assert(Alloc::places(child));
    }
    assert forall|j: int| 0 <= j < Meta::ENTRIES_PER_TABLE implies storable::<Entry>(
        #[trigger] mid.frames[child][j],
        (level - 1) as u8,
    ) by {
        assert(part::<Entry>(leaf, finer, j) <= u64::MAX);
    }
    lemma_attach::<Meta, Entry>(mid.frames, mid.tables, mid.root, current, vaddr, raw);
    assert(table_at::<Meta>(after.tables, child, vaddr, (level - 1) as u8));
    assert(current != child);
    assert forall|w: u64| #[trigger]
        outcome::<Meta, Entry>(after, w) == if same_path::<Meta>(vaddr, w, level) {
            ending::<Entry>(
                part_raw::<Entry>(leaf, finer, slot_of::<Meta>((level - 1) as u8, w)),
                (level - 1) as u8,
            )
        } else {
            outcome::<Meta, Entry>(before, w)
        } by {
        assert(outcome::<Meta, Entry>(mid, w) == outcome::<Meta, Entry>(before, w));
        assert(walk::<Meta, Entry>(after.frames, mid.root, top::<Meta>(), w) == outcome::<
            Meta,
            Entry,
        >(after, w));
        lemma_slot_bound::<Meta>((level - 1) as u8, w);
    }
    assert(grown::<Meta>(before, after, seq![below])) by {
        assert(seq![below][0] == below);
        assert(leads_to::<Meta>(after.tables, child, seq![below]));
        assert(grown::<Meta>(before, mid, seq![below]));
        assert forall|f: u64|
            #[trigger] before.frames.contains_key(f) && !before.tables.contains_key(f) implies {
            &&& after.frames.contains_key(f)
            &&& after.frames[f] == before.frames[f]
            &&& !after.tables.contains_key(f)
        } by {
            assert(mid.frames.contains_key(f));
        }
    }
    assert(switches::<Meta, Entry>(before, after, mid.history.len() as int)) by {
        assert(mid.history =~= after.history.subrange(0, mid.history.len() as int));
        lemma_prefix(before.history, mid.history, after.history);
        lemma_shows_self::<Meta, Entry>(after);
        assert forall|k: int|
            before.history.len() <= k < after.history.len() implies shows::<Meta, Entry>(
            #[trigger] after.history[k],
            if k < mid.history.len() {
                before
            } else {
                after
            },
        ) by {
            if k < mid.history.len() {
                assert(after.history[k] == mid.history[k]);
            }
        }
    }
}

/// The size and level of the leaf that merging `range` makes.
pub open spec fn merge_goal<Meta: PagingMetaData>(
    range: AddrRange<Meta::VirtAddr>,
) -> PagingResult<(PageSize, u8)> {
    match named_leaf::<Meta>(range) {
        Err(PagingError::NotAligned) => Err(PagingError::NotCoalescable),
        Err(e) => Err(e),
        Ok(size) => match level_for::<Meta>(size) {
            None => Err(PagingError::UnsupportedSize),
            Some(level) => if level <= 1 {
                Err(PagingError::NotCoalescable)
            } else {
                Ok((size, level))
            },
        },
    }
}

/// Whether `t` is the table on the path of `vaddr` at `level`.
pub open spec fn table_at<Meta: PagingMetaData>(
    tables: Map<u64, Seq<int>>,
    t: u64,
    vaddr: u64,
    level: u8,
) -> bool {
    on_path::<Meta>(tables, t, vaddr) && level_of::<Meta>(tables, t) == level
}

/// Whether all entries of the table `t` at `level` are leaves of size `finer`
/// with the same flags that map one physical extent, aligned to `size`, in
/// order.
pub open spec fn uniform<Meta: PagingMetaData, Entry: PageTableEntry>(
    frames: Map<u64, Seq<u64>>,
    t: u64,
    level: u8,
    size: PageSize,
    finer: PageSize,
) -> bool {
    let first = frames[t][0];
    &&& Entry::target(first) % size.len() == 0
    &&& forall|i: int|
        0 <= i < Meta::ENTRIES_PER_TABLE ==> {
            let raw = #[trigger] frames[t][i];
            &&& Entry::present(raw)
            &&& Entry::kind(raw, level) == PageTableEntryKind::Leaf
            &&& Entry::flags_of(raw) == Entry::flags_of(first)
            &&& Entry::target(raw) == Entry::target(first) + i * finer.len()
        }
}

/// The word of the leaf that the entries of the table `t` make up.
pub open spec fn merged_raw<Entry: PageTableEntry>(
    frames: Map<u64, Seq<u64>>,
    t: u64,
    size: PageSize,
) -> u64 {
    Entry::leaf_raw(Entry::target(frames[t][0]), Entry::flags_of(frames[t][0]), size)
}

/// Whether the leaf that merging `range` makes, if it makes one, can be
/// encoded.
pub open spec fn mergeable<Meta: PagingMetaData, Entry: PageTableEntry>(
    view: TreeView,
    range: AddrRange<Meta::VirtAddr>,
) -> bool {
    match merge_goal::<Meta>(range) {
        Err(_) => true,
        Ok((size, level)) => {
            let below = (level - 1) as u8;
            match PageSize::of_shift(Meta::shift(below)) {
                None => true,
                Some(finer) => forall|t: u64| #[trigger]
                    table_at::<Meta>(view.tables, t, range.lo(), below) && uniform::<Meta, Entry>(
                        view.frames,
                        t,
                        below,
                        size,
                        finer,
                    ) ==> storable::<Entry>(
                        merged_raw::<Entry>(view.frames, t, size),
                        level,
                    ),
            }
        },
    }
}

/// Whether the table `t`, whose leaves make up one leaf at `level`, was
/// replaced by it, by writing one word, and released with the answer
/// `released`.
pub open spec fn folded<Meta: PagingMetaData, Entry: PageTableEntry>(
    before: TreeView,
    after: TreeView,
    vaddr: u64,
    level: u8,
    size: PageSize,
    t: u64,
    released: PagingResult,
) -> bool {
    &&& after.root == before.root
    &&& bystanders_kept(before, after)
    &&& after.tables == before.tables.remove(t)
    &&& exists|cut: Map<u64, Seq<u64>>| #[trigger]
        one_word::<Meta>(
            before,
            cut,
            vaddr,
            level,
            merged_raw::<Entry>(before.frames, t, size),
        ) && after.frames == if released is Ok {
            cut.remove(t)
        } else {
            cut
        }
    &&& after.log == before.log.push(
        FrameEvent::Deallocated { range: frame_range::<Meta>(t), released },
    )
    &&& seamless::<Meta, Entry>(before, after)
    &&& replaced::<Meta, Entry>(
        before,
        after,
        vaddr,
        level,
        merged_raw::<Entry>(before.frames, t, size),
    )
}

/// Whether translation of `vaddr` ends at a leaf of `level`.
pub open spec fn is_leaf_level<Meta: PagingMetaData, Entry: PageTableEntry>(
    view: TreeView,
    vaddr: u64,
    level: u8,
) -> bool {
    outcome::<Meta, Entry>(view, vaddr) matches Walk::Leaf { level: at, .. } && at == level
}

/// What merging the leaves of `range` does.
///
/// Where there is no table of finer leaves to merge, or its leaves do not make
/// up one leaf, the tree stays as it is. The former holds of a range that is
/// one leaf already.
pub open spec fn merged<Meta: PagingMetaData, Entry: PageTableEntry>(
    before: TreeView,
    after: TreeView,
    range: AddrRange<Meta::VirtAddr>,
    r: PagingResult<PageSize>,
) -> bool {
    match merge_goal::<Meta>(range) {
        Err(e) => fails_with(r, e) && after == before,
        Ok((size, level)) => {
            let below = (level - 1) as u8;
            if forall|t: u64| !table_at::<Meta>(before.tables, t, range.lo(), below) {
                fails_with(r, PagingError::NotCoalescable) && after == before
            } else {
                match PageSize::of_shift(Meta::shift(below)) {
                    None => fails_with(r, PagingError::UnsupportedSize) && after == before,
                    Some(finer) => exists|t: u64|
                        {
                            &&& #[trigger] table_at::<Meta>(before.tables, t, range.lo(), below)
                            &&& if uniform::<Meta, Entry>(before.frames, t, below, size, finer) {
                                &&& folded::<Meta, Entry>(
                                    before,
                                    after,
                                    range.lo(),
                                    level,
                                    size,
                                    t,
                                    status(r),
                                )
                                &&& r matches Ok(s) ==> s == size
                            } else {
                                fails_with(r, PagingError::NotCoalescable) && after == before
                            }
                        },
                }
            }
        },
    }
}

/// Below a word that is no table pointer there is neither a table nor a leaf.
pub proof fn lemma_nothing_below<Meta: PagingMetaData, Entry: PageTableEntry>(
    view: TreeView,
    t: u64,
    vaddr: u64,
    level: u8,
)
    requires
        layout_ok::<Meta>(),
        tree::<Meta, Entry>(view.frames, view.tables, view.root),
        on_path::<Meta>(view.tables, t, vaddr),
        1 < level <= level_of::<Meta>(view.tables, t),
        !tableish::<Entry>(
            view.frames[t][slot_of::<Meta>(level_of::<Meta>(view.tables, t), vaddr)],
            level_of::<Meta>(view.tables, t),
        ),
    ensures
        ({
            let below = (level - 1) as u8;
            forall|x: u64| !table_at::<Meta>(view.tables, x, vaddr, below)
        }),
        level < level_of::<Meta>(view.tables, t) ==> !is_leaf_level::<Meta, Entry>(
            view,
            vaddr,
            level,
        ),
{
    let below = (level - 1) as u8;
    assert forall|x: u64| !table_at::<Meta>(view.tables, x, vaddr, below) by {
        if table_at::<Meta>(view.tables, x, vaddr, below) {
            lemma_path_end::<Meta, Entry>(view.frames, view.tables, view.root, t, x, vaddr);
        }
    }
    lemma_walk_via::<Meta, Entry>(view.frames, view.tables, view.root, t, vaddr);
}

/// A walk ends at or below every table it passes through.
pub proof fn lemma_deep_leaf<Meta: PagingMetaData, Entry: PageTableEntry>(
    view: TreeView,
    t: u64,
    vaddr: u64,
)
    requires
        layout_ok::<Meta>(),
        tree::<Meta, Entry>(view.frames, view.tables, view.root),
        on_path::<Meta>(view.tables, t, vaddr),
    ensures
        outcome::<Meta, Entry>(view, vaddr) matches Walk::Leaf { level, .. } ==> level <= level_of::<
            Meta,
        >(view.tables, t),
    decreases level_of::<Meta>(view.tables, t),
{
    let level = level_of::<Meta>(view.tables, t);
    lemma_table::<Meta, Entry>(view.frames, view.tables, view.root, t);
    lemma_walk_via::<Meta, Entry>(view.frames, view.tables, view.root, t, vaddr);
    let raw = view.frames[t][slot_of::<Meta>(level, vaddr)];
    if tableish::<Entry>(raw, level) {
        lemma_descend::<Meta, Entry>(view.frames, view.tables, view.root, t, vaddr);
        lemma_deep_leaf::<Meta, Entry>(view, Entry::target(raw), vaddr);
    }
}

/// Putting a leaf in place of the table whose leaves make it up.
pub proof fn lemma_fold<Meta: PagingMetaData, Entry: PageTableEntry>(
    before: TreeView,
    cut: TreeView,
    after: TreeView,
    vaddr: u64,
    level: u8,
    size: PageSize,
    finer: PageSize,
    parent: u64,
    t: u64,
    released: PagingResult,
)
    requires
        layout_ok::<Meta>(),
        tree::<Meta, Entry>(before.frames, before.tables, before.root),
        table_at::<Meta>(before.tables, parent, vaddr, level),
        level > 1,
        table_at::<Meta>(before.tables, t, vaddr, (level - 1) as u8),
        uniform::<Meta, Entry>(before.frames, t, (level - 1) as u8, size, finer),
        storable::<Entry>(merged_raw::<Entry>(before.frames, t, size), level),
        cut.root == before.root,
        cut.frames == poke(
            before.frames,
            parent,
            slot_of::<Meta>(level, vaddr),
            merged_raw::<Entry>(before.frames, t, size),
        ),
        cut.tables == before.tables.remove(t),
        cut.log == before.log,
        cut.history == before.history.push(cut.frames),
        after.root == cut.root,
        after.frames == if released is Ok {
            cut.frames.remove(t)
        } else {
            cut.frames
        },
        after.tables == cut.tables,
        after.history == cut.history.push(after.frames),
        after.log == cut.log.push(
            FrameEvent::Deallocated { range: frame_range::<Meta>(t), released },
        ),
    ensures
        tree::<Meta, Entry>(after.frames, after.tables, after.root),
        folded::<Meta, Entry>(before, after, vaddr, level, size, t, released),
{
    let raw = merged_raw::<Entry>(before.frames, t, size);
    assert(one_word::<Meta>(before, cut.frames, vaddr, level, raw));
    lemma_table::<Meta, Entry>(before.frames, before.tables, before.root, parent);
    lemma_parent::<Meta, Entry>(before.frames, before.tables, before.root, parent, t, vaddr);
    lemma_slot_bound::<Meta>(level, vaddr);
    assert forall|j: int| 0 <= j < Meta::ENTRIES_PER_TABLE implies !tableish::<Entry>(
        #[trigger] before.frames[t][j],
        (level - 1) as u8,
    ) by {}
    lemma_detach::<Meta, Entry>(before.frames, before.tables, before.root, parent, vaddr, raw);
    assert forall|x: u64| #[trigger] cut.tables.contains_key(x) implies after.frames.contains_key(x)
        && after.frames[x] == cut.frames[x] by {
        lemma_table::<Meta, Entry>(cut.frames, cut.tables, cut.root, x);
    }
    lemma_unaffected::<Meta, Entry>(cut, after);
    assert(switches::<Meta, Entry>(before, after, before.history.len() as int)) by {
        assert(before.history =~= after.history.subrange(0, before.history.len() as int));
        lemma_shows_self::<Meta, Entry>(cut);
        lemma_shows::<Meta, Entry>(cut.frames, after, cut);
        lemma_shows_self::<Meta, Entry>(after);
    }
    assert forall|w: u64| #[trigger]
        outcome::<Meta, Entry>(after, w) == if same_path::<Meta>(vaddr, w, level) {
            ending::<Entry>(raw, level)
        } else {
            outcome::<Meta, Entry>(before, w)
        } by {
        assert(outcome::<Meta, Entry>(after, w) == outcome::<Meta, Entry>(cut, w));
        assert(walk::<Meta, Entry>(cut.frames, before.root, top::<Meta>(), w) == outcome::<
            Meta,
            Entry,
        >(cut, w));
    }
}

} // verus!
