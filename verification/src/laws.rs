//! What holds of a page table across operations.
//!
//! The laws speak of the views before and after operations, related as the
//! contracts of [`crate::PageTableWalker`] relate them.

use crate::addr::{floor_to, one_to_one, AddrRange, PhysAddr, PhysAddrRange};
use crate::effect::{
    fails_with, folded, leads_to, located, lookup, merge_goal, merged, merged_raw, one_word,
    outcome, part, part_raw, placed, protected, pruned, remapped, replaced, seamless, shows, split,
    split_leaf, status, switches, table_at, tight, uniform, unmapped, unmoved, vacant, vacant_but,
    LeafWord, TreeView,
};
use crate::error::{PagingError, PagingResult};
use crate::flush::{covered, law_queue_keeps_and_adds, page_aligned, Pending};
use crate::geometry::{law_leaf_covers_its_range, leaves_fill_blocks, regular, tables_full};
use crate::mapping::{MapBacking, Mapping, MappingContiguity, MappingFlags};
use crate::meta::PageSize;
use crate::paging::{
    lowest_level, poke, FrameEvent, PageTableEntry, PageTableEntryKind, PagingMetaData,
};
use crate::plan::{
    contiguous_plan, exact_leaf, extent_plan, followed_by, lemma_admitted, lemma_next_leaf,
    lemma_no_wrap, next_leaf, request_plan, scatter_plan, total_len, well_placed, Placement,
};
use crate::reclaim::{lemma_ancestor, lemma_has_parent};
use crate::request::{installs, map_effect, map_plan, mapped, queued_all, whole_leaf, word_of};
use crate::tree::{
    ending, layout_ok, lemma_path_level, lemma_path_unique, lemma_root, lemma_root_on_path,
    lemma_slot_bound, lemma_table, lemma_walk_via, lemma_word, level_of, obstacle, on_path,
    same_path, slot_of, slots, tableish, top, tree, walk, Walk,
};
use vstd::arithmetic::div_mod::{
    lemma_breakdown, lemma_fundamental_div_mod, lemma_fundamental_div_mod_converse, lemma_mod_bound,
    lemma_mod_decreases,
};
use vstd::arithmetic::power2::{lemma_pow2_adds, lemma_pow2_pos, pow2};
use vstd::prelude::*;

verus! {

/// Where an address leads, and with which flags.
pub open spec fn translation<Meta: PagingMetaData, Entry: PageTableEntry>(
    view: TreeView,
    vaddr: u64,
) -> Option<(int, Entry::Flags)> {
    match outcome::<Meta, Entry>(view, vaddr) {
        Walk::Leaf { level, raw } => Some(
            (
                Entry::target(raw) + vaddr as int % pow2(Meta::shift(level) as nat) as int,
                Entry::flags_of(raw),
            ),
        ),
        _ => None,
    }
}

/// Whether a word is a leaf at `level` that points at `paddr`.
pub open spec fn faithful<Entry: PageTableEntry>(raw: u64, level: u8, paddr: u64) -> bool {
    &&& Entry::present(raw)
    &&& Entry::kind(raw, level) == PageTableEntryKind::Leaf
    &&& Entry::target(raw) == paddr
}

/// An aligned page is the floor of every address in it.
proof fn lemma_floor(vaddr: u64, w: u64, size: PageSize)
    requires
        vaddr % size.len() == 0,
        vaddr <= w < vaddr + size.len(),
    ensures
        floor_to(w, size.len()) == vaddr,
{
    size.lemma_len();
    let n = size.len() as int;
    lemma_fundamental_div_mod(vaddr as int, n);
    let q = vaddr as int / n;
    assert(q * n == n * q) by (nonlinear_arith);
    lemma_fundamental_div_mod_converse(w as int, n, q, w - vaddr);
}

/// How far an address lies above its floor.
proof fn lemma_floor_offset(w: u64, size: PageSize)
    ensures
        floor_to(w, size.len()) <= w,
        w as int % pow2(size.shift() as nat) as int == w - floor_to(w, size.len()),
{
    size.lemma_len();
    lemma_mod_bound(w as int, size.len() as int);
    lemma_mod_decreases(w as nat, size.len() as nat);
}

/// What a query finds after the leaf at `vaddr` was set to `raw`.
proof fn lemma_lookup_replaced<Meta: PagingMetaData, Entry: PageTableEntry>(
    before: TreeView,
    after: TreeView,
    vaddr: u64,
    level: u8,
    size: PageSize,
    raw: u64,
    w: u64,
)
    requires
        regular::<Meta>(),
        Meta::in_range(vaddr),
        Meta::in_range(w),
        1 <= level <= Meta::LEVELS,
        size.shift() == Meta::shift(level),
        vaddr % size.len() == 0,
        vaddr + size.len() <= u64::MAX,
        replaced::<Meta, Entry>(before, after, vaddr, level, raw),
        faithful::<Entry>(raw, level, Entry::target(raw)),
    ensures
        lookup::<Meta, Entry>(after, w) == if vaddr <= w < vaddr + size.len() {
            Ok(
                Mapping {
                    range: AddrRange::of(vaddr, (vaddr + size.len()) as u64),
                    paddr: PhysAddr(Entry::target(raw)),
                    flags: Entry::flags_of(raw),
                },
            )
        } else {
            lookup::<Meta, Entry>(before, w)
        },
{
    law_leaf_covers_its_range::<Meta>(vaddr, w, level, size);
    size.lemma_unique();
    assert(outcome::<Meta, Entry>(after, w) == if same_path::<Meta>(vaddr, w, level) {
        ending::<Entry>(raw, level)
    } else {
        outcome::<Meta, Entry>(before, w)
    });
    if vaddr <= w < vaddr + size.len() {
        lemma_floor(vaddr, w, size);
    }
}

/// A read gives back what was written: once a leaf is installed, a query for
/// any address in its range finds it, and a query for any other address finds
/// what it found before.
pub proof fn law_map_then_query<Meta: PagingMetaData, Entry: PageTableEntry>(
    before: TreeView,
    after: TreeView,
    leaf: Placement,
    flags: Entry::Flags,
    w: u64,
)
    requires
        regular::<Meta>(),
        leaves_fill_blocks::<Meta>(),
        well_placed::<Meta>(leaf),
        leaf.vaddr + leaf.size.len() <= u64::MAX,
        faithful::<Entry>(word_of::<Entry>(leaf, flags), leaf.level, leaf.paddr),
        placed::<Meta, Entry>(before, after, leaf, word_of::<Entry>(leaf, flags), Ok(())),
        Meta::in_range(w),
    ensures
        lookup::<Meta, Entry>(after, w) == if leaf.vaddr <= w < leaf.vaddr + leaf.size.len() {
            Ok(
                Mapping {
                    range: AddrRange::of(leaf.vaddr, (leaf.vaddr + leaf.size.len()) as u64),
                    paddr: PhysAddr(leaf.paddr),
                    flags: Entry::flags_of(word_of::<Entry>(leaf, flags)),
                },
            )
        } else {
            lookup::<Meta, Entry>(before, w)
        },
{
    lemma_lookup_replaced::<Meta, Entry>(
        before,
        after,
        leaf.vaddr,
        leaf.level,
        leaf.size,
        word_of::<Entry>(leaf, flags),
        w,
    );
}

/// A located leaf starts at an aligned legal address, ends within the address
/// space, and is as large as the blocks of its level.
pub proof fn lemma_located<Meta: PagingMetaData, Entry: PageTableEntry>(
    view: TreeView,
    range: AddrRange<Meta::VirtAddr>,
)
    requires
        layout_ok::<Meta>(),
        tree::<Meta, Entry>(view.frames, view.tables, view.root),
        located::<Meta, Entry>(view, range) is Ok,
    ensures
        ({
            let leaf = located::<Meta, Entry>(view, range)->Ok_0;
            &&& 1 <= leaf.level <= Meta::LEVELS
            &&& leaf.size.shift() == Meta::shift(leaf.level)
            &&& range.lo() % leaf.size.len() == 0
            &&& range.lo() + leaf.size.len() == range.hi()
            &&& Meta::in_range(range.lo())
            &&& outcome::<Meta, Entry>(view, range.lo()) == (Walk::Leaf {
                level: leaf.level,
                raw: leaf.raw,
            })
            &&& Entry::present(leaf.raw)
            &&& Entry::kind(leaf.raw, leaf.level) == PageTableEntryKind::Leaf
            &&& range == AddrRange::<Meta::VirtAddr>::of(range.lo(), range.hi())
        }),
{
    let leaf = located::<Meta, Entry>(view, range)->Ok_0;
    let v = range.lo();
    let s: PageSize = choose|s: PageSize| s.shift() == Meta::shift(leaf.level);
    assert(s.shift() == Meta::shift(leaf.level));
    leaf.size.lemma_len();
    let n = leaf.size.len();
    let base = floor_to(v, n);
    lemma_mod_bound(v as int, n as int);
    lemma_mod_decreases(v as nat, n as nat);
    assert(base == v);
    lemma_root_on_path::<Meta, Entry>(view.frames, view.tables, view.root, v);
    lemma_walk_level::<Meta, Entry>(view.frames, view.root, top::<Meta>(), v);
}

/// A walk ends at a level of the tree, at a present leaf.
proof fn lemma_walk_level<Meta: PagingMetaData, Entry: PageTableEntry>(
    mem: Map<u64, Seq<u64>>,
    table: u64,
    level: u8,
    vaddr: u64,
)
    requires
        1 <= level,
    ensures
        walk::<Meta, Entry>(mem, table, level, vaddr) matches Walk::Leaf { level: at, raw } ==> 1
            <= at <= level && Entry::present(raw) && Entry::kind(raw, at)
            == PageTableEntryKind::Leaf,
    decreases level,
{
    let raw = mem[table][slot_of::<Meta>(level, vaddr)];
    if tableish::<Entry>(raw, level) && level > 1 {
        lemma_walk_level::<Meta, Entry>(mem, Entry::target(raw), (level - 1) as u8, vaddr);
    }
}

/// A leaf that a walk finds stands at a level of the tree.
pub proof fn lemma_outcome_level<Meta: PagingMetaData, Entry: PageTableEntry>(
    view: TreeView,
    v: u64,
)
    requires
        layout_ok::<Meta>(),
    ensures
        outcome::<Meta, Entry>(view, v) matches Walk::Leaf { level, .. } ==> 1 <= level
            <= Meta::LEVELS,
{
    lemma_walk_level::<Meta, Entry>(view.frames, view.root, top::<Meta>(), v);
}

/// Once a leaf is remapped, a query for any address in its range finds the new
/// address and flags, and a query for any other address finds what it found
/// before.
pub proof fn law_remap_then_query<Meta: PagingMetaData, Entry: PageTableEntry>(
    before: TreeView,
    after: TreeView,
    range: AddrRange<Meta::VirtAddr>,
    paddr: PhysAddr,
    flags: Entry::Flags,
    r: PagingResult<Mapping<Entry, Meta::VirtAddr>>,
    w: u64,
)
    requires
        regular::<Meta>(),
        tree::<Meta, Entry>(before.frames, before.tables, before.root),
        remapped::<Meta, Entry>(before, after, range, paddr, flags, r),
        r is Ok,
        ({
            let leaf = located::<Meta, Entry>(before, range)->Ok_0;
            faithful::<Entry>(Entry::leaf_raw(paddr.0, flags, leaf.size), leaf.level, paddr.0)
        }),
        Meta::in_range(w),
    ensures
        lookup::<Meta, Entry>(after, w) == if range.lo() <= w < range.hi() {
            Ok(
                Mapping {
                    range,
                    paddr,
                    flags: Entry::flags_of(
                        Entry::leaf_raw(
                            paddr.0,
                            flags,
                            located::<Meta, Entry>(before, range)->Ok_0.size,
                        ),
                    ),
                },
            )
        } else {
            lookup::<Meta, Entry>(before, w)
        },
{
    lemma_located::<Meta, Entry>(before, range);
    let leaf = located::<Meta, Entry>(before, range)->Ok_0;
    lemma_lookup_replaced::<Meta, Entry>(
        before,
        after,
        range.lo(),
        leaf.level,
        leaf.size,
        Entry::leaf_raw(paddr.0, flags, leaf.size),
        w,
    );
}

/// Once a leaf is protected, a query for any address in its range finds the
/// old address with the new flags, and a query for any other address finds what
/// it found before.
pub proof fn law_protect_then_query<Meta: PagingMetaData, Entry: PageTableEntry>(
    before: TreeView,
    after: TreeView,
    range: AddrRange<Meta::VirtAddr>,
    flags: Entry::Flags,
    r: PagingResult<Mapping<Entry, Meta::VirtAddr>>,
    w: u64,
)
    requires
        regular::<Meta>(),
        tree::<Meta, Entry>(before.frames, before.tables, before.root),
        protected::<Meta, Entry>(before, after, range, flags, r),
        r is Ok,
        ({
            let leaf = located::<Meta, Entry>(before, range)->Ok_0;
            let paddr = Entry::target(leaf.raw);
            faithful::<Entry>(Entry::leaf_raw(paddr, flags, leaf.size), leaf.level, paddr)
        }),
        Meta::in_range(w),
    ensures
        ({
            let leaf = located::<Meta, Entry>(before, range)->Ok_0;
            let paddr = Entry::target(leaf.raw);
            lookup::<Meta, Entry>(after, w) == if range.lo() <= w < range.hi() {
                Ok(
                    Mapping {
                        range,
                        paddr: PhysAddr(paddr),
                        flags: Entry::flags_of(Entry::leaf_raw(paddr, flags, leaf.size)),
                    },
                )
            } else {
                lookup::<Meta, Entry>(before, w)
            }
        }),
{
    lemma_located::<Meta, Entry>(before, range);
    let leaf = located::<Meta, Entry>(before, range)->Ok_0;
    lemma_lookup_replaced::<Meta, Entry>(
        before,
        after,
        range.lo(),
        leaf.level,
        leaf.size,
        Entry::leaf_raw(Entry::target(leaf.raw), flags, leaf.size),
        w,
    );
}

/// Once a leaf is unmapped, a query for any address in its range finds
/// nothing, and a query for any other address finds what it found before. That
/// holds also where releasing an emptied table failed.
pub proof fn law_unmap_then_query<Meta: PagingMetaData, Entry: PageTableEntry>(
    before: TreeView,
    after: TreeView,
    range: AddrRange<Meta::VirtAddr>,
    r: PagingResult<Mapping<Entry, Meta::VirtAddr>>,
    w: u64,
)
    requires
        regular::<Meta>(),
        tree::<Meta, Entry>(before.frames, before.tables, before.root),
        located::<Meta, Entry>(before, range) is Ok,
        unmapped::<Meta, Entry>(before, after, range, r),
        Meta::in_range(w),
    ensures
        lookup::<Meta, Entry>(after, w) == if range.lo() <= w < range.hi() {
            Err::<Mapping<Entry, Meta::VirtAddr>, PagingError>(PagingError::NotMapped)
        } else {
            lookup::<Meta, Entry>(before, w)
        },
{
    lemma_located::<Meta, Entry>(before, range);
    let leaf = located::<Meta, Entry>(before, range)->Ok_0;
    law_leaf_covers_its_range::<Meta>(range.lo(), w, leaf.level, leaf.size);
    assert(outcome::<Meta, Entry>(after, w) == if same_path::<Meta>(range.lo(), w, leaf.level) {
        Walk::Absent
    } else {
        outcome::<Meta, Entry>(before, w)
    });
}

/// Where nothing stands in the way of a leaf, nothing is mapped in its place.
proof fn lemma_free_is_absent<Meta: PagingMetaData, Entry: PageTableEntry>(
    mem: Map<u64, Seq<u64>>,
    table: u64,
    level: u8,
    vaddr: u64,
    target: u8,
    w: u64,
)
    requires
        1 <= target <= level <= Meta::LEVELS,
        obstacle::<Meta, Entry>(mem, table, level, vaddr, target) is None,
        same_path::<Meta>(vaddr, w, target),
    ensures
        walk::<Meta, Entry>(mem, table, level, w) == Walk::Absent,
    decreases level,
{
    assert(slot_of::<Meta>(level, vaddr) == slot_of::<Meta>(level, w));
    let raw = mem[table][slot_of::<Meta>(level, vaddr)];
    if Entry::present(raw) {
        lemma_free_is_absent::<Meta, Entry>(
            mem,
            Entry::target(raw),
            (level - 1) as u8,
            vaddr,
            target,
            w,
        );
    }
}

/// Installing a leaf takes nothing away: every address that led somewhere
/// before leads there still.
pub proof fn law_map_keeps_mappings<Meta: PagingMetaData, Entry: PageTableEntry>(
    before: TreeView,
    after: TreeView,
    leaf: Placement,
    raw: u64,
    r: PagingResult,
    w: u64,
)
    requires
        layout_ok::<Meta>(),
        1 <= leaf.level <= Meta::LEVELS,
        placed::<Meta, Entry>(before, after, leaf, raw, r),
        outcome::<Meta, Entry>(before, w) != Walk::Absent,
    ensures
        outcome::<Meta, Entry>(after, w) == outcome::<Meta, Entry>(before, w),
{
    match r {
        Ok(_) => {
            if same_path::<Meta>(leaf.vaddr, w, leaf.level) {
                lemma_free_is_absent::<Meta, Entry>(
                    before.frames,
                    before.root,
                    top::<Meta>(),
                    leaf.vaddr,
                    leaf.level,
                    w,
                );
            }
            assert(outcome::<Meta, Entry>(after, w) == if same_path::<Meta>(
                leaf.vaddr,
                w,
                leaf.level,
            ) {
                ending::<Entry>(raw, leaf.level)
            } else {
                outcome::<Meta, Entry>(before, w)
            });
        },
        Err(_) => {
            assert(outcome::<Meta, Entry>(after, w) == outcome::<Meta, Entry>(before, w));
        },
    }
}

/// Unmapping undoes mapping: every address leads where it led before the leaf
/// was installed, and no table that was added for it is left.
pub proof fn law_unmap_undoes_map<Meta: PagingMetaData, Entry: PageTableEntry>(
    before: TreeView,
    mid: TreeView,
    after: TreeView,
    leaf: Placement,
    raw: u64,
    range: AddrRange<Meta::VirtAddr>,
    r: PagingResult<Mapping<Entry, Meta::VirtAddr>>,
)
    requires
        layout_ok::<Meta>(),
        tree::<Meta, Entry>(before.frames, before.tables, before.root),
        tree::<Meta, Entry>(mid.frames, mid.tables, mid.root),
        1 <= leaf.level <= Meta::LEVELS,
        faithful::<Entry>(raw, leaf.level, leaf.paddr),
        placed::<Meta, Entry>(before, mid, leaf, raw, Ok(())),
        range.lo() == leaf.vaddr,
        unmapped::<Meta, Entry>(mid, after, range, r),
        r is Ok,
    ensures
        unmoved::<Meta, Entry>(before, after),
        forall|t: u64| #[trigger]
            after.tables.contains_key(t) ==> before.tables.contains_key(t) && after.tables[t]
                == before.tables[t],
{
    let v = leaf.vaddr;
    assert(same_path::<Meta>(v, v, leaf.level));
    assert(outcome::<Meta, Entry>(mid, v) == ending::<Entry>(raw, leaf.level));
    let found = located::<Meta, Entry>(mid, range)->Ok_0;
    assert(found.level == leaf.level);
    assert forall|w: u64| #[trigger]
        outcome::<Meta, Entry>(after, w) == outcome::<Meta, Entry>(before, w) by {
        assert(outcome::<Meta, Entry>(mid, w) == if same_path::<Meta>(v, w, leaf.level) {
            ending::<Entry>(raw, leaf.level)
        } else {
            outcome::<Meta, Entry>(before, w)
        });
        if same_path::<Meta>(v, w, leaf.level) {
            lemma_free_is_absent::<Meta, Entry>(
                before.frames,
                before.root,
                top::<Meta>(),
                v,
                leaf.level,
                w,
            );
        }
    }
    let high: u8 = choose|high: u8|
        {
            &&& #[trigger] pruned::<Meta, Entry>(mid, after, v, leaf.level, high, status(r))
            &&& r is Ok ==> tight::<Meta, Entry>(after, v, high)
        };
    assert(pruned::<Meta, Entry>(mid, after, v, leaf.level, high, status(r)));
    assert forall|t: u64| #[trigger] after.tables.contains_key(t) implies before.tables.contains_key(
        t,
    ) && after.tables[t] == before.tables[t] by {
        assert(mid.tables.contains_key(t) && mid.tables[t] == after.tables[t]);
        lemma_no_added_table_left::<Meta, Entry>(before, mid, after, leaf, raw, high, t);
    }
}

/// The tables above a table on a path were there when it was.
proof fn lemma_ancestor_on_path<Meta: PagingMetaData, Entry: PageTableEntry>(
    before: TreeView,
    mid: TreeView,
    vaddr: u64,
    h: u64,
    t: u64,
)
    requires
        layout_ok::<Meta>(),
        tree::<Meta, Entry>(before.frames, before.tables, before.root),
        tree::<Meta, Entry>(mid.frames, mid.tables, mid.root),
        forall|x: u64| #[trigger]
            before.tables.contains_key(x) ==> mid.tables.contains_key(x) && mid.tables[x]
                == before.tables[x],
        before.tables.contains_key(h),
        on_path::<Meta>(mid.tables, h, vaddr),
        on_path::<Meta>(mid.tables, t, vaddr),
        mid.tables[t].len() <= mid.tables[h].len(),
    ensures
        before.tables.contains_key(t),
{
    let n = mid.tables[t].len();
    let a = lemma_ancestor::<Meta, Entry>(before.frames, before.tables, before.root, h, n);
    assert(mid.tables.contains_key(a) && mid.tables[a] == before.tables[a]);
    assert(before.tables[a] =~= slots::<Meta>(vaddr, n));
    lemma_path_unique::<Meta, Entry>(mid.frames, mid.tables, mid.root, a, t);
}

/// A table added for a leaf does not outlive it.
proof fn lemma_no_added_table_left<Meta: PagingMetaData, Entry: PageTableEntry>(
    before: TreeView,
    mid: TreeView,
    after: TreeView,
    leaf: Placement,
    raw: u64,
    high: u8,
    t: u64,
)
    requires
        layout_ok::<Meta>(),
        tree::<Meta, Entry>(before.frames, before.tables, before.root),
        tree::<Meta, Entry>(mid.frames, mid.tables, mid.root),
        1 <= leaf.level <= Meta::LEVELS,
        placed::<Meta, Entry>(before, mid, leaf, raw, Ok(())),
        pruned::<Meta, Entry>(mid, after, leaf.vaddr, leaf.level, high, Ok(())),
        tight::<Meta, Entry>(after, leaf.vaddr, high),
        after.tables.contains_key(t),
    ensures
        before.tables.contains_key(t) && before.tables[t] == after.tables[t],
{
    let v = leaf.vaddr;
    assert(mid.tables.contains_key(t) && mid.tables[t] == after.tables[t]);
    lemma_table::<Meta, Entry>(mid.frames, mid.tables, mid.root, t);
    if !before.tables.contains_key(t) {
        assert(leads_to::<Meta>(mid.tables, t, seq![leaf]));
        let k: int = choose|k: int|
            #![trigger seq![leaf][k]]
            0 <= k < seq![leaf].len() && on_path::<Meta>(mid.tables, t, seq![leaf][k].vaddr)
                && seq![leaf][k].level <= level_of::<Meta>(mid.tables, t);
        assert(seq![leaf][k] == leaf);
        assert(on_path::<Meta>(mid.tables, t, v));
        assert(level_of::<Meta>(mid.tables, t) >= high);
        lemma_root::<Meta, Entry>(before.frames, before.tables, before.root);
        lemma_root::<Meta, Entry>(mid.frames, mid.tables, mid.root);
        if high < Meta::LEVELS {
            let h: u64 = choose|h: u64| #[trigger]
                on_path::<Meta>(after.tables, h, v) && level_of::<Meta>(after.tables, h) == high
                    && !vacant::<Meta, Entry>(after.frames, h);
            assert(on_path::<Meta>(after.tables, h, v));
            assert(mid.tables.contains_key(h) && mid.tables[h] == after.tables[h]);
            lemma_table::<Meta, Entry>(mid.frames, mid.tables, mid.root, h);
            if before.tables.contains_key(h) {
                lemma_ancestor_on_path::<Meta, Entry>(before, mid, v, h, t);
            } else {
                let slot = slot_of::<Meta>(high, v);
                assert(table_at::<Meta>(after.tables, h, v, high));
                assert(vacant_but::<Meta, Entry>(mid.frames, h, slot));
                assert forall|j: int| 0 <= j < Meta::ENTRIES_PER_TABLE implies !Entry::present(
                    #[trigger] after.frames[h][j],
                ) by {
                    if j != slot {
                        assert(!Entry::present(mid.frames[h][j]));
                    }
                }
                assert(vacant::<Meta, Entry>(after.frames, h));
            }
        } else {
            assert(mid.tables[t].len() == 0);
        }
    }
}

/// Addresses that share the path of a leaf end at it.
proof fn lemma_same_leaf<Meta: PagingMetaData, Entry: PageTableEntry>(
    mem: Map<u64, Seq<u64>>,
    table: u64,
    level: u8,
    vaddr: u64,
    w: u64,
    at: u8,
)
    requires
        1 <= level <= Meta::LEVELS,
        walk::<Meta, Entry>(mem, table, level, vaddr) matches Walk::Leaf { level: l, .. } && l
            == at,
        same_path::<Meta>(vaddr, w, at),
    ensures
        walk::<Meta, Entry>(mem, table, level, w) == walk::<Meta, Entry>(mem, table, level, vaddr),
    decreases level,
{
    lemma_walk_level::<Meta, Entry>(mem, table, level, vaddr);
    assert(slot_of::<Meta>(level, vaddr) == slot_of::<Meta>(level, w));
    let raw = mem[table][slot_of::<Meta>(level, vaddr)];
    if tableish::<Entry>(raw, level) && level > 1 {
        lemma_same_leaf::<Meta, Entry>(
            mem,
            Entry::target(raw),
            (level - 1) as u8,
            vaddr,
            w,
            at,
        );
    }
}

/// An offset into a block is a slot of the level below and an offset there.
proof fn lemma_offset<Meta: PagingMetaData>(w: u64, level: u8, finer: PageSize)
    requires
        regular::<Meta>(),
        1 < level <= Meta::LEVELS,
        finer.shift() == Meta::shift((level - 1) as u8),
    ensures
        w as int % pow2(Meta::shift(level) as nat) as int == slot_of::<Meta>(
            (level - 1) as u8,
            w,
        ) * finer.len() + w as int % pow2(Meta::shift((level - 1) as u8) as nat) as int,
{
    let below = (level - 1) as u8;
    let s = Meta::shift(below) as nat;
    let n = Meta::index_bits(below) as nat;
    assert(Meta::shift(below) + Meta::index_bits(below) == Meta::shift((below + 1) as u8));
    finer.lemma_len();
    lemma_pow2_pos(s);
    lemma_pow2_pos(n);
    lemma_pow2_adds(s, n);
    lemma_breakdown(w as int, pow2(s) as int, pow2(n) as int);
    let q = slot_of::<Meta>(below, w);
    let f = finer.len() as int;
    assert(f * q == q * f) by (nonlinear_arith);
}

/// Whether every part of a leaf is a leaf that points where the part starts
/// and carries the flags of the whole.
pub open spec fn parts_faithful<Meta: PagingMetaData, Entry: PageTableEntry>(
    leaf: LeafWord,
    finer: PageSize,
) -> bool {
    forall|i: int|
        0 <= i < Meta::ENTRIES_PER_TABLE ==> {
            let raw = #[trigger] part_raw::<Entry>(leaf, finer, i);
            &&& Entry::present(raw)
            &&& Entry::kind(raw, (leaf.level - 1) as u8) == PageTableEntryKind::Leaf
            &&& Entry::target(raw) == part::<Entry>(leaf, finer, i)
            &&& Entry::flags_of(raw) == Entry::flags_of(leaf.raw)
        }
}

/// A leaf that can be split lies above the lowest level.
pub proof fn lemma_split_leaf<Meta: PagingMetaData, Entry: PageTableEntry>(
    view: TreeView,
    range: AddrRange<Meta::VirtAddr>,
)
    requires
        layout_ok::<Meta>(),
        tree::<Meta, Entry>(view.frames, view.tables, view.root),
        split_leaf::<Meta, Entry>(view, range) is Ok,
    ensures
        ({
            let (leaf, finer) = split_leaf::<Meta, Entry>(view, range)->Ok_0;
            &&& located::<Meta, Entry>(view, range) == Ok::<LeafWord, PagingError>(leaf)
            &&& 1 < leaf.level <= Meta::LEVELS
            &&& finer.shift() == Meta::shift((leaf.level - 1) as u8)
        }),
{
    lemma_located::<Meta, Entry>(view, range);
    let (leaf, finer) = split_leaf::<Meta, Entry>(view, range)->Ok_0;
    let s: PageSize = choose|s: PageSize| s.shift() == Meta::shift((leaf.level - 1) as u8);
    assert(s.shift() == Meta::shift((leaf.level - 1) as u8));
}

/// Splitting a leaf changes no translation: every address leads where it led,
/// with the same flags.
pub proof fn law_split_keeps_translation<Meta: PagingMetaData, Entry: PageTableEntry>(
    before: TreeView,
    after: TreeView,
    range: AddrRange<Meta::VirtAddr>,
    r: PagingResult<PageSize>,
    w: u64,
)
    requires
        regular::<Meta>(),
        tree::<Meta, Entry>(before.frames, before.tables, before.root),
        split::<Meta, Entry>(before, after, range, r),
        split_leaf::<Meta, Entry>(before, range) matches Ok((leaf, finer)) ==> parts_faithful::<
            Meta,
            Entry,
        >(leaf, finer),
    ensures
        translation::<Meta, Entry>(after, w) == translation::<Meta, Entry>(before, w),
{
    if r is Ok {
        lemma_split_leaf::<Meta, Entry>(before, range);
        lemma_located::<Meta, Entry>(before, range);
        let (leaf, finer) = split_leaf::<Meta, Entry>(before, range)->Ok_0;
        let below = (leaf.level - 1) as u8;
        let slot = slot_of::<Meta>(below, w);
        assert(outcome::<Meta, Entry>(after, w) == if same_path::<Meta>(
            range.lo(),
            w,
            leaf.level,
        ) {
            ending::<Entry>(part_raw::<Entry>(leaf, finer, slot), below)
        } else {
            outcome::<Meta, Entry>(before, w)
        });
        if same_path::<Meta>(range.lo(), w, leaf.level) {
            lemma_same_leaf::<Meta, Entry>(
                before.frames,
                before.root,
                top::<Meta>(),
                range.lo(),
                w,
                leaf.level,
            );
            lemma_slot_bound::<Meta>(below, w);
            lemma_offset::<Meta>(w, leaf.level, finer);
            assert(Entry::target(part_raw::<Entry>(leaf, finer, slot)) == part::<Entry>(
                leaf,
                finer,
                slot,
            ));
        }
    } else {
        assert(outcome::<Meta, Entry>(after, w) == outcome::<Meta, Entry>(before, w));
    }
}

/// Where an operation is seamless, whoever walks the tables meanwhile sees an
/// address translated as before it or as after it.
pub proof fn law_seen_old_or_new<Meta: PagingMetaData, Entry: PageTableEntry>(
    before: TreeView,
    after: TreeView,
    k: int,
    w: u64,
)
    requires
        after.root == before.root,
        seamless::<Meta, Entry>(before, after),
        before.history.len() <= k < after.history.len(),
    ensures
        ({
            let seen = outcome::<Meta, Entry>(TreeView { frames: after.history[k], ..before }, w);
            seen == outcome::<Meta, Entry>(before, w) || seen == outcome::<Meta, Entry>(after, w)
        }),
{
    let at: int = choose|at: int| switches::<Meta, Entry>(before, after, at);
    let view = if k < at {
        before
    } else {
        after
    };
    assert(shows::<Meta, Entry>(after.history[k], view));
    assert(outcome::<Meta, Entry>(TreeView { frames: after.history[k], ..view }, w) == outcome::<
        Meta,
        Entry,
    >(view, w));
}

/// Whoever walks the tables while a leaf is split sees the leaf or its parts, and
/// translates identically.
pub proof fn law_split_is_not_seen<Meta: PagingMetaData, Entry: PageTableEntry>(
    before: TreeView,
    after: TreeView,
    range: AddrRange<Meta::VirtAddr>,
    r: PagingResult<PageSize>,
    k: int,
    w: u64,
)
    requires
        regular::<Meta>(),
        tree::<Meta, Entry>(before.frames, before.tables, before.root),
        split::<Meta, Entry>(before, after, range, r),
        split_leaf::<Meta, Entry>(before, range) matches Ok((leaf, finer)) ==> parts_faithful::<
            Meta,
            Entry,
        >(leaf, finer),
        before.history.len() <= k < after.history.len(),
    ensures
        translation::<Meta, Entry>(TreeView { frames: after.history[k], ..before }, w)
            == translation::<Meta, Entry>(before, w),
{
    law_split_keeps_translation::<Meta, Entry>(before, after, range, r, w);
    if r is Ok {
        law_seen_old_or_new::<Meta, Entry>(before, after, k, w);
    } else {
        assert(shows::<Meta, Entry>(after.history[k], before));
        assert(outcome::<Meta, Entry>(TreeView { frames: after.history[k], ..before }, w)
            == outcome::<Meta, Entry>(before, w));
    }
}

/// The parts of a split leaf, as many as a table has entries, make up its size.
/// A query for an address in its range finds the part that covers it, at its
/// place behind the leaf and with its flags, and a query for any other address
/// finds what it found before.
pub proof fn law_split_then_query<Meta: PagingMetaData, Entry: PageTableEntry>(
    before: TreeView,
    after: TreeView,
    range: AddrRange<Meta::VirtAddr>,
    part_size: PageSize,
    w: u64,
)
    requires
        regular::<Meta>(),
        tables_full::<Meta>(),
        tree::<Meta, Entry>(before.frames, before.tables, before.root),
        split::<Meta, Entry>(before, after, range, Ok(part_size)),
        split_leaf::<Meta, Entry>(before, range) matches Ok((leaf, finer)) ==> parts_faithful::<
            Meta,
            Entry,
        >(leaf, finer),
        Meta::in_range(w),
    ensures
        part_size.len() * Meta::ENTRIES_PER_TABLE == range.len(),
        ({
            let whole = lookup::<Meta, Entry>(before, range.lo())->Ok_0;
            let base = floor_to(w, part_size.len());
            lookup::<Meta, Entry>(after, w) == if range.lo() <= w < range.hi() {
                Ok(
                    Mapping {
                        range: AddrRange::of(base, (base + part_size.len()) as u64),
                        paddr: PhysAddr((whole.paddr.0 + (base - range.lo())) as u64),
                        flags: whole.flags,
                    },
                )
            } else {
                lookup::<Meta, Entry>(before, w)
            }
        }),
{
    lemma_split_leaf::<Meta, Entry>(before, range);
    lemma_located::<Meta, Entry>(before, range);
    let (leaf, finer) = split_leaf::<Meta, Entry>(before, range)->Ok_0;
    let below = (leaf.level - 1) as u8;
    let slot = slot_of::<Meta>(below, w);
    finer.lemma_len();
    finer.lemma_unique();
    leaf.size.lemma_len();
    assert(Meta::shift(below) + Meta::index_bits(below) == Meta::shift(leaf.level));
    lemma_pow2_adds(Meta::shift(below) as nat, Meta::index_bits(below) as nat);
    assert(pow2(Meta::index_bits(below) as nat) == Meta::ENTRIES_PER_TABLE);
    law_leaf_covers_its_range::<Meta>(range.lo(), w, leaf.level, leaf.size);
    assert(outcome::<Meta, Entry>(after, w) == if same_path::<Meta>(range.lo(), w, leaf.level) {
        ending::<Entry>(part_raw::<Entry>(leaf, finer, slot), below)
    } else {
        outcome::<Meta, Entry>(before, w)
    });
    if range.lo() <= w < range.hi() {
        let base = floor_to(w, finer.len());
        lemma_slot_bound::<Meta>(below, w);
        lemma_offset::<Meta>(w, leaf.level, finer);
        lemma_floor(range.lo(), w, leaf.size);
        lemma_floor_offset(w, finer);
        lemma_floor_offset(w, leaf.size);
        assert(w as int % pow2(Meta::shift(leaf.level) as nat) as int == w - range.lo());
        assert(w as int % pow2(Meta::shift(below) as nat) as int == w - base);
        assert(slot * finer.len() == base - range.lo());
        assert((slot + 1) * finer.len() <= Meta::ENTRIES_PER_TABLE * finer.len())
            by (nonlinear_arith)
            requires
                slot + 1 <= Meta::ENTRIES_PER_TABLE,
                finer.len() >= 0,
        ;
        assert((slot + 1) * finer.len() == slot * finer.len() + finer.len()) by (nonlinear_arith);
        assert(base + finer.len() <= range.hi()) by {
            let (a, b) = (Meta::ENTRIES_PER_TABLE as int, finer.len() as int);
            assert(a * b == b * a) by (nonlinear_arith);
        }
        assert(Entry::target(part_raw::<Entry>(leaf, finer, slot)) == part::<Entry>(
            leaf,
            finer,
            slot,
        ));
    }
}

/// Whether the leaf that the entries of `t` make up points where the first of
/// them does and carries its flags.
pub open spec fn whole_faithful<Entry: PageTableEntry>(
    frames: Map<u64, Seq<u64>>,
    t: u64,
    level: u8,
    size: PageSize,
) -> bool {
    let raw = merged_raw::<Entry>(frames, t, size);
    &&& faithful::<Entry>(raw, level, Entry::target(frames[t][0]))
    &&& Entry::flags_of(raw) == Entry::flags_of(frames[t][0])
}

/// A table on a path is on every path that shares the slots above it.
proof fn lemma_shared_table<Meta: PagingMetaData>(
    tables: Map<u64, Seq<int>>,
    t: u64,
    vaddr: u64,
    w: u64,
    level: u8,
)
    requires
        layout_ok::<Meta>(),
        1 < level <= Meta::LEVELS,
        tables[t].len() < Meta::LEVELS,
        table_at::<Meta>(tables, t, vaddr, (level - 1) as u8),
        same_path::<Meta>(vaddr, w, level),
    ensures
        table_at::<Meta>(tables, t, w, (level - 1) as u8),
{
    let n = tables[t].len();
    assert(slots::<Meta>(vaddr, n) =~= slots::<Meta>(w, n)) by {
        assert forall|k: int| 0 <= k < n implies slots::<Meta>(vaddr, n)[k] == slots::<Meta>(
            w,
            n,
        )[k] by {
            let l = (Meta::LEVELS - k) as u8;
            assert(slot_of::<Meta>(l, vaddr) == slot_of::<Meta>(l, w));
        }
    }
}

/// Folding a table into a leaf changes no translation.
proof fn lemma_fold_translation<Meta: PagingMetaData, Entry: PageTableEntry>(
    before: TreeView,
    after: TreeView,
    vaddr: u64,
    level: u8,
    size: PageSize,
    finer: PageSize,
    t: u64,
    released: PagingResult,
    w: u64,
)
    requires
        regular::<Meta>(),
        tree::<Meta, Entry>(before.frames, before.tables, before.root),
        1 < level <= Meta::LEVELS,
        finer.shift() == Meta::shift((level - 1) as u8),
        table_at::<Meta>(before.tables, t, vaddr, (level - 1) as u8),
        uniform::<Meta, Entry>(before.frames, t, (level - 1) as u8, size, finer),
        folded::<Meta, Entry>(before, after, vaddr, level, size, t, released),
        whole_faithful::<Entry>(before.frames, t, level, size),
    ensures
        translation::<Meta, Entry>(after, w) == translation::<Meta, Entry>(before, w),
{
    let below = (level - 1) as u8;
    let raw = merged_raw::<Entry>(before.frames, t, size);
    assert(outcome::<Meta, Entry>(after, w) == if same_path::<Meta>(vaddr, w, level) {
        ending::<Entry>(raw, level)
    } else {
        outcome::<Meta, Entry>(before, w)
    });
    if same_path::<Meta>(vaddr, w, level) {
        lemma_table::<Meta, Entry>(before.frames, before.tables, before.root, t);
        lemma_shared_table::<Meta>(before.tables, t, vaddr, w, level);
        lemma_walk_via::<Meta, Entry>(before.frames, before.tables, before.root, t, w);
        lemma_slot_bound::<Meta>(below, w);
        lemma_offset::<Meta>(w, level, finer);
        let slot = slot_of::<Meta>(below, w);
        let word = before.frames[t][slot];
        assert(Entry::present(word) && Entry::kind(word, below) == PageTableEntryKind::Leaf);
    }
}

/// Merging leaves changes no translation: every address leads where it led,
/// with the same flags, whether the leaves were merged or not.
pub proof fn law_merge_keeps_translation<Meta: PagingMetaData, Entry: PageTableEntry>(
    before: TreeView,
    after: TreeView,
    range: AddrRange<Meta::VirtAddr>,
    r: PagingResult<PageSize>,
    w: u64,
)
    requires
        regular::<Meta>(),
        tree::<Meta, Entry>(before.frames, before.tables, before.root),
        merged::<Meta, Entry>(before, after, range, r),
        forall|t: u64, level: u8, size: PageSize|
            merge_goal::<Meta>(range) == Ok::<(PageSize, u8), PagingError>((size, level))
                && table_at::<Meta>(before.tables, t, range.lo(), (level - 1) as u8)
                ==> #[trigger] whole_faithful::<Entry>(before.frames, t, level, size),
    ensures
        translation::<Meta, Entry>(after, w) == translation::<Meta, Entry>(before, w),
{
    if after != before {
        let (size, level) = merge_goal::<Meta>(range)->Ok_0;
        let below = (level - 1) as u8;
        lemma_merge_goal::<Meta>(range);
        let finer = PageSize::of_shift(Meta::shift(below))->0;
        let s: PageSize = choose|s: PageSize| s.shift() == Meta::shift(below);
        assert(s.shift() == Meta::shift(below));
        let t: u64 = choose|t: u64|
            {
                &&& #[trigger] table_at::<Meta>(before.tables, t, range.lo(), below)
                &&& if uniform::<Meta, Entry>(before.frames, t, below, size, finer) {
                    &&& folded::<Meta, Entry>(
                        before,
                        after,
                        range.lo(),
                        level,
                        size,
                        t,
                        status(r),
                    )
                    &&& r matches Ok(s) ==> s == size
                } else {
                    fails_with(r, PagingError::NotCoalescable) && after == before
                }
            };
        assert(whole_faithful::<Entry>(before.frames, t, level, size));
        lemma_fold_translation::<Meta, Entry>(
            before,
            after,
            range.lo(),
            level,
            size,
            finer,
            t,
            status(r),
            w,
        );
    }
}

/// Whoever walks the tables while leaves are merged sees them or the one leaf that
/// they make up, and translates identically.
pub proof fn law_merge_is_not_seen<Meta: PagingMetaData, Entry: PageTableEntry>(
    before: TreeView,
    after: TreeView,
    range: AddrRange<Meta::VirtAddr>,
    r: PagingResult<PageSize>,
    k: int,
    w: u64,
)
    requires
        regular::<Meta>(),
        tree::<Meta, Entry>(before.frames, before.tables, before.root),
        merged::<Meta, Entry>(before, after, range, r),
        forall|t: u64, level: u8, size: PageSize|
            merge_goal::<Meta>(range) == Ok::<(PageSize, u8), PagingError>((size, level))
                && table_at::<Meta>(before.tables, t, range.lo(), (level - 1) as u8)
                ==> #[trigger] whole_faithful::<Entry>(before.frames, t, level, size),
        before.history.len() <= k < after.history.len(),
    ensures
        translation::<Meta, Entry>(TreeView { frames: after.history[k], ..before }, w)
            == translation::<Meta, Entry>(before, w),
{
    law_merge_keeps_translation::<Meta, Entry>(before, after, range, r, w);
    assert(after != before);
    law_seen_old_or_new::<Meta, Entry>(before, after, k, w);
}

/// A merge aims at a level of the tree above the lowest.
pub proof fn lemma_merge_goal<Meta: PagingMetaData>(range: AddrRange<Meta::VirtAddr>)
    ensures
        merge_goal::<Meta>(range) matches Ok((size, level)) ==> 1 < level <= Meta::LEVELS
            && Meta::supports(level, size),
{
    if let Ok((size, level)) = merge_goal::<Meta>(range) {
        let l: u8 = choose|l: u8| lowest_level::<Meta>(l, size);
        assert(lowest_level::<Meta>(l, size));
    }
}

/// Merging undoes splitting: the parts of a split leaf can be merged, so the
/// merge succeeds unless the allocator refuses the table back; every query finds
/// what it found before the split; and the tables are those before the split.
pub proof fn law_merge_undoes_split<Meta: PagingMetaData, Entry: PageTableEntry>(
    before: TreeView,
    mid: TreeView,
    after: TreeView,
    range: AddrRange<Meta::VirtAddr>,
    split_result: PagingResult<PageSize>,
    merge_result: PagingResult<PageSize>,
    w: u64,
)
    requires
        regular::<Meta>(),
        tree::<Meta, Entry>(before.frames, before.tables, before.root),
        tree::<Meta, Entry>(mid.frames, mid.tables, mid.root),
        split::<Meta, Entry>(before, mid, range, split_result),
        split_result is Ok,
        merged::<Meta, Entry>(mid, after, range, merge_result),
        ({
            let (leaf, finer) = split_leaf::<Meta, Entry>(before, range)->Ok_0;
            &&& merge_goal::<Meta>(range) == Ok::<(PageSize, u8), PagingError>(
                (leaf.size, leaf.level),
            )
            &&& Entry::target(leaf.raw) % leaf.size.len() == 0
            &&& parts_faithful::<Meta, Entry>(leaf, finer)
            &&& ({
                let whole = Entry::leaf_raw(
                    Entry::target(leaf.raw),
                    Entry::flags_of(leaf.raw),
                    leaf.size,
                );
                &&& faithful::<Entry>(whole, leaf.level, Entry::target(leaf.raw))
                &&& Entry::flags_of(whole) == Entry::flags_of(leaf.raw)
            })
        }),
    ensures
        match merge_result {
            Ok(size) => size == split_leaf::<Meta, Entry>(before, range)->Ok_0.0.size,
            Err(e) => after.log.last() matches FrameEvent::Deallocated { released, .. } && released
                == Err::<(), PagingError>(e),
        },
        translation::<Meta, Entry>(after, w) == translation::<Meta, Entry>(before, w),
        lookup::<Meta, Entry>(after, w) == lookup::<Meta, Entry>(before, w),
        after.tables == before.tables,
        merge_result is Ok ==> after.frames.dom() == before.frames.dom(),
{
    let (leaf, finer) = split_leaf::<Meta, Entry>(before, range)->Ok_0;
    let v = range.lo();
    let level = leaf.level;
    let below = (level - 1) as u8;
    lemma_split_leaf::<Meta, Entry>(before, range);
    lemma_located::<Meta, Entry>(before, range);
    law_split_keeps_translation::<Meta, Entry>(before, mid, range, split_result, w);
    let t: u64 = choose|t: u64|
        {
            &&& #[trigger] table_at::<Meta>(mid.tables, t, v, below)
            &&& forall|j: int|
                0 <= j < Meta::ENTRIES_PER_TABLE ==> #[trigger] mid.frames[t][j] == part_raw::<
                    Entry,
                >(leaf, finer, j)
        };
    assert(table_at::<Meta>(mid.tables, t, v, below));
    lemma_slot_bound::<Meta>(below, v);
    assert(mid.frames[t][0] == part_raw::<Entry>(leaf, finer, 0));
    assert(part::<Entry>(leaf, finer, 0) == Entry::target(leaf.raw));
    assert forall|i: int| 0 <= i < Meta::ENTRIES_PER_TABLE implies {
        let raw = #[trigger] mid.frames[t][i];
        &&& Entry::present(raw)
        &&& Entry::kind(raw, below) == PageTableEntryKind::Leaf
        &&& Entry::flags_of(raw) == Entry::flags_of(mid.frames[t][0])
        &&& Entry::target(raw) == Entry::target(mid.frames[t][0]) + i * finer.len()
    } by {
        assert(mid.frames[t][i] == part_raw::<Entry>(leaf, finer, i));
    }
    assert(uniform::<Meta, Entry>(mid.frames, t, below, leaf.size, finer));
    let u: u64 = choose|u: u64|
        {
            &&& #[trigger] table_at::<Meta>(mid.tables, u, v, below)
            &&& if uniform::<Meta, Entry>(mid.frames, u, below, leaf.size, finer) {
                &&& folded::<Meta, Entry>(
                    mid,
                    after,
                    v,
                    level,
                    leaf.size,
                    u,
                    status(merge_result),
                )
                &&& merge_result matches Ok(s) ==> s == leaf.size
            } else {
                fails_with(merge_result, PagingError::NotCoalescable) && after == mid
            }
        };
    assert(table_at::<Meta>(mid.tables, u, v, below));
    lemma_path_level::<Meta, Entry>(mid.frames, mid.tables, mid.root, t, u, v);
    lemma_fold_translation::<Meta, Entry>(
        mid,
        after,
        v,
        level,
        leaf.size,
        finer,
        t,
        status(merge_result),
        w,
    );
    assert(merged_raw::<Entry>(mid.frames, t, leaf.size) == Entry::leaf_raw(
        Entry::target(leaf.raw),
        Entry::flags_of(leaf.raw),
        leaf.size,
    ));
    lemma_leaf_of_path::<Meta, Entry>(before, v, w, level, leaf.raw);
    let child: u64 = choose|child: u64|
        {
            &&& !before.frames.contains_key(child)
            &&& #[trigger] table_at::<Meta>(mid.tables, child, v, below)
            &&& mid.tables.remove(child) == before.tables
            &&& mid.frames.contains_key(child)
            &&& one_word::<Meta>(
                before,
                mid.frames.remove(child),
                v,
                level,
                Entry::table_raw(child, level),
            )
        };
    assert(table_at::<Meta>(mid.tables, child, v, below));
    lemma_path_level::<Meta, Entry>(mid.frames, mid.tables, mid.root, t, child, v);
    lemma_one_word_frames::<Meta, Entry>(
        before,
        mid.frames.remove(child),
        v,
        level,
        Entry::table_raw(child, level),
    );
    if merge_result is Ok {
        let raw = merged_raw::<Entry>(mid.frames, t, leaf.size);
        let cut: Map<u64, Seq<u64>> = choose|cut: Map<u64, Seq<u64>>| #[trigger]
            one_word::<Meta>(mid, cut, v, level, raw) && after.frames == cut.remove(t);
        assert(one_word::<Meta>(mid, cut, v, level, raw));
        lemma_one_word_frames::<Meta, Entry>(mid, cut, v, level, raw);
        assert(after.frames.dom() =~= before.frames.dom());
    }
}

/// Writing a word adds and removes no frame.
proof fn lemma_one_word_frames<Meta: PagingMetaData, Entry: PageTableEntry>(
    view: TreeView,
    frames: Map<u64, Seq<u64>>,
    vaddr: u64,
    level: u8,
    raw: u64,
)
    requires
        layout_ok::<Meta>(),
        tree::<Meta, Entry>(view.frames, view.tables, view.root),
        one_word::<Meta>(view, frames, vaddr, level, raw),
    ensures
        frames.dom() == view.frames.dom(),
{
    let t: u64 = choose|t: u64| #[trigger]
        table_at::<Meta>(view.tables, t, vaddr, level) && frames == poke(
            view.frames,
            t,
            slot_of::<Meta>(level, vaddr),
            raw,
        );
    assert(table_at::<Meta>(view.tables, t, vaddr, level));
    lemma_table::<Meta, Entry>(view.frames, view.tables, view.root, t);
    assert(frames.dom() =~= view.frames.dom());
}

/// Every address that shares the path of a leaf down to its level is mapped by
/// it.
pub proof fn lemma_leaf_of_path<Meta: PagingMetaData, Entry: PageTableEntry>(
    view: TreeView,
    v: u64,
    w: u64,
    level: u8,
    raw: u64,
)
    requires
        layout_ok::<Meta>(),
        tree::<Meta, Entry>(view.frames, view.tables, view.root),
        outcome::<Meta, Entry>(view, v) == (Walk::Leaf { level, raw }),
    ensures
        same_path::<Meta>(v, w, level) ==> outcome::<Meta, Entry>(view, w) == (Walk::Leaf {
            level,
            raw,
        }),
{
    lemma_root::<Meta, Entry>(view.frames, view.tables, view.root);
    if same_path::<Meta>(v, w, level) {
        lemma_same_leaf::<Meta, Entry>(view.frames, view.root, top::<Meta>(), v, w, level);
    }
}

/// The tables of a tree are determined by the words of memory and the root.
pub proof fn law_tables_determined<Meta: PagingMetaData, Entry: PageTableEntry>(
    mem: Map<u64, Seq<u64>>,
    root: u64,
    a: Map<u64, Seq<int>>,
    b: Map<u64, Seq<int>>,
)
    requires
        layout_ok::<Meta>(),
        tree::<Meta, Entry>(mem, a, root),
        tree::<Meta, Entry>(mem, b, root),
    ensures
        a == b,
{
    assert forall|t: u64| #[trigger] a.contains_key(t) implies b.contains_key(t) && b[t] == a[t] by {
        lemma_table_in_both::<Meta, Entry>(mem, root, a, b, t);
    }
    assert forall|t: u64| #[trigger] b.contains_key(t) implies a.contains_key(t) && a[t] == b[t] by {
        lemma_table_in_both::<Meta, Entry>(mem, root, b, a, t);
    }
    assert(a.dom() =~= b.dom());
    assert(a =~= b);
}

/// A table of one tree over some memory is a table of any other with the same
/// root.
proof fn lemma_table_in_both<Meta: PagingMetaData, Entry: PageTableEntry>(
    mem: Map<u64, Seq<u64>>,
    root: u64,
    a: Map<u64, Seq<int>>,
    b: Map<u64, Seq<int>>,
    t: u64,
)
    requires
        layout_ok::<Meta>(),
        tree::<Meta, Entry>(mem, a, root),
        tree::<Meta, Entry>(mem, b, root),
        a.contains_key(t),
    ensures
        b.contains_key(t),
        b[t] == a[t],
    decreases a[t].len(),
{
    lemma_root::<Meta, Entry>(mem, a, root);
    lemma_root::<Meta, Entry>(mem, b, root);
    if a[t].len() == 0 {
        assert(a[t] =~= b[t]);
    } else {
        let p = lemma_has_parent::<Meta, Entry>(mem, a, root, t);
        lemma_table_in_both::<Meta, Entry>(mem, root, a, b, p);
        lemma_word::<Meta, Entry>(mem, b, root, p, a[t].last());
        assert(a[t] =~= a[p].push(a[t].last()));
    }
}

/// Whether leaves adjoin one another and together make up `lo..hi`.
pub open spec fn tiled(leaves: Seq<Placement>, lo: int, hi: int) -> bool
    decreases leaves.len(),
{
    if leaves.len() == 0 {
        lo == hi
    } else {
        let last = leaves.last();
        &&& last.vaddr + last.size.len() == hi
        &&& tiled(leaves.drop_last(), lo, last.vaddr as int)
    }
}

/// Tilings adjoin.
proof fn lemma_tiled_append(
    first: Seq<Placement>,
    second: Seq<Placement>,
    lo: int,
    mid: int,
    hi: int,
)
    requires
        tiled(first, lo, mid),
        tiled(second, mid, hi),
    ensures
        tiled(first + second, lo, hi),
    decreases second.len(),
{
    let both = first + second;
    if second.len() == 0 {
        assert(both =~= first);
    } else {
        lemma_tiled_append(first, second.drop_last(), lo, mid, second.last().vaddr as int);
        assert(both.drop_last() =~= first + second.drop_last());
        assert(both.last() == second.last());
    }
}

/// A tiling goes upwards.
proof fn lemma_tiled_up(leaves: Seq<Placement>, lo: int, hi: int)
    requires
        tiled(leaves, lo, hi),
    ensures
        lo <= hi,
    decreases leaves.len(),
{
    if leaves.len() > 0 {
        lemma_tiled_up(leaves.drop_last(), lo, leaves.last().vaddr as int);
    }
}

/// Whether a leaf is backed by the bytes of a request that stand at its place:
/// by the one extent, or by one of the extents that follow one another.
pub open spec fn backed(leaf: Placement, lo: u64, backing: MapBacking<'_>) -> bool {
    match backing {
        MapBacking::Contiguous(phys) => leaf.paddr == phys.lo() + (leaf.vaddr - lo),
        MapBacking::Scattered(extents) => exists|e: int|
            in_extent(leaf, lo, #[trigger] extents@[e], total_len(extents@, e as nat) as int) && 0
                <= e < extents@.len(),
    }
}

/// Whether a leaf lies in the extent that starts `offset` bytes into a request.
pub open spec fn in_extent(leaf: Placement, lo: u64, extent: PhysAddrRange, offset: int) -> bool {
    &&& lo + offset <= leaf.vaddr
    &&& leaf.vaddr + leaf.size.len() <= lo + offset + extent.len()
    &&& leaf.paddr == extent.lo() + (leaf.vaddr - (lo + offset))
}

/// The leaves of an extent adjoin and are backed by it.
proof fn lemma_extent_tiles<Meta: PagingMetaData>(
    vbase: u64,
    pbase: u64,
    total: u64,
    offset: u64,
    fixed: Option<PageSize>,
)
    requires
        offset <= total,
        extent_plan::<Meta>(vbase, pbase, total, offset, fixed).stop is None,
    ensures
        ({
            let leaves = extent_plan::<Meta>(vbase, pbase, total, offset, fixed).leaves;
            &&& tiled(leaves, vbase + offset, vbase + total)
            &&& forall|k: int|
                0 <= k < leaves.len() ==> {
                    &&& well_placed::<Meta>(#[trigger] leaves[k])
                    &&& vbase <= leaves[k].vaddr
                    &&& leaves[k].vaddr + leaves[k].size.len() <= vbase + total
                    &&& leaves[k].paddr - pbase == leaves[k].vaddr - vbase
                }
        }),
    decreases total - offset,
{
    let plan = extent_plan::<Meta>(vbase, pbase, total, offset, fixed);
    if offset < total {
        let leaf = next_leaf::<Meta>(vbase, pbase, total, offset, fixed)->Ok_0;
        lemma_next_leaf::<Meta>(vbase, pbase, total, offset, fixed);
        let next = (offset + leaf.size.len()) as u64;
        let rest = extent_plan::<Meta>(vbase, pbase, total, next, fixed);
        lemma_extent_tiles::<Meta>(vbase, pbase, total, next, fixed);
        let one = seq![leaf];
        assert(one.drop_last() =~= Seq::<Placement>::empty());
        assert(one.last() == leaf);
        assert(tiled(one.drop_last(), vbase + offset, leaf.vaddr as int));
        assert(tiled(one, vbase + offset, vbase + next));
        lemma_tiled_append(one, rest.leaves, vbase + offset, vbase + next, vbase + total);
        assert(plan.leaves =~= one + rest.leaves);
        assert forall|k: int| 0 <= k < plan.leaves.len() implies {
            &&& well_placed::<Meta>(#[trigger] plan.leaves[k])
            &&& vbase <= plan.leaves[k].vaddr
            &&& plan.leaves[k].vaddr + plan.leaves[k].size.len() <= vbase + total
            &&& plan.leaves[k].paddr - pbase == plan.leaves[k].vaddr - vbase
        } by {
            if k > 0 {
                assert(plan.leaves[k] == rest.leaves[k - 1]);
            }
        }
    }
}

/// The leaves of a contiguous extent adjoin and are backed by it.
proof fn lemma_contiguous_tiles<Meta: PagingMetaData>(
    range: AddrRange<Meta::VirtAddr>,
    phys: PhysAddrRange,
    fixed: Option<PageSize>,
)
    requires
        contiguous_plan::<Meta>(range, phys, fixed).stop is None,
    ensures
        ({
            let leaves = contiguous_plan::<Meta>(range, phys, fixed).leaves;
            &&& range.lo() + range.len() == range.hi()
            &&& range.len() == phys.len()
            &&& tiled(leaves, range.lo() as int, range.hi() as int)
            &&& forall|k: int|
                0 <= k < leaves.len() ==> well_placed::<Meta>(#[trigger] leaves[k]) && in_extent(
                    leaves[k],
                    range.lo(),
                    phys,
                    0,
                )
        }),
{
    let plan = contiguous_plan::<Meta>(range, phys, fixed);
    match exact_leaf::<Meta>(range, phys.lo(), fixed) {
        Ok(Some(leaf)) => {
            let size = PageSize::of_len(range.len())->0;
            let s: PageSize = choose|s: PageSize| s.len() == range.len();
            assert(s.len() == range.len());
            lemma_admitted::<Meta>(range.lo(), range.hi(), phys.lo(), size);
            lemma_no_wrap(range.lo(), range.hi(), size);
            assert(plan.leaves.drop_last() =~= Seq::<Placement>::empty());
            assert(plan.leaves.last() == leaf);
            assert(tiled(plan.leaves.drop_last(), range.lo() as int, leaf.vaddr as int));
        },
        _ => {
            lemma_extent_tiles::<Meta>(range.lo(), phys.lo(), range.len(), 0, fixed);
        },
    }
}

/// The leaves of extents that follow one another adjoin and are backed by
/// them.
proof fn lemma_scatter_tiles<Meta: PagingMetaData>(
    vbase: u64,
    extents: Seq<PhysAddrRange>,
    i: nat,
    granule: PageSize,
)
    requires
        one_to_one::<Meta::VirtAddr>(),
        i <= extents.len(),
        scatter_plan::<Meta>(
            vbase,
            total_len(extents, i) as int,
            extents,
            i,
            granule,
        ).stop is None,
    ensures
        ({
            let leaves = scatter_plan::<Meta>(
                vbase,
                total_len(extents, i) as int,
                extents,
                i,
                granule,
            ).leaves;
            &&& tiled(
                leaves,
                vbase + total_len(extents, i),
                vbase + total_len(extents, extents.len()),
            )
            &&& forall|k: int|
                0 <= k < leaves.len() ==> well_placed::<Meta>(#[trigger] leaves[k]) && exists|e: int|
                    in_extent(
                        leaves[k],
                        vbase,
                        #[trigger] extents[e],
                        total_len(extents, e as nat) as int,
                    ) && 0 <= e < extents.len()
        }),
    decreases extents.len() - i,
{
    let offset = total_len(extents, i) as int;
    let plan = scatter_plan::<Meta>(vbase, offset, extents, i, granule);
    if i < extents.len() {
        let extent = extents[i as int];
        let lo = vbase + offset;
        let hi = lo + extent.len();
        let vrange = AddrRange::<Meta::VirtAddr>::of(lo as u64, hi as u64);
        let first = contiguous_plan::<Meta>(vrange, extent, Some(granule));
        let rest = scatter_plan::<Meta>(vbase, offset + extent.len(), extents, i + 1, granule);
        assert(total_len(extents, i + 1) == offset + extent.len());
        assert(plan == followed_by(first, rest));
        lemma_contiguous_tiles::<Meta>(vrange, extent, Some(granule));
        lemma_scatter_tiles::<Meta>(vbase, extents, i + 1, granule);
        lemma_tiled_append(
            first.leaves,
            rest.leaves,
            lo,
            hi,
            vbase + total_len(extents, extents.len()),
        );
        assert forall|k: int| 0 <= k < plan.leaves.len() implies well_placed::<Meta>(
            #[trigger] plan.leaves[k],
        ) && exists|e: int|
            in_extent(
                plan.leaves[k],
                vbase,
                #[trigger] extents[e],
                total_len(extents, e as nat) as int,
            ) && 0 <= e < extents.len() by {
            if k < first.leaves.len() {
                assert(plan.leaves[k] == first.leaves[k]);
                assert(in_extent(plan.leaves[k], vbase, extents[i as int], offset));
            } else {
                assert(plan.leaves[k] == rest.leaves[k - first.leaves.len()]);
            }
        }
    }
}

/// A request that can be cut is cut into leaves that adjoin, together make up
/// the range, and are backed by what stands at their place in the backing.
pub proof fn law_plan_covers_request<Meta: PagingMetaData>(
    range: AddrRange<Meta::VirtAddr>,
    backing: MapBacking<'_>,
    contiguity: MappingContiguity,
)
    requires
        one_to_one::<Meta::VirtAddr>(),
        map_plan::<Meta>(range, Ok(backing), contiguity).stop is None,
    ensures
        ({
            let leaves = map_plan::<Meta>(range, Ok(backing), contiguity).leaves;
            &&& tiled(leaves, range.lo() as int, range.hi() as int)
            &&& forall|k: int|
                0 <= k < leaves.len() ==> well_placed::<Meta>(#[trigger] leaves[k]) && backed(
                    leaves[k],
                    range.lo(),
                    backing,
                )
        }),
{
    let plan = map_plan::<Meta>(range, Ok(backing), contiguity);
    match whole_leaf::<Meta>(range, Ok(backing), contiguity) {
        Ok(Some(leaf)) => {
            let size = PageSize::of_len(range.len())->0;
            let s: PageSize = choose|s: PageSize| s.len() == range.len();
            assert(s.len() == range.len());
            lemma_admitted::<Meta>(range.lo(), range.hi(), leaf.paddr, size);
            lemma_no_wrap(range.lo(), range.hi(), size);
            assert(plan.leaves.drop_last() =~= Seq::<Placement>::empty());
            assert(plan.leaves.last() == leaf);
            assert(tiled(plan.leaves.drop_last(), range.lo() as int, leaf.vaddr as int));
        },
        _ => match (contiguity, backing) {
            (MappingContiguity::Contiguous, MapBacking::Contiguous(phys)) => {
                lemma_contiguous_tiles::<Meta>(range, phys, None);
            },
            (MappingContiguity::Scattered(granule), MapBacking::Contiguous(phys)) => {
                lemma_contiguous_tiles::<Meta>(range, phys, Some(granule));
            },
            (MappingContiguity::Scattered(granule), MapBacking::Scattered(extents)) => {
                lemma_scatter_tiles::<Meta>(range.lo(), extents@, 0, granule);
            },
            _ => {},
        },
    }
}

/// Once adjoining leaves are installed, every legal address among them leads
/// to its place behind the leaf that covers it, and no other address leads
/// elsewhere than before.
pub proof fn law_installed_leaves_translate<Meta: PagingMetaData, Entry: PageTableEntry>(
    before: TreeView,
    after: TreeView,
    leaves: Seq<Placement>,
    flags: Entry::Flags,
    lo: int,
    hi: int,
    w: u64,
)
    requires
        regular::<Meta>(),
        leaves_fill_blocks::<Meta>(),
        tiled(leaves, lo, hi),
        forall|k: int|
            0 <= k < leaves.len() ==> well_placed::<Meta>(#[trigger] leaves[k]) && faithful::<
                Entry,
            >(word_of::<Entry>(leaves[k], flags), leaves[k].level, leaves[k].paddr),
        installs::<Meta, Entry>(before, after, leaves, flags),
        Meta::in_range(w),
    ensures
        lo <= w < hi ==> exists|k: int|
            {
                let leaf = #[trigger] leaves[k];
                &&& 0 <= k < leaves.len()
                &&& leaf.vaddr <= w < leaf.vaddr + leaf.size.len()
                &&& translation::<Meta, Entry>(after, w) == Some(
                    (
                        leaf.paddr + (w - leaf.vaddr),
                        Entry::flags_of(word_of::<Entry>(leaf, flags)),
                    ),
                )
            },
        !(lo <= w < hi) ==> outcome::<Meta, Entry>(after, w) == outcome::<Meta, Entry>(before, w),
    decreases leaves.len(),
{
    if leaves.len() > 0 {
        let last = leaves.last();
        let raw = word_of::<Entry>(last, flags);
        let mid: TreeView = choose|mid: TreeView|
            installs::<Meta, Entry>(before, mid, leaves.drop_last(), flags) && #[trigger] placed::<
                Meta,
                Entry,
            >(mid, after, last, raw, Ok(()));
        assert(leaves[leaves.len() - 1] == last);
        assert forall|k: int| 0 <= k < leaves.drop_last().len() implies well_placed::<Meta>(
            #[trigger] leaves.drop_last()[k],
        ) && faithful::<Entry>(
            word_of::<Entry>(leaves.drop_last()[k], flags),
            leaves.drop_last()[k].level,
            leaves.drop_last()[k].paddr,
        ) by {
            assert(leaves.drop_last()[k] == leaves[k]);
        }
        law_installed_leaves_translate::<Meta, Entry>(
            before,
            mid,
            leaves.drop_last(),
            flags,
            lo,
            last.vaddr as int,
            w,
        );
        lemma_tiled_up(leaves.drop_last(), lo, last.vaddr as int);
        law_leaf_covers_its_range::<Meta>(last.vaddr, w, last.level, last.size);
        assert(outcome::<Meta, Entry>(after, w) == if same_path::<Meta>(
            last.vaddr,
            w,
            last.level,
        ) {
            ending::<Entry>(raw, last.level)
        } else {
            outcome::<Meta, Entry>(mid, w)
        });
        if last.vaddr <= w < last.vaddr + last.size.len() {
            lemma_floor(last.vaddr, w, last.size);
            last.size.lemma_len();
            lemma_mod_decreases(w as nat, last.size.len() as nat);
        } else if lo <= w < hi {
            let k: int = choose|k: int|
                {
                    let leaf = #[trigger] leaves.drop_last()[k];
                    &&& 0 <= k < leaves.drop_last().len()
                    &&& leaf.vaddr <= w < leaf.vaddr + leaf.size.len()
                    &&& translation::<Meta, Entry>(mid, w) == Some(
                        (
                            leaf.paddr + (w - leaf.vaddr),
                            Entry::flags_of(word_of::<Entry>(leaf, flags)),
                        ),
                    )
                };
            assert(leaves[k] == leaves.drop_last()[k]);
        }
    }
}

/// A request that succeeds maps its whole range and nothing else: every legal
/// address in the range leads to its place in the backing, and every other
/// address leads where it led before.
pub proof fn law_map_request<Meta: PagingMetaData, Entry: PageTableEntry>(
    before: TreeView,
    after: TreeView,
    range: AddrRange<Meta::VirtAddr>,
    backing: MapBacking<'_>,
    flags: MappingFlags<Entry::Flags>,
    due: Pending,
    w: u64,
)
    requires
        regular::<Meta>(),
        leaves_fill_blocks::<Meta>(),
        map_effect::<Meta, Entry>(before, after, range, Ok(backing), flags, due, Ok(())),
        forall|k: int|
            #![trigger map_plan::<Meta>(range, Ok(backing), flags.contiguity).leaves[k]]
            {
                let leaves = map_plan::<Meta>(range, Ok(backing), flags.contiguity).leaves;
                0 <= k < leaves.len() ==> faithful::<Entry>(
                    word_of::<Entry>(leaves[k], flags.leaf),
                    leaves[k].level,
                    leaves[k].paddr,
                )
            },
        Meta::in_range(w),
    ensures
        range.lo() <= w < range.hi() ==> exists|leaf: Placement|
            {
                &&& leaf.vaddr <= w < leaf.vaddr + leaf.size.len()
                &&& #[trigger] backed(leaf, range.lo(), backing)
                &&& translation::<Meta, Entry>(after, w) == Some(
                    (
                        leaf.paddr + (w - leaf.vaddr),
                        Entry::flags_of(word_of::<Entry>(leaf, flags.leaf)),
                    ),
                )
            },
        !(range.lo() <= w < range.hi()) ==> outcome::<Meta, Entry>(after, w) == outcome::<
            Meta,
            Entry,
        >(before, w),
{
    let plan = map_plan::<Meta>(range, Ok(backing), flags.contiguity);
    let k: int = choose|k: int|
        {
            &&& #[trigger] mapped::<Meta, Entry>(before, after, plan, flags.leaf, k, Ok(()))
            &&& due == queued_all(
                Pending::Ranges(Set::empty()),
                plan.leaves.take(k),
                Meta::BASE_PAGE_SIZE,
            )
        };
    assert(mapped::<Meta, Entry>(before, after, plan, flags.leaf, k, Ok(())));
    assert(k == plan.leaves.len());
    assert(plan.leaves.take(k) =~= plan.leaves);
    law_plan_covers_request::<Meta>(range, backing, flags.contiguity);
    law_installed_leaves_translate::<Meta, Entry>(
        before,
        after,
        plan.leaves,
        flags.leaf,
        range.lo() as int,
        range.hi() as int,
        w,
    );
    if range.lo() <= w < range.hi() {
        let j: int = choose|j: int|
            {
                let leaf = #[trigger] plan.leaves[j];
                &&& 0 <= j < plan.leaves.len()
                &&& leaf.vaddr <= w < leaf.vaddr + leaf.size.len()
                &&& translation::<Meta, Entry>(after, w) == Some(
                    (
                        leaf.paddr + (w - leaf.vaddr),
                        Entry::flags_of(word_of::<Entry>(leaf, flags.leaf)),
                    ),
                )
            };
        assert(backed(plan.leaves[j], range.lo(), backing));
    }
}

/// No invalidation is lost: once leaves of whole pages are queued, draining the
/// queue invalidates every byte of each of them, and nothing else that was not
/// due before, unless it is a full flush.
pub proof fn law_every_leaf_is_flushed(
    due: Pending,
    leaves: Seq<Placement>,
    page: PageSize,
    k: int,
    x: int,
)
    requires
        page_aligned(due, page),
        forall|j: int|
            0 <= j < leaves.len() ==> (#[trigger] leaves[j]).vaddr % page.len() == 0
                && leaves[j].size.len() % page.len() == 0,
    ensures
        page_aligned(queued_all(due, leaves, page), page),
        covered(due, x, page) ==> covered(queued_all(due, leaves, page), x, page),
        0 <= k < leaves.len() && leaves[k].vaddr <= x < leaves[k].vaddr + leaves[k].size.len()
            ==> covered(queued_all(due, leaves, page), x, page),
        queued_all(due, leaves, page) is Ranges && covered(
            queued_all(due, leaves, page),
            x,
            page,
        ) ==> covered(due, x, page) || exists|j: int|
            0 <= j < leaves.len() && (#[trigger] leaves[j]).vaddr <= x < leaves[j].vaddr
                + leaves[j].size.len(),
    decreases leaves.len(),
{
    if leaves.len() > 0 {
        let last = leaves[leaves.len() - 1];
        assert forall|j: int| 0 <= j < leaves.drop_last().len() implies (
        #[trigger] leaves.drop_last()[j]).vaddr % page.len() == 0
            && leaves.drop_last()[j].size.len() % page.len() == 0 by {
            assert(leaves.drop_last()[j] == leaves[j]);
        }
        law_every_leaf_is_flushed(due, leaves.drop_last(), page, k, x);
        law_queue_keeps_and_adds(
            queued_all(due, leaves.drop_last(), page),
            last.vaddr,
            last.size.len(),
            page,
            x,
        );
        if exists|j: int|
            0 <= j < leaves.drop_last().len() && (#[trigger] leaves.drop_last()[j]).vaddr <= x
                < leaves.drop_last()[j].vaddr + leaves.drop_last()[j].size.len() {
            let j: int = choose|j: int|
                0 <= j < leaves.drop_last().len() && (#[trigger] leaves.drop_last()[j]).vaddr <= x
                    < leaves.drop_last()[j].vaddr + leaves.drop_last()[j].size.len();
            assert(leaves[j] == leaves.drop_last()[j]);
        }
        assert(leaves[leaves.len() - 1] == last);
    }
}

/// A cursor cuts a request into the same leaves as the walker does, and ends it
/// with the same error, unless the range is inverted.
pub proof fn law_cursor_maps_alike<Meta: PagingMetaData>(
    range: AddrRange<Meta::VirtAddr>,
    backing: MapBacking<'_>,
    contiguity: MappingContiguity,
)
    requires
        range.lo() <= range.hi(),
    ensures
        map_plan::<Meta>(range, Ok(backing), contiguity) == request_plan::<Meta>(
            range,
            backing,
            contiguity,
        ),
{
}

} // verus!
