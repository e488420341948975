//! What a query finds: an exact range behind an aligned address.
//!
//! The walker writes leaves at aligned addresses only. A tree that it built
//! therefore holds no other, whatever operations built it.

use crate::addr::{AddrRange, PhysAddr};
use crate::effect::{
    fails_with, folded, located, lookup, merge_goal, merged, merged_raw, outcome, part, part_raw,
    placed, protected, remapped, replaced, split, split_leaf, status, table_at, uniform, unmapped,
    TreeView,
};
use crate::error::{PagingError, PagingResult};
use crate::flush::Pending;
use crate::geometry::{block, blocks_legal, law_path_is_block, leaves_fill_blocks, regular};
use crate::laws::{
    faithful, lemma_leaf_of_path, lemma_located, lemma_merge_goal, lemma_outcome_level,
    lemma_split_leaf, parts_faithful, whole_faithful,
};
use crate::mapping::{MapBacking, Mapping, MappingFlags};
use crate::meta::PageSize;
use crate::paging::{PageTableEntry, PagingMetaData};
use crate::plan::{well_placed, Placement, Plan};
use crate::request::{installs, map_effect, map_plan, mapped, queued_all, word_of};
use crate::tree::{ending, lemma_slot_bound, same_path, slot_of, tree, Walk};
use vstd::arithmetic::div_mod::{
    lemma_fundamental_div_mod, lemma_fundamental_div_mod_converse, lemma_mod_bound,
    lemma_mod_multiples_basic,
};
use vstd::arithmetic::power2::{lemma_pow2_adds, lemma_pow2_pos, pow2};
use vstd::prelude::*;

verus! {

/// Whether a leaf word at `level` points at an address that is aligned to the
/// size of leaves there.
pub open spec fn word_aligned<Meta: PagingMetaData, Entry: PageTableEntry>(
    raw: u64,
    level: u8,
) -> bool {
    PageSize::of_shift(Meta::shift(level)) matches Some(size) ==> Entry::target(raw) % size.len()
        == 0
}

/// Whether a walk ends at no leaf or an aligned one.
pub open spec fn ends_aligned<Meta: PagingMetaData, Entry: PageTableEntry>(walk: Walk) -> bool {
    walk matches Walk::Leaf { level, raw } ==> word_aligned::<Meta, Entry>(raw, level)
}

/// Whether every leaf of a tree points at an address that is aligned to its
/// size.
pub open spec fn leaves_aligned<Meta: PagingMetaData, Entry: PageTableEntry>(
    view: TreeView,
) -> bool {
    forall|w: u64| ends_aligned::<Meta, Entry>(#[trigger] outcome::<Meta, Entry>(view, w))
}

/// Putting an aligned leaf in place keeps leaves aligned.
proof fn lemma_replaced_aligned<Meta: PagingMetaData, Entry: PageTableEntry>(
    before: TreeView,
    after: TreeView,
    vaddr: u64,
    level: u8,
    raw: u64,
)
    requires
        leaves_aligned::<Meta, Entry>(before),
        replaced::<Meta, Entry>(before, after, vaddr, level, raw),
        word_aligned::<Meta, Entry>(raw, level),
    ensures
        leaves_aligned::<Meta, Entry>(after),
{
    assert forall|w: u64| ends_aligned::<Meta, Entry>(
        #[trigger] outcome::<Meta, Entry>(after, w),
    ) by {
        assert(outcome::<Meta, Entry>(after, w) == if same_path::<Meta>(vaddr, w, level) {
            ending::<Entry>(raw, level)
        } else {
            outcome::<Meta, Entry>(before, w)
        });
    }
}

/// A new page table has no leaves, so they are all aligned.
pub proof fn law_new_table_is_aligned<Meta: PagingMetaData, Entry: PageTableEntry>(view: TreeView)
    requires
        forall|w: u64| #[trigger] outcome::<Meta, Entry>(view, w) == Walk::Absent,
    ensures
        leaves_aligned::<Meta, Entry>(view),
{
}

/// Installing well-placed leaves keeps leaves aligned.
proof fn lemma_installs_aligned<Meta: PagingMetaData, Entry: PageTableEntry>(
    before: TreeView,
    after: TreeView,
    leaves: Seq<Placement>,
    flags: Entry::Flags,
)
    requires
        leaves_fill_blocks::<Meta>(),
        leaves_aligned::<Meta, Entry>(before),
        installs::<Meta, Entry>(before, after, leaves, flags),
        forall|k: int|
            0 <= k < leaves.len() ==> well_placed::<Meta>(#[trigger] leaves[k]) && faithful::<
                Entry,
            >(word_of::<Entry>(leaves[k], flags), leaves[k].level, leaves[k].paddr),
    ensures
        leaves_aligned::<Meta, Entry>(after),
    decreases leaves.len(),
{
    if leaves.len() > 0 {
        let rest = leaves.drop_last();
        let last = leaves.last();
        let raw = word_of::<Entry>(last, flags);
        let mid: TreeView = choose|mid: TreeView|
            installs::<Meta, Entry>(before, mid, rest, flags) && #[trigger] placed::<Meta, Entry>(
                mid,
                after,
                last,
                raw,
                Ok(()),
            );
        assert(placed::<Meta, Entry>(mid, after, last, raw, Ok(())));
        assert forall|k: int| 0 <= k < rest.len() implies well_placed::<Meta>(#[trigger] rest[k])
            && faithful::<Entry>(word_of::<Entry>(rest[k], flags), rest[k].level, rest[k].paddr) by {
            assert(rest[k] == leaves[k]);
        }
        lemma_installs_aligned::<Meta, Entry>(before, mid, rest, flags);
        assert(last == leaves[leaves.len() - 1]);
        assert(last.size.shift() == Meta::shift(last.level));
        last.size.lemma_unique();
        lemma_replaced_aligned::<Meta, Entry>(mid, after, last.vaddr, last.level, raw);
    }
}

/// Mapping keeps leaves aligned, whether the request succeeds or not.
pub proof fn law_map_keeps_alignment<Meta: PagingMetaData, Entry: PageTableEntry>(
    before: TreeView,
    after: TreeView,
    range: AddrRange<Meta::VirtAddr>,
    backing: PagingResult<MapBacking<'_>>,
    flags: MappingFlags<Entry::Flags>,
    due: Pending,
    r: PagingResult,
)
    requires
        leaves_fill_blocks::<Meta>(),
        leaves_aligned::<Meta, Entry>(before),
        map_effect::<Meta, Entry>(before, after, range, backing, flags, due, r),
        forall|k: int|
            #![trigger map_plan::<Meta>(range, backing, flags.contiguity).leaves[k]]
            {
                let leaves = map_plan::<Meta>(range, backing, flags.contiguity).leaves;
                0 <= k < leaves.len() ==> faithful::<Entry>(
                    word_of::<Entry>(leaves[k], flags.leaf),
                    leaves[k].level,
                    leaves[k].paddr,
                )
            },
    ensures
        leaves_aligned::<Meta, Entry>(after),
{
    let plan: Plan = map_plan::<Meta>(range, backing, flags.contiguity);
    crate::encoding::law_plan_is_well_placed::<Meta>(range, backing, flags.contiguity);
    let k: int = choose|k: int|
        {
            &&& #[trigger] mapped::<Meta, Entry>(before, after, plan, flags.leaf, k, r)
            &&& due == queued_all(
                Pending::Ranges(Set::empty()),
                plan.leaves.take(k),
                Meta::BASE_PAGE_SIZE,
            )
        };
    assert(mapped::<Meta, Entry>(before, after, plan, flags.leaf, k, r));
    let leaves = plan.leaves.take(k);
    let mid: TreeView = choose|mid: TreeView|
        {
            &&& #[trigger] installs::<Meta, Entry>(before, mid, leaves, flags.leaf)
            &&& if k == plan.leaves.len() {
                &&& after == mid
                &&& match plan.stop {
                    None => r is Ok,
                    Some(e) => r == Err::<(), PagingError>(e),
                }
            } else {
                r matches Err(e) && crate::effect::turned_down::<Meta, Entry>(
                    mid,
                    after,
                    plan.leaves[k],
                    e,
                )
            }
        };
    assert(installs::<Meta, Entry>(before, mid, leaves, flags.leaf));
    assert forall|i: int| 0 <= i < leaves.len() implies well_placed::<Meta>(#[trigger] leaves[i])
        && faithful::<Entry>(
        word_of::<Entry>(leaves[i], flags.leaf),
        leaves[i].level,
        leaves[i].paddr,
    ) by {
        assert(leaves[i] == plan.leaves[i]);
    }
    lemma_installs_aligned::<Meta, Entry>(before, mid, leaves, flags.leaf);
    assert forall|w: u64| ends_aligned::<Meta, Entry>(
        #[trigger] outcome::<Meta, Entry>(after, w),
    ) by {
        assert(outcome::<Meta, Entry>(after, w) == outcome::<Meta, Entry>(mid, w));
    }
}

/// Remapping keeps leaves aligned.
pub proof fn law_remap_keeps_alignment<Meta: PagingMetaData, Entry: PageTableEntry>(
    before: TreeView,
    after: TreeView,
    range: AddrRange<Meta::VirtAddr>,
    paddr: PhysAddr,
    flags: Entry::Flags,
    r: PagingResult<Mapping<Entry, Meta::VirtAddr>>,
)
    requires
        leaves_aligned::<Meta, Entry>(before),
        remapped::<Meta, Entry>(before, after, range, paddr, flags, r),
        located::<Meta, Entry>(before, range) matches Ok(leaf) ==> faithful::<Entry>(
            Entry::leaf_raw(paddr.0, flags, leaf.size),
            leaf.level,
            paddr.0,
        ),
    ensures
        leaves_aligned::<Meta, Entry>(after),
{
    if after != before {
        let leaf = located::<Meta, Entry>(before, range)->Ok_0;
        lemma_replaced_aligned::<Meta, Entry>(
            before,
            after,
            range.lo(),
            leaf.level,
            Entry::leaf_raw(paddr.0, flags, leaf.size),
        );
    }
}

/// Protecting keeps leaves aligned.
pub proof fn law_protect_keeps_alignment<Meta: PagingMetaData, Entry: PageTableEntry>(
    before: TreeView,
    after: TreeView,
    range: AddrRange<Meta::VirtAddr>,
    flags: Entry::Flags,
    r: PagingResult<Mapping<Entry, Meta::VirtAddr>>,
)
    requires
        leaves_aligned::<Meta, Entry>(before),
        protected::<Meta, Entry>(before, after, range, flags, r),
        located::<Meta, Entry>(before, range) matches Ok(leaf) ==> faithful::<Entry>(
            Entry::leaf_raw(Entry::target(leaf.raw), flags, leaf.size),
            leaf.level,
            Entry::target(leaf.raw),
        ),
    ensures
        leaves_aligned::<Meta, Entry>(after),
{
    if after != before {
        let leaf = located::<Meta, Entry>(before, range)->Ok_0;
        assert(outcome::<Meta, Entry>(before, range.lo()) is Leaf);
        lemma_replaced_aligned::<Meta, Entry>(
            before,
            after,
            range.lo(),
            leaf.level,
            Entry::leaf_raw(Entry::target(leaf.raw), flags, leaf.size),
        );
    }
}

/// Unmapping keeps leaves aligned.
pub proof fn law_unmap_keeps_alignment<Meta: PagingMetaData, Entry: PageTableEntry>(
    before: TreeView,
    after: TreeView,
    range: AddrRange<Meta::VirtAddr>,
    r: PagingResult<Mapping<Entry, Meta::VirtAddr>>,
)
    requires
        leaves_aligned::<Meta, Entry>(before),
        unmapped::<Meta, Entry>(before, after, range, r),
    ensures
        leaves_aligned::<Meta, Entry>(after),
{
    if let Ok(leaf) = located::<Meta, Entry>(before, range) {
        assert forall|w: u64| ends_aligned::<Meta, Entry>(
        #[trigger] outcome::<Meta, Entry>(after, w),
    ) by {
            assert(outcome::<Meta, Entry>(after, w) == if same_path::<Meta>(
                range.lo(),
                w,
                leaf.level,
            ) {
                Walk::Absent
            } else {
                outcome::<Meta, Entry>(before, w)
            });
        }
    }
}

/// Splitting keeps leaves aligned.
pub proof fn law_split_keeps_alignment<Meta: PagingMetaData, Entry: PageTableEntry>(
    before: TreeView,
    after: TreeView,
    range: AddrRange<Meta::VirtAddr>,
    r: PagingResult<PageSize>,
)
    requires
        regular::<Meta>(),
        tree::<Meta, Entry>(before.frames, before.tables, before.root),
        leaves_aligned::<Meta, Entry>(before),
        split::<Meta, Entry>(before, after, range, r),
        split_leaf::<Meta, Entry>(before, range) matches Ok((leaf, finer)) ==> parts_faithful::<
            Meta,
            Entry,
        >(leaf, finer),
    ensures
        leaves_aligned::<Meta, Entry>(after),
{
    if let Ok((leaf, finer)) = split_leaf::<Meta, Entry>(before, range) {
        let below = (leaf.level - 1) as u8;
        lemma_split_leaf::<Meta, Entry>(before, range);
        lemma_located::<Meta, Entry>(before, range);
        PageSize::lemma_of_shift(Meta::shift(below));
        finer.lemma_unique();
        leaf.size.lemma_unique();
        leaf.size.lemma_len();
        finer.lemma_len();
        assert(ends_aligned::<Meta, Entry>(outcome::<Meta, Entry>(before, range.lo())));
        assert(Meta::shift(below) + Meta::index_bits(below) == Meta::shift(leaf.level));
        assert forall|w: u64| ends_aligned::<Meta, Entry>(
            #[trigger] outcome::<Meta, Entry>(after, w),
        ) by {
            if r is Ok && same_path::<Meta>(range.lo(), w, leaf.level) {
                let i = slot_of::<Meta>(below, w);
                lemma_slot_bound::<Meta>(below, w);
                assert(outcome::<Meta, Entry>(after, w) == ending::<Entry>(
                    part_raw::<Entry>(leaf, finer, i),
                    below,
                ));
                assert(Entry::target(part_raw::<Entry>(leaf, finer, i)) == part::<Entry>(
                    leaf,
                    finer,
                    i,
                ));
                lemma_part_aligned(
                    Entry::target(leaf.raw),
                    Meta::shift(below) as nat,
                    Meta::index_bits(below) as nat,
                    i,
                );
            } else {
                assert(outcome::<Meta, Entry>(after, w) == outcome::<Meta, Entry>(before, w));
            }
        }
    }
}

/// A step of finer blocks from an aligned address is aligned to them.
proof fn lemma_part_aligned(paddr: u64, finer: nat, fan: nat, i: int)
    requires
        paddr as int % pow2(finer + fan) as int == 0,
    ensures
        (paddr + i * pow2(finer)) % pow2(finer) as int == 0,
{
    let one = pow2(finer) as int;
    let n = pow2(fan) as int;
    let q = paddr as int / (one * n);
    lemma_pow2_pos(finer);
    lemma_pow2_pos(fan);
    lemma_pow2_adds(finer, fan);
    assert(one * n > 0) by (nonlinear_arith)
        requires
            one > 0,
            n > 0,
    ;
    lemma_fundamental_div_mod(paddr as int, one * n);
    assert(paddr + i * one == (n * q + i) * one) by (nonlinear_arith)
        requires
            paddr == (one * n) * q,
    ;
    lemma_mod_multiples_basic(n * q + i, one);
}

/// Merging keeps leaves aligned.
pub proof fn law_merge_keeps_alignment<Meta: PagingMetaData, Entry: PageTableEntry>(
    before: TreeView,
    after: TreeView,
    range: AddrRange<Meta::VirtAddr>,
    r: PagingResult<PageSize>,
)
    requires
        leaves_fill_blocks::<Meta>(),
        leaves_aligned::<Meta, Entry>(before),
        merged::<Meta, Entry>(before, after, range, r),
        forall|t: u64, level: u8, size: PageSize|
            merge_goal::<Meta>(range) == Ok::<(PageSize, u8), PagingError>((size, level))
                && table_at::<Meta>(before.tables, t, range.lo(), (level - 1) as u8)
                ==> #[trigger] whole_faithful::<Entry>(before.frames, t, level, size),
    ensures
        leaves_aligned::<Meta, Entry>(after),
{
    if after != before {
        let (size, level) = merge_goal::<Meta>(range)->Ok_0;
        let below = (level - 1) as u8;
        lemma_merge_goal::<Meta>(range);
        size.lemma_unique();
        let finer = PageSize::of_shift(Meta::shift(below))->0;
        let t: u64 = choose|t: u64|
            {
                &&& #[trigger] table_at::<Meta>(before.tables, t, range.lo(), below)
                &&& if uniform::<Meta, Entry>(before.frames, t, below, size, finer) {
                    &&& folded::<Meta, Entry>(
                        before,
                        after,
                        range.lo(),
                        level,
                        size,
                        t,
                        status(r),
                    )
                    &&& r matches Ok(s) ==> s == size
                } else {
                    fails_with(r, PagingError::NotCoalescable) && after == before
                }
            };
        assert(table_at::<Meta>(before.tables, t, range.lo(), below));
        assert(whole_faithful::<Entry>(before.frames, t, level, size));
        assert(size.shift() == Meta::shift(level));
        lemma_replaced_aligned::<Meta, Entry>(
            before,
            after,
            range.lo(),
            level,
            merged_raw::<Entry>(before.frames, t, size),
        );
    }
}

/// A query finds the leaf that covers an address: its range holds the address,
/// is one page of the leaf's size, and starts at a multiple of it; the address
/// behind it is a multiple of it too, if leaves are aligned; and a query for any
/// other legal address in the range finds the same. All are legal where blocks
/// are.
pub proof fn law_query_is_exact<Meta: PagingMetaData, Entry: PageTableEntry>(
    view: TreeView,
    v: u64,
    w: u64,
)
    requires
        regular::<Meta>(),
        tree::<Meta, Entry>(view.frames, view.tables, view.root),
        lookup::<Meta, Entry>(view, v) is Ok,
    ensures
        ({
            let m = lookup::<Meta, Entry>(view, v)->Ok_0;
            &&& m.range.lo() <= v < m.range.hi()
            &&& PageSize::of_len(m.range.len()) matches Some(size)
            &&& m.range.lo() + size.len() == m.range.hi()
            &&& m.range.lo() % size.len() == 0
            &&& leaves_aligned::<Meta, Entry>(view) ==> m.paddr.0 % size.len() == 0
            &&& m.range.lo() <= w < m.range.hi() && (Meta::in_range(w) || blocks_legal::<Meta>())
                ==> lookup::<Meta, Entry>(
                view,
                w,
            ) == lookup::<Meta, Entry>(view, v)
        }),
{
    let m = lookup::<Meta, Entry>(view, v)->Ok_0;
    let level = outcome::<Meta, Entry>(view, v)->level;
    let raw = outcome::<Meta, Entry>(view, v)->raw;
    let size = PageSize::of_shift(Meta::shift(level))->0;
    PageSize::lemma_of_shift(Meta::shift(level));
    size.lemma_unique();
    size.lemma_len();
    let n = size.len() as int;
    lemma_mod_bound(v as int, n);
    lemma_fundamental_div_mod(v as int, n);
    let q = v as int / n;
    assert(n * q == q * n) by (nonlinear_arith);
    lemma_mod_multiples_basic(q, n);
    assert(ends_aligned::<Meta, Entry>(outcome::<Meta, Entry>(view, v)) || !leaves_aligned::<
        Meta,
        Entry,
    >(view));
    if m.range.lo() <= w < m.range.hi() && (Meta::in_range(w) || blocks_legal::<Meta>()) {
        lemma_outcome_level::<Meta, Entry>(view, v);
        lemma_fundamental_div_mod_converse(w as int, n, q, w - m.range.lo());
        assert(block(v, Meta::shift(level) as nat) == block(w, Meta::shift(level) as nat));
        assert(Meta::in_range(v) && (Meta::in_range(w) || blocks_legal::<Meta>()));
        law_path_is_block::<Meta>(v, w, level);
        lemma_leaf_of_path::<Meta, Entry>(view, v, w, level, raw);
    }
}

} // verus!
