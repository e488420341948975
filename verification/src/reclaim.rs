//! Giving a whole tree back to the allocator.

use crate::addr::PhysAddr;
use crate::effect::frame_range;
use crate::paging::{FrameAllocator, FrameEvent, PageTableEntry, PagingMetaData};
use crate::tree::{
    layout_ok, lemma_path_unique, lemma_root, lemma_table, lemma_word, level_of, points_to,
    table_frame, tableish, top, tree,
};
use crate::walker::dealloc_table_frame;
use vstd::prelude::*;

verus! {

/// The tables of the subtree at `table`, each after the tables below it.
pub open spec fn subtree_order<Meta: PagingMetaData, Entry: PageTableEntry>(
    mem: Map<u64, Seq<u64>>,
    table: u64,
    level: u8,
) -> Seq<u64>
    decreases level, 1int, 0nat,
{
    children_order::<Meta, Entry>(mem, table, level, Meta::ENTRIES_PER_TABLE as nat).push(table)
}

/// The tables below the first `n` slots of `table`, each after the tables
/// below it.
pub open spec fn children_order<Meta: PagingMetaData, Entry: PageTableEntry>(
    mem: Map<u64, Seq<u64>>,
    table: u64,
    level: u8,
    n: nat,
) -> Seq<u64>
    decreases level, 0int, n,
{
    if level <= 1 || n == 0 {
        Seq::empty()
    } else {
        let raw = mem[table][n - 1];
        let earlier = children_order::<Meta, Entry>(mem, table, level, (n - 1) as nat);
        if tableish::<Entry>(raw, level) {
            earlier + subtree_order::<Meta, Entry>(mem, Entry::target(raw), (level - 1) as u8)
        } else {
            earlier
        }
    }
}

/// Whether the path of `t` begins with the path `prefix`.
pub open spec fn under(tables: Map<u64, Seq<int>>, t: u64, prefix: Seq<int>) -> bool {
    tables.contains_key(t) && prefix.is_prefix_of(tables[t])
}

/// A subtree's order names tables of that subtree alone.
pub proof fn lemma_order_under<Meta: PagingMetaData, Entry: PageTableEntry>(
    mem: Map<u64, Seq<u64>>,
    tables: Map<u64, Seq<int>>,
    root: u64,
    table: u64,
)
    requires
        layout_ok::<Meta>(),
        tree::<Meta, Entry>(mem, tables, root),
        tables.contains_key(table),
    ensures
        forall|x: u64|
            subtree_order::<Meta, Entry>(mem, table, level_of::<Meta>(tables, table)).contains(x)
                ==> #[trigger] under(tables, x, tables[table]),
    decreases level_of::<Meta>(tables, table), 1int, 0nat,
{
    let level = level_of::<Meta>(tables, table);
    let n = Meta::ENTRIES_PER_TABLE as nat;
    let below = children_order::<Meta, Entry>(mem, table, level, n);
    lemma_table::<Meta, Entry>(mem, tables, root, table);
    lemma_children_under::<Meta, Entry>(mem, tables, root, table, n);
    assert forall|x: u64|
        subtree_order::<Meta, Entry>(mem, table, level).contains(x) implies #[trigger] under(
        tables,
        x,
        tables[table],
    ) by {
        let k: int = choose|k: int| 0 <= k < below.push(table).len() && below.push(table)[k] == x;
        if k < below.len() {
            assert(below[k] == x);
            assert(below.contains(x));
            let i: int = choose|i: int|
                0 <= i < n && #[trigger] under(tables, x, tables[table].push(i));
            lemma_prefix_shorter(tables, x, tables[table], i);
        } else {
            assert(tables[x] =~= tables[x].subrange(0, tables[x].len() as int));
        }
    }
}

/// The order of the first `n` children names tables below those slots alone.
pub proof fn lemma_children_under<Meta: PagingMetaData, Entry: PageTableEntry>(
    mem: Map<u64, Seq<u64>>,
    tables: Map<u64, Seq<int>>,
    root: u64,
    table: u64,
    n: nat,
)
    requires
        layout_ok::<Meta>(),
        tree::<Meta, Entry>(mem, tables, root),
        tables.contains_key(table),
        n <= Meta::ENTRIES_PER_TABLE,
    ensures
        forall|x: u64| #[trigger]
            children_order::<Meta, Entry>(mem, table, level_of::<Meta>(tables, table), n).contains(
                x,
            ) ==> exists|i: int| 0 <= i < n && #[trigger] under(tables, x, tables[table].push(i)),
    decreases level_of::<Meta>(tables, table), 0int, n,
{
    let level = level_of::<Meta>(tables, table);
    lemma_table::<Meta, Entry>(mem, tables, root, table);
    if level > 1 && n > 0 {
        let raw = mem[table][n - 1];
        let earlier = children_order::<Meta, Entry>(mem, table, level, (n - 1) as nat);
        lemma_children_under::<Meta, Entry>(mem, tables, root, table, (n - 1) as nat);
        lemma_word::<Meta, Entry>(mem, tables, root, table, n - 1);
        if tableish::<Entry>(raw, level) {
            let child = Entry::target(raw);
            let last = subtree_order::<Meta, Entry>(mem, child, (level - 1) as u8);
            lemma_order_under::<Meta, Entry>(mem, tables, root, child);
            assert forall|x: u64| #[trigger]
                children_order::<Meta, Entry>(mem, table, level, n).contains(x) implies exists|
                i: int,
            | 0 <= i < n && #[trigger] under(tables, x, tables[table].push(i)) by {
                let k: int = choose|k: int|
                    0 <= k < (earlier + last).len() && (earlier + last)[k] == x;
                if k < earlier.len() {
                    assert(earlier[k] == x);
                    assert(earlier.contains(x));
                } else {
                    assert(last[k - earlier.len()] == x);
                    assert(last.contains(x));
                    assert(under(tables, x, tables[child]));
                    assert(under(tables, x, tables[table].push(n - 1)));
                }
            }
        } else {
            assert forall|x: u64| #[trigger]
                children_order::<Meta, Entry>(mem, table, level, n).contains(x) implies exists|
                i: int,
            | 0 <= i < n && #[trigger] under(tables, x, tables[table].push(i)) by {
                assert(earlier.contains(x));
            }
        }
    }
}

/// Paths that part at some slot lead to different tables.
pub proof fn lemma_parted(tables: Map<u64, Seq<int>>, x: u64, path: Seq<int>, i: int, j: int)
    requires
        under(tables, x, path.push(i)),
        under(tables, x, path.push(j)),
    ensures
        i == j,
{
    let n = path.len() as int;
    assert(path.push(i)[n] == tables[x].subrange(0, n + 1)[n]);
    assert(path.push(j)[n] == tables[x].subrange(0, n + 1)[n]);
}

/// Whether the frames of `tables` were released in this order, whatever the
/// allocator answered, and no other frame was touched.
pub open spec fn released_in_order<Meta: PagingMetaData>(
    frames: Map<u64, Seq<u64>>,
    log: Seq<FrameEvent>,
    frames_after: Map<u64, Seq<u64>>,
    log_after: Seq<FrameEvent>,
    order: Seq<u64>,
) -> bool {
    &&& log.is_prefix_of(log_after)
    &&& log_after.len() == log.len() + order.len()
    &&& forall|k: int|
        0 <= k < order.len() ==> {
            &&& #[trigger] log_after[log.len() + k] matches FrameEvent::Deallocated {
                range,
                released,
            }
            &&& range == frame_range::<Meta>(order[k])
            &&& released is Ok ==> !frames_after.contains_key(order[k])
        }
    &&& forall|f: u64| #[trigger]
        frames.contains_key(f) && !order.contains(f) ==> frames_after.contains_key(f)
            && frames_after[f] == frames[f]
    &&& forall|f: u64| #[trigger]
        frames_after.contains_key(f) ==> frames.contains_key(f) && frames_after[f] == frames[f]
}

/// Releasing one batch of tables after another.
pub proof fn lemma_released_append<Meta: PagingMetaData>(
    frames0: Map<u64, Seq<u64>>,
    log0: Seq<FrameEvent>,
    frames1: Map<u64, Seq<u64>>,
    log1: Seq<FrameEvent>,
    frames2: Map<u64, Seq<u64>>,
    log2: Seq<FrameEvent>,
    first: Seq<u64>,
    second: Seq<u64>,
)
    requires
        released_in_order::<Meta>(frames0, log0, frames1, log1, first),
        released_in_order::<Meta>(frames1, log1, frames2, log2, second),
    ensures
        released_in_order::<Meta>(frames0, log0, frames2, log2, first + second),
{
    let both = first + second;
    assert(log0 =~= log2.subrange(0, log0.len() as int)) by {
        assert forall|i: int| 0 <= i < log0.len() implies log0[i] == log2[i] by {
            assert(log0[i] == log1.subrange(0, log0.len() as int)[i]);
            assert(log1[i] == log2.subrange(0, log1.len() as int)[i]);
        }
    }
    assert forall|k: int| 0 <= k < both.len() implies {
        &&& #[trigger] log2[log0.len() + k] matches FrameEvent::Deallocated { range, released }
        &&& range == frame_range::<Meta>(both[k])
        &&& released is Ok ==> !frames2.contains_key(both[k])
    } by {
        if k < first.len() {
            assert(log1[log0.len() + k] == log2.subrange(0, log1.len() as int)[log0.len() + k]);
            assert(both[k] == first[k]);
        } else {
            assert(both[k] == second[k - first.len()]);
            assert(log2[log1.len() + (k - first.len())] == log2[log0.len() + k]);
        }
    }
    assert forall|f: u64| #[trigger] frames0.contains_key(f) && !both.contains(f) implies
        frames2.contains_key(f) && frames2[f] == frames0[f] by {
        if first.contains(f) {
            let k: int = choose|k: int| 0 <= k < first.len() && first[k] == f;
            assert(both[k] == f);
        }
        if second.contains(f) {
            let k: int = choose|k: int| 0 <= k < second.len() && second[k] == f;
            assert(both[first.len() + k] == f);
        }
        assert(frames1.contains_key(f));
    }
}

/// Release every table of the subtree at `paddr`, depth first. Leaf entries
/// point at data that the consumer owns, which is not touched.
pub(crate) fn drop_subtree<Meta: PagingMetaData, Entry: PageTableEntry, Alloc: FrameAllocator>(
    alloc: &mut Alloc,
    paddr: PhysAddr,
    level: u8,
    Ghost(mem): Ghost<Map<u64, Seq<u64>>>,
    Ghost(tables): Ghost<Map<u64, Seq<int>>>,
    Ghost(root): Ghost<u64>,
)
    requires
        layout_ok::<Meta>(),
        old(alloc).valid(),
        tree::<Meta, Entry>(mem, tables, root),
        tables.contains_key(paddr.0),
        level == level_of::<Meta>(tables, paddr.0),
        forall|t: u64| #[trigger]
            under(tables, t, tables[paddr.0]) ==> old(alloc).frames().contains_key(t) && old(
                alloc,
            ).frames()[t] == mem[t],
    ensures
        final(alloc).valid(),
        released_in_order::<Meta>(
            old(alloc).frames(),
            old(alloc).log(),
            final(alloc).frames(),
            final(alloc).log(),
            subtree_order::<Meta, Entry>(mem, paddr.0, level),
        ),
    decreases level,
{
    let ghost path = tables[paddr.0];
    let ghost frames0 = alloc.frames();
    let ghost log0 = alloc.log();
    proof {
        lemma_table::<Meta, Entry>(mem, tables, root, paddr.0);
        assert(path =~= path.subrange(0, path.len() as int));
        assert(under(tables, paddr.0, path));
        assert(log0 =~= log0.subrange(0, log0.len() as int));
    }
    if level > 1 {
        let mut i: usize = 0;
        while i < Meta::ENTRIES_PER_TABLE
            invariant
                layout_ok::<Meta>(),
                alloc.valid(),
                tree::<Meta, Entry>(mem, tables, root),
                tables.contains_key(paddr.0),
                path == tables[paddr.0],
                level == level_of::<Meta>(tables, paddr.0),
                level > 1,
                i <= Meta::ENTRIES_PER_TABLE,
                table_frame::<Meta>(mem, paddr.0),
                under(tables, paddr.0, path),
                forall|t: u64| #[trigger]
                    under(tables, t, path) ==> frames0.contains_key(t) && frames0[t] == mem[t],
                released_in_order::<Meta>(
                    frames0,
                    log0,
                    alloc.frames(),
                    alloc.log(),
                    children_order::<Meta, Entry>(mem, paddr.0, level, i as nat),
                ),
            decreases Meta::ENTRIES_PER_TABLE - i,
        {
            let ghost order = children_order::<Meta, Entry>(mem, paddr.0, level, i as nat);
            proof {
                lemma_children_under::<Meta, Entry>(mem, tables, root, paddr.0, i as nat);
                lemma_self_not_below::<Meta>(tables, paddr.0, order, i as nat);
                lemma_word::<Meta, Entry>(mem, tables, root, paddr.0, i as int);
            }
            let pte: Entry = Entry::from_bits(alloc.read_entry(paddr, i));
            if pte.is_present() && pte.entry_kind(level).is_table() {
                let ghost frames1 = alloc.frames();
                let ghost log1 = alloc.log();
                let ghost child = Entry::target(pte.raw());
                let ghost last = subtree_order::<Meta, Entry>(mem, child, (level - 1) as u8);
                proof {
                    lemma_table::<Meta, Entry>(mem, tables, root, child);
                    assert forall|t: u64| #[trigger] under(tables, t, tables[child]) implies
                        alloc.frames().contains_key(t) && alloc.frames()[t] == mem[t] by {
                        lemma_prefix_shorter(tables, t, path, i as int);
                        assert(under(tables, t, path));
                        if order.contains(t) {
                            let k: int = choose|k: int|
                                0 <= k < i && #[trigger] under(tables, t, path.push(k));
                            lemma_parted(tables, t, path, k, i as int);
                        }
                    }
                }
                drop_subtree::<Meta, Entry, Alloc>(
                    alloc,
                    pte.paddr(),
                    level - 1,
                    Ghost(mem),
                    Ghost(tables),
                    Ghost(root),
                );
                proof {
                    lemma_released_append::<Meta>(
                        frames0,
                        log0,
                        frames1,
                        log1,
                        alloc.frames(),
                        alloc.log(),
                        order,
                        last,
                    );
                }
            }
            i = i + 1;
        }
    }
    let ghost order = children_order::<Meta, Entry>(
        mem,
        paddr.0,
        level,
        Meta::ENTRIES_PER_TABLE as nat,
    );
    let ghost frames1 = alloc.frames();
    let ghost log1 = alloc.log();
    proof {
        lemma_children_under::<Meta, Entry>(
            mem,
            tables,
            root,
            paddr.0,
            Meta::ENTRIES_PER_TABLE as nat,
        );
        lemma_self_not_below::<Meta>(tables, paddr.0, order, Meta::ENTRIES_PER_TABLE as nat);
    }
    let _ = dealloc_table_frame::<Meta, Alloc>(alloc, paddr);
    proof {
        assert(log1 =~= alloc.log().subrange(0, log1.len() as int));
        assert(seq![paddr.0][0] == paddr.0);
        assert(released_in_order::<Meta>(
            frames1,
            log1,
            alloc.frames(),
            alloc.log(),
            seq![paddr.0],
        )) by {
            assert forall|f: u64| #[trigger]
                frames1.contains_key(f) && !seq![paddr.0].contains(f) implies alloc.frames().contains_key(
                f,
            ) && alloc.frames()[f] == frames1[f] by {
                assert(f != paddr.0) by {
                    assert(seq![paddr.0][0] == paddr.0);
                }
            }
        }
        lemma_released_append::<Meta>(
            frames0,
            log0,
            frames1,
            log1,
            alloc.frames(),
            alloc.log(),
            order,
            seq![paddr.0],
        );
        assert(order + seq![paddr.0] =~= order.push(paddr.0));
    }
}

/// A table is not below itself.
proof fn lemma_self_not_below<Meta: PagingMetaData>(
    tables: Map<u64, Seq<int>>,
    table: u64,
    order: Seq<u64>,
    n: nat,
)
    requires
        forall|x: u64| #[trigger]
            order.contains(x) ==> exists|i: int|
                0 <= i < n && #[trigger] under(tables, x, tables[table].push(i)),
    ensures
        !order.contains(table),
{
}

/// What is below a slot of a path is below the path.
proof fn lemma_prefix_shorter(tables: Map<u64, Seq<int>>, t: u64, path: Seq<int>, i: int)
    requires
        under(tables, t, path.push(i)),
    ensures
        under(tables, t, path),
{
    let n = path.len() as int;
    assert(path =~= tables[t].subrange(0, n)) by {
        assert forall|j: int| 0 <= j < n implies path[j] == tables[t][j] by {
            assert(path.push(i)[j] == tables[t].subrange(0, n + 1)[j]);
        }
    }
}

/// Every beginning of a table's path leads to a table.
pub(crate) proof fn lemma_ancestor<Meta: PagingMetaData, Entry: PageTableEntry>(
    mem: Map<u64, Seq<u64>>,
    tables: Map<u64, Seq<int>>,
    root: u64,
    t: u64,
    n: nat,
) -> (a: u64)
    requires
        layout_ok::<Meta>(),
        tree::<Meta, Entry>(mem, tables, root),
        tables.contains_key(t),
        n <= tables[t].len(),
    ensures
        tables.contains_key(a),
        tables[a] == tables[t].subrange(0, n as int),
    decreases tables[t].len(),
{
    if n == tables[t].len() {
        assert(tables[t] =~= tables[t].subrange(0, n as int));
        t
    } else {
        let p = lemma_has_parent::<Meta, Entry>(mem, tables, root, t);
        let a = lemma_ancestor::<Meta, Entry>(mem, tables, root, p, n);
        assert(tables[p].subrange(0, n as int) =~= tables[t].subrange(0, n as int));
        a
    }
}

/// Every table but the root has a parent.
pub(crate) proof fn lemma_has_parent<Meta: PagingMetaData, Entry: PageTableEntry>(
    mem: Map<u64, Seq<u64>>,
    tables: Map<u64, Seq<int>>,
    root: u64,
    t: u64,
) -> (p: u64)
    requires
        tree::<Meta, Entry>(mem, tables, root),
        tables.contains_key(t),
        tables[t].len() > 0,
    ensures
        points_to::<Meta, Entry>(mem, tables, p, t),
{
    reveal(tree);
    choose|p: u64| points_to::<Meta, Entry>(mem, tables, p, t)
}

/// The order of the children names every table of each child's subtree.
proof fn lemma_child_in_order<Meta: PagingMetaData, Entry: PageTableEntry>(
    mem: Map<u64, Seq<u64>>,
    table: u64,
    level: u8,
    i: nat,
    n: nat,
    x: u64,
)
    requires
        level > 1,
        i < n,
        tableish::<Entry>(mem[table][i as int], level),
        subtree_order::<Meta, Entry>(
            mem,
            Entry::target(mem[table][i as int]),
            (level - 1) as u8,
        ).contains(x),
    ensures
        children_order::<Meta, Entry>(mem, table, level, n).contains(x),
    decreases n,
{
    let earlier = children_order::<Meta, Entry>(mem, table, level, (n - 1) as nat);
    let raw = mem[table][n - 1];
    let last = subtree_order::<Meta, Entry>(mem, Entry::target(raw), (level - 1) as u8);
    if i == n - 1 {
        let k: int = choose|k: int| 0 <= k < last.len() && last[k] == x;
        assert((earlier + last)[earlier.len() + k] == x);
    } else {
        lemma_child_in_order::<Meta, Entry>(mem, table, level, i, (n - 1) as nat, x);
        let k: int = choose|k: int| 0 <= k < earlier.len() && earlier[k] == x;
        if tableish::<Entry>(raw, level) {
            assert((earlier + last)[k] == x);
        }
    }
}

/// A subtree's order names every table of the subtree.
proof fn lemma_order_complete<Meta: PagingMetaData, Entry: PageTableEntry>(
    mem: Map<u64, Seq<u64>>,
    tables: Map<u64, Seq<int>>,
    root: u64,
    table: u64,
    t: u64,
)
    requires
        layout_ok::<Meta>(),
        tree::<Meta, Entry>(mem, tables, root),
        tables.contains_key(table),
        under(tables, t, tables[table]),
    ensures
        subtree_order::<Meta, Entry>(mem, table, level_of::<Meta>(tables, table)).contains(t),
    decreases level_of::<Meta>(tables, table),
{
    let level = level_of::<Meta>(tables, table);
    let path = tables[table];
    let n = Meta::ENTRIES_PER_TABLE as nat;
    let below = children_order::<Meta, Entry>(mem, table, level, n);
    lemma_table::<Meta, Entry>(mem, tables, root, table);
    lemma_table::<Meta, Entry>(mem, tables, root, t);
    if tables[t].len() == path.len() {
        assert(tables[t] =~= path);
        lemma_path_unique::<Meta, Entry>(mem, tables, root, t, table);
        assert(below.push(table)[below.len() as int] == t);
    } else {
        let a = lemma_ancestor::<Meta, Entry>(mem, tables, root, t, path.len() + 1);
        let p = lemma_has_parent::<Meta, Entry>(mem, tables, root, a);
        let i = tables[a].last();
        assert(tables[p] =~= path) by {
            assert forall|j: int| 0 <= j < path.len() implies path[j] == tables[p][j] by {
                assert(path[j] == tables[t].subrange(0, path.len() as int)[j]);
            }
        }
        lemma_path_unique::<Meta, Entry>(mem, tables, root, p, table);
        assert(under(tables, t, tables[a])) by {
            assert(tables[a] =~= tables[t].subrange(0, tables[a].len() as int));
        }
        lemma_table::<Meta, Entry>(mem, tables, root, a);
        lemma_order_complete::<Meta, Entry>(mem, tables, root, a, t);
        lemma_child_in_order::<Meta, Entry>(mem, table, level, i as nat, n, t);
        let k: int = choose|k: int| 0 <= k < below.len() && below[k] == t;
        assert(below.push(table)[k] == t);
    }
}

/// A subtree's order names no table twice.
proof fn lemma_order_distinct<Meta: PagingMetaData, Entry: PageTableEntry>(
    mem: Map<u64, Seq<u64>>,
    tables: Map<u64, Seq<int>>,
    root: u64,
    table: u64,
)
    requires
        layout_ok::<Meta>(),
        tree::<Meta, Entry>(mem, tables, root),
        tables.contains_key(table),
    ensures
        subtree_order::<Meta, Entry>(
            mem,
            table,
            level_of::<Meta>(tables, table),
        ).no_duplicates(),
    decreases level_of::<Meta>(tables, table), 1int, 0nat,
{
    let level = level_of::<Meta>(tables, table);
    let n = Meta::ENTRIES_PER_TABLE as nat;
    let below = children_order::<Meta, Entry>(mem, table, level, n);
    lemma_table::<Meta, Entry>(mem, tables, root, table);
    lemma_children_distinct::<Meta, Entry>(mem, tables, root, table, n);
    lemma_children_under::<Meta, Entry>(mem, tables, root, table, n);
    lemma_self_not_below::<Meta>(tables, table, below, n);
    let whole = below.push(table);
    assert forall|i: int, j: int| 0 <= i < j < whole.len() implies whole[i] != whole[j] by {
        if j == below.len() {
            assert(below[i] == whole[i]);
            assert(below.contains(whole[i]));
        }
    }
}

/// The order of the children names no table twice.
proof fn lemma_children_distinct<Meta: PagingMetaData, Entry: PageTableEntry>(
    mem: Map<u64, Seq<u64>>,
    tables: Map<u64, Seq<int>>,
    root: u64,
    table: u64,
    n: nat,
)
    requires
        layout_ok::<Meta>(),
        tree::<Meta, Entry>(mem, tables, root),
        tables.contains_key(table),
        n <= Meta::ENTRIES_PER_TABLE,
    ensures
        children_order::<Meta, Entry>(
            mem,
            table,
            level_of::<Meta>(tables, table),
            n,
        ).no_duplicates(),
    decreases level_of::<Meta>(tables, table), 0int, n,
{
    let level = level_of::<Meta>(tables, table);
    lemma_table::<Meta, Entry>(mem, tables, root, table);
    if level > 1 && n > 0 {
        let raw = mem[table][n - 1];
        let earlier = children_order::<Meta, Entry>(mem, table, level, (n - 1) as nat);
        lemma_children_distinct::<Meta, Entry>(mem, tables, root, table, (n - 1) as nat);
        if tableish::<Entry>(raw, level) {
            let child = Entry::target(raw);
            let last = subtree_order::<Meta, Entry>(mem, child, (level - 1) as u8);
            lemma_word::<Meta, Entry>(mem, tables, root, table, n - 1);
            lemma_table::<Meta, Entry>(mem, tables, root, child);
            lemma_order_distinct::<Meta, Entry>(mem, tables, root, child);
            lemma_order_under::<Meta, Entry>(mem, tables, root, child);
            lemma_children_under::<Meta, Entry>(mem, tables, root, table, (n - 1) as nat);
            let whole = earlier + last;
            assert forall|i: int, j: int| 0 <= i < j < whole.len() implies whole[i] != whole[j] by {
                if i < earlier.len() && j >= earlier.len() && whole[i] == whole[j] {
                    let x = whole[i];
                    assert(earlier[i] == x && last[j - earlier.len()] == x);
                    assert(earlier.contains(x) && last.contains(x));
                    let k: int = choose|k: int|
                        0 <= k < n - 1 && #[trigger] under(tables, x, tables[table].push(k));
                    assert(under(tables, x, tables[child]));
                    lemma_parted(tables, x, tables[table], k, n - 1);
                }
            }
        }
    }
}

/// Reclaiming a tree names each of its tables exactly once, and the root last.
pub proof fn law_reclaim_exactly_once<Meta: PagingMetaData, Entry: PageTableEntry>(
    mem: Map<u64, Seq<u64>>,
    tables: Map<u64, Seq<int>>,
    root: u64,
)
    requires
        layout_ok::<Meta>(),
        tree::<Meta, Entry>(mem, tables, root),
    ensures
        ({
            let order = subtree_order::<Meta, Entry>(mem, root, top::<Meta>());
            &&& order.no_duplicates()
            &&& order.to_set() == tables.dom()
            &&& order.last() == root
        }),
{
    let order = subtree_order::<Meta, Entry>(mem, root, top::<Meta>());
    lemma_root::<Meta, Entry>(mem, tables, root);
    lemma_order_distinct::<Meta, Entry>(mem, tables, root, root);
    lemma_order_under::<Meta, Entry>(mem, tables, root, root);
    assert forall|t: u64| tables.contains_key(t) implies order.contains(t) by {
        assert(tables[root] =~= tables[t].subrange(0, 0));
        assert(under(tables, t, tables[root]));
        lemma_order_complete::<Meta, Entry>(mem, tables, root, root, t);
    }
    assert forall|t: u64| order.contains(t) implies tables.contains_key(t) by {
        assert(under(tables, t, tables[root]));
    }
    assert(order.to_set() =~= tables.dom());
}

/// Whether `a` is released before `b`: it is below it, or where their paths part
/// it takes the lower slot.
pub open spec fn comes_before(tables: Map<u64, Seq<int>>, a: u64, b: u64) -> bool {
    ||| tables[b].is_prefix_of(tables[a])
    ||| exists|n: int|
        {
            &&& 0 <= n < tables[a].len()
            &&& n < tables[b].len()
            &&& tables[a].take(n) == tables[b].take(n)
            &&& #[trigger] tables[a][n] < #[trigger] tables[b][n]
        }
}

/// In a subtree's order nothing stands before what is below it.
proof fn lemma_order_upwards<Meta: PagingMetaData, Entry: PageTableEntry>(
    mem: Map<u64, Seq<u64>>,
    tables: Map<u64, Seq<int>>,
    root: u64,
    table: u64,
    i: int,
    j: int,
)
    requires
        layout_ok::<Meta>(),
        tree::<Meta, Entry>(mem, tables, root),
        tables.contains_key(table),
        0 <= i < j < subtree_order::<Meta, Entry>(
            mem,
            table,
            level_of::<Meta>(tables, table),
        ).len(),
    ensures
        ({
            let order = subtree_order::<Meta, Entry>(mem, table, level_of::<Meta>(tables, table));
            &&& !under(tables, order[j], tables[order[i]])
            &&& comes_before(tables, order[i], order[j])
        }),
    decreases level_of::<Meta>(tables, table), 1int, 0nat,
{
    let level = level_of::<Meta>(tables, table);
    let n = Meta::ENTRIES_PER_TABLE as nat;
    let below = children_order::<Meta, Entry>(mem, table, level, n);
    lemma_table::<Meta, Entry>(mem, tables, root, table);
    if j < below.len() {
        lemma_children_upwards::<Meta, Entry>(mem, tables, root, table, n, i, j);
    } else {
        lemma_children_under::<Meta, Entry>(mem, tables, root, table, n);
        assert(below.contains(below[i]));
        let k: int = choose|k: int|
            0 <= k < n && #[trigger] under(tables, below[i], tables[table].push(k));
        if under(tables, table, tables[below[i]]) {
            assert(tables[below[i]].len() <= tables[table].len());
        }
        lemma_prefix_shorter(tables, below[i], tables[table], k);
    }
}

/// In the order of the children nothing stands before what is below it.
proof fn lemma_children_upwards<Meta: PagingMetaData, Entry: PageTableEntry>(
    mem: Map<u64, Seq<u64>>,
    tables: Map<u64, Seq<int>>,
    root: u64,
    table: u64,
    n: nat,
    i: int,
    j: int,
)
    requires
        layout_ok::<Meta>(),
        tree::<Meta, Entry>(mem, tables, root),
        tables.contains_key(table),
        n <= Meta::ENTRIES_PER_TABLE,
        0 <= i < j < children_order::<Meta, Entry>(
            mem,
            table,
            level_of::<Meta>(tables, table),
            n,
        ).len(),
    ensures
        ({
            let order = children_order::<Meta, Entry>(
                mem,
                table,
                level_of::<Meta>(tables, table),
                n,
            );
            &&& !under(tables, order[j], tables[order[i]])
            &&& comes_before(tables, order[i], order[j])
        }),
    decreases level_of::<Meta>(tables, table), 0int, n,
{
    let level = level_of::<Meta>(tables, table);
    lemma_table::<Meta, Entry>(mem, tables, root, table);
    let raw = mem[table][n - 1];
    let earlier = children_order::<Meta, Entry>(mem, table, level, (n - 1) as nat);
    if !tableish::<Entry>(raw, level) || j < earlier.len() {
        lemma_children_upwards::<Meta, Entry>(mem, tables, root, table, (n - 1) as nat, i, j);
    } else {
        let child = Entry::target(raw);
        let last = subtree_order::<Meta, Entry>(mem, child, (level - 1) as u8);
        lemma_word::<Meta, Entry>(mem, tables, root, table, n - 1);
        lemma_table::<Meta, Entry>(mem, tables, root, child);
        let m = earlier.len() as int;
        if i >= m {
            lemma_order_upwards::<Meta, Entry>(mem, tables, root, child, i - m, j - m);
        } else {
            let (a, b) = (earlier[i], last[j - m]);
            lemma_order_under::<Meta, Entry>(mem, tables, root, child);
            lemma_children_under::<Meta, Entry>(mem, tables, root, table, (n - 1) as nat);
            assert(earlier.contains(a) && last.contains(b));
            let k: int = choose|k: int|
                0 <= k < n - 1 && #[trigger] under(tables, a, tables[table].push(k));
            assert(under(tables, b, tables[child]));
            if under(tables, b, tables[a]) {
                let path = tables[table].push(k);
                assert(under(tables, b, path)) by {
                    assert forall|x: int| 0 <= x < path.len() implies path[x] == tables[b][x] by {
                        assert(path[x] == tables[a].subrange(0, path.len() as int)[x]);
                        assert(tables[a][x] == tables[b].subrange(0, tables[a].len() as int)[x]);
                    }
                    assert(path =~= tables[b].subrange(0, path.len() as int));
                }
                lemma_parted(tables, b, tables[table], k, n - 1);
            }
            let path = tables[table];
            let m = path.len() as int;
            assert(tables[a][m] == tables[a].subrange(0, m + 1)[m] && path.push(k)[m] == k);
            assert(tables[b][m] == tables[b].subrange(0, m + 1)[m] && path.push(n - 1)[m] == n - 1);
            assert forall|x: int| 0 <= x < m implies tables[a][x] == tables[b][x] by {
                assert(tables[a][x] == tables[a].subrange(0, m + 1)[x]);
                assert(tables[b][x] == tables[b].subrange(0, m + 1)[x]);
                assert(path.push(k)[x] == path.push(n - 1)[x]);
            }
            assert(tables[a].take(m) =~= tables[b].take(m));
            assert(tables[a][m] < tables[b][m]);
        }
    }
}

/// Whether the calls from the `start`-th on release the frames of all tables in
/// this order, each after the tables that it leads to, lower slots first.
pub open spec fn given_back<Meta: PagingMetaData>(
    tables: Map<u64, Seq<int>>,
    order: Seq<u64>,
    start: int,
    log: Seq<FrameEvent>,
) -> bool {
    &&& order.no_duplicates()
    &&& order.to_set() == tables.dom()
    &&& log.len() == start + order.len()
    &&& forall|k: int|
        0 <= k < order.len() ==> (#[trigger] log[start + k] matches FrameEvent::Deallocated {
            range,
            ..
        } && range.lo() == order[k] && range.hi() == (order[k] + Meta::TABLE_FRAME_SIZE.len())
            as u64)
    &&& forall|i: int, j: int|
        #![trigger order[i], order[j]]
        0 <= i < j < order.len() ==> !tables[order[i]].is_prefix_of(tables[order[j]])
            && comes_before(tables, order[i], order[j])
}

/// Giving a tree back releases the frame of each of its tables once, as many calls
/// as there are tables, and a table only after every table that it leads to, lower
/// slots first.
/// Frames outside the tree are left alone: the data that leaves point at is not
/// touched.
pub proof fn law_reclaim_releases_upwards<Meta: PagingMetaData, Entry: PageTableEntry>(
    mem: Map<u64, Seq<u64>>,
    tables: Map<u64, Seq<int>>,
    root: u64,
    frames: Map<u64, Seq<u64>>,
    log: Seq<FrameEvent>,
    frames_after: Map<u64, Seq<u64>>,
    log_after: Seq<FrameEvent>,
)
    requires
        layout_ok::<Meta>(),
        tree::<Meta, Entry>(mem, tables, root),
        released_in_order::<Meta>(
            frames,
            log,
            frames_after,
            log_after,
            subtree_order::<Meta, Entry>(mem, root, top::<Meta>()),
        ),
    ensures
        log.is_prefix_of(log_after),
        exists|order: Seq<u64>| #[trigger]
            given_back::<Meta>(tables, order, log.len() as int, log_after),
        forall|f: u64| #[trigger]
            frames.contains_key(f) && !tables.contains_key(f) ==> frames_after.contains_key(f)
                && frames_after[f] == frames[f],
{
    let order = subtree_order::<Meta, Entry>(mem, root, top::<Meta>());
    law_reclaim_exactly_once::<Meta, Entry>(mem, tables, root);
    lemma_root::<Meta, Entry>(mem, tables, root);
    assert forall|i: int, j: int|
        #![trigger order[i], order[j]]
        0 <= i < j < order.len() implies !tables[order[i]].is_prefix_of(tables[order[j]])
        && comes_before(tables, order[i], order[j]) by {
        lemma_order_upwards::<Meta, Entry>(mem, tables, root, root, i, j);
        assert(order.to_set().contains(order[j]));
    }
    assert forall|f: u64| #[trigger]
        frames.contains_key(f) && !tables.contains_key(f) implies frames_after.contains_key(f)
        && frames_after[f] == frames[f] by {
        if order.contains(f) {
            assert(order.to_set().contains(f));
        }
    }
    assert(given_back::<Meta>(tables, order, log.len() as int, log_after));
}

} // verus!
