//! The mathematical model of a translation tree.
//!
//! Table memory is a map from frame addresses to words. A ghost map gives each
//! table of a tree the path of slot indices that leads to it from the root;
//! the invariant [`tree`] ties that map to the words. [`walk`] is what the
//! hardware sees: the outcome of translating one address.

use crate::addr::one_to_one;
use crate::error::PagingError;
use crate::paging::{poke, PageTableEntry, PageTableEntryKind, PagingMetaData};
use vstd::arithmetic::power2::{lemma_pow2_pos, pow2};
use vstd::prelude::*;

verus! {

/// The greatest supported number of translation levels.
pub const MAX_LEVELS: usize = 6;

/// The level of the root table.
pub open spec fn top<Meta: PagingMetaData>() -> u8 {
    Meta::LEVELS as u8
}

/// The slot that `vaddr` selects in a table at `level`.
pub open spec fn slot_of<Meta: PagingMetaData>(level: u8, vaddr: u64) -> int {
    (vaddr as int / pow2(Meta::shift(level) as nat) as int) % (pow2(
        Meta::index_bits(level) as nat,
    ) as int)
}

/// The slots that `vaddr` selects in the `n` topmost levels, root first.
pub open spec fn slots<Meta: PagingMetaData>(vaddr: u64, n: nat) -> Seq<int> {
    Seq::new(n, |k: int| slot_of::<Meta>((Meta::LEVELS - k) as u8, vaddr))
}

/// Whether two addresses select the same slots from the root down to `level`.
pub open spec fn same_path<Meta: PagingMetaData>(a: u64, b: u64, level: u8) -> bool {
    forall|k: u8|
        level <= k <= Meta::LEVELS ==> #[trigger] slot_of::<Meta>(k, a) == slot_of::<Meta>(k, b)
}

/// Whether the walker can handle a geometry: its measures suit, and its
/// addresses are raw addresses with a type.
pub open spec fn layout_ok<Meta: PagingMetaData>() -> bool {
    &&& one_to_one::<Meta::VirtAddr>()
    &&& measures_ok::<Meta>()
}

/// Whether the measures of a geometry suit the walker: the tree is not too
/// tall, every level's index bits lie inside an address and select an entry of
/// a table, and a table fits its frame.
pub open spec fn measures_ok<Meta: PagingMetaData>() -> bool {
    &&& 1 <= Meta::LEVELS <= MAX_LEVELS
    &&& Meta::ENTRIES_PER_TABLE * 8 <= Meta::TABLE_FRAME_SIZE.len()
    &&& forall|level: u8|
        1 <= level <= Meta::LEVELS ==> #[trigger] Meta::shift(level) < 64 && pow2(
            Meta::index_bits(level) as nat,
        ) <= Meta::ENTRIES_PER_TABLE
}

/// Whether a word is a present table pointer at `level`.
pub open spec fn tableish<Entry: PageTableEntry>(raw: u64, level: u8) -> bool {
    Entry::present(raw) && Entry::kind(raw, level) == PageTableEntryKind::Table
}

/// Whether a word may stand at `level` without a table below it: it is no
/// table pointer, and if it is a leaf its flags can be decoded and its address
/// encoded again.
pub open spec fn storable<Entry: PageTableEntry>(raw: u64, level: u8) -> bool {
    Entry::present(raw) ==> match Entry::kind(raw, level) {
        PageTableEntryKind::Table => false,
        PageTableEntryKind::Leaf => Entry::decodable(raw) && Entry::encodable(Entry::target(raw)),
        PageTableEntryKind::Invalid => true,
    }
}

/// The outcome of translating an address.
pub enum Walk {
    /// The walk met an entry that is not present.
    Absent,
    /// The walk met an entry whose encoding is invalid at its level.
    Invalid,
    /// The walk ended at a leaf.
    Leaf { level: u8, raw: u64 },
}

/// The outcome of a walk that ends at the word `raw` of a table at `level`.
pub open spec fn ending<Entry: PageTableEntry>(raw: u64, level: u8) -> Walk {
    if !Entry::present(raw) {
        Walk::Absent
    } else if Entry::kind(raw, level) == PageTableEntryKind::Leaf {
        Walk::Leaf { level, raw }
    } else {
        Walk::Invalid
    }
}

/// The outcome of translating `vaddr` from the table `table` at `level`.
pub open spec fn walk<Meta: PagingMetaData, Entry: PageTableEntry>(
    mem: Map<u64, Seq<u64>>,
    table: u64,
    level: u8,
    vaddr: u64,
) -> Walk
    decreases level,
{
    let raw = mem[table][slot_of::<Meta>(level, vaddr)];
    if tableish::<Entry>(raw, level) && level > 1 {
        walk::<Meta, Entry>(mem, Entry::target(raw), (level - 1) as u8, vaddr)
    } else {
        ending::<Entry>(raw, level)
    }
}

/// What stands in the way of a new leaf at level `target` for `vaddr`: the
/// error that refuses it, if any. A leaf above the target, or any present entry
/// at the target, is a mapping that is already there.
pub open spec fn obstacle<Meta: PagingMetaData, Entry: PageTableEntry>(
    mem: Map<u64, Seq<u64>>,
    table: u64,
    level: u8,
    vaddr: u64,
    target: u8,
) -> Option<PagingError>
    decreases level,
{
    let raw = mem[table][slot_of::<Meta>(level, vaddr)];
    if !Entry::present(raw) {
        None
    } else if level <= target || level == 0 {
        Some(PagingError::AlreadyMapped)
    } else {
        match Entry::kind(raw, level) {
            PageTableEntryKind::Leaf => Some(PagingError::AlreadyMapped),
            PageTableEntryKind::Invalid => Some(PagingError::InvalidEntryKind),
            PageTableEntryKind::Table => obstacle::<Meta, Entry>(
                mem,
                Entry::target(raw),
                (level - 1) as u8,
                vaddr,
                target,
            ),
        }
    }
}

/// The level of a table of the tree.
pub open spec fn level_of<Meta: PagingMetaData>(tables: Map<u64, Seq<int>>, table: u64) -> u8 {
    (Meta::LEVELS - tables[table].len()) as u8
}

/// Whether `parent` holds the pointer to the table `child` in the slot that
/// the path of `child` names last.
pub open spec fn points_to<Meta: PagingMetaData, Entry: PageTableEntry>(
    mem: Map<u64, Seq<u64>>,
    tables: Map<u64, Seq<int>>,
    parent: u64,
    child: u64,
) -> bool {
    let slot = tables[child].last();
    &&& tables.contains_key(parent)
    &&& tables[parent] == tables[child].drop_last()
    &&& 0 <= slot < Meta::ENTRIES_PER_TABLE
    &&& tableish::<Entry>(mem[parent][slot], level_of::<Meta>(tables, parent))
    &&& Entry::target(mem[parent][slot]) == child
}

/// Whether a frame can serve as a table.
pub open spec fn table_frame<Meta: PagingMetaData>(mem: Map<u64, Seq<u64>>, frame: u64) -> bool {
    &&& mem.contains_key(frame)
    &&& mem[frame].len() >= Meta::ENTRIES_PER_TABLE
    &&& frame + Meta::TABLE_FRAME_SIZE.len() <= u64::MAX
}

/// The tree invariant: `tables` are exactly the tables reachable from `root`,
/// each with the slots that lead to it, and no two share a path.
#[verifier::opaque]
pub open spec fn tree<Meta: PagingMetaData, Entry: PageTableEntry>(
    mem: Map<u64, Seq<u64>>,
    tables: Map<u64, Seq<int>>,
    root: u64,
) -> bool {
    &&& tables.contains_key(root)
    &&& tables[root].len() == 0
    &&& forall|t: u64| #[trigger]
        tables.contains_key(t) ==> {
            &&& table_frame::<Meta>(mem, t)
            &&& tables[t].len() < Meta::LEVELS
            &&& tables[t].len() == 0 ==> t == root
            &&& tables[t].len() > 0 ==> exists|p: u64| points_to::<Meta, Entry>(mem, tables, p, t)
        }
    &&& forall|t: u64, i: int|
        tables.contains_key(t) && 0 <= i < Meta::ENTRIES_PER_TABLE ==> entry_fits::<Meta, Entry>(
            tables,
            t,
            i,
            #[trigger] mem[t][i],
        )
}

/// Whether the word `raw` may stand at slot `i` of the table `t`.
pub open spec fn entry_fits<Meta: PagingMetaData, Entry: PageTableEntry>(
    tables: Map<u64, Seq<int>>,
    t: u64,
    i: int,
    raw: u64,
) -> bool {
    ||| storable::<Entry>(raw, level_of::<Meta>(tables, t))
    ||| {
        &&& tableish::<Entry>(raw, level_of::<Meta>(tables, t))
        &&& tables.contains_key(Entry::target(raw))
        &&& tables[Entry::target(raw)] == tables[t].push(i)
    }
}

/// Whether the walk of `vaddr` from the root passes through the table `t`.
pub open spec fn on_path<Meta: PagingMetaData>(
    tables: Map<u64, Seq<int>>,
    t: u64,
    vaddr: u64,
) -> bool {
    tables.contains_key(t) && tables[t] == slots::<Meta>(vaddr, tables[t].len())
}

/// The root is a table, and its path is empty.
pub proof fn lemma_root<Meta: PagingMetaData, Entry: PageTableEntry>(
    mem: Map<u64, Seq<u64>>,
    tables: Map<u64, Seq<int>>,
    root: u64,
)
    requires
        tree::<Meta, Entry>(mem, tables, root),
    ensures
        tables.contains_key(root),
        tables[root].len() == 0,
        forall|t: u64| #[trigger] tables.contains_key(t) && tables[t].len() == 0 ==> t == root,
{
    reveal(tree);
}

/// Every table of a tree lies in a live frame, at a level of the tree.
pub proof fn lemma_table<Meta: PagingMetaData, Entry: PageTableEntry>(
    mem: Map<u64, Seq<u64>>,
    tables: Map<u64, Seq<int>>,
    root: u64,
    t: u64,
)
    requires
        layout_ok::<Meta>(),
        tree::<Meta, Entry>(mem, tables, root),
        tables.contains_key(t),
    ensures
        table_frame::<Meta>(mem, t),
        tables[t].len() < Meta::LEVELS,
        1 <= level_of::<Meta>(tables, t) <= Meta::LEVELS,
{
    reveal(tree);
}

/// Every word of a table is an entry that may stand there.
pub proof fn lemma_word<Meta: PagingMetaData, Entry: PageTableEntry>(
    mem: Map<u64, Seq<u64>>,
    tables: Map<u64, Seq<int>>,
    root: u64,
    t: u64,
    i: int,
)
    requires
        tree::<Meta, Entry>(mem, tables, root),
        tables.contains_key(t),
        0 <= i < Meta::ENTRIES_PER_TABLE,
    ensures
        entry_fits::<Meta, Entry>(tables, t, i, mem[t][i]),
{
    reveal(tree);
}

/// A slot index is within a table.
pub proof fn lemma_slot_bound<Meta: PagingMetaData>(level: u8, vaddr: u64)
    requires
        layout_ok::<Meta>(),
        1 <= level <= Meta::LEVELS,
    ensures
        0 <= slot_of::<Meta>(level, vaddr) < Meta::ENTRIES_PER_TABLE,
{
    lemma_pow2_pos(Meta::shift(level) as nat);
    lemma_pow2_pos(Meta::index_bits(level) as nat);
    assert(Meta::shift(level) < 64);
    let q: int = vaddr as int / pow2(Meta::shift(level) as nat) as int;
    let m: int = pow2(Meta::index_bits(level) as nat) as int;
    vstd::arithmetic::div_mod::lemma_mod_bound(q, m);
}

/// The root is on every path.
pub proof fn lemma_root_on_path<Meta: PagingMetaData, Entry: PageTableEntry>(
    mem: Map<u64, Seq<u64>>,
    tables: Map<u64, Seq<int>>,
    root: u64,
    vaddr: u64,
)
    requires
        tree::<Meta, Entry>(mem, tables, root),
    ensures
        on_path::<Meta>(tables, root, vaddr),
        level_of::<Meta>(tables, root) == Meta::LEVELS as u8,
{
    reveal(tree);
    assert(tables[root] =~= slots::<Meta>(vaddr, 0));
}

/// Following a table pointer stays on the path.
pub proof fn lemma_descend<Meta: PagingMetaData, Entry: PageTableEntry>(
    mem: Map<u64, Seq<u64>>,
    tables: Map<u64, Seq<int>>,
    root: u64,
    t: u64,
    vaddr: u64,
)
    requires
        layout_ok::<Meta>(),
        tree::<Meta, Entry>(mem, tables, root),
        on_path::<Meta>(tables, t, vaddr),
        tableish::<Entry>(
            mem[t][slot_of::<Meta>(level_of::<Meta>(tables, t), vaddr)],
            level_of::<Meta>(tables, t),
        ),
    ensures
        level_of::<Meta>(tables, t) > 1,
        ({
            let child = Entry::target(
                mem[t][slot_of::<Meta>(level_of::<Meta>(tables, t), vaddr)],
            );
            &&& on_path::<Meta>(tables, child, vaddr)
            &&& level_of::<Meta>(tables, child) == level_of::<Meta>(tables, t) - 1
            &&& tables[child] == tables[t].push(
                slot_of::<Meta>(level_of::<Meta>(tables, t), vaddr),
            )
        }),
{
    reveal(tree);
    let level = level_of::<Meta>(tables, t);
    let i = slot_of::<Meta>(level, vaddr);
    lemma_slot_bound::<Meta>(level, vaddr);
    let raw = mem[t][i];
    assert(entry_fits::<Meta, Entry>(tables, t, i, raw));
    let child = Entry::target(raw);
    assert(tables.contains_key(child));
    assert(tables[child] =~= slots::<Meta>(vaddr, tables[child].len()));
}

/// A walk that passes through `t` is the walk from `t`.
pub proof fn lemma_walk_via<Meta: PagingMetaData, Entry: PageTableEntry>(
    mem: Map<u64, Seq<u64>>,
    tables: Map<u64, Seq<int>>,
    root: u64,
    t: u64,
    vaddr: u64,
)
    requires
        layout_ok::<Meta>(),
        tree::<Meta, Entry>(mem, tables, root),
        on_path::<Meta>(tables, t, vaddr),
    ensures
        walk::<Meta, Entry>(mem, root, top::<Meta>(), vaddr) == walk::<Meta, Entry>(
            mem,
            t,
            level_of::<Meta>(tables, t),
            vaddr,
        ),
    decreases tables[t].len(),
{
    reveal(tree);
    if tables[t].len() > 0 {
        let p: u64 = choose|p: u64| points_to::<Meta, Entry>(mem, tables, p, t);
        assert(points_to::<Meta, Entry>(mem, tables, p, t));
        let level = level_of::<Meta>(tables, p);
        assert(tables[p] =~= slots::<Meta>(vaddr, tables[p].len()));
        assert(tables[t].last() == slot_of::<Meta>(level, vaddr));
        lemma_walk_via::<Meta, Entry>(mem, tables, root, p, vaddr);
    }
}

/// An obstacle below a table on the path is the obstacle seen from there.
pub proof fn lemma_obstacle_via<Meta: PagingMetaData, Entry: PageTableEntry>(
    mem: Map<u64, Seq<u64>>,
    tables: Map<u64, Seq<int>>,
    root: u64,
    t: u64,
    vaddr: u64,
    target: u8,
)
    requires
        layout_ok::<Meta>(),
        tree::<Meta, Entry>(mem, tables, root),
        on_path::<Meta>(tables, t, vaddr),
        target <= level_of::<Meta>(tables, t),
    ensures
        obstacle::<Meta, Entry>(mem, root, top::<Meta>(), vaddr, target) == obstacle::<Meta, Entry>(
            mem,
            t,
            level_of::<Meta>(tables, t),
            vaddr,
            target,
        ),
    decreases tables[t].len(),
{
    reveal(tree);
    if tables[t].len() > 0 {
        let p: u64 = choose|p: u64| points_to::<Meta, Entry>(mem, tables, p, t);
        assert(points_to::<Meta, Entry>(mem, tables, p, t));
        let level = level_of::<Meta>(tables, p);
        assert(tables[p] =~= slots::<Meta>(vaddr, tables[p].len()));
        assert(tables[t].last() == slot_of::<Meta>(level, vaddr));
        lemma_obstacle_via::<Meta, Entry>(mem, tables, root, p, vaddr, target);
    }
}

/// The obstacle for `vaddr` depends only on the words its walk reads.
pub proof fn lemma_obstacle_reads<Meta: PagingMetaData, Entry: PageTableEntry>(
    mem: Map<u64, Seq<u64>>,
    tables: Map<u64, Seq<int>>,
    root: u64,
    changed: Map<u64, Seq<u64>>,
    t: u64,
    vaddr: u64,
    target: u8,
)
    requires
        layout_ok::<Meta>(),
        tree::<Meta, Entry>(mem, tables, root),
        on_path::<Meta>(tables, t, vaddr),
        forall|y: u64| #[trigger]
            on_path::<Meta>(tables, y, vaddr) ==> changed[y][slot_of::<Meta>(
                level_of::<Meta>(tables, y),
                vaddr,
            )] == mem[y][slot_of::<Meta>(level_of::<Meta>(tables, y), vaddr)],
    ensures
        obstacle::<Meta, Entry>(changed, t, level_of::<Meta>(tables, t), vaddr, target)
            == obstacle::<Meta, Entry>(mem, t, level_of::<Meta>(tables, t), vaddr, target),
    decreases level_of::<Meta>(tables, t),
{
    reveal(tree);
    let level = level_of::<Meta>(tables, t);
    let raw = mem[t][slot_of::<Meta>(level, vaddr)];
    if tableish::<Entry>(raw, level) {
        lemma_descend::<Meta, Entry>(mem, tables, root, t, vaddr);
        lemma_obstacle_reads::<Meta, Entry>(
            mem,
            tables,
            root,
            changed,
            Entry::target(raw),
            vaddr,
            target,
        );
    }
}

/// A path leads to one table only.
pub proof fn lemma_path_unique<Meta: PagingMetaData, Entry: PageTableEntry>(
    mem: Map<u64, Seq<u64>>,
    tables: Map<u64, Seq<int>>,
    root: u64,
    a: u64,
    b: u64,
)
    requires
        tree::<Meta, Entry>(mem, tables, root),
        tables.contains_key(a),
        tables.contains_key(b),
        tables[a] == tables[b],
    ensures
        a == b,
    decreases tables[a].len(),
{
    reveal(tree);
    if tables[a].len() > 0 {
        let p: u64 = choose|p: u64| points_to::<Meta, Entry>(mem, tables, p, a);
        let q: u64 = choose|q: u64| points_to::<Meta, Entry>(mem, tables, q, b);
        assert(points_to::<Meta, Entry>(mem, tables, p, a));
        assert(points_to::<Meta, Entry>(mem, tables, q, b));
        lemma_path_unique::<Meta, Entry>(mem, tables, root, p, q);
    }
}

/// On a path, each table points at the one below it.
pub proof fn lemma_parent<Meta: PagingMetaData, Entry: PageTableEntry>(
    mem: Map<u64, Seq<u64>>,
    tables: Map<u64, Seq<int>>,
    root: u64,
    parent: u64,
    child: u64,
    vaddr: u64,
)
    requires
        layout_ok::<Meta>(),
        tree::<Meta, Entry>(mem, tables, root),
        on_path::<Meta>(tables, parent, vaddr),
        on_path::<Meta>(tables, child, vaddr),
        level_of::<Meta>(tables, parent) == level_of::<Meta>(tables, child) + 1,
    ensures
        ({
            let level = level_of::<Meta>(tables, parent);
            let word = mem[parent][slot_of::<Meta>(level, vaddr)];
            tableish::<Entry>(word, level) && Entry::target(word) == child
        }),
{
    reveal(tree);
    let p: u64 = choose|p: u64| points_to::<Meta, Entry>(mem, tables, p, child);
    assert(points_to::<Meta, Entry>(mem, tables, p, child));
    assert(tables[parent] =~= tables[child].drop_last());
    lemma_path_unique::<Meta, Entry>(mem, tables, root, p, parent);
    assert(tables[child].last() == slot_of::<Meta>(level_of::<Meta>(tables, parent), vaddr));
}

/// A path has one table at each level.
pub proof fn lemma_path_level<Meta: PagingMetaData, Entry: PageTableEntry>(
    mem: Map<u64, Seq<u64>>,
    tables: Map<u64, Seq<int>>,
    root: u64,
    a: u64,
    b: u64,
    vaddr: u64,
)
    requires
        layout_ok::<Meta>(),
        tree::<Meta, Entry>(mem, tables, root),
        on_path::<Meta>(tables, a, vaddr),
        on_path::<Meta>(tables, b, vaddr),
        level_of::<Meta>(tables, a) == level_of::<Meta>(tables, b),
    ensures
        a == b,
{
    lemma_table::<Meta, Entry>(mem, tables, root, a);
    lemma_table::<Meta, Entry>(mem, tables, root, b);
    lemma_path_unique::<Meta, Entry>(mem, tables, root, a, b);
}

/// A path has no table below a word that is no table pointer.
pub proof fn lemma_path_end<Meta: PagingMetaData, Entry: PageTableEntry>(
    mem: Map<u64, Seq<u64>>,
    tables: Map<u64, Seq<int>>,
    root: u64,
    t: u64,
    lower: u64,
    vaddr: u64,
)
    requires
        layout_ok::<Meta>(),
        tree::<Meta, Entry>(mem, tables, root),
        on_path::<Meta>(tables, t, vaddr),
        on_path::<Meta>(tables, lower, vaddr),
        !tableish::<Entry>(
            mem[t][slot_of::<Meta>(level_of::<Meta>(tables, t), vaddr)],
            level_of::<Meta>(tables, t),
        ),
    ensures
        level_of::<Meta>(tables, lower) >= level_of::<Meta>(tables, t),
    decreases tables[lower].len(),
{
    reveal(tree);
    if level_of::<Meta>(tables, lower) < level_of::<Meta>(tables, t) {
        let p: u64 = choose|p: u64| points_to::<Meta, Entry>(mem, tables, p, lower);
        assert(points_to::<Meta, Entry>(mem, tables, p, lower));
        assert(tables[p] =~= slots::<Meta>(vaddr, tables[p].len()));
        lemma_path_end::<Meta, Entry>(mem, tables, root, t, p, vaddr);
        lemma_path_level::<Meta, Entry>(mem, tables, root, t, p, vaddr);
        assert(tables[lower].last() == slot_of::<Meta>(level_of::<Meta>(tables, p), vaddr));
    }
}

/// The walk of `vaddr` depends only on the words it reads.
pub proof fn lemma_walk_reads<Meta: PagingMetaData, Entry: PageTableEntry>(
    mem: Map<u64, Seq<u64>>,
    tables: Map<u64, Seq<int>>,
    root: u64,
    changed: Map<u64, Seq<u64>>,
    t: u64,
    vaddr: u64,
)
    requires
        layout_ok::<Meta>(),
        tree::<Meta, Entry>(mem, tables, root),
        on_path::<Meta>(tables, t, vaddr),
        forall|y: u64| #[trigger]
            on_path::<Meta>(tables, y, vaddr) ==> changed[y][slot_of::<Meta>(
                level_of::<Meta>(tables, y),
                vaddr,
            )] == mem[y][slot_of::<Meta>(level_of::<Meta>(tables, y), vaddr)],
    ensures
        walk::<Meta, Entry>(changed, t, level_of::<Meta>(tables, t), vaddr) == walk::<Meta, Entry>(
            mem,
            t,
            level_of::<Meta>(tables, t),
            vaddr,
        ),
    decreases level_of::<Meta>(tables, t),
{
    reveal(tree);
    let level = level_of::<Meta>(tables, t);
    let raw = mem[t][slot_of::<Meta>(level, vaddr)];
    if tableish::<Entry>(raw, level) {
        lemma_descend::<Meta, Entry>(mem, tables, root, t, vaddr);
        lemma_walk_reads::<Meta, Entry>(mem, tables, root, changed, Entry::target(raw), vaddr);
    }
}

/// Two addresses that pass through `t` and take the same slot there share
/// their path down to that level, and conversely.
pub proof fn lemma_shared_slot<Meta: PagingMetaData>(
    tables: Map<u64, Seq<int>>,
    t: u64,
    a: u64,
    b: u64,
)
    requires
        layout_ok::<Meta>(),
        on_path::<Meta>(tables, t, a),
        tables[t].len() < Meta::LEVELS,
    ensures
        same_path::<Meta>(a, b, level_of::<Meta>(tables, t)) <==> (on_path::<Meta>(tables, t, b)
            && slot_of::<Meta>(level_of::<Meta>(tables, t), a) == slot_of::<Meta>(
            level_of::<Meta>(tables, t),
            b,
        )),
{
    let level = level_of::<Meta>(tables, t);
    let n = tables[t].len();
    if same_path::<Meta>(a, b, level) {
        assert(slots::<Meta>(a, n) =~= slots::<Meta>(b, n)) by {
            assert forall|k: int| 0 <= k < n implies slots::<Meta>(a, n)[k] == slots::<Meta>(
                b,
                n,
            )[k] by {
                let l = (Meta::LEVELS - k) as u8;
                assert(slot_of::<Meta>(l, a) == slot_of::<Meta>(l, b));
            }
        }
        assert(slot_of::<Meta>(level, a) == slot_of::<Meta>(level, b));
    }
    if on_path::<Meta>(tables, t, b) && slot_of::<Meta>(level, a) == slot_of::<Meta>(level, b) {
        assert forall|k: u8| level <= k <= Meta::LEVELS implies #[trigger] slot_of::<Meta>(k, a)
            == slot_of::<Meta>(k, b) by {
            if k > level {
                let j = Meta::LEVELS - k;
                assert(slots::<Meta>(a, n)[j] == slots::<Meta>(b, n)[j]);
            }
        }
    }
}

/// Replacing a word that is no table pointer by another keeps the tree.
pub proof fn lemma_set_word_tree<Meta: PagingMetaData, Entry: PageTableEntry>(
    mem: Map<u64, Seq<u64>>,
    tables: Map<u64, Seq<int>>,
    root: u64,
    t: u64,
    i: int,
    raw: u64,
)
    requires
        layout_ok::<Meta>(),
        tree::<Meta, Entry>(mem, tables, root),
        tables.contains_key(t),
        0 <= i < Meta::ENTRIES_PER_TABLE,
        !tableish::<Entry>(mem[t][i], level_of::<Meta>(tables, t)),
        storable::<Entry>(raw, level_of::<Meta>(tables, t)),
    ensures
        tree::<Meta, Entry>(poke(mem, t, i, raw), tables, root),
{
    reveal(tree);
    let after = poke(mem, t, i, raw);
    assert(table_frame::<Meta>(mem, t));
    assert forall|x: u64, j: int|
        tables.contains_key(x) && 0 <= j < Meta::ENTRIES_PER_TABLE implies entry_fits::<
        Meta,
        Entry,
    >(tables, x, j, #[trigger] after[x][j]) by {
        assert(table_frame::<Meta>(mem, x));
        if x == t && j == i {
        } else {
            assert(after[x][j] == mem[x][j]);
            assert(entry_fits::<Meta, Entry>(tables, x, j, mem[x][j]));
        }
    }
    assert forall|x: u64| #[trigger] tables.contains_key(x) implies {
        &&& table_frame::<Meta>(after, x)
        &&& tables[x].len() < Meta::LEVELS
        &&& tables[x].len() == 0 ==> x == root
        &&& tables[x].len() > 0 ==> exists|p: u64| points_to::<Meta, Entry>(after, tables, p, x)
    } by {
        assert(table_frame::<Meta>(mem, x));
        if tables[x].len() > 0 {
            let p: u64 = choose|p: u64| points_to::<Meta, Entry>(mem, tables, p, x);
            assert(points_to::<Meta, Entry>(mem, tables, p, x));
            assert(table_frame::<Meta>(mem, p));
            assert(points_to::<Meta, Entry>(after, tables, p, x));
        }
    }
}

/// Replacing a word that is no table pointer by another changes the walks
/// that end there, and no others.
pub proof fn lemma_set_word<Meta: PagingMetaData, Entry: PageTableEntry>(
    mem: Map<u64, Seq<u64>>,
    tables: Map<u64, Seq<int>>,
    root: u64,
    t: u64,
    vaddr: u64,
    raw: u64,
)
    requires
        layout_ok::<Meta>(),
        tree::<Meta, Entry>(mem, tables, root),
        on_path::<Meta>(tables, t, vaddr),
        ({
            let level = level_of::<Meta>(tables, t);
            &&& !tableish::<Entry>(mem[t][slot_of::<Meta>(level, vaddr)], level)
            &&& storable::<Entry>(raw, level)
        }),
    ensures
        ({
            let level = level_of::<Meta>(tables, t);
            let after = poke(mem, t, slot_of::<Meta>(level, vaddr), raw);
            &&& tree::<Meta, Entry>(after, tables, root)
            &&& forall|w: u64| #[trigger]
                walk::<Meta, Entry>(after, root, top::<Meta>(), w) == if same_path::<Meta>(
                    vaddr,
                    w,
                    level,
                ) {
                    ending::<Entry>(raw, level)
                } else {
                    walk::<Meta, Entry>(mem, root, top::<Meta>(), w)
                }
        }),
{
    reveal(tree);
    let level = level_of::<Meta>(tables, t);
    let i = slot_of::<Meta>(level, vaddr);
    let after = poke(mem, t, i, raw);
    assert(table_frame::<Meta>(mem, t));
    lemma_slot_bound::<Meta>(level, vaddr);
    lemma_set_word_tree::<Meta, Entry>(mem, tables, root, t, i, raw);
    assert forall|w: u64| #[trigger]
        walk::<Meta, Entry>(after, root, top::<Meta>(), w) == if same_path::<Meta>(
            vaddr,
            w,
            level,
        ) {
            ending::<Entry>(raw, level)
        } else {
            walk::<Meta, Entry>(mem, root, top::<Meta>(), w)
        } by {
        lemma_shared_slot::<Meta>(tables, t, vaddr, w);
        if same_path::<Meta>(vaddr, w, level) {
            lemma_walk_via::<Meta, Entry>(after, tables, root, t, w);
            assert(after[t][i] == raw);
        } else {
            lemma_same_reads::<Meta, Entry>(mem, tables, root, t, i, raw, w);
        }
    }
}

/// A walk that does not read slot `i` of `t` is the same when it changes.
pub proof fn lemma_same_reads<Meta: PagingMetaData, Entry: PageTableEntry>(
    mem: Map<u64, Seq<u64>>,
    tables: Map<u64, Seq<int>>,
    root: u64,
    t: u64,
    i: int,
    raw: u64,
    w: u64,
)
    requires
        layout_ok::<Meta>(),
        tree::<Meta, Entry>(mem, tables, root),
        tables.contains_key(t),
        0 <= i < Meta::ENTRIES_PER_TABLE,
        !(on_path::<Meta>(tables, t, w) && slot_of::<Meta>(level_of::<Meta>(tables, t), w) == i),
    ensures
        walk::<Meta, Entry>(poke(mem, t, i, raw), root, top::<Meta>(), w) == walk::<Meta, Entry>(
            mem,
            root,
            top::<Meta>(),
            w,
        ),
{
    reveal(tree);
    let after = poke(mem, t, i, raw);
    lemma_root_on_path::<Meta, Entry>(mem, tables, root, w);
    assert forall|y: u64| #[trigger] on_path::<Meta>(tables, y, w) implies after[y][slot_of::<Meta>(
        level_of::<Meta>(tables, y),
        w,
    )] == mem[y][slot_of::<Meta>(level_of::<Meta>(tables, y), w)] by {
        assert(table_frame::<Meta>(mem, y));
        lemma_slot_bound::<Meta>(level_of::<Meta>(tables, y), w);
    }
    lemma_walk_reads::<Meta, Entry>(mem, tables, root, after, root, w);
}

/// Attaching a table: a word that is no table pointer becomes a pointer to a
/// fresh table that holds no table pointers itself.
pub proof fn lemma_attach_tree<Meta: PagingMetaData, Entry: PageTableEntry>(
    mem: Map<u64, Seq<u64>>,
    tables: Map<u64, Seq<int>>,
    root: u64,
    t: u64,
    i: int,
    raw: u64,
)
    requires
        layout_ok::<Meta>(),
        tree::<Meta, Entry>(mem, tables, root),
        tables.contains_key(t),
        0 <= i < Meta::ENTRIES_PER_TABLE,
        ({
            let level = level_of::<Meta>(tables, t);
            let child = Entry::target(raw);
            &&& level > 1
            &&& !tableish::<Entry>(mem[t][i], level)
            &&& tableish::<Entry>(raw, level)
            &&& !tables.contains_key(child)
            &&& table_frame::<Meta>(mem, child)
            &&& forall|j: int|
                0 <= j < Meta::ENTRIES_PER_TABLE ==> storable::<Entry>(
                    #[trigger] mem[child][j],
                    (level - 1) as u8,
                )
        }),
    ensures
        tree::<Meta, Entry>(
            poke(mem, t, i, raw),
            tables.insert(Entry::target(raw), tables[t].push(i)),
            root,
        ),
{
    reveal(tree);
    let level = level_of::<Meta>(tables, t);
    let child = Entry::target(raw);
    let after = poke(mem, t, i, raw);
    let grown = tables.insert(child, tables[t].push(i));
    assert(table_frame::<Meta>(mem, t));
    assert forall|x: u64, j: int|
        grown.contains_key(x) && 0 <= j < Meta::ENTRIES_PER_TABLE implies entry_fits::<
        Meta,
        Entry,
    >(grown, x, j, #[trigger] after[x][j]) by {
        if x == child {
            assert(after[x][j] == mem[child][j]);
        } else {
            assert(table_frame::<Meta>(mem, x));
            if x == t && j == i {
            } else {
                assert(after[x][j] == mem[x][j]);
                assert(entry_fits::<Meta, Entry>(tables, x, j, mem[x][j]));
            }
        }
    }
    assert forall|x: u64| #[trigger] grown.contains_key(x) implies {
        &&& table_frame::<Meta>(after, x)
        &&& grown[x].len() < Meta::LEVELS
        &&& grown[x].len() == 0 ==> x == root
        &&& grown[x].len() > 0 ==> exists|p: u64| points_to::<Meta, Entry>(after, grown, p, x)
    } by {
        if x == child {
            assert(tables[t].push(i).drop_last() =~= tables[t]);
            assert(points_to::<Meta, Entry>(after, grown, t, x));
        } else {
            assert(table_frame::<Meta>(mem, x));
            if tables[x].len() > 0 {
                let p: u64 = choose|p: u64| points_to::<Meta, Entry>(mem, tables, p, x);
                assert(points_to::<Meta, Entry>(mem, tables, p, x));
                assert(table_frame::<Meta>(mem, p));
                assert(points_to::<Meta, Entry>(after, grown, p, x));
            }
        }
    }
}

/// What attaching a table does to translation: the walks through the word
/// end in the attached table, and no others change.
pub proof fn lemma_attach<Meta: PagingMetaData, Entry: PageTableEntry>(
    mem: Map<u64, Seq<u64>>,
    tables: Map<u64, Seq<int>>,
    root: u64,
    t: u64,
    vaddr: u64,
    raw: u64,
)
    requires
        layout_ok::<Meta>(),
        tree::<Meta, Entry>(mem, tables, root),
        on_path::<Meta>(tables, t, vaddr),
        ({
            let level = level_of::<Meta>(tables, t);
            let child = Entry::target(raw);
            &&& level > 1
            &&& !tableish::<Entry>(mem[t][slot_of::<Meta>(level, vaddr)], level)
            &&& tableish::<Entry>(raw, level)
            &&& !tables.contains_key(child)
            &&& table_frame::<Meta>(mem, child)
            &&& forall|j: int|
                0 <= j < Meta::ENTRIES_PER_TABLE ==> storable::<Entry>(
                    #[trigger] mem[child][j],
                    (level - 1) as u8,
                )
        }),
    ensures
        ({
            let level = level_of::<Meta>(tables, t);
            let i = slot_of::<Meta>(level, vaddr);
            let child = Entry::target(raw);
            let after = poke(mem, t, i, raw);
            let grown = tables.insert(child, tables[t].push(i));
            &&& tree::<Meta, Entry>(after, grown, root)
            &&& on_path::<Meta>(grown, child, vaddr)
            &&& level_of::<Meta>(grown, child) == level - 1
            &&& forall|w: u64| #[trigger]
                walk::<Meta, Entry>(after, root, top::<Meta>(), w) == if same_path::<Meta>(
                    vaddr,
                    w,
                    level,
                ) {
                    ending::<Entry>(
                        mem[child][slot_of::<Meta>((level - 1) as u8, w)],
                        (level - 1) as u8,
                    )
                } else {
                    walk::<Meta, Entry>(mem, root, top::<Meta>(), w)
                }
        }),
{
    reveal(tree);
    let level = level_of::<Meta>(tables, t);
    let i = slot_of::<Meta>(level, vaddr);
    let child = Entry::target(raw);
    let after = poke(mem, t, i, raw);
    let grown = tables.insert(child, tables[t].push(i));
    assert(table_frame::<Meta>(mem, t));
    lemma_slot_bound::<Meta>(level, vaddr);
    lemma_attach_tree::<Meta, Entry>(mem, tables, root, t, i, raw);
    assert(after[t][i] == raw);
    assert(on_path::<Meta>(grown, t, vaddr));
    lemma_descend::<Meta, Entry>(after, grown, root, t, vaddr);
    assert forall|w: u64| #[trigger]
        walk::<Meta, Entry>(after, root, top::<Meta>(), w) == if same_path::<Meta>(
            vaddr,
            w,
            level,
        ) {
            ending::<Entry>(mem[child][slot_of::<Meta>((level - 1) as u8, w)], (level - 1) as u8)
        } else {
            walk::<Meta, Entry>(mem, root, top::<Meta>(), w)
        } by {
        lemma_shared_slot::<Meta>(tables, t, vaddr, w);
        if same_path::<Meta>(vaddr, w, level) {
            assert(on_path::<Meta>(grown, t, w));
            lemma_descend::<Meta, Entry>(after, grown, root, t, w);
            lemma_walk_via::<Meta, Entry>(after, grown, root, child, w);
            lemma_slot_bound::<Meta>((level - 1) as u8, w);
            let raw2 = mem[child][slot_of::<Meta>((level - 1) as u8, w)];
            assert(storable::<Entry>(raw2, (level - 1) as u8));
        } else {
            lemma_same_reads::<Meta, Entry>(mem, tables, root, t, i, raw, w);
        }
    }
}

/// Detaching a table that holds no table pointers: its parent's word becomes
/// one that is no table pointer.
pub proof fn lemma_detach_tree<Meta: PagingMetaData, Entry: PageTableEntry>(
    mem: Map<u64, Seq<u64>>,
    tables: Map<u64, Seq<int>>,
    root: u64,
    t: u64,
    i: int,
    raw: u64,
)
    requires
        layout_ok::<Meta>(),
        tree::<Meta, Entry>(mem, tables, root),
        tables.contains_key(t),
        0 <= i < Meta::ENTRIES_PER_TABLE,
        ({
            let level = level_of::<Meta>(tables, t);
            let child = Entry::target(mem[t][i]);
            &&& tableish::<Entry>(mem[t][i], level)
            &&& storable::<Entry>(raw, level)
            &&& forall|j: int|
                0 <= j < Meta::ENTRIES_PER_TABLE ==> !tableish::<Entry>(
                    #[trigger] mem[child][j],
                    (level - 1) as u8,
                )
        }),
    ensures
        tree::<Meta, Entry>(poke(mem, t, i, raw), tables.remove(Entry::target(mem[t][i])), root),
{
    reveal(tree);
    let level = level_of::<Meta>(tables, t);
    let child = Entry::target(mem[t][i]);
    let after = poke(mem, t, i, raw);
    let shrunk = tables.remove(child);
    assert(table_frame::<Meta>(mem, t));
    assert(entry_fits::<Meta, Entry>(tables, t, i, mem[t][i]));
    assert(tables[child] == tables[t].push(i));
    assert forall|x: u64, j: int|
        shrunk.contains_key(x) && 0 <= j < Meta::ENTRIES_PER_TABLE implies entry_fits::<
        Meta,
        Entry,
    >(shrunk, x, j, #[trigger] after[x][j]) by {
        assert(table_frame::<Meta>(mem, x));
        if x == t && j == i {
        } else {
            assert(after[x][j] == mem[x][j]);
            assert(entry_fits::<Meta, Entry>(tables, x, j, mem[x][j]));
            if Entry::target(mem[x][j]) == child && tables[child] == tables[x].push(j) {
                assert(tables[x].push(j).drop_last() =~= tables[x]);
                assert(tables[t].push(i).drop_last() =~= tables[t]);
                assert(tables[x].push(j).last() == j);
                assert(tables[t].push(i).last() == i);
                lemma_path_unique::<Meta, Entry>(mem, tables, root, x, t);
            }
        }
    }
    assert forall|x: u64| #[trigger] shrunk.contains_key(x) implies {
        &&& table_frame::<Meta>(after, x)
        &&& shrunk[x].len() < Meta::LEVELS
        &&& shrunk[x].len() == 0 ==> x == root
        &&& shrunk[x].len() > 0 ==> exists|p: u64| points_to::<Meta, Entry>(after, shrunk, p, x)
    } by {
        assert(tables.contains_key(x));
        assert(table_frame::<Meta>(mem, x));
        if tables[x].len() > 0 {
            let p: u64 = choose|p: u64| points_to::<Meta, Entry>(mem, tables, p, x);
            assert(points_to::<Meta, Entry>(mem, tables, p, x));
            assert(table_frame::<Meta>(mem, p));
            let j = tables[x].last();
            assert(p != child) by {
                assert(level_of::<Meta>(tables, child) == level - 1);
                assert(!tableish::<Entry>(mem[child][j], (level - 1) as u8) || p != child);
            }
            assert(points_to::<Meta, Entry>(after, shrunk, p, x));
        }
    }
}

/// What detaching a table does to translation: the walks that passed through
/// it end at the new word, and no others change.
pub proof fn lemma_detach<Meta: PagingMetaData, Entry: PageTableEntry>(
    mem: Map<u64, Seq<u64>>,
    tables: Map<u64, Seq<int>>,
    root: u64,
    t: u64,
    vaddr: u64,
    raw: u64,
)
    requires
        layout_ok::<Meta>(),
        tree::<Meta, Entry>(mem, tables, root),
        on_path::<Meta>(tables, t, vaddr),
        ({
            let level = level_of::<Meta>(tables, t);
            let word = mem[t][slot_of::<Meta>(level, vaddr)];
            &&& tableish::<Entry>(word, level)
            &&& storable::<Entry>(raw, level)
            &&& forall|j: int|
                0 <= j < Meta::ENTRIES_PER_TABLE ==> !tableish::<Entry>(
                    #[trigger] mem[Entry::target(word)][j],
                    (level - 1) as u8,
                )
        }),
    ensures
        ({
            let level = level_of::<Meta>(tables, t);
            let i = slot_of::<Meta>(level, vaddr);
            let child = Entry::target(mem[t][i]);
            let after = poke(mem, t, i, raw);
            let shrunk = tables.remove(child);
            &&& tree::<Meta, Entry>(after, shrunk, root)
            &&& on_path::<Meta>(shrunk, t, vaddr)
            &&& forall|w: u64| #[trigger]
                walk::<Meta, Entry>(after, root, top::<Meta>(), w) == if same_path::<Meta>(
                    vaddr,
                    w,
                    level,
                ) {
                    ending::<Entry>(raw, level)
                } else {
                    walk::<Meta, Entry>(mem, root, top::<Meta>(), w)
                }
        }),
{
    reveal(tree);
    let level = level_of::<Meta>(tables, t);
    let i = slot_of::<Meta>(level, vaddr);
    let child = Entry::target(mem[t][i]);
    let after = poke(mem, t, i, raw);
    let shrunk = tables.remove(child);
    assert(table_frame::<Meta>(mem, t));
    lemma_slot_bound::<Meta>(level, vaddr);
    lemma_detach_tree::<Meta, Entry>(mem, tables, root, t, i, raw);
    lemma_descend::<Meta, Entry>(mem, tables, root, t, vaddr);
    assert(after[t][i] == raw);
    assert(t != child);
    assert forall|w: u64| #[trigger]
        walk::<Meta, Entry>(after, root, top::<Meta>(), w) == if same_path::<Meta>(
            vaddr,
            w,
            level,
        ) {
            ending::<Entry>(raw, level)
        } else {
            walk::<Meta, Entry>(mem, root, top::<Meta>(), w)
        } by {
        lemma_shared_slot::<Meta>(tables, t, vaddr, w);
        if same_path::<Meta>(vaddr, w, level) {
            assert(on_path::<Meta>(shrunk, t, w));
            lemma_walk_via::<Meta, Entry>(after, shrunk, root, t, w);
        } else {
            lemma_same_reads::<Meta, Entry>(mem, tables, root, t, i, raw, w);
        }
    }
}

/// A tree does not depend on frames that are none of its tables.
pub proof fn lemma_foreign_frames<Meta: PagingMetaData, Entry: PageTableEntry>(
    mem: Map<u64, Seq<u64>>,
    tables: Map<u64, Seq<int>>,
    root: u64,
    after: Map<u64, Seq<u64>>,
)
    requires
        layout_ok::<Meta>(),
        tree::<Meta, Entry>(mem, tables, root),
        forall|t: u64| #[trigger]
            tables.contains_key(t) ==> after.contains_key(t) && after[t] == mem[t],
    ensures
        tree::<Meta, Entry>(after, tables, root),
        forall|w: u64| #[trigger]
            walk::<Meta, Entry>(after, root, top::<Meta>(), w) == walk::<Meta, Entry>(
                mem,
                root,
                top::<Meta>(),
                w,
            ),
        forall|w: u64, target: u8| #[trigger]
            obstacle::<Meta, Entry>(after, root, top::<Meta>(), w, target) == obstacle::<
                Meta,
                Entry,
            >(mem, root, top::<Meta>(), w, target),
{
    reveal(tree);
    assert forall|x: u64, j: int|
        tables.contains_key(x) && 0 <= j < Meta::ENTRIES_PER_TABLE implies entry_fits::<
        Meta,
        Entry,
    >(tables, x, j, #[trigger] after[x][j]) by {
        assert(entry_fits::<Meta, Entry>(tables, x, j, mem[x][j]));
    }
    assert forall|x: u64| #[trigger] tables.contains_key(x) implies {
        &&& table_frame::<Meta>(after, x)
        &&& tables[x].len() < Meta::LEVELS
        &&& tables[x].len() == 0 ==> x == root
        &&& tables[x].len() > 0 ==> exists|p: u64| points_to::<Meta, Entry>(after, tables, p, x)
    } by {
        assert(table_frame::<Meta>(mem, x));
        if tables[x].len() > 0 {
            let p: u64 = choose|p: u64| points_to::<Meta, Entry>(mem, tables, p, x);
            assert(points_to::<Meta, Entry>(mem, tables, p, x));
            assert(points_to::<Meta, Entry>(after, tables, p, x));
        }
    }
    assert forall|w: u64| #[trigger]
        walk::<Meta, Entry>(after, root, top::<Meta>(), w) == walk::<Meta, Entry>(
            mem,
            root,
            top::<Meta>(),
            w,
        ) by {
        lemma_root_on_path::<Meta, Entry>(mem, tables, root, w);
        lemma_walk_reads::<Meta, Entry>(mem, tables, root, after, root, w);
    }
    assert forall|w: u64, target: u8| #[trigger]
        obstacle::<Meta, Entry>(after, root, top::<Meta>(), w, target) == obstacle::<Meta, Entry>(
            mem,
            root,
            top::<Meta>(),
            w,
            target,
        ) by {
        lemma_root_on_path::<Meta, Entry>(mem, tables, root, w);
        lemma_obstacle_reads::<Meta, Entry>(mem, tables, root, after, root, w, target);
    }
}

} // verus!
