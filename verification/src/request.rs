//! What a mapping request of many leaves does.

use crate::addr::{AddrRange, MemoryAddr};
use crate::effect::{flushed, placed, turned_down, TreeView};
use crate::error::{PagingError, PagingResult};
use crate::flush::{drained, queued, Pending};
use crate::mapping::{MapBacking, MappingContiguity, MappingFlags};
use crate::meta::PageSize;
use crate::paging::{PageTableEntry, PagingMetaData, TlbInvalidation};
use crate::plan::{exact_leaf, followed_by, rejected, request_plan, single, Placement, Plan};
use crate::tree::storable;
use vstd::prelude::*;

verus! {

/// The word of a leaf with these flags.
pub open spec fn word_of<Entry: PageTableEntry>(leaf: Placement, flags: Entry::Flags) -> u64 {
    Entry::leaf_raw(leaf.paddr, flags, leaf.size)
}

/// Whether every leaf of a plan encodes as one with these flags: a format may
/// have flag combinations whose encoding reads as a table pointer.
pub open spec fn encodes<Entry: PageTableEntry>(plan: Plan, flags: Entry::Flags) -> bool {
    forall|k: int|
        0 <= k < plan.leaves.len() ==> storable::<Entry>(
            word_of::<Entry>(#[trigger] plan.leaves[k], flags),
            plan.leaves[k].level,
        )
}

/// Whether `leaves` were installed one after the other.
pub open spec fn installs<Meta: PagingMetaData, Entry: PageTableEntry>(
    before: TreeView,
    after: TreeView,
    leaves: Seq<Placement>,
    flags: Entry::Flags,
) -> bool
    decreases leaves.len(),
{
    if leaves.len() == 0 {
        after == before
    } else {
        exists|mid: TreeView|
            installs::<Meta, Entry>(before, mid, leaves.drop_last(), flags) && #[trigger] placed::<
                Meta,
                Entry,
            >(mid, after, leaves.last(), word_of::<Entry>(leaves.last(), flags), Ok(()))
    }
}

/// Whether the first `k` leaves of a plan were installed, and the request then
/// ended with `r`: as the plan ends if those are all, and else because the next
/// leaf was turned down.
pub open spec fn mapped<Meta: PagingMetaData, Entry: PageTableEntry>(
    before: TreeView,
    after: TreeView,
    plan: Plan,
    flags: Entry::Flags,
    k: int,
    r: PagingResult,
) -> bool {
    &&& 0 <= k <= plan.leaves.len()
    &&& exists|mid: TreeView|
        {
            &&& #[trigger] installs::<Meta, Entry>(before, mid, plan.leaves.take(k), flags)
            &&& if k == plan.leaves.len() {
                &&& after == mid
                &&& match plan.stop {
                    None => r is Ok,
                    Some(e) => r == Err::<(), PagingError>(e),
                }
            } else {
                r matches Err(e) && turned_down::<Meta, Entry>(mid, after, plan.leaves[k], e)
            }
        }
}

/// The invalidations due once `leaves` are queued.
pub open spec fn queued_all(pending: Pending, leaves: Seq<Placement>, page: PageSize) -> Pending
    decreases leaves.len(),
{
    if leaves.len() == 0 {
        pending
    } else {
        queued(
            queued_all(pending, leaves.drop_last(), page),
            leaves.last().vaddr,
            leaves.last().size.len(),
            page,
        )
    }
}

/// Whether a request was carried out as far as it went, and every leaf that it
/// installed was queued for invalidation.
pub open spec fn progressed<Meta: PagingMetaData, Entry: PageTableEntry>(
    before: TreeView,
    due: Pending,
    after: TreeView,
    due_after: Pending,
    plan: Plan,
    flags: Entry::Flags,
    r: PagingResult,
) -> bool {
    exists|k: int|
        {
            &&& #[trigger] mapped::<Meta, Entry>(before, after, plan, flags, k, r)
            &&& due_after == queued_all(due, plan.leaves.take(k), Meta::BASE_PAGE_SIZE)
        }
}

/// The one leaf that a contiguous request is, if its size is a page size.
pub open spec fn whole_leaf<Meta: PagingMetaData>(
    range: AddrRange<Meta::VirtAddr>,
    backing: PagingResult<MapBacking<'_>>,
    contiguity: MappingContiguity,
) -> PagingResult<Option<Placement>> {
    match (contiguity, backing) {
        (_, Err(e)) => Err(e),
        (MappingContiguity::Contiguous, Ok(MapBacking::Contiguous(phys))) => if phys.empty()
            || range.len() != phys.len() {
            Err(PagingError::InvalidMappingShape)
        } else {
            exact_leaf::<Meta>(range, phys.lo(), None)
        },
        _ => Ok(None),
    }
}

/// The leaves of a request to a walker.
pub open spec fn map_plan<Meta: PagingMetaData>(
    range: AddrRange<Meta::VirtAddr>,
    backing: PagingResult<MapBacking<'_>>,
    contiguity: MappingContiguity,
) -> Plan {
    match whole_leaf::<Meta>(range, backing, contiguity) {
        Err(e) => rejected(e),
        Ok(Some(leaf)) => single(leaf),
        Ok(None) => request_plan::<Meta>(range, backing->Ok_0, contiguity),
    }
}

/// What a request to a walker does to the TLB. A request of one leaf flushes
/// its range where it succeeds; any other drains the queue of what it
/// installed, also where it fails in the end.
pub open spec fn map_flush<V: MemoryAddr, T: TlbInvalidation<V>>(
    tlb: T,
    range: AddrRange<V>,
    whole: PagingResult<Option<Placement>>,
    due: Pending,
    r: PagingResult,
    page: PageSize,
) -> T {
    if whole matches Ok(Some(_)) {
        if r is Ok {
            flushed::<V, T>(tlb, range, page)
        } else {
            tlb
        }
    } else {
        drained::<V, T>(tlb, due, page)
    }
}

/// What a request to a walker does to the tree, with the invalidations that
/// are due then.
pub open spec fn map_effect<Meta: PagingMetaData, Entry: PageTableEntry>(
    before: TreeView,
    after: TreeView,
    range: AddrRange<Meta::VirtAddr>,
    backing: PagingResult<MapBacking<'_>>,
    flags: MappingFlags<Entry::Flags>,
    due: Pending,
    r: PagingResult,
) -> bool {
    progressed::<Meta, Entry>(
        before,
        Pending::Ranges(Set::empty()),
        after,
        due,
        map_plan::<Meta>(range, backing, flags.contiguity),
        flags.leaf,
        r,
    )
}

/// A request that is rejected changes nothing.
pub proof fn lemma_rejected<Meta: PagingMetaData, Entry: PageTableEntry>(
    view: TreeView,
    due: Pending,
    flags: Entry::Flags,
    error: PagingError,
)
    ensures
        progressed::<Meta, Entry>(view, due, view, due, rejected(error), flags, Err(error)),
{
    let plan = rejected(error);
    assert(plan.leaves.take(0).len() == 0);
    assert(installs::<Meta, Entry>(view, view, plan.leaves.take(0), flags));
    assert(mapped::<Meta, Entry>(view, view, plan, flags, 0, Err(error)));
}

/// A request without leaves changes nothing.
pub proof fn lemma_nothing<Meta: PagingMetaData, Entry: PageTableEntry>(
    view: TreeView,
    due: Pending,
    flags: Entry::Flags,
)
    ensures
        progressed::<Meta, Entry>(
            view,
            due,
            view,
            due,
            Plan { leaves: Seq::empty(), stop: None },
            flags,
            Ok(()),
        ),
{
    let plan = Plan { leaves: Seq::<Placement>::empty(), stop: None };
    assert(plan.leaves.take(0).len() == 0);
    assert(installs::<Meta, Entry>(view, view, plan.leaves.take(0), flags));
    assert(mapped::<Meta, Entry>(view, view, plan, flags, 0, Ok(())));
}

/// A request of one leaf.
pub proof fn lemma_single<Meta: PagingMetaData, Entry: PageTableEntry>(
    before: TreeView,
    due: Pending,
    after: TreeView,
    due_after: Pending,
    leaf: Placement,
    flags: Entry::Flags,
    r: PagingResult,
)
    requires
        placed::<Meta, Entry>(before, after, leaf, word_of::<Entry>(leaf, flags), r),
        due_after == if r is Ok {
            queued(due, leaf.vaddr, leaf.size.len(), Meta::BASE_PAGE_SIZE)
        } else {
            due
        },
    ensures
        progressed::<Meta, Entry>(before, due, after, due_after, single(leaf), flags, r),
{
    let plan = single(leaf);
    let none = plan.leaves.take(0);
    assert(none.len() == 0);
    assert(installs::<Meta, Entry>(before, before, none, flags));
    match r {
        Ok(u) => {
            assert(u == ());
            let all = plan.leaves.take(1);
            assert(all =~= plan.leaves);
            assert(all.drop_last() =~= none);
            assert(installs::<Meta, Entry>(before, before, all.drop_last(), flags));
            assert(placed::<Meta, Entry>(
                before,
                after,
                all.last(),
                word_of::<Entry>(all.last(), flags),
                Ok(()),
            ));
            assert(installs::<Meta, Entry>(before, after, all, flags));
            assert(mapped::<Meta, Entry>(before, after, plan, flags, 1, r));
            assert(queued_all(due, all.drop_last(), Meta::BASE_PAGE_SIZE) == due);
        },
        Err(e) => {
            assert(mapped::<Meta, Entry>(before, after, plan, flags, 0, r));
        },
    }
}

/// Installing leaves composes.
pub proof fn lemma_installs<Meta: PagingMetaData, Entry: PageTableEntry>(
    a: TreeView,
    b: TreeView,
    c: TreeView,
    first: Seq<Placement>,
    second: Seq<Placement>,
    flags: Entry::Flags,
)
    requires
        installs::<Meta, Entry>(a, b, first, flags),
        installs::<Meta, Entry>(b, c, second, flags),
    ensures
        installs::<Meta, Entry>(a, c, first + second, flags),
    decreases second.len(),
{
    let both = first + second;
    if second.len() == 0 {
        assert(both =~= first);
    } else {
        let mid: TreeView = choose|mid: TreeView|
            installs::<Meta, Entry>(b, mid, second.drop_last(), flags) && #[trigger] placed::<
                Meta,
                Entry,
            >(mid, c, second.last(), word_of::<Entry>(second.last(), flags), Ok(()));
        lemma_installs::<Meta, Entry>(a, b, mid, first, second.drop_last(), flags);
        assert(both.drop_last() =~= first + second.drop_last());
        assert(both.last() == second.last());
        assert(installs::<Meta, Entry>(a, mid, both.drop_last(), flags));
        assert(placed::<Meta, Entry>(
            mid,
            c,
            both.last(),
            word_of::<Entry>(both.last(), flags),
            Ok(()),
        ));
    }
}

/// Queueing leaves composes.
pub proof fn lemma_queued_all(
    due: Pending,
    first: Seq<Placement>,
    second: Seq<Placement>,
    page: PageSize,
)
    ensures
        queued_all(queued_all(due, first, page), second, page) == queued_all(
            due,
            first + second,
            page,
        ),
    decreases second.len(),
{
    let both = first + second;
    if second.len() == 0 {
        assert(both =~= first);
    } else {
        lemma_queued_all(due, first, second.drop_last(), page);
        assert(both.drop_last() =~= first + second.drop_last());
        assert(both.last() == second.last());
    }
}

/// A request carried out in full, and then another.
pub proof fn lemma_then<Meta: PagingMetaData, Entry: PageTableEntry>(
    a: TreeView,
    due_a: Pending,
    b: TreeView,
    due_b: Pending,
    c: TreeView,
    due_c: Pending,
    first: Plan,
    second: Plan,
    flags: Entry::Flags,
    r: PagingResult,
)
    requires
        progressed::<Meta, Entry>(a, due_a, b, due_b, first, flags, Ok(())),
        progressed::<Meta, Entry>(b, due_b, c, due_c, second, flags, r),
    ensures
        progressed::<Meta, Entry>(a, due_a, c, due_c, followed_by(first, second), flags, r),
{
    let page = Meta::BASE_PAGE_SIZE;
    let plan = followed_by(first, second);
    let i: int = choose|i: int|
        {
            &&& #[trigger] mapped::<Meta, Entry>(a, b, first, flags, i, Ok(()))
            &&& due_b == queued_all(due_a, first.leaves.take(i), page)
        };
    assert(mapped::<Meta, Entry>(a, b, first, flags, i, Ok(())));
    assert(i == first.leaves.len());
    assert(first.leaves.take(i) =~= first.leaves);
    let k: int = choose|k: int|
        {
            &&& #[trigger] mapped::<Meta, Entry>(b, c, second, flags, k, r)
            &&& due_c == queued_all(due_b, second.leaves.take(k), page)
        };
    assert(mapped::<Meta, Entry>(b, c, second, flags, k, r));
    let n = first.leaves.len() as int;
    let done = plan.leaves.take(n + k);
    assert(plan.leaves == first.leaves + second.leaves);
    assert(done =~= first.leaves + second.leaves.take(k));
    lemma_queued_all(due_a, first.leaves, second.leaves.take(k), page);
    let mid: TreeView = choose|mid: TreeView|
        {
            &&& #[trigger] installs::<Meta, Entry>(b, mid, second.leaves.take(k), flags)
            &&& if k == second.leaves.len() {
                &&& c == mid
                &&& match second.stop {
                    None => r is Ok,
                    Some(e) => r == Err::<(), PagingError>(e),
                }
            } else {
                r matches Err(e) && turned_down::<Meta, Entry>(mid, c, second.leaves[k], e)
            }
        };
    lemma_installs::<Meta, Entry>(a, b, mid, first.leaves, second.leaves.take(k), flags);
    assert(installs::<Meta, Entry>(a, mid, done, flags));
    if k < second.leaves.len() {
        assert(plan.leaves[n + k] == second.leaves[k]);
    }
    assert(mapped::<Meta, Entry>(a, c, plan, flags, n + k, r));
}

/// A request that fails is not followed by another.
pub proof fn lemma_fails<Meta: PagingMetaData, Entry: PageTableEntry>(
    a: TreeView,
    due_a: Pending,
    b: TreeView,
    due_b: Pending,
    first: Plan,
    second: Plan,
    flags: Entry::Flags,
    error: PagingError,
)
    requires
        progressed::<Meta, Entry>(a, due_a, b, due_b, first, flags, Err(error)),
    ensures
        progressed::<Meta, Entry>(
            a,
            due_a,
            b,
            due_b,
            followed_by(first, second),
            flags,
            Err(error),
        ),
{
    if first.stop is None {
        let r: PagingResult = Err(error);
        let page = Meta::BASE_PAGE_SIZE;
        let plan = followed_by(first, second);
        let k: int = choose|k: int|
            {
                &&& #[trigger] mapped::<Meta, Entry>(a, b, first, flags, k, r)
                &&& due_b == queued_all(due_a, first.leaves.take(k), page)
            };
        assert(mapped::<Meta, Entry>(a, b, first, flags, k, r));
        assert(k < first.leaves.len());
        assert(plan.leaves.take(k) =~= first.leaves.take(k));
        assert(plan.leaves[k] == first.leaves[k]);
        assert(mapped::<Meta, Entry>(a, b, plan, flags, k, r));
    }
}

/// Sequencing plans is associative.
pub proof fn lemma_followed_by(a: Plan, b: Plan, c: Plan)
    ensures
        followed_by(followed_by(a, b), c) == followed_by(a, followed_by(b, c)),
        followed_by(a, Plan { leaves: Seq::empty(), stop: None }) == a,
        followed_by(Plan { leaves: Seq::empty(), stop: None }, a) == a,
{
    assert(a.leaves + Seq::<Placement>::empty() =~= a.leaves);
    assert(Seq::<Placement>::empty() + a.leaves =~= a.leaves);
    assert((a.leaves + b.leaves) + c.leaves =~= a.leaves + (b.leaves + c.leaves));
}

} // verus!
