//! Which translations a flush invalidates.

use crate::addr::{AddrRange, MemoryAddr};
use crate::effect::flushed;
use crate::error::{PagingError, PagingResult};
use crate::flush::{
    ascending, drained, lemma_lists_unique, lists, page_total, queued, range_end, ranges_flushed,
    untouched, Pending,
};
use crate::meta::PageSize;
use crate::paging::{exceeds_batch, swept, TlbInvalidation};
use crate::plan::Placement;
use crate::request::map_flush;
use vstd::arithmetic::div_mod::{
    lemma_div_multiples_vanish, lemma_fundamental_div_mod, lemma_mod_bound,
};
use vstd::prelude::*;

verus! {

/// The address of the `k`-th page of `len` bytes from `start`, held at the top of
/// the address space.
pub open spec fn nth_page(start: u64, len: u64, k: int) -> u64 {
    if start + k * len > u64::MAX {
        u64::MAX
    } else {
        (start + k * len) as u64
    }
}

/// A sweep invalidates the pages one after the other: that at `start`, that
/// one page size behind it, and so on, as many as there are pages, each by the
/// address where it starts.
pub proof fn law_sweep_invalidates_each_page<V: MemoryAddr, T: TlbInvalidation<V>>(
    tlb: T,
    start: u64,
    page: PageSize,
    count: nat,
)
    ensures
        swept::<V, T>(tlb, start, page, count) == Seq::new(
            count,
            |k: int|
                if start + k * page.len() > u64::MAX {
                    u64::MAX
                } else {
                    (start + k * page.len()) as u64
                },
        ).fold_left(tlb, |t: T, a: u64| t.after_local(V::of(a))),
    decreases count,
{
    let f = |t: T, a: u64| t.after_local(V::of(a));
    let place = |k: int|
        if start + k * page.len() > u64::MAX {
            u64::MAX
        } else {
            (start + k * page.len()) as u64
        };
    let pages = Seq::new(count, place);
    if count > 0 {
        let fewer = (count - 1) as nat;
        law_sweep_invalidates_each_page::<V, T>(tlb, start, page, fewer);
        lemma_sweep_last::<V, T>(tlb, start, page, fewer);
        assert(pages.drop_last() =~= Seq::new(fewer, place));
    }
}

/// A sweep that ends inside the address space is not held at its top.
pub proof fn lemma_sweep_stays_inside(start: u64, len: u64, count: nat)
    requires
        start + count * len <= u64::MAX,
    ensures
        Seq::new(
            count,
            |k: int|
                if start + k * len > u64::MAX {
                    u64::MAX
                } else {
                    (start + k * len) as u64
                },
        ) == Seq::new(count, |k: int| (start + k * len) as u64),
{
    assert forall|k: int| 0 <= k < count implies #[trigger] (k * len) <= count * len by {
        assert(k * len <= count * len) by (nonlinear_arith)
            requires
                0 <= k < count,
                len >= 0,
        ;
    }
    assert(Seq::new(
        count,
        |k: int|
            if start + k * len > u64::MAX {
                u64::MAX
            } else {
                (start + k * len) as u64
            },
    ) =~= Seq::new(count, |k: int| (start + k * len) as u64));
}

/// One page more is one invalidation more.
proof fn lemma_sweep_last<V: MemoryAddr, T: TlbInvalidation<V>>(
    tlb: T,
    start: u64,
    page: PageSize,
    count: nat,
)
    ensures
        swept::<V, T>(tlb, start, page, count + 1) == swept::<V, T>(
            tlb,
            start,
            page,
            count,
        ).after_local(V::of(nth_page(start, page.len(), count as int))),
    decreases count,
{
    let len = page.len();
    page.lemma_len();
    let next = nth_page(start, len, 1);
    reveal_with_fuel(swept, 2);
    if count > 0 {
        let fewer = (count - 1) as nat;
        lemma_sweep_last::<V, T>(tlb.after_local(V::of(start)), next, page, fewer);
        assert(nth_page(next, len, fewer as int) == nth_page(start, len, count as int))
            by (nonlinear_arith)
            requires
                next == nth_page(start, len, 1),
                len > 0,
                count > 0,
                fewer == count - 1,
        ;
    }
}

/// The state after the pages at these addresses are invalidated, in order.
pub open spec fn each_invalidated<V: MemoryAddr, T: TlbInvalidation<V>>(
    tlb: T,
    pages: Seq<u64>,
) -> T {
    pages.fold_left(tlb, |t: T, a: u64| t.after_local(V::of(a)))
}

/// The pages that a sweep invalidates cover its range and nothing else, as long as
/// it lies in the address space: they are as many as asked for, and an address lies
/// in one of them exactly where it lies among the page sizes from `start`.
pub proof fn law_sweep_covers_its_range<V: MemoryAddr, T: TlbInvalidation<V>>(
    tlb: T,
    start: u64,
    page: PageSize,
    count: nat,
)
    requires
        start + count * page.len() <= u64::MAX,
    ensures
        exists|pages: Seq<u64>|
            {
                &&& swept::<V, T>(tlb, start, page, count) == #[trigger] each_invalidated::<V, T>(
                    tlb,
                    pages,
                )
                &&& pages.len() == count
                &&& forall|x: int|
                    start <= x < start + count * page.len() <==> #[trigger] in_some_page(
                        pages,
                        page.len(),
                        x,
                    )
            },
{
    let len = page.len() as int;
    page.lemma_len();
    let pages = Seq::new(count, |k: int| (start + k * page.len()) as u64);
    law_sweep_invalidates_each_page::<V, T>(tlb, start, page, count);
    lemma_sweep_stays_inside(start, page.len(), count);
    assert forall|k: int| 0 <= k < count implies #[trigger] pages[k] == start + k * len && k * len
        + len <= count * len by {
        assert(k * len + len <= count * len && 0 <= k * len) by (nonlinear_arith)
            requires
                0 <= k < count,
                len > 0,
        ;
    }
    assert forall|x: int| start <= x < start + count * page.len() <==> #[trigger] in_some_page(
        pages,
        page.len(),
        x,
    ) by {
        if start <= x < start + count * len {
            let k = (x - start) / len;
            lemma_fundamental_div_mod(x - start, len);
            lemma_mod_bound(x - start, len);
            assert(0 <= k < count && k * len == len * k) by (nonlinear_arith)
                requires
                    len > 0,
                    0 <= x - start < count * len,
                    x - start == len * k + (x - start) % len,
                    0 <= (x - start) % len < len,
            ;
            assert(pages[k] <= x < pages[k] + page.len());
        }
    }
    assert(swept::<V, T>(tlb, start, page, count) == each_invalidated::<V, T>(tlb, pages));
}

/// Whether an address lies in one of the pages of `len` bytes at these addresses.
pub open spec fn in_some_page(pages: Seq<u64>, len: u64, x: int) -> bool {
    exists|k: int| 0 <= k < pages.len() && #[trigger] pages[k] <= x < pages[k] + len
}

/// A change to a range of whole pages is made visible by one flush: of all its
/// pages, from its start, or of everything where the policy prefers that for so
/// many pages.
pub proof fn law_flush_covers_its_range<V: MemoryAddr, T: TlbInvalidation<V>>(
    tlb: T,
    range: AddrRange<V>,
    page: PageSize,
    pages: u64,
)
    requires
        range.lo() + pages * page.len() == range.hi(),
    ensures
        flushed::<V, T>(tlb, range, page) == if tlb.wants_full(pages) {
            tlb.after_all()
        } else {
            tlb.after_range(range.start, page, pages)
        },
{
    page.lemma_len();
    assert(0 <= pages * page.len()) by (nonlinear_arith);
    lemma_div_multiples_vanish(pages as int, page.len() as int);
    assert(pages * page.len() == page.len() as int * pages as int) by (nonlinear_arith);
}

/// Draining a queue of ranges flushes each of them once, by ascending start, or
/// everything where the policy prefers that for their pages together; a queue
/// that gave its ranges up flushes everything, and an empty one nothing.
pub proof fn law_drain_flushes_each_range<V: MemoryAddr, T: TlbInvalidation<V>>(
    tlb: T,
    ranges: Seq<(u64, u64)>,
    pages: u64,
    page: PageSize,
)
    requires
        forall|i: int, j: int| 0 <= i < j < ranges.len() ==> ranges[i].0 < ranges[j].0,
        ranges.fold_left(0int, |n: int, r: (u64, u64)| n + r.1) == pages,
    ensures
        drained::<V, T>(tlb, Pending::Everything, page) == tlb.after_all(),
        drained::<V, T>(tlb, Pending::Ranges(ranges.to_set()), page) == if ranges.len() == 0 {
            tlb
        } else if tlb.wants_full(pages) {
            tlb.after_all()
        } else {
            ranges.fold_left(tlb, |t: T, r: (u64, u64)| t.after_range(V::of(r.0), page, r.1))
        },
{
    let set = ranges.to_set();
    assert(lists(ranges, set)) by {
        assert forall|r: (u64, u64)| #[trigger] set.contains(r) <==> ranges.contains(r) by {}
    }
    lemma_lists_unique(ascending(set), ranges, set);
    lemma_total(ranges, ranges.len());
    lemma_each_flushed::<V, T>(tlb, ranges, ranges.len(), page);
    assert(ranges.take(ranges.len() as int) =~= ranges);
}

/// The pages of ranges, added up.
proof fn lemma_total(ranges: Seq<(u64, u64)>, n: nat)
    requires
        n <= ranges.len(),
    ensures
        ranges.take(n as int).fold_left(0int, |n: int, r: (u64, u64)| n + r.1) == page_total(
            ranges,
            n,
        ),
    decreases n,
{
    if n > 0 {
        lemma_total(ranges, (n - 1) as nat);
        assert(ranges.take(n as int).drop_last() =~= ranges.take(n - 1));
    }
}

/// The flushes of ranges, one after the other.
proof fn lemma_each_flushed<V: MemoryAddr, T: TlbInvalidation<V>>(
    tlb: T,
    ranges: Seq<(u64, u64)>,
    n: nat,
    page: PageSize,
)
    requires
        n <= ranges.len(),
    ensures
        ranges.take(n as int).fold_left(
            tlb,
            |t: T, r: (u64, u64)| t.after_range(V::of(r.0), page, r.1),
        ) == ranges_flushed::<V, T>(tlb, ranges, n, page),
    decreases n,
{
    if n > 0 {
        lemma_each_flushed::<V, T>(tlb, ranges, (n - 1) as nat, page);
        assert(ranges.take(n as int).drop_last() =~= ranges.take(n - 1));
    }
}

/// A queue gives its ranges up for a full flush only where it has to: where it
/// has done so before, where a range reaches past the address space, or where 128
/// queued ranges neither overlap nor adjoin the new one.
pub proof fn law_queue_escalates_when_full(
    pending: Pending,
    start: u64,
    pages: u64,
    page: PageSize,
    others: Set<(u64, u64)>,
)
    requires
        pages > 0,
        pages * page.len() <= u64::MAX,
        pending matches Pending::Ranges(set) ==> forall|r: (u64, u64)| #[trigger]
            others.contains(r) <==> set.contains(r) && (r.0 + r.1 * page.len() < start || start
                + pages * page.len() < r.0),
    ensures
        queued(pending, start, (pages * page.len()) as u64, page) is Everything <==> {
            ||| pending is Everything
            ||| start + pages * page.len() > u64::MAX
            ||| others.len() >= 128
        },
{
    page.lemma_len();
    let len = (pages * page.len()) as u64;
    lemma_div_multiples_vanish(pages as int, page.len() as int);
    assert(pages * page.len() == page.len() as int * pages as int) by (nonlinear_arith);
    assert(len / page.len() == pages);
    if let Pending::Ranges(set) = pending {
        if start + len <= u64::MAX {
            let end = (start + len) as u64;
            let rest = untouched(set, start, end, page);
            assert forall|r: (u64, u64)| #[trigger] others.contains(r) <==> rest.contains(r) by {
                assert(range_end(r, page) == r.0 + r.1 * page.len());
            }
            assert(others =~= rest);
        }
    }
}

/// What a request to a walker flushes: a request of one leaf the range, where it
/// succeeds; any other what it installed before it ended, whether it succeeds
/// or not.
pub proof fn law_map_flushes_what_it_installed<V: MemoryAddr, T: TlbInvalidation<V>>(
    tlb: T,
    range: AddrRange<V>,
    leaf: Placement,
    due: Pending,
    r: PagingResult,
    error: PagingError,
    page: PageSize,
)
    ensures
        map_flush::<V, T>(tlb, range, Ok(Some(leaf)), due, Ok(()), page) == flushed::<V, T>(
            tlb,
            range,
            page,
        ),
        map_flush::<V, T>(tlb, range, Ok(Some(leaf)), due, Err(error), page) == tlb,
        map_flush::<V, T>(tlb, range, Ok(None), due, r, page) == drained::<V, T>(tlb, due, page),
        map_flush::<V, T>(tlb, range, Err(error), due, r, page) == drained::<V, T>(tlb, due, page),
{
}

/// A batch counts as large from the thirty-third page on.
pub proof fn law_large_batch(pages: u64)
    ensures
        exceeds_batch(pages) <==> pages >= 33,
{
}

} // verus!
