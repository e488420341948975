//! Batched TLB invalidation: a bounded queue of page ranges.
//!
//! Ranges that overlap or adjoin are merged as they are queued, so contiguous
//! mutations usually collapse to one range. A batch that is too fragmented for
//! the queue falls back to a full flush.

use crate::addr::{AddrRange, MemoryAddr};
use crate::meta::PageSize;
use crate::paging::TlbInvalidation;
use vstd::arithmetic::div_mod::lemma_fundamental_div_mod;
use vstd::prelude::*;

verus! {

/// Maximum number of disjoint flush ranges the queue stores before falling
/// back to a full flush. This is storage capacity, not a hardware policy
/// threshold; [`TlbInvalidation::prefer_full_flush`] decides when a full flush
/// is cheaper for a successfully queued batch.
pub const FLUSH_RANGE_CAP: usize = 128;

/// A fixed-capacity vector of page ranges, each a start address and a number
/// of pages.
#[verifier::external_body]
pub struct RangeVec {
    items: heapless::Vec<(u64, u64), FLUSH_RANGE_CAP, u8>,
}

/// The items of a range vector, in order.
pub uninterp spec fn held(v: RangeVec) -> Seq<(u64, u64)>;

/// `heapless::Vec::new`: an empty vector.
#[verifier::external_body]
fn ranges_new() -> (r: RangeVec)
    ensures
        held(r) == Seq::<(u64, u64)>::empty(),
{
    RangeVec { items: heapless::Vec::new() }
}

/// `len` of the slice that a `heapless::Vec` dereferences to: the number of
/// items. It never exceeds the capacity.
#[verifier::external_body]
fn ranges_len(v: &RangeVec) -> (r: usize)
    ensures
        r == held(*v).len(),
        r <= FLUSH_RANGE_CAP,
{
    v.items.len()
}

/// Indexing the slice that a `heapless::Vec` dereferences to: the item at an
/// index below the length.
#[verifier::external_body]
fn ranges_at(v: &RangeVec, i: usize) -> (r: (u64, u64))
    requires
        i < held(*v).len(),
    ensures
        r == held(*v)[i as int],
{
    v.items[i]
}

/// `heapless::Vec::push`: appends the item unless the vector is full, and then
/// hands it back and leaves the vector as it was.
#[verifier::external_body]
fn ranges_push(v: &mut RangeVec, item: (u64, u64)) -> (r: Result<(), (u64, u64)>)
    ensures
        match r {
            Ok(_) => held(*old(v)).len() < FLUSH_RANGE_CAP && held(*final(v)) == held(
                *old(v),
            ).push(item),
            Err(back) => held(*old(v)).len() >= FLUSH_RANGE_CAP && held(*final(v)) == held(*old(v))
                && back == item,
        },
{
    v.items.push(item)
}

/// `heapless::Vec::swap_remove`: takes the item at an index below the length
/// out and puts the last item in its place.
#[verifier::external_body]
fn ranges_swap_remove(v: &mut RangeVec, i: usize) -> (r: (u64, u64))
    requires
        i < held(*old(v)).len(),
    ensures
        r == held(*old(v))[i as int],
        held(*final(v)) == held(*old(v)).update(i as int, held(*old(v)).last()).drop_last(),
{
    v.items.swap_remove(i)
}

/// `heapless::Vec::clear`: removes every item.
#[verifier::external_body]
fn ranges_clear(v: &mut RangeVec)
    ensures
        held(*final(v)) == Seq::<(u64, u64)>::empty(),
{
    v.items.clear()
}

/// `slice::sort_unstable_by_key` on the items of a `heapless::Vec`, by start
/// address: the same items, starts ascending.
#[verifier::external_body]
fn ranges_sort(v: &mut RangeVec)
    ensures
        held(*final(v)).to_multiset() == held(*old(v)).to_multiset(),
        forall|i: int, j: int|
            0 <= i < j < held(*final(v)).len() ==> held(*final(v))[i].0 <= held(*final(v))[j].0,
{
    v.items.sort_unstable_by_key(|range| range.0)
}

/// What a flush queue holds.
#[verifier::ext_equal]
pub enum Pending {
    /// A full flush is due.
    Everything,
    /// These ranges are due, each a start address and a number of pages.
    Ranges(Set<(u64, u64)>),
}

/// The address just past a range of pages.
pub open spec fn range_end(r: (u64, u64), page: PageSize) -> int {
    r.0 + r.1 * page.len()
}

/// Whether a queued range overlaps or adjoins `start..end`.
pub open spec fn touches(r: (u64, u64), start: u64, end: u64, page: PageSize) -> bool {
    r.0 <= end && start <= range_end(r, page)
}

/// Where the union of `start..end` with the ranges that touch it starts.
pub open spec fn hull_start(set: Set<(u64, u64)>, start: u64, end: u64, page: PageSize) -> u64 {
    if exists|r: (u64, u64)| #[trigger]
        set.contains(r) && touches(r, start, end, page) && r.0 < start {
        (choose|r: (u64, u64)| #[trigger]
            set.contains(r) && touches(r, start, end, page) && r.0 < start).0
    } else {
        start
    }
}

/// Where the union of `start..end` with the ranges that touch it ends.
pub open spec fn hull_end(set: Set<(u64, u64)>, start: u64, end: u64, page: PageSize) -> u64 {
    if exists|r: (u64, u64)| #[trigger]
        set.contains(r) && touches(r, start, end, page) && range_end(r, page) > end {
        range_end(
            choose|r: (u64, u64)| #[trigger]
                set.contains(r) && touches(r, start, end, page) && range_end(r, page) > end,
            page,
        ) as u64
    } else {
        end
    }
}

/// The ranges that do not touch `start..end`.
pub open spec fn untouched(
    set: Set<(u64, u64)>,
    start: u64,
    end: u64,
    page: PageSize,
) -> Set<(u64, u64)> {
    set.filter(|r: (u64, u64)| !touches(r, start, end, page))
}

/// The queue after `len` bytes from `start` are added, as whole pages.
pub open spec fn queued(pending: Pending, start: u64, len: u64, page: PageSize) -> Pending {
    let pages = (len / page.len()) as u64;
    match pending {
        Pending::Everything => Pending::Everything,
        Pending::Ranges(set) => if pages == 0 {
            pending
        } else if start + pages * page.len() > u64::MAX {
            Pending::Everything
        } else {
            let end = (start + pages * page.len()) as u64;
            let rest = untouched(set, start, end, page);
            let lo = hull_start(set, start, end, page);
            let hi = hull_end(set, start, end, page);
            if rest.len() >= FLUSH_RANGE_CAP {
                Pending::Everything
            } else {
                Pending::Ranges(rest.insert((lo, ((hi - lo) / page.len() as int) as u64)))
            }
        },
    }
}

/// Whether two ranges neither overlap nor adjoin.
pub open spec fn apart(a: (u64, u64), b: (u64, u64), page: PageSize) -> bool {
    range_end(a, page) < b.0 || range_end(b, page) < a.0
}

/// The queue invariant: ranges are not empty, lie in the address space, and
/// are pairwise apart.
pub open spec fn separated(set: Set<(u64, u64)>, page: PageSize) -> bool {
    &&& forall|r: (u64, u64)| #[trigger]
        set.contains(r) ==> r.1 > 0 && range_end(r, page) <= u64::MAX
    &&& forall|a: (u64, u64), b: (u64, u64)|
        #[trigger] set.contains(a) && #[trigger] set.contains(b) && a != b ==> apart(a, b, page)
}

/// Whether `s` lists the ranges of `set` by ascending start.
pub open spec fn lists(s: Seq<(u64, u64)>, set: Set<(u64, u64)>) -> bool {
    &&& forall|i: int, j: int| 0 <= i < j < s.len() ==> s[i].0 < s[j].0
    &&& forall|r: (u64, u64)| #[trigger] set.contains(r) <==> s.contains(r)
}

/// The ranges of `set` by ascending start.
pub open spec fn ascending(set: Set<(u64, u64)>) -> Seq<(u64, u64)> {
    choose|s: Seq<(u64, u64)>| lists(s, set)
}

/// The number of pages in the first `n` ranges.
pub open spec fn page_total(s: Seq<(u64, u64)>, n: nat) -> nat
    decreases n,
{
    if n == 0 {
        0
    } else {
        page_total(s, (n - 1) as nat) + s[n - 1].1 as nat
    }
}

/// The number of pages in all ranges, held at the largest count there is.
pub open spec fn page_count(s: Seq<(u64, u64)>) -> u64 {
    if page_total(s, s.len()) > u64::MAX {
        u64::MAX
    } else {
        page_total(s, s.len()) as u64
    }
}

/// The state after the first `n` ranges are invalidated one by one.
pub open spec fn ranges_flushed<V: MemoryAddr, T: TlbInvalidation<V>>(
    tlb: T,
    s: Seq<(u64, u64)>,
    n: nat,
    page: PageSize,
) -> T
    decreases n,
{
    if n == 0 {
        tlb
    } else {
        ranges_flushed::<V, T>(tlb, s, (n - 1) as nat, page).after_range(
            V::of(s[n - 1].0),
            page,
            s[n - 1].1,
        )
    }
}

/// The state after a queue is drained: a full flush if one is due or the
/// policy prefers it for the number of pages, else one flush for each range by
/// ascending start.
pub open spec fn drained<V: MemoryAddr, T: TlbInvalidation<V>>(
    tlb: T,
    pending: Pending,
    page: PageSize,
) -> T {
    match pending {
        Pending::Everything => tlb.after_all(),
        Pending::Ranges(set) => {
            let s = ascending(set);
            if s.len() == 0 {
                tlb
            } else if tlb.wants_full(page_count(s)) {
                tlb.after_all()
            } else {
                ranges_flushed::<V, T>(tlb, s, s.len(), page)
            }
        },
    }
}

/// A set is listed in one way only.
pub proof fn lemma_lists_unique(a: Seq<(u64, u64)>, b: Seq<(u64, u64)>, set: Set<(u64, u64)>)
    requires
        lists(a, set),
        lists(b, set),
    ensures
        a == b,
    decreases a.len(),
{
    if a.len() == 0 {
        if b.len() > 0 {
            assert(b.contains(b[0]));
            assert(set.contains(b[0]));
            assert(a.contains(b[0]));
        }
        assert(a =~= b);
    } else {
        let x = a.last();
        assert(a.contains(x));
        assert(set.contains(x));
        assert(b.contains(x));
        let k: int = choose|k: int| 0 <= k < b.len() && b[k] == x;
        let y = b.last();
        assert(b.contains(y));
        assert(set.contains(y));
        assert(a.contains(y));
        let m: int = choose|m: int| 0 <= m < a.len() && a[m] == y;
        assert(x == y);
        let smaller = set.remove(x);
        assert(lists(a.drop_last(), smaller)) by {
            lemma_lists_drop(a, set);
        }
        assert(lists(b.drop_last(), smaller)) by {
            lemma_lists_drop(b, set);
        }
        lemma_lists_unique(a.drop_last(), b.drop_last(), smaller);
        assert(a =~= a.drop_last().push(x));
        assert(b =~= b.drop_last().push(x));
    }
}

/// Draining an empty queue flushes nothing.
pub proof fn lemma_drained_nothing<V: MemoryAddr, T: TlbInvalidation<V>>(tlb: T, page: PageSize)
    ensures
        drained::<V, T>(tlb, Pending::Ranges(Set::empty()), page) == tlb,
{
    let none = Seq::<(u64, u64)>::empty();
    assert(lists(none, Set::empty()));
    lemma_lists_unique(ascending(Set::empty()), none, Set::empty());
}

/// A list without its last range lists the set without it.
proof fn lemma_lists_drop(s: Seq<(u64, u64)>, set: Set<(u64, u64)>)
    requires
        lists(s, set),
        s.len() > 0,
    ensures
        lists(s.drop_last(), set.remove(s.last())),
{
    let smaller = set.remove(s.last());
    let rest = s.drop_last();
    assert forall|r: (u64, u64)| #[trigger] smaller.contains(r) <==> rest.contains(r) by {
        if smaller.contains(r) {
            let k: int = choose|k: int| 0 <= k < s.len() && s[k] == r;
            assert(rest[k] == r);
        }
        if rest.contains(r) {
            let k: int = choose|k: int| 0 <= k < rest.len() && rest[k] == r;
            assert(s[k] == r);
            assert(s.contains(r));
            assert(s[k].0 < s[s.len() - 1].0);
        }
    }
}

/// Page ranges whose invalidation is due.
pub struct FlushQueue {
    ranges: RangeVec,
    full: bool,
}

impl View for FlushQueue {
    type V = Pending;

    closed spec fn view(&self) -> Pending {
        if self.full {
            Pending::Everything
        } else {
            Pending::Ranges(held(self.ranges).to_set())
        }
    }
}

/// The address just past a range of pages, if that is in the address space.
fn end_of(range: (u64, u64), page: PageSize) -> (r: Option<u64>)
    ensures
        r == if range_end(range, page) > u64::MAX {
            None
        } else {
            Some(range_end(range, page) as u64)
        },
{
    proof {
        page.lemma_len();
        assert(range.1 * page.len() >= 0) by (nonlinear_arith);
    }
    match range.1.checked_mul(page.bytes()) {
        Some(bytes) => range.0.checked_add(bytes),
        None => None,
    }
}

impl FlushQueue {
    /// The queue invariant for pages of this size.
    pub closed spec fn wf(&self, page: PageSize) -> bool {
        &&& held(self.ranges).no_duplicates()
        &&& held(self.ranges).len() <= FLUSH_RANGE_CAP
        &&& separated(held(self.ranges).to_set(), page)
        &&& self.full ==> held(self.ranges).len() == 0
    }

    /// What the queue holds is a full flush, or finitely many ranges, no more than
    /// it has room for, that are pairwise apart.
    pub proof fn lemma_wf(&self, page: PageSize)
        requires
            self.wf(page),
        ensures
            self@ matches Pending::Ranges(set) ==> separated(set, page) && set.finite() && set.len()
                <= FLUSH_RANGE_CAP,
    {
        vstd::seq_lib::seq_to_set_is_finite(held(self.ranges));
        held(self.ranges).unique_seq_to_set();
    }

    /// An empty queue.
    pub fn new() -> (r: Self)
        ensures
            forall|page: PageSize| r.wf(page),
            r@ == Pending::Ranges(Set::empty()),
    {
        let r: FlushQueue = FlushQueue { ranges: ranges_new(), full: false };
        proof {
            assert(held(r.ranges).to_set() =~= Set::empty());
        }
        r
    }

    /// Whether a full flush is due.
    pub fn needs_full_flush(&self) -> (r: bool)
        ensures
            r == (self@ == Pending::Everything),
    {
        self.full
    }

    /// Give the ranges up for a full flush.
    fn escalate(&mut self)
        ensures
            final(self)@ == Pending::Everything,
            forall|page: PageSize| final(self).wf(page),
    {
        self.full = true;
        ranges_clear(&mut self.ranges);
        proof {
            assert(held(self.ranges).to_set() =~= Set::empty());
        }
    }

    /// Queue a range, merging overlapping or adjacent ranges. If the
    /// fragmented range set exceeds [`FLUSH_RANGE_CAP`], escalate to a full
    /// flush.
    pub fn queue<V: MemoryAddr>(&mut self, range: AddrRange<V>, page: PageSize)
        requires
            old(self).wf(page),
        ensures
            final(self).wf(page),
            final(self)@ == queued(old(self)@, range.lo(), range.len(), page),
    {
        if self.full {
            return;
        }
        proof {
            page.lemma_len();
        }
        let pages: u64 = range.size() / page.bytes();
        if pages == 0 {
            return;
        }
        let ghost set = held(self.ranges).to_set();
        let ghost n = page.len() as int;
        let mut start: u64 = range.start.as_u64();
        let mut end: u64 = match end_of((start, pages), page) {
            Some(end) => end,
            None => {
                self.escalate();
                return;
            },
        };
        let ghost s0 = start;
        let ghost e0 = end;
        let mut idx: usize = 0;
        while idx < ranges_len(&self.ranges)
            invariant
                !self.full,
                page.len() > 0,
                idx <= held(self.ranges).len() <= FLUSH_RANGE_CAP,
                held(self.ranges).no_duplicates(),
                separated(set, page),
                absorbing(set, held(self.ranges), idx as int, s0, e0, start, end, page),
            decreases held(self.ranges).len() - idx,
        {
            let ghost v0 = held(self.ranges);
            let item: (u64, u64) = ranges_at(&self.ranges, idx);
            proof {
                assert(v0.contains(item));
                assert(set.contains(item));
            }
            let item_end: u64 = match end_of(item, page) {
                Some(end) => end,
                None => {
                    proof {
                        assert(false);
                    }
                    self.escalate();
                    return;
                },
            };
            if end < item.0 || item_end < start {
                proof {
                    assert(!touches(item, s0, e0, page));
                }
                idx = idx + 1;
                continue ;
            }
            proof {
                lemma_hull_touch(set, v0, idx as int, s0, e0, start, end, page, item);
            }
            if item.0 < start {
                start = item.0;
            }
            if end < item_end {
                end = item_end;
            }
            let _ = ranges_swap_remove(&mut self.ranges, idx);
            proof {
                lemma_swap_removed(v0, idx as int, held(self.ranges));
            }
        }
        proof {
            lemma_absorbed(set, held(self.ranges), s0, e0, start, end, page);
            assert(end - start >= e0 - s0);
            assert(e0 - s0 == pages * page.len());
            vstd::arithmetic::div_mod::lemma_div_is_ordered(
                pages * page.len(),
                end - start,
                page.len() as int,
            );
            vstd::arithmetic::div_mod::lemma_div_by_multiple(pages as int, page.len() as int);
            vstd::arithmetic::div_mod::lemma_fundamental_div_mod(end - start, page.len() as int);
            vstd::arithmetic::mul::lemma_mul_is_commutative(
                page.len() as int,
                (end - start) / page.len() as int,
            );
            held(self.ranges).unique_seq_to_set();
        }
        let merged_pages: u64 = (end - start) / page.bytes();
        let ghost rest = held(self.ranges);
        let ghost item = (start, merged_pages);
        match ranges_push(&mut self.ranges, (start, merged_pages)) {
            Ok(_) => {
                proof {
                    lemma_pushed(rest, item, s0, e0, start, end, page);
                }
            },
            Err(_) => {
                self.escalate();
            },
        }
    }

    /// Emit the queued invalidations: a full flush iff the queue overflowed or
    /// the policy prefers one for the accumulated page count, else one range
    /// flush for each range.
    pub fn drain<V: MemoryAddr, T: TlbInvalidation<V>>(&mut self, tlb: &mut T, page: PageSize)
        requires
            old(self).wf(page),
        ensures
            final(self).wf(page),
            final(self)@ == Pending::Ranges(Set::empty()),
            *final(tlb) == drained::<V, T>(*old(tlb), old(self)@, page),
    {
        if self.full {
            tlb.flush_tlb_all_local();
            ranges_clear(&mut self.ranges);
            self.full = false;
            proof {
                assert(held(self.ranges).to_set() =~= Set::empty());
            }
            return;
        }
        let ghost v0 = held(self.ranges);
        let ghost set = v0.to_set();
        ranges_sort(&mut self.ranges);
        let ghost s = held(self.ranges);
        proof {
            lemma_sorted(v0, s, page);
        }
        let len: usize = ranges_len(&self.ranges);
        let mut count: u64 = 0;
        let mut i: usize = 0;
        while i < len
            invariant
                i <= len,
                len == s.len(),
                s == held(self.ranges),
                count == if page_total(s, i as nat) > u64::MAX {
                    u64::MAX
                } else {
                    page_total(s, i as nat) as u64
                },
            decreases len - i,
        {
            let item: (u64, u64) = ranges_at(&self.ranges, i);
            count = count.saturating_add(item.1);
            i = i + 1;
        }
        proof {
            if s.len() > 0 {
                lemma_total_positive(s, set, s.len(), page);
            }
        }
        if count == 0 {
            proof {
                assert(s.len() == 0);
                assert(held(self.ranges).to_set() =~= Set::empty());
            }
            return;
        }
        if tlb.prefer_full_flush(count) {
            tlb.flush_tlb_all_local();
        } else {
            let mut j: usize = 0;
            while j < len
                invariant
                    j <= len,
                    len == s.len(),
                    s == held(self.ranges),
                    *tlb == ranges_flushed::<V, T>(*old(tlb), s, j as nat, page),
                decreases len - j,
            {
                let item: (u64, u64) = ranges_at(&self.ranges, j);
                tlb.flush_tlb_range_local(V::from_u64(item.0), page, item.1);
                j = j + 1;
            }
        }
        ranges_clear(&mut self.ranges);
        proof {
            assert(held(self.ranges).to_set() =~= Set::empty());
        }
    }
}

/// The state of merging a new range `s0..e0` into the queue: what left the
/// queue touched the new range and is covered by `start..end`, and the first
/// `idx` items that stay do not touch it.
spec fn absorbing(
    set: Set<(u64, u64)>,
    v: Seq<(u64, u64)>,
    idx: int,
    s0: u64,
    e0: u64,
    start: u64,
    end: u64,
    page: PageSize,
) -> bool {
    &&& start <= s0 <= e0 <= end
    &&& forall|r: (u64, u64)| #[trigger] v.contains(r) ==> set.contains(r)
    &&& forall|r: (u64, u64)| #[trigger]
        set.contains(r) && !v.contains(r) ==> {
            &&& touches(r, s0, e0, page)
            &&& start <= r.0
            &&& range_end(r, page) <= end
        }
    &&& forall|i: int| 0 <= i < idx ==> !touches(#[trigger] v[i], s0, e0, page)
    &&& start < s0 ==> exists|r: (u64, u64)| #[trigger]
        set.contains(r) && !v.contains(r) && r.0 == start
    &&& end > e0 ==> exists|r: (u64, u64)| #[trigger]
        set.contains(r) && !v.contains(r) && range_end(r, page) == end
}

/// An item that touches the grown range touches the new range itself: ranges
/// in the queue are apart, so no other reaches what was absorbed.
proof fn lemma_hull_touch(
    set: Set<(u64, u64)>,
    v: Seq<(u64, u64)>,
    idx: int,
    s0: u64,
    e0: u64,
    start: u64,
    end: u64,
    page: PageSize,
    item: (u64, u64),
)
    requires
        separated(set, page),
        absorbing(set, v, idx, s0, e0, start, end, page),
        v.contains(item),
        touches(item, start, end, page),
        page.len() > 0,
    ensures
        touches(item, s0, e0, page),
{
    assert(item.1 * page.len() >= 0) by (nonlinear_arith);
    assert(set.contains(item));
    if range_end(item, page) < s0 {
        let r: (u64, u64) = choose|r: (u64, u64)| #[trigger]
            set.contains(r) && !v.contains(r) && r.0 == start;
        assert(apart(item, r, page));
    }
    if item.0 > e0 {
        let r: (u64, u64) = choose|r: (u64, u64)| #[trigger]
            set.contains(r) && !v.contains(r) && range_end(r, page) == end;
        assert(apart(item, r, page));
    }
}

/// What taking an item out does to the items.
proof fn lemma_swap_removed(v: Seq<(u64, u64)>, i: int, after: Seq<(u64, u64)>)
    requires
        0 <= i < v.len(),
        v.no_duplicates(),
        after == v.update(i, v.last()).drop_last(),
    ensures
        after.no_duplicates(),
        after.len() == v.len() - 1,
        forall|r: (u64, u64)| #[trigger] after.contains(r) <==> v.contains(r) && r != v[i],
        forall|j: int| 0 <= j < i ==> after[j] == v[j],
{
    let n = v.len() as int;
    assert forall|r: (u64, u64)| #[trigger] after.contains(r) <==> v.contains(r) && r != v[i] by {
        if after.contains(r) {
            let k: int = choose|k: int| 0 <= k < after.len() && after[k] == r;
            if k == i {
                assert(v[n - 1] == r);
            } else {
                assert(v[k] == r);
            }
        }
        if v.contains(r) && r != v[i] {
            let k: int = choose|k: int| 0 <= k < n && v[k] == r;
            if k == n - 1 {
                assert(after[i] == r);
            } else {
                assert(after[k] == r);
            }
        }
    }
}

/// What has been absorbed once every item was looked at.
proof fn lemma_absorbed(
    set: Set<(u64, u64)>,
    v: Seq<(u64, u64)>,
    s0: u64,
    e0: u64,
    start: u64,
    end: u64,
    page: PageSize,
)
    requires
        separated(set, page),
        absorbing(set, v, v.len() as int, s0, e0, start, end, page),
        page.len() > 0,
    ensures
        v.to_set() == untouched(set, s0, e0, page),
        start == hull_start(set, s0, e0, page),
        end == hull_end(set, s0, e0, page),
        forall|r: (u64, u64)| #[trigger] v.contains(r) ==> set.contains(r) && !touches(r, start, end, page),
{
    assert forall|r: (u64, u64)| v.contains(r) implies !touches(r, s0, e0, page) by {
        let k: int = choose|k: int| 0 <= k < v.len() && v[k] == r;
        assert(!touches(v[k], s0, e0, page));
    }
    assert(v.to_set() =~= untouched(set, s0, e0, page));
    assert forall|r: (u64, u64)| #[trigger] v.contains(r) implies !touches(r, start, end, page) by {
        if touches(r, start, end, page) {
            lemma_hull_touch(set, v, v.len() as int, s0, e0, start, end, page, r);
        }
    }
    if exists|r: (u64, u64)| #[trigger]
        set.contains(r) && touches(r, s0, e0, page) && r.0 < s0 {
        let r: (u64, u64) = choose|r: (u64, u64)| #[trigger]
            set.contains(r) && touches(r, s0, e0, page) && r.0 < s0;
        assert(!v.contains(r));
        let q: (u64, u64) = choose|q: (u64, u64)| #[trigger]
            set.contains(q) && !v.contains(q) && q.0 == start;
        if q != r {
            assert(apart(q, r, page));
        }
    }
    if start < s0 {
        let q: (u64, u64) = choose|q: (u64, u64)| #[trigger]
            set.contains(q) && !v.contains(q) && q.0 == start;
        assert(touches(q, s0, e0, page) && q.0 < s0);
    }
    if exists|r: (u64, u64)| #[trigger]
        set.contains(r) && touches(r, s0, e0, page) && range_end(r, page) > e0 {
        let r: (u64, u64) = choose|r: (u64, u64)| #[trigger]
            set.contains(r) && touches(r, s0, e0, page) && range_end(r, page) > e0;
        assert(!v.contains(r));
        let q: (u64, u64) = choose|q: (u64, u64)| #[trigger]
            set.contains(q) && !v.contains(q) && range_end(q, page) == end;
        assert(q.1 * page.len() >= 0) by (nonlinear_arith);
        assert(r.1 * page.len() >= 0) by (nonlinear_arith);
        if q != r {
            assert(apart(q, r, page));
        }
    }
    if end > e0 {
        let q: (u64, u64) = choose|q: (u64, u64)| #[trigger]
            set.contains(q) && !v.contains(q) && range_end(q, page) == end;
        assert(touches(q, s0, e0, page) && range_end(q, page) > e0);
    }
}

/// The queue invariant after the merged range is added.
proof fn lemma_pushed(
    rest: Seq<(u64, u64)>,
    item: (u64, u64),
    s0: u64,
    e0: u64,
    start: u64,
    end: u64,
    page: PageSize,
)
    requires
        separated(rest.to_set(), page),
        rest.no_duplicates(),
        page.len() > 0,
        item.0 == start,
        item.1 > 0,
        start <= range_end(item, page) <= end,
        forall|r: (u64, u64)| #[trigger] rest.contains(r) ==> !touches(r, start, end, page),
    ensures
        separated(rest.push(item).to_set(), page),
        rest.push(item).no_duplicates(),
        rest.push(item).to_set() == rest.to_set().insert(item),
{
    let all = rest.push(item);
    assert(all.to_set() =~= rest.to_set().insert(item)) by {
        assert forall|r: (u64, u64)| rest.to_set().insert(item).contains(r) implies all.contains(
            r,
        ) by {
            if r == item {
                assert(all[rest.len() as int] == item);
            } else {
                let k: int = choose|k: int| 0 <= k < rest.len() && rest[k] == r;
                assert(all[k] == r);
            }
        }
        assert forall|r: (u64, u64)| all.contains(r) implies rest.to_set().insert(item).contains(
            r,
        ) by {
            let k: int = choose|k: int| 0 <= k < all.len() && all[k] == r;
            if k < rest.len() {
                assert(rest[k] == r);
                assert(rest.contains(r));
            }
        }
    }
    assert forall|r: (u64, u64)| #[trigger] all.to_set().contains(r) implies r == item
        || rest.to_set().contains(r) by {
        let k: int = choose|k: int| 0 <= k < all.len() && all[k] == r;
        if k < rest.len() {
            assert(rest[k] == r);
            assert(rest.contains(r));
        }
    }
    assert(!rest.contains(item)) by {
        if rest.contains(item) {
            assert(!touches(item, start, end, page));
        }
    }
    assert forall|a: (u64, u64), b: (u64, u64)|
        #[trigger] all.to_set().contains(a) && #[trigger] all.to_set().contains(b) && a
            != b implies apart(a, b, page) by {
        if a == item {
            assert(rest.contains(b));
            assert(!touches(b, start, end, page));
        } else if b == item {
            assert(rest.contains(a));
            assert(!touches(a, start, end, page));
        } else {
            assert(rest.to_set().contains(a) && rest.to_set().contains(b));
        }
    }
    assert forall|i: int, j: int| 0 <= i < j < all.len() implies all[i] != all[j] by {
        if j == rest.len() {
            assert(rest.contains(rest[i]));
        }
    }
}

/// The items sorted by start list the set of items.
proof fn lemma_sorted(v: Seq<(u64, u64)>, s: Seq<(u64, u64)>, page: PageSize)
    requires
        v.no_duplicates(),
        separated(v.to_set(), page),
        page.len() > 0,
        s.to_multiset() == v.to_multiset(),
        forall|i: int, j: int| 0 <= i < j < s.len() ==> s[i].0 <= s[j].0,
    ensures
        lists(s, v.to_set()),
        ascending(v.to_set()) == s,
        s.len() == v.len(),
        s.no_duplicates(),
        s.to_set() == v.to_set(),
{
    let set = v.to_set();
    v.lemma_multiset_has_no_duplicates();
    s.lemma_multiset_has_no_duplicates_conv();
    v.to_multiset_ensures();
    s.to_multiset_ensures();
    assert forall|r: (u64, u64)| #[trigger] set.contains(r) <==> s.contains(r) by {
        assert(v.contains(r) <==> v.to_multiset().count(r) > 0);
        assert(s.contains(r) <==> s.to_multiset().count(r) > 0);
    }
    assert(s.to_set() =~= set);
    assert forall|i: int, j: int| 0 <= i < j < s.len() implies s[i].0 < s[j].0 by {
        assert(s.contains(s[i]) && s.contains(s[j]));
        assert(set.contains(s[i]) && set.contains(s[j]));
        assert(s[i] != s[j]);
        assert(apart(s[i], s[j], page));
        let a = s[i].1;
        let b = s[j].1;
        assert(a * page.len() >= 0) by (nonlinear_arith);
        assert(b * page.len() >= 0) by (nonlinear_arith);
    }
    assert(lists(s, set));
    lemma_lists_unique(ascending(set), s, set);
}

/// Ranges are not empty, and so their total is not zero.
proof fn lemma_total_positive(s: Seq<(u64, u64)>, set: Set<(u64, u64)>, n: nat, page: PageSize)
    requires
        lists(s, set),
        separated(set, page),
        0 < n <= s.len(),
    ensures
        page_total(s, n) > 0,
    decreases n,
{
    assert(s.contains(s[n - 1]));
    assert(set.contains(s[n - 1]));
}

/// Whether draining the queue invalidates the page that holds `x`.
pub open spec fn covered(pending: Pending, x: int, page: PageSize) -> bool {
    match pending {
        Pending::Everything => true,
        Pending::Ranges(set) => in_some_range(set, x, page),
    }
}

/// Whether one of the ranges holds `x`.
pub open spec fn in_some_range(set: Set<(u64, u64)>, x: int, page: PageSize) -> bool {
    exists|r: (u64, u64)| #[trigger] set.contains(r) && r.0 <= x < range_end(r, page)
}

/// Whether all queued ranges are apart and start at pages.
pub open spec fn page_aligned(pending: Pending, page: PageSize) -> bool {
    match pending {
        Pending::Everything => true,
        Pending::Ranges(set) => separated(set, page) && forall|r: (u64, u64)| #[trigger]
            set.contains(r) ==> r.0 % page.len() == 0,
    }
}

/// No invalidation is lost in the queue: what was due before is due after, and
/// so is every byte of a range of whole pages that is added. Nothing else becomes
/// due, unless the queue gives its ranges up for a full flush.
pub proof fn law_queue_keeps_and_adds(
    pending: Pending,
    start: u64,
    len: u64,
    page: PageSize,
    x: int,
)
    requires
        page_aligned(pending, page),
        start % page.len() == 0,
        len % page.len() == 0,
    ensures
        page_aligned(queued(pending, start, len, page), page),
        covered(pending, x, page) ==> covered(queued(pending, start, len, page), x, page),
        start <= x < start + len ==> covered(queued(pending, start, len, page), x, page),
        queued(pending, start, len, page) is Ranges && covered(
            queued(pending, start, len, page),
            x,
            page,
        ) ==> covered(pending, x, page) || start <= x < start + len,
{
    page.lemma_len();
    let n = page.len() as int;
    let pages = (len / page.len()) as u64;
    lemma_fundamental_div_mod(len as int, n);
    assert(pages * n == n * pages) by (nonlinear_arith);
    assert(pages * page.len() == len);
    match pending {
        Pending::Everything => {},
        Pending::Ranges(set) => {
            if pages != 0 && start + len <= u64::MAX {
                let end = (start + len) as u64;
                vstd::arithmetic::div_mod::lemma_mod_multiples_vanish(pages as int, start as int, n);
                assert(len > 0) by {
                    if len == 0 {
                        assert(0int / n == 0) by (nonlinear_arith)
                            requires
                                n > 0,
                        ;
                    }
                }
                lemma_merge_covers(set, start, end, page, x);
                let all = untouched(set, start, end, page).insert(
                    merged_item(set, start, end, page),
                );
                assert(queued(pending, start, len, page) == Pending::Everything || queued(
                    pending,
                    start,
                    len,
                    page,
                ) == Pending::Ranges(all));
            } else if pages == 0 {
                assert(len == 0);
            }
        },
    }
}

/// The range that merging makes.
spec fn merged_item(set: Set<(u64, u64)>, start: u64, end: u64, page: PageSize) -> (u64, u64) {
    let lo = hull_start(set, start, end, page);
    let hi = hull_end(set, start, end, page);
    (lo, ((hi - lo) / page.len() as int) as u64)
}

/// Merging a range in keeps the ranges apart and covers what they covered, the
/// new range, and nothing else.
proof fn lemma_merge_covers(set: Set<(u64, u64)>, start: u64, end: u64, page: PageSize, x: int)
    requires
        page_aligned(Pending::Ranges(set), page),
        start % page.len() == 0,
        end % page.len() == 0,
        start < end,
    ensures
        ({
            let all = untouched(set, start, end, page).insert(
                merged_item(set, start, end, page),
            );
            &&& page_aligned(Pending::Ranges(all), page)
            &&& covered(Pending::Ranges(set), x, page) ==> covered(Pending::Ranges(all), x, page)
            &&& start <= x < end ==> covered(Pending::Ranges(all), x, page)
            &&& covered(Pending::Ranges(all), x, page) ==> covered(Pending::Ranges(set), x, page)
                || start <= x < end
        }),
{
    page.lemma_len();
    let n = page.len() as int;
    let lo = hull_start(set, start, end, page);
    let hi = hull_end(set, start, end, page);
    let rest = untouched(set, start, end, page);
    let item = merged_item(set, start, end, page);
    let all = rest.insert(item);
    let count = item.1;
    lemma_hull(set, start, end, page);
    lemma_aligned_hull(set, start, end, page);
    lemma_fundamental_div_mod(hi - lo, n);
    assert(count * n == n * count) by (nonlinear_arith);
    assert(range_end(item, page) == hi);
    assert(count > 0) by {
        if count == 0 {
            assert(n * count == 0) by (nonlinear_arith)
                requires
                    count == 0,
            ;
        }
    }
    assert forall|r: (u64, u64)| #[trigger] rest.contains(r) implies set.contains(r) && !touches(
        r,
        lo,
        hi,
        page,
    ) by {
        lemma_outside_hull(set, start, end, page, r);
    }
    assert forall|a: (u64, u64), b: (u64, u64)|
        #[trigger] all.contains(a) && #[trigger] all.contains(b) && a != b implies apart(
        a,
        b,
        page,
    ) by {
        if a == item {
            assert(rest.contains(b));
        } else if b == item {
            assert(rest.contains(a));
        } else {
            assert(set.contains(a) && set.contains(b));
        }
    }
    assert(all.contains(item));
    if covered(Pending::Ranges(set), x, page) {
        let r: (u64, u64) = choose|r: (u64, u64)| #[trigger]
            set.contains(r) && r.0 <= x < range_end(r, page);
        assert(set.contains(r));
        if !touches(r, start, end, page) {
            assert(rest.contains(r));
            lemma_covered(all, r, x, page);
        } else {
            lemma_covered(all, item, x, page);
        }
    }
    assert forall|r: (u64, u64)| #[trigger] all.contains(r) implies r.1 > 0 && range_end(r, page)
        <= u64::MAX && r.0 % page.len() == 0 by {
        if r != item {
            assert(rest.contains(r));
        }
    }
    if start <= x < end {
        lemma_covered(all, item, x, page);
    }
    if covered(Pending::Ranges(all), x, page) && !(start <= x < end) {
        let r: (u64, u64) = choose|r: (u64, u64)| #[trigger]
            all.contains(r) && r.0 <= x < range_end(r, page);
        assert(all.contains(r) && r.0 <= x < range_end(r, page));
        if rest.contains(r) {
            lemma_covered(set, r, x, page);
        } else if x < start {
            let q: (u64, u64) = choose|q: (u64, u64)| #[trigger]
                set.contains(q) && touches(q, start, end, page) && q.0 < start;
            assert(set.contains(q) && q.0 == lo);
            lemma_covered(set, q, x, page);
        } else {
            let q: (u64, u64) = choose|q: (u64, u64)| #[trigger]
                set.contains(q) && touches(q, start, end, page) && range_end(q, page) > end;
            assert(set.contains(q) && range_end(q, page) == hi);
            lemma_covered(set, q, x, page);
        }
    }
}

/// What a queued range holds is covered.
proof fn lemma_covered(set: Set<(u64, u64)>, r: (u64, u64), x: int, page: PageSize)
    requires
        set.contains(r),
        r.0 <= x < range_end(r, page),
    ensures
        covered(Pending::Ranges(set), x, page),
{
    assert(in_some_range(set, x, page));
}

/// The hull of a new range takes in every range that touches it.
proof fn lemma_hull(set: Set<(u64, u64)>, start: u64, end: u64, page: PageSize)
    requires
        separated(set, page),
        page.len() > 0,
        start <= end,
    ensures
        hull_start(set, start, end, page) <= start,
        end <= hull_end(set, start, end, page),
        forall|r: (u64, u64)| #[trigger]
            set.contains(r) && touches(r, start, end, page) ==> hull_start(set, start, end, page)
                <= r.0 && range_end(r, page) <= hull_end(set, start, end, page),
{
    assert forall|r: (u64, u64)| #[trigger]
        set.contains(r) && touches(r, start, end, page) implies hull_start(set, start, end, page)
        <= r.0 && range_end(r, page) <= hull_end(set, start, end, page) by {
        let a = r.1;
        assert(a * page.len() >= 0) by (nonlinear_arith);
        if r.0 < start {
            let q: (u64, u64) = choose|q: (u64, u64)| #[trigger]
                set.contains(q) && touches(q, start, end, page) && q.0 < start;
            let b = q.1;
            assert(b * page.len() >= 0) by (nonlinear_arith);
            if q != r {
                assert(apart(q, r, page));
            }
        }
        if range_end(r, page) > end {
            let q: (u64, u64) = choose|q: (u64, u64)| #[trigger]
                set.contains(q) && touches(q, start, end, page) && range_end(q, page) > end;
            let b = q.1;
            assert(b * page.len() >= 0) by (nonlinear_arith);
            if q != r {
                assert(apart(q, r, page));
            }
        }
    }
}

/// The hull of ranges of whole pages is one.
proof fn lemma_aligned_hull(set: Set<(u64, u64)>, start: u64, end: u64, page: PageSize)
    requires
        separated(set, page),
        page.len() > 0,
        start % page.len() == 0,
        end % page.len() == 0,
        forall|r: (u64, u64)| #[trigger] set.contains(r) ==> r.0 % page.len() == 0,
    ensures
        hull_start(set, start, end, page) % page.len() == 0,
        (hull_end(set, start, end, page) - hull_start(set, start, end, page)) % (page.len() as int)
            == 0,
{
    let n = page.len() as int;
    let lo = hull_start(set, start, end, page);
    let hi = hull_end(set, start, end, page);
    assert(lo % page.len() == 0);
    assert(hi as int % n == 0) by {
        if exists|r: (u64, u64)| #[trigger]
            set.contains(r) && touches(r, start, end, page) && range_end(r, page) > end {
            let q: (u64, u64) = choose|q: (u64, u64)| #[trigger]
                set.contains(q) && touches(q, start, end, page) && range_end(q, page) > end;
            assert(set.contains(q));
            vstd::arithmetic::div_mod::lemma_mod_multiples_vanish(q.1 as int, q.0 as int, n);
            assert(n * q.1 == q.1 * n) by (nonlinear_arith);
        }
    }
    vstd::arithmetic::div_mod::lemma_sub_mod_noop(hi as int, lo as int, n);
}

/// A range that does not touch a new range does not touch its hull either.
proof fn lemma_outside_hull(
    set: Set<(u64, u64)>,
    start: u64,
    end: u64,
    page: PageSize,
    r: (u64, u64),
)
    requires
        separated(set, page),
        page.len() > 0,
        start <= end,
        set.contains(r),
        !touches(r, start, end, page),
    ensures
        !touches(r, hull_start(set, start, end, page), hull_end(set, start, end, page), page),
{
    let a = r.1;
    assert(a * page.len() >= 0) by (nonlinear_arith);
    if exists|q: (u64, u64)| #[trigger]
        set.contains(q) && touches(q, start, end, page) && q.0 < start {
        let q: (u64, u64) = choose|q: (u64, u64)| #[trigger]
            set.contains(q) && touches(q, start, end, page) && q.0 < start;
        let b = q.1;
        assert(b * page.len() >= 0) by (nonlinear_arith);
        assert(apart(q, r, page));
    }
    if exists|q: (u64, u64)| #[trigger]
        set.contains(q) && touches(q, start, end, page) && range_end(q, page) > end {
        let q: (u64, u64) = choose|q: (u64, u64)| #[trigger]
            set.contains(q) && touches(q, start, end, page) && range_end(q, page) > end;
        let b = q.1;
        assert(b * page.len() >= 0) by (nonlinear_arith);
        assert(apart(q, r, page));
    }
}

} // verus!
