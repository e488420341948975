//! Into which leaves a mapping request is cut, and when it is refused.

use crate::addr::{one_to_one, AddrRange, MemoryAddr, PhysAddr, PhysAddrRange};
use crate::error::{PagingError, PagingResult};
use crate::mapping::{MapBacking, MappingContiguity};
use crate::meta::PageSize;
use crate::paging::{
    level_for, level_of_size, linear_in_range, lowest_level, PageTableEntry, PageTableEntryKind,
    PagingMetaData,
};
use crate::plan::{
    admitted, best_leaf_size, check_leaf_range, check_paddr, check_scatter_segment, check_vaddr,
    contiguous_plan, entry_is_leaf, extent_plan, index_at, largest_fit, leaf_fits, leaf_range,
    lemma_named_placement, lemma_next_leaf, lemma_no_wrap, named_placement, next_leaf, offset_paddr,
    offset_vaddr, one_leaf, request_plan, scatter_plan, total_len, Placement,
};
use crate::request::map_plan;
use vstd::arithmetic::div_mod::{
    lemma_add_mod_noop, lemma_fundamental_div_mod, lemma_mod_bound, lemma_mod_multiples_basic,
    lemma_small_mod, lemma_sub_mod_noop,
};
use vstd::arithmetic::power2::{lemma_pow2_adds, lemma_pow2_strictly_increases, pow2};
use vstd::prelude::*;

verus! {

/// Whether some level of the tree has leaves of `size`.
pub open spec fn supported<Meta: PagingMetaData>(size: PageSize) -> bool {
    exists|level: u8| 1 <= level <= Meta::LEVELS && #[trigger] Meta::supports(level, size)
}

/// Whether `lo..hi` is a range of legal addresses.
pub open spec fn all_legal<Meta: PagingMetaData>(lo: int, hi: int) -> bool {
    forall|a: u64| lo <= a < hi ==> #[trigger] Meta::in_range(a)
}

/// A size has a level exactly where some level supports it.
proof fn lemma_supported<Meta: PagingMetaData>(size: PageSize)
    ensures
        level_for::<Meta>(size) is Some <==> supported::<Meta>(size),
{
    if supported::<Meta>(size) {
        let level: u8 = choose|level: u8|
            1 <= level <= Meta::LEVELS && #[trigger] Meta::supports(level, size);
        lemma_lowest::<Meta>(level, size);
    } else if exists|level: u8| lowest_level::<Meta>(level, size) {
        let level: u8 = choose|level: u8| lowest_level::<Meta>(level, size);
        assert(Meta::supports(level, size));
    }
}

/// A size that some level supports has a lowest such level.
pub(crate) proof fn lemma_lowest<Meta: PagingMetaData>(level: u8, size: PageSize)
    requires
        1 <= level <= Meta::LEVELS,
        Meta::supports(level, size),
    ensures
        exists|l: u8| lowest_level::<Meta>(l, size),
    decreases level,
{
    if exists|k: u8| 1 <= k < level && Meta::supports(k, size) {
        let k: u8 = choose|k: u8| 1 <= k < level && Meta::supports(k, size);
        lemma_lowest::<Meta>(k, size);
    } else {
        assert(lowest_level::<Meta>(level, size));
    }
}

/// Where a leaf of some size fits, there is a largest one that does.
proof fn lemma_has_largest<Meta: PagingMetaData>(
    size: PageSize,
    vaddr: u64,
    paddr: u64,
    remaining: u64,
)
    requires
        leaf_fits::<Meta>(size, vaddr, paddr, remaining),
    ensures
        exists|s: PageSize| largest_fit::<Meta>(s, vaddr, paddr, remaining),
    decreases u64::MAX - size.len(),
{
    if exists|o: PageSize| #[trigger]
        leaf_fits::<Meta>(o, vaddr, paddr, remaining) && o.len() > size.len() {
        let o: PageSize = choose|o: PageSize| #[trigger]
            leaf_fits::<Meta>(o, vaddr, paddr, remaining) && o.len() > size.len();
        lemma_has_largest::<Meta>(o, vaddr, paddr, remaining);
    } else {
        assert(largest_fit::<Meta>(size, vaddr, paddr, remaining));
    }
}

/// A page size is a multiple of every smaller one.
proof fn lemma_multiple(size: PageSize, base: PageSize)
    requires
        base.len() <= size.len(),
    ensures
        size.len() as int % base.len() as int == 0,
{
    size.lemma_len();
    base.lemma_len();
    if size.shift() < base.shift() {
        lemma_pow2_strictly_increases(
            size.shift() as nat,
            base.shift() as nat,
        );
    }
    let d = (size.shift() - base.shift()) as nat;
    lemma_pow2_adds(base.shift() as nat, d);
    let n = base.len() as int;
    let q = pow2(d) as int;
    assert(size.len() == q * n) by (nonlinear_arith)
        requires
            size.len() == n * q,
    ;
    lemma_mod_multiples_basic(q, n);
}

/// A request without a fixed leaf size takes at every place the largest leaf
/// that starts there: none of a supported size that both addresses are a multiple
/// of, and that does not reach past the end, is larger.
pub proof fn law_leaves_are_largest<Meta: PagingMetaData>(
    range: AddrRange<Meta::VirtAddr>,
    phys: PhysAddrRange,
    k: int,
    size: PageSize,
)
    requires
        one_to_one::<Meta::VirtAddr>(),
        ({
            let leaves = map_plan::<Meta>(
                range,
                Ok(MapBacking::Contiguous(phys)),
                MappingContiguity::Contiguous,
            ).leaves;
            &&& 0 <= k < leaves.len()
            &&& leaves[k].vaddr as int % size.len() as int == 0
            &&& leaves[k].paddr as int % size.len() as int == 0
            &&& leaves[k].vaddr + size.len() <= range.hi()
            &&& supported::<Meta>(size)
        }),
        range.lo() < range.hi(),
    ensures
        size.len() <= map_plan::<Meta>(
            range,
            Ok(MapBacking::Contiguous(phys)),
            MappingContiguity::Contiguous,
        ).leaves[k].size.len(),
{
    lemma_supported::<Meta>(size);
    let plan = map_plan::<Meta>(
        range,
        Ok(MapBacking::Contiguous(phys)),
        MappingContiguity::Contiguous,
    );
    if phys.empty() || range.len() != phys.len() {
    } else {
        match PageSize::of_len(range.len()) {
            Some(whole) => {
                assert(exists|s: PageSize| s.len() == range.len());
                let s: PageSize = choose|s: PageSize| s.len() == range.len();
                assert(whole.len() == range.len());
                assert(plan.leaves[k].vaddr == range.lo());
            },
            None => {
                lemma_extent_largest::<Meta>(range.lo(), phys.lo(), range.len(), 0, k, size);
            },
        }
    }
}

/// The leaves of an extent are the largest that fit.
proof fn lemma_extent_largest<Meta: PagingMetaData>(
    vbase: u64,
    pbase: u64,
    total: u64,
    offset: u64,
    k: int,
    size: PageSize,
)
    requires
        ({
            let leaves = extent_plan::<Meta>(vbase, pbase, total, offset, None).leaves;
            &&& 0 <= k < leaves.len()
            &&& leaves[k].vaddr % size.len() == 0
            &&& leaves[k].paddr % size.len() == 0
            &&& leaves[k].vaddr + size.len() <= vbase + total
        }),
        level_for::<Meta>(size) is Some,
    ensures
        size.len() <= extent_plan::<Meta>(vbase, pbase, total, offset, None).leaves[k].size.len(),
    decreases total - offset,
{
    lemma_next_leaf::<Meta>(vbase, pbase, total, offset, None);
    let leaf = next_leaf::<Meta>(vbase, pbase, total, offset, None)->Ok_0;
    let rest = extent_plan::<Meta>(vbase, pbase, total, (offset + leaf.size.len()) as u64, None);
    let plan = extent_plan::<Meta>(vbase, pbase, total, offset, None);
    assert(plan.leaves == seq![leaf] + rest.leaves);
    if k == 0 {
        assert(plan.leaves[0] == leaf);
        let remaining = (total - offset) as u64;
        let best: PageSize = choose|s: PageSize|
            largest_fit::<Meta>(s, leaf.vaddr, leaf.paddr, remaining);
        assert(largest_fit::<Meta>(best, leaf.vaddr, leaf.paddr, remaining));
        assert(leaf_fits::<Meta>(size, leaf.vaddr, leaf.paddr, remaining));
    } else {
        assert(plan.leaves[k] == rest.leaves[k - 1]);
        lemma_extent_largest::<Meta>(
            vbase,
            pbase,
            total,
            (offset + leaf.size.len()) as u64,
            k - 1,
            size,
        );
    }
}

/// A request with a fixed leaf size is cut into leaves of that size and no
/// other, whatever backs it.
pub proof fn law_granules_are_fixed<Meta: PagingMetaData>(
    range: AddrRange<Meta::VirtAddr>,
    backing: MapBacking<'_>,
    granule: PageSize,
    k: int,
)
    requires
        0 <= k < map_plan::<Meta>(
            range,
            Ok(backing),
            MappingContiguity::Scattered(granule),
        ).leaves.len(),
    ensures
        map_plan::<Meta>(range, Ok(backing), MappingContiguity::Scattered(granule)).leaves[k].size
            == granule,
{
    match backing {
        MapBacking::Contiguous(phys) => {
            lemma_contiguous_fixed::<Meta>(range, phys, granule, k);
        },
        MapBacking::Scattered(extents) => {
            lemma_scatter_fixed::<Meta>(range.lo(), 0, extents@, 0, granule, k);
        },
    }
}

/// The leaves of an extent with a fixed leaf size have that size.
proof fn lemma_extent_fixed<Meta: PagingMetaData>(
    vbase: u64,
    pbase: u64,
    total: u64,
    offset: u64,
    granule: PageSize,
    k: int,
)
    requires
        0 <= k < extent_plan::<Meta>(vbase, pbase, total, offset, Some(granule)).leaves.len(),
    ensures
        extent_plan::<Meta>(vbase, pbase, total, offset, Some(granule)).leaves[k].size == granule,
    decreases total - offset,
{
    lemma_next_leaf::<Meta>(vbase, pbase, total, offset, Some(granule));
    let leaf = next_leaf::<Meta>(vbase, pbase, total, offset, Some(granule))->Ok_0;
    let next = (offset + leaf.size.len()) as u64;
    let rest = extent_plan::<Meta>(vbase, pbase, total, next, Some(granule));
    let plan = extent_plan::<Meta>(vbase, pbase, total, offset, Some(granule));
    assert(plan.leaves == seq![leaf] + rest.leaves);
    if k == 0 {
        assert(plan.leaves[0] == leaf);
    } else {
        assert(plan.leaves[k] == rest.leaves[k - 1]);
        lemma_extent_fixed::<Meta>(vbase, pbase, total, next, granule, k - 1);
    }
}

/// The leaves of a contiguous request with a fixed leaf size have that size.
proof fn lemma_contiguous_fixed<Meta: PagingMetaData>(
    range: AddrRange<Meta::VirtAddr>,
    phys: PhysAddrRange,
    granule: PageSize,
    k: int,
)
    requires
        0 <= k < contiguous_plan::<Meta>(range, phys, Some(granule)).leaves.len(),
    ensures
        contiguous_plan::<Meta>(range, phys, Some(granule)).leaves[k].size == granule,
{
    if PageSize::of_len(range.len()) != Some(granule) {
        lemma_extent_fixed::<Meta>(range.lo(), phys.lo(), range.len(), 0, granule, k);
    }
}

/// The leaves of a scattered request have the granule's size.
proof fn lemma_scatter_fixed<Meta: PagingMetaData>(
    vbase: u64,
    offset: int,
    extents: Seq<PhysAddrRange>,
    i: nat,
    granule: PageSize,
    k: int,
)
    requires
        0 <= k < scatter_plan::<Meta>(vbase, offset, extents, i, granule).leaves.len(),
    ensures
        scatter_plan::<Meta>(vbase, offset, extents, i, granule).leaves[k].size == granule,
    decreases extents.len() - i,
{
    let lo = vbase + offset;
    let hi = lo + extents[i as int].len();
    let here = AddrRange::<Meta::VirtAddr>::of(lo as u64, hi as u64);
    let first = contiguous_plan::<Meta>(here, extents[i as int], Some(granule));
    if k < first.leaves.len() {
        lemma_contiguous_fixed::<Meta>(here, extents[i as int], granule, k);
    } else {
        lemma_scatter_fixed::<Meta>(
            vbase,
            offset + extents[i as int].len(),
            extents,
            i + 1,
            granule,
            k - first.leaves.len(),
        );
    }
}

/// A contiguous request is granted in full where it should be: both ranges are
/// legal and equally long, and made of pages of some supported size. If they are
/// one page of a size themselves, that size must be a supported one that both are
/// aligned to.
pub proof fn law_contiguous_request_is_granted<Meta: PagingMetaData>(
    range: AddrRange<Meta::VirtAddr>,
    phys: PhysAddrRange,
    base: PageSize,
)
    requires
        supported::<Meta>(base),
        range.lo() < range.hi(),
        phys.lo() < phys.hi(),
        range.hi() - range.lo() == phys.hi() - phys.lo(),
        all_legal::<Meta>(range.lo() as int, range.hi() as int),
        Meta::PA_MAX_BITS >= 64 || phys.hi() <= pow2(Meta::PA_MAX_BITS as nat),
        range.lo() as int % base.len() as int == 0,
        phys.lo() as int % base.len() as int == 0,
        (range.hi() - range.lo()) % base.len() as int == 0,
        forall|size: PageSize| #[trigger]
            size.len() == range.hi() - range.lo() ==> range.lo() as int % size.len() as int == 0
                && phys.lo() as int % size.len() as int == 0 && supported::<Meta>(size),
    ensures
        map_plan::<Meta>(
            range,
            Ok(MapBacking::Contiguous(phys)),
            MappingContiguity::Contiguous,
        ).stop is None,
{
    lemma_supported::<Meta>(base);
    base.lemma_len();
    assert(0int % base.len() as int == 0) by (nonlinear_arith)
        requires
            base.len() > 0,
    ;
    match PageSize::of_len(range.len()) {
        Some(whole) => {
            assert(exists|s: PageSize| s.len() == range.len());
            let s: PageSize = choose|s: PageSize| s.len() == range.len();
            assert(whole.len() == range.len());
            lemma_supported::<Meta>(whole);
            assert(Meta::in_range(range.lo()));
            assert(Meta::in_range((range.hi() - 1) as u64));
        },
        None => {
            lemma_extent_granted::<Meta>(range.lo(), phys.lo(), range.len(), 0, None, base);
        },
    }
}

/// The leaves of an extent of whole pages of a supported size can all be placed.
proof fn lemma_extent_granted<Meta: PagingMetaData>(
    vbase: u64,
    pbase: u64,
    total: u64,
    offset: u64,
    fixed: Option<PageSize>,
    base: PageSize,
)
    requires
        level_for::<Meta>(base) is Some,
        fixed is Some ==> fixed == Some(base),
        all_legal::<Meta>(vbase as int, vbase + total),
        Meta::PA_MAX_BITS >= 64 || pbase + total <= pow2(Meta::PA_MAX_BITS as nat),
        vbase + total <= u64::MAX,
        pbase + total <= u64::MAX,
        vbase as int % base.len() as int == 0,
        pbase as int % base.len() as int == 0,
        total as int % base.len() as int == 0,
        offset as int % base.len() as int == 0,
        offset <= total,
    ensures
        extent_plan::<Meta>(vbase, pbase, total, offset, fixed).stop is None,
    decreases total - offset,
{
    let n = base.len() as int;
    base.lemma_len();
    if offset < total {
        let vaddr = (vbase + offset) as u64;
        let paddr = (pbase + offset) as u64;
        let remaining = (total - offset) as u64;
        lemma_add_mod_noop(vbase as int, offset as int, n);
        lemma_add_mod_noop(pbase as int, offset as int, n);
        lemma_sub_mod_noop(total as int, offset as int, n);
        assert(0int % n == 0) by (nonlinear_arith)
            requires
                n > 0,
        ;
        assert(remaining >= n) by {
            if remaining < n {
                lemma_small_mod(remaining as nat, n as nat);
            }
        }
        assert(leaf_fits::<Meta>(base, vaddr, paddr, remaining));
        lemma_has_largest::<Meta>(base, vaddr, paddr, remaining);
        let best: PageSize = choose|s: PageSize| largest_fit::<Meta>(s, vaddr, paddr, remaining);
        assert(largest_fit::<Meta>(best, vaddr, paddr, remaining));
        let size = match fixed {
            Some(size) => size,
            None => best,
        };
        size.lemma_len();
        assert(base.len() <= size.len() <= remaining);
        lemma_multiple(size, base);
        assert(Meta::in_range(vaddr));
        assert(Meta::in_range((vaddr + size.len() - 1) as u64));
        let leaf = next_leaf::<Meta>(vbase, pbase, total, offset, fixed);
        assert(leaf == admitted::<Meta>(vaddr, (vaddr + size.len()) as u64, paddr, size));
        assert(leaf is Ok);
        lemma_add_mod_noop(offset as int, size.len() as int, n);
        lemma_extent_granted::<Meta>(
            vbase,
            pbase,
            total,
            (offset + size.len()) as u64,
            fixed,
            base,
        );
    }
}

/// A request with a fixed leaf size is granted in full where it should be: the
/// range is legal and made of such pages, and so are the physical ranges behind
/// it, which are as long together.
pub proof fn law_granule_request_is_granted<Meta: PagingMetaData>(
    range: AddrRange<Meta::VirtAddr>,
    extents: &[PhysAddrRange],
    granule: PageSize,
)
    requires
        one_to_one::<Meta::VirtAddr>(),
        supported::<Meta>(granule),
        range.lo() < range.hi(),
        all_legal::<Meta>(range.lo() as int, range.hi() as int),
        range.lo() as int % granule.len() as int == 0,
        extents@.fold_left(0int, |n: int, e: PhysAddrRange| n + (e.hi() - e.lo())) == range.hi()
            - range.lo(),
        forall|i: int|
            0 <= i < extents@.len() ==> {
                let e = #[trigger] extents@[i];
                &&& e.lo() < e.hi()
                &&& e.lo() as int % granule.len() as int == 0
                &&& (e.hi() - e.lo()) % granule.len() as int == 0
                &&& Meta::PA_MAX_BITS >= 64 || e.hi() <= pow2(Meta::PA_MAX_BITS as nat)
            },
    ensures
        map_plan::<Meta>(
            range,
            Ok(MapBacking::Scattered(extents)),
            MappingContiguity::Scattered(granule),
        ).stop is None,
{
    lemma_supported::<Meta>(granule);
    granule.lemma_len();
    let n = granule.len() as int;
    lemma_total(extents@, extents@.len());
    assert(extents@.take(extents@.len() as int) =~= extents@);
    lemma_total_multiple(extents@, extents@.len(), granule);
    lemma_scatter_granted::<Meta>(range.lo(), range.hi(), extents@, 0, granule);
}

/// The length of extents, added up.
proof fn lemma_total(extents: Seq<PhysAddrRange>, n: nat)
    requires
        n <= extents.len(),
        forall|i: int| 0 <= i < n ==> (#[trigger] extents[i]).lo() < extents[i].hi(),
    ensures
        extents.take(n as int).fold_left(0int, |n: int, e: PhysAddrRange| n + (e.hi() - e.lo()))
            == total_len(extents, n),
    decreases n,
{
    if n > 0 {
        lemma_total(extents, (n - 1) as nat);
        assert(extents.take(n as int).drop_last() =~= extents.take(n - 1));
        assert(extents[n - 1].lo() < extents[n - 1].hi());
    }
}

/// Extents of whole pages make up whole pages.
proof fn lemma_total_multiple(extents: Seq<PhysAddrRange>, n: nat, granule: PageSize)
    requires
        n <= extents.len(),
        forall|i: int|
            0 <= i < n ==> (#[trigger] extents[i]).lo() < extents[i].hi() && (extents[i].hi()
                - extents[i].lo()) % granule.len() as int == 0,
    ensures
        total_len(extents, n) as int % granule.len() as int == 0,
    decreases n,
{
    granule.lemma_len();
    let g = granule.len() as int;
    assert(0int % g == 0) by (nonlinear_arith)
        requires
            g > 0,
    ;
    if n > 0 {
        lemma_total_multiple(extents, (n - 1) as nat, granule);
        assert(extents[n - 1].lo() < extents[n - 1].hi());
        lemma_add_mod_noop(
            total_len(extents, (n - 1) as nat) as int,
            extents[n - 1].len() as int,
            g,
        );
    }
}

/// Fewer extents are not longer.
proof fn lemma_total_grows(extents: Seq<PhysAddrRange>, m: nat, n: nat)
    requires
        m <= n,
    ensures
        total_len(extents, m) <= total_len(extents, n),
    decreases n,
{
    if m < n {
        lemma_total_grows(extents, m, (n - 1) as nat);
    }
}

/// The leaves of extents of whole granules can all be placed.
proof fn lemma_scatter_granted<Meta: PagingMetaData>(
    vbase: u64,
    end: u64,
    extents: Seq<PhysAddrRange>,
    i: nat,
    granule: PageSize,
)
    requires
        one_to_one::<Meta::VirtAddr>(),
        level_for::<Meta>(granule) is Some,
        all_legal::<Meta>(vbase as int, end as int),
        vbase as int % granule.len() as int == 0,
        vbase + total_len(extents, extents.len()) == end,
        i <= extents.len(),
        forall|i: int|
            0 <= i < extents.len() ==> {
                let e = #[trigger] extents[i];
                &&& e.lo() < e.hi()
                &&& e.lo() as int % granule.len() as int == 0
                &&& (e.hi() - e.lo()) % granule.len() as int == 0
                &&& Meta::PA_MAX_BITS >= 64 || e.hi() <= pow2(Meta::PA_MAX_BITS as nat)
            },
    ensures
        scatter_plan::<Meta>(vbase, total_len(extents, i) as int, extents, i, granule).stop is None,
    decreases extents.len() - i,
{
    if i < extents.len() {
        let n = granule.len() as int;
        granule.lemma_len();
        let phys = extents[i as int];
        assert(total_len(extents, i + 1) == total_len(extents, i) + phys.len());
        lemma_total_grows(extents, i + 1, extents.len());
        lemma_total_multiple(extents, i, granule);
        let lo = (vbase + total_len(extents, i)) as u64;
        let hi = (lo + phys.len()) as u64;
        lemma_add_mod_noop(vbase as int, total_len(extents, i) as int, n);
        assert(0int % n == 0) by (nonlinear_arith)
            requires
                n > 0,
        ;
        let here = AddrRange::<Meta::VirtAddr>::of(lo, hi);
        assert(Meta::in_range(lo));
        assert(Meta::in_range((hi - 1) as u64));
        if PageSize::of_len(here.len()) == Some(granule) {
            let s: PageSize = choose|s: PageSize| s.len() == here.len();
            assert(granule.len() == here.len());
        } else {
            lemma_extent_granted::<Meta>(lo, phys.lo(), here.len(), 0, Some(granule), granule);
        }
        assert(contiguous_plan::<Meta>(here, phys, Some(granule)).stop is None);
        lemma_scatter_granted::<Meta>(vbase, end, extents, i + 1, granule);
    }
}

/// What a contiguous request is refused for at once: a backing that failed, one
/// in pieces, or one of another length. Nothing is installed then.
pub proof fn law_contiguous_refusals<Meta: PagingMetaData>(
    range: AddrRange<Meta::VirtAddr>,
    phys: PhysAddrRange,
    extents: &[PhysAddrRange],
    contiguity: MappingContiguity,
    error: PagingError,
)
    ensures
        ({
            let failed = map_plan::<Meta>(range, Err(error), contiguity);
            failed.stop == Some(error) && failed.leaves.len() == 0
        }),
        ({
            let pieces = map_plan::<Meta>(
                range,
                Ok(MapBacking::Scattered(extents)),
                MappingContiguity::Contiguous,
            );
            pieces.stop == Some(PagingError::InvalidMappingShape) && pieces.leaves.len() == 0
        }),
        phys.lo() >= phys.hi() || (range.lo() < range.hi() && range.hi() - range.lo() != phys.hi()
            - phys.lo()) ==> {
            let uneven = map_plan::<Meta>(
                range,
                Ok(MapBacking::Contiguous(phys)),
                MappingContiguity::Contiguous,
            );
            uneven.stop == Some(PagingError::InvalidMappingShape) && uneven.leaves.len() == 0
        },
{
}

/// A contiguous request of one page is that page or nothing. It is out of range
/// where an end is not legal or the physical address too wide, misaligned where an
/// address is no multiple of the size, and of no supported size where no level has
/// it, in the order: legality and alignment of the range, then of the backing, then
/// the size.
pub proof fn law_one_page_request<Meta: PagingMetaData>(
    range: AddrRange<Meta::VirtAddr>,
    phys: PhysAddrRange,
    size: PageSize,
)
    requires
        range.lo() + size.len() == range.hi(),
        phys.lo() + size.len() == phys.hi(),
    ensures
        ({
            let plan = map_plan::<Meta>(
                range,
                Ok(MapBacking::Contiguous(phys)),
                MappingContiguity::Contiguous,
            );
            let legal = Meta::in_range(range.lo()) && Meta::in_range((range.hi() - 1) as u64);
            let wide = Meta::PA_MAX_BITS < 64 && phys.lo() >= pow2(Meta::PA_MAX_BITS as nat);
            if !legal {
                plan.stop == Some(PagingError::AddressOutOfRange) && plan.leaves.len() == 0
            } else if range.lo() as int % size.len() as int != 0 {
                plan.stop == Some(PagingError::NotAligned) && plan.leaves.len() == 0
            } else if wide {
                plan.stop == Some(PagingError::AddressOutOfRange) && plan.leaves.len() == 0
            } else if phys.lo() as int % size.len() as int != 0 {
                plan.stop == Some(PagingError::NotAligned) && plan.leaves.len() == 0
            } else if !supported::<Meta>(size) {
                plan.stop == Some(PagingError::UnsupportedSize) && plan.leaves.len() == 0
            } else {
                &&& plan.stop is None
                &&& plan.leaves.len() == 1
                &&& plan.leaves[0].vaddr == range.lo()
                &&& plan.leaves[0].paddr == phys.lo()
                &&& plan.leaves[0].size == size
                &&& 1 <= plan.leaves[0].level <= Meta::LEVELS
                &&& Meta::supports(plan.leaves[0].level, size)
                &&& forall|l: u8| 1 <= l < plan.leaves[0].level ==> !Meta::supports(l, size)
            }
        }),
{
    size.lemma_len();
    size.lemma_unique();
    lemma_supported::<Meta>(size);
    if let Some(level) = level_for::<Meta>(size) {
        assert(exists|l: u8| lowest_level::<Meta>(l, size));
        assert(lowest_level::<Meta>(level, size));
    }
}

/// What a request with a fixed leaf size is refused for at once: a range that is
/// not made of such pages, a size that no level has, and a backing that is not made
/// of such pages or not as long together. Nothing is installed then.
pub proof fn law_granule_refusals<Meta: PagingMetaData>(
    range: AddrRange<Meta::VirtAddr>,
    phys: PhysAddrRange,
    extents: &[PhysAddrRange],
    granule: PageSize,
    i: int,
)
    ensures
        ({
            let g = granule.len() as int;
            let whole = map_plan::<Meta>(
                range,
                Ok(MapBacking::Contiguous(phys)),
                MappingContiguity::Scattered(granule),
            );
            let pieces = map_plan::<Meta>(
                range,
                Ok(MapBacking::Scattered(extents)),
                MappingContiguity::Scattered(granule),
            );
            let paged = range.lo() < range.hi() && (range.hi() - range.lo()) % g == 0;
            let bad = Some(PagingError::InvalidMappingShape);
            &&& !paged ==> whole.stop == bad && whole.leaves.len() == 0 && pieces.stop == bad
                && pieces.leaves.len() == 0
            &&& paged && !supported::<Meta>(granule) ==> whole.stop == Some(
                PagingError::UnsupportedSize,
            ) && whole.leaves.len() == 0 && pieces.stop == Some(PagingError::UnsupportedSize)
                && pieces.leaves.len() == 0
            &&& paged && supported::<Meta>(granule) && (phys.lo() >= phys.hi() || phys.hi()
                - phys.lo() != range.hi() - range.lo() || phys.lo() as int % g != 0) ==> whole.stop
                == bad && whole.leaves.len() == 0
            &&& paged && supported::<Meta>(granule) && 0 <= i < extents@.len() && (extents@[i].lo()
                >= extents@[i].hi() || extents@[i].lo() as int % g != 0 || (extents@[i].hi()
                - extents@[i].lo()) % g != 0) ==> pieces.stop == bad && pieces.leaves.len() == 0
            &&& paged && supported::<Meta>(granule) && (forall|j: int|
                0 <= j < extents@.len() ==> (#[trigger] extents@[j]).lo() < extents@[j].hi())
                && extents@.fold_left(0int, |n: int, e: PhysAddrRange| n + (e.hi() - e.lo()))
                != range.hi() - range.lo() ==> pieces.stop == bad && pieces.leaves.len() == 0
        }),
{
    granule.lemma_len();
    lemma_supported::<Meta>(granule);
    if 0 <= i < extents@.len() {
        assert(extents@[i] == extents@[i]);
    }
    if forall|j: int| 0 <= j < extents@.len() ==> (#[trigger] extents@[j]).lo() < extents@[j].hi() {
        lemma_total(extents@, extents@.len());
        assert(extents@.take(extents@.len() as int) =~= extents@);
    }
}

/// A range that names one leaf is placed as the request for it would be, and one
/// that is no page of any size is refused for its size.
pub proof fn law_leaf_request_alike<Meta: PagingMetaData>(
    range: AddrRange<Meta::VirtAddr>,
    paddr: u64,
    phys: PhysAddrRange,
)
    requires
        phys.lo() == paddr,
        range.lo() < range.hi() ==> phys.hi() == paddr + (range.hi() - range.lo()),
    ensures
        (forall|size: PageSize| range.lo() + #[trigger] size.len() != range.hi())
            ==> named_placement::<Meta>(range, paddr) == Err::<Placement, PagingError>(
            PagingError::UnsupportedSize,
        ),
        (exists|size: PageSize| range.lo() + #[trigger] size.len() == range.hi()) ==> one_leaf(
            named_placement::<Meta>(range, paddr),
        ) == map_plan::<Meta>(
            range,
            Ok(MapBacking::Contiguous(phys)),
            MappingContiguity::Contiguous,
        ),
{
    if exists|size: PageSize| range.lo() + #[trigger] size.len() == range.hi() {
        let size: PageSize = choose|size: PageSize|
            range.lo() + #[trigger] size.len() == range.hi();
        size.lemma_len();
        size.lemma_unique();
        lemma_named_placement::<Meta>(range, paddr, size);
    } else if !range.empty() {
        assert forall|size: PageSize| #[trigger] size.len() != range.len() by {
            assert(range.lo() + size.len() != range.hi());
        }
    }
}

/// A range that holds no address maps nothing: the request is refused, whatever
/// backs it.
pub proof fn law_empty_request_is_refused<Meta: PagingMetaData>(
    range: AddrRange<Meta::VirtAddr>,
    backing: MapBacking<'_>,
    contiguity: MappingContiguity,
)
    requires
        range.lo() >= range.hi(),
    ensures
        map_plan::<Meta>(range, Ok(backing), contiguity).stop is Some,
        map_plan::<Meta>(range, Ok(backing), contiguity).leaves.len() == 0,
        request_plan::<Meta>(range, backing, contiguity).stop == Some(
            PagingError::InvalidMappingShape,
        ),
        request_plan::<Meta>(range, backing, contiguity).leaves.len() == 0,
{
    if let Some(size) = PageSize::of_len(range.len()) {
        assert(exists|s: PageSize| s.len() == range.len());
        assert(size.len() == range.len());
        size.lemma_len();
        if let MapBacking::Contiguous(phys) = backing {
            if range.lo() % size.len() == 0 && range.hi() != 0 {
                lemma_no_wrap(range.lo(), range.hi(), size);
            }
        }
    }
}

/// The steps of cutting a request, call by call: a place has the slot that its
/// address bits select; a leaf lies around an address at a multiple of its size;
/// offsets are added or leave the address space; a size belongs to the lowest level
/// that supports it.
pub proof fn law_cutting_calls<Meta: PagingMetaData>(
    level: u8,
    vaddr: Meta::VirtAddr,
    size: PageSize,
    base: PhysAddr,
    offset: u64,
    slot: usize,
    range: PagingResult<AddrRange<Meta::VirtAddr>>,
    v: PagingResult<Meta::VirtAddr>,
    p: PagingResult<PhysAddr>,
    legal: PagingResult,
    holds: PagingResult,
    at: Option<u8>,
)
    requires
        one_to_one::<Meta::VirtAddr>(),
        call_ensures(index_at::<Meta>, (level, vaddr), slot),
        call_ensures(leaf_range::<Meta>, (vaddr, size), range),
        call_ensures(offset_vaddr::<Meta>, (vaddr, offset), v),
        call_ensures(offset_paddr, (base, offset), p),
        call_ensures(check_vaddr::<Meta>, (vaddr,), legal),
        call_ensures(check_paddr::<Meta>, (base,), holds),
        call_ensures(level_of_size::<Meta>, (size,), at),
    ensures
        slot == vaddr.value() as int / pow2(Meta::shift(level) as nat) as int % pow2(
            Meta::index_bits(level) as nat,
        ) as int,
        match range {
            Ok(leaf) => leaf.lo() as int % size.len() as int == 0 && leaf.lo() <= vaddr.value()
                < leaf.hi() && leaf.hi() == leaf.lo() + size.len(),
            Err(e) => {
                let lo = vaddr.value() as int / size.len() as int * size.len();
                e == PagingError::AddressOutOfRange && lo + size.len() > u64::MAX
            },
        },
        match v {
            Ok(sum) => sum.value() == vaddr.value() + offset,
            Err(e) => e == PagingError::AddressOutOfRange && vaddr.value() + offset > u64::MAX,
        },
        match p {
            Ok(sum) => sum.0 == base.0 + offset,
            Err(e) => e == PagingError::AddressOutOfRange && base.0 + offset > u64::MAX,
        },
        match legal {
            Ok(_) => Meta::in_range(vaddr.value()),
            Err(e) => e == PagingError::AddressOutOfRange && !Meta::in_range(vaddr.value()),
        },
        match holds {
            Ok(_) => Meta::PA_MAX_BITS >= 64 || base.0 < pow2(Meta::PA_MAX_BITS as nat),
            Err(e) => e == PagingError::AddressOutOfRange && Meta::PA_MAX_BITS < 64 && base.0
                >= pow2(Meta::PA_MAX_BITS as nat),
        },
        match at {
            Some(l) => 1 <= l <= Meta::LEVELS && Meta::supports(l, size) && forall|k: u8|
                1 <= k < l ==> !Meta::supports(k, size),
            None => !supported::<Meta>(size),
        },
{
    let n = size.len() as int;
    let x = vaddr.value() as int;
    size.lemma_len();
    lemma_fundamental_div_mod(x, n);
    lemma_mod_bound(x, n);
    assert(x / n * n == n * (x / n)) by (nonlinear_arith);
    lemma_mod_multiples_basic(x / n, n);
    lemma_supported::<Meta>(size);
}

/// The choice of a leaf size, call by call: it is the largest that fits, if any
/// does; a physical extent is taken where it is a whole number of aligned granules;
/// a range names the one leaf that it is; an entry ends a walk where it is a leaf.
pub proof fn law_choice_calls<Meta: PagingMetaData, Entry: PageTableEntry>(
    vaddr: Meta::VirtAddr,
    paddr: PhysAddr,
    remaining: u64,
    best: PagingResult<PageSize>,
    size: PageSize,
    phys: PhysAddrRange,
    taken: PagingResult,
    range: AddrRange<Meta::VirtAddr>,
    named: PagingResult<PageSize>,
    entry: Entry,
    level: u8,
    ends: PagingResult<bool>,
    bits: usize,
    fits: bool,
)
    requires
        call_ensures(best_leaf_size::<Meta>, (vaddr, paddr, remaining), best),
        call_ensures(check_scatter_segment, (phys, size), taken),
        call_ensures(check_leaf_range::<Meta>, (range,), named),
        call_ensures(entry_is_leaf::<Entry>, (entry, level), ends),
        call_ensures(linear_in_range, (paddr.0, bits), fits),
    ensures
        ({
            let room = size.len() <= remaining && vaddr.value() as int % size.len() as int == 0
                && paddr.0 as int % size.len() as int == 0 && supported::<Meta>(size);
            match best {
                Ok(largest) => {
                    &&& room ==> size.len() <= largest.len()
                    &&& size == largest ==> room
                },
                Err(e) => e == PagingError::UnsupportedSize && !room,
            }
        }),
        ({
            let whole = phys.lo() < phys.hi() && phys.lo() as int % size.len() as int == 0 && (
            phys.hi() - phys.lo()) % size.len() as int == 0;
            match taken {
                Ok(_) => whole,
                Err(e) => e == PagingError::InvalidMappingShape && !whole,
            }
        }),
        range.lo() + size.len() == range.hi() ==> {
            let legal = Meta::in_range(range.lo()) && Meta::in_range((range.hi() - 1) as u64);
            let aligned = range.lo() as int % size.len() as int == 0;
            match named {
                Ok(found) => found == size && legal && aligned,
                Err(e) => if legal {
                    e == PagingError::NotAligned && !aligned
                } else {
                    e == PagingError::AddressOutOfRange
                },
            }
        },
        match Entry::kind(entry.raw(), level) {
            PageTableEntryKind::Leaf => ends matches Ok(b) && b,
            PageTableEntryKind::Table => ends matches Ok(b) && !b,
            PageTableEntryKind::Invalid => ends matches Err(e) && e
                == PagingError::InvalidEntryKind,
        },
        fits <==> bits >= 64 || paddr.0 < pow2(bits as nat),
{
    let v = vaddr.value();
    size.lemma_len();
    size.lemma_unique();
    lemma_supported::<Meta>(size);
    if leaf_fits::<Meta>(size, v, paddr.0, remaining) {
        lemma_has_largest::<Meta>(size, v, paddr.0, remaining);
    }
    if let Ok(largest) = best {
        assert(largest_fit::<Meta>(largest, v, paddr.0, remaining));
    }
}

} // verus!
