//! How a mapping request is cut into leaves.
//!
//! Everything here is independent of the contents of a page table: the
//! geometry and the request alone decide which leaves are tried, in which
//! order, and with which error a request ends that cannot be cut.

use crate::addr::{floor_to, AddrRange, MemoryAddr, PhysAddr, PhysAddrRange};
use crate::error::{PagingError, PagingResult};
use crate::mapping::{MapBacking, MappingContiguity};
use crate::meta::PageSize;
use crate::paging::{
    fits_bits, level_for, level_of_size, lowest_level, PageTableEntry, PageTableEntryKind,
    PagingMetaData,
};
use crate::tree::{layout_ok, measures_ok, slot_of, MAX_LEVELS};
use vstd::arithmetic::power2::{
    lemma2_to64, lemma2_to64_rest, lemma_pow2_pos, lemma_pow2_strictly_increases, pow2,
};
use vstd::bits::{
    lemma_u64_low_bits_mask_is_mod, lemma_u64_pow2_no_overflow, lemma_u64_shl_is_mul,
    lemma_u64_shr_is_div, low_bits_mask,
};
use vstd::prelude::*;

verus! {

/// One leaf of a mapping request: where it starts, what backs it, its size and
/// the level it belongs to.
pub struct Placement {
    pub vaddr: u64,
    pub paddr: u64,
    pub size: PageSize,
    pub level: u8,
}

/// The leaves of a mapping request in the order they are installed, and the
/// error it ends with once they are, if it does.
pub struct Plan {
    pub leaves: Seq<Placement>,
    pub stop: Option<PagingError>,
}

/// A plan that installs nothing and ends with `error`.
pub open spec fn rejected(error: PagingError) -> Plan {
    Plan { leaves: Seq::empty(), stop: Some(error) }
}

/// A plan of one leaf.
pub open spec fn single(leaf: Placement) -> Plan {
    Plan { leaves: seq![leaf], stop: None }
}

/// One plan after another; the second is not begun where the first stops.
pub open spec fn followed_by(first: Plan, second: Plan) -> Plan {
    if first.stop is Some {
        first
    } else {
        Plan { leaves: first.leaves + second.leaves, stop: second.stop }
    }
}

/// The range of the leaf of `size` around `vaddr`.
pub open spec fn covering<V: MemoryAddr>(vaddr: u64, size: PageSize) -> PagingResult<AddrRange<V>> {
    let base = floor_to(vaddr, size.len());
    if base + size.len() > u64::MAX {
        Err(PagingError::AddressOutOfRange)
    } else {
        Ok(AddrRange::<V>::of(base, (base + size.len()) as u64))
    }
}

/// The size of the leaf that `range` names, or why it names none.
pub open spec fn named_leaf<Meta: PagingMetaData>(
    range: AddrRange<Meta::VirtAddr>,
) -> PagingResult<PageSize> {
    if range.empty() {
        Err(PagingError::UnsupportedSize)
    } else {
        match PageSize::of_len(range.len()) {
            None => Err(PagingError::UnsupportedSize),
            Some(size) => if !Meta::in_range(range.lo()) || !Meta::in_range(
                (range.hi() - 1) as u64,
            ) {
                Err(PagingError::AddressOutOfRange)
            } else if range.lo() % size.len() != 0 {
                Err(PagingError::NotAligned)
            } else {
                Ok(size)
            },
        }
    }
}

/// The placement of a leaf of `size` over `lo..hi`, or why there is none.
pub open spec fn admitted<Meta: PagingMetaData>(
    lo: u64,
    hi: u64,
    paddr: u64,
    size: PageSize,
) -> PagingResult<Placement> {
    if !Meta::in_range(lo) || hi == 0 || !Meta::in_range((hi - 1) as u64) {
        Err(PagingError::AddressOutOfRange)
    } else if lo % size.len() != 0 {
        Err(PagingError::NotAligned)
    } else if !fits_bits(paddr, Meta::PA_MAX_BITS) {
        Err(PagingError::AddressOutOfRange)
    } else if paddr % size.len() != 0 {
        Err(PagingError::NotAligned)
    } else {
        match level_for::<Meta>(size) {
            None => Err(PagingError::UnsupportedSize),
            Some(level) => Ok(Placement { vaddr: lo, paddr, size, level }),
        }
    }
}

/// The single leaf that a request is, where its size is a page size and, if
/// the leaf size is fixed, that size.
pub open spec fn exact_leaf<Meta: PagingMetaData>(
    range: AddrRange<Meta::VirtAddr>,
    paddr: u64,
    fixed: Option<PageSize>,
) -> PagingResult<Option<Placement>> {
    match PageSize::of_len(range.len()) {
        None => Ok(None),
        Some(size) => if fixed is Some && fixed != Some(size) {
            Ok(None)
        } else {
            match admitted::<Meta>(range.lo(), range.hi(), paddr, size) {
                Ok(leaf) => Ok(Some(leaf)),
                Err(e) => Err(e),
            }
        },
    }
}

/// Whether a leaf of `size` can start at `vaddr` and `paddr` and is no larger
/// than what remains to be mapped.
pub open spec fn leaf_fits<Meta: PagingMetaData>(
    size: PageSize,
    vaddr: u64,
    paddr: u64,
    remaining: u64,
) -> bool {
    &&& size.len() <= remaining
    &&& vaddr % size.len() == 0
    &&& paddr % size.len() == 0
    &&& level_for::<Meta>(size) is Some
}

/// Whether `size` is the largest that fits.
pub open spec fn largest_fit<Meta: PagingMetaData>(
    size: PageSize,
    vaddr: u64,
    paddr: u64,
    remaining: u64,
) -> bool {
    &&& leaf_fits::<Meta>(size, vaddr, paddr, remaining)
    &&& forall|other: PageSize| #[trigger]
        leaf_fits::<Meta>(other, vaddr, paddr, remaining) ==> other.len() <= size.len()
}

/// The largest leaf size that fits, if any does.
pub open spec fn best_size<Meta: PagingMetaData>(
    vaddr: u64,
    paddr: u64,
    remaining: u64,
) -> PagingResult<PageSize> {
    if exists|s: PageSize| largest_fit::<Meta>(s, vaddr, paddr, remaining) {
        Ok(choose|s: PageSize| largest_fit::<Meta>(s, vaddr, paddr, remaining))
    } else {
        Err(PagingError::UnsupportedSize)
    }
}

/// The size of the next leaf of an extent.
pub open spec fn next_size<Meta: PagingMetaData>(
    vaddr: u64,
    paddr: u64,
    remaining: u64,
    fixed: Option<PageSize>,
) -> PagingResult<PageSize> {
    match fixed {
        Some(size) => if remaining < size.len() {
            Err(PagingError::InvalidMappingShape)
        } else {
            Ok(size)
        },
        None => best_size::<Meta>(vaddr, paddr, remaining),
    }
}

/// The next leaf of an extent of `total` bytes, `offset` bytes into it.
pub open spec fn next_leaf<Meta: PagingMetaData>(
    vbase: u64,
    pbase: u64,
    total: u64,
    offset: u64,
    fixed: Option<PageSize>,
) -> PagingResult<Placement> {
    if vbase + offset > u64::MAX || pbase + offset > u64::MAX {
        Err(PagingError::AddressOutOfRange)
    } else {
        let vaddr = (vbase + offset) as u64;
        let paddr = (pbase + offset) as u64;
        match next_size::<Meta>(vaddr, paddr, (total - offset) as u64, fixed) {
            Err(e) => Err(e),
            Ok(size) => if vaddr + size.len() > u64::MAX {
                Err(PagingError::AddressOutOfRange)
            } else {
                admitted::<Meta>(vaddr, (vaddr + size.len()) as u64, paddr, size)
            },
        }
    }
}

/// The leaves of an extent of `total` bytes from `offset` on.
pub open spec fn extent_plan<Meta: PagingMetaData>(
    vbase: u64,
    pbase: u64,
    total: u64,
    offset: u64,
    fixed: Option<PageSize>,
) -> Plan
    decreases total - offset,
    via extent_plan_shrinks::<Meta>
{
    if offset >= total {
        Plan { leaves: Seq::empty(), stop: None }
    } else {
        match next_leaf::<Meta>(vbase, pbase, total, offset, fixed) {
            Err(e) => rejected(e),
            Ok(leaf) => followed_by(
                single(leaf),
                extent_plan::<Meta>(
                    vbase,
                    pbase,
                    total,
                    (offset + leaf.size.len()) as u64,
                    fixed,
                ),
            ),
        }
    }
}

/// Every leaf of an extent leaves less of it to map.
#[via_fn]
proof fn extent_plan_shrinks<Meta: PagingMetaData>(
    vbase: u64,
    pbase: u64,
    total: u64,
    offset: u64,
    fixed: Option<PageSize>,
) {
    if offset < total {
        if let Ok(leaf) = next_leaf::<Meta>(vbase, pbase, total, offset, fixed) {
            lemma_next_leaf::<Meta>(vbase, pbase, total, offset, fixed);
        }
    }
}

/// The next leaf of an extent is one of its own, and well placed.
pub proof fn lemma_next_leaf<Meta: PagingMetaData>(
    vbase: u64,
    pbase: u64,
    total: u64,
    offset: u64,
    fixed: Option<PageSize>,
)
    requires
        offset < total,
        next_leaf::<Meta>(vbase, pbase, total, offset, fixed) is Ok,
    ensures
        ({
            let leaf = next_leaf::<Meta>(vbase, pbase, total, offset, fixed)->Ok_0;
            &&& 0 < leaf.size.len() <= total - offset
            &&& leaf.vaddr == vbase + offset
            &&& leaf.paddr == pbase + offset
            &&& well_placed::<Meta>(leaf)
        }),
{
    let leaf = next_leaf::<Meta>(vbase, pbase, total, offset, fixed)->Ok_0;
    let remaining = (total - offset) as u64;
    leaf.size.lemma_len();
    lemma_admitted::<Meta>(
        leaf.vaddr,
        (leaf.vaddr + leaf.size.len()) as u64,
        leaf.paddr,
        leaf.size,
    );
    if fixed is None {
        let best: PageSize = choose|s: PageSize|
            largest_fit::<Meta>(s, leaf.vaddr, leaf.paddr, remaining);
        assert(largest_fit::<Meta>(best, leaf.vaddr, leaf.paddr, remaining));
    }
}

/// An admitted leaf is well placed.
pub proof fn lemma_admitted<Meta: PagingMetaData>(lo: u64, hi: u64, paddr: u64, size: PageSize)
    ensures
        admitted::<Meta>(lo, hi, paddr, size) matches Ok(leaf) ==> well_placed::<Meta>(leaf)
            && leaf.size == size && leaf.vaddr == lo && leaf.paddr == paddr,
{
    if let Some(level) = level_for::<Meta>(size) {
        let l: u8 = choose|l: u8| lowest_level::<Meta>(l, size);
        assert(lowest_level::<Meta>(l, size));
    }
}

/// The leaves of one virtually and physically contiguous extent.
pub open spec fn contiguous_plan<Meta: PagingMetaData>(
    range: AddrRange<Meta::VirtAddr>,
    phys: PhysAddrRange,
    fixed: Option<PageSize>,
) -> Plan {
    if range.empty() || phys.empty() || range.len() != phys.len() {
        rejected(PagingError::InvalidMappingShape)
    } else {
        match exact_leaf::<Meta>(range, phys.lo(), fixed) {
            Err(e) => rejected(e),
            Ok(Some(leaf)) => single(leaf),
            Ok(None) => extent_plan::<Meta>(range.lo(), phys.lo(), range.len(), 0, fixed),
        }
    }
}

/// Whether a physical extent is a whole number of aligned granules.
pub open spec fn granular(phys: PhysAddrRange, granule: PageSize) -> bool {
    &&& !phys.empty()
    &&& phys.lo() % granule.len() == 0
    &&& phys.len() % granule.len() == 0
}

/// The total length of the first `n` extents.
pub open spec fn total_len(extents: Seq<PhysAddrRange>, n: nat) -> nat
    decreases n,
{
    if n == 0 {
        0
    } else {
        total_len(extents, (n - 1) as nat) + extents[n - 1].len() as nat
    }
}

/// The leaves of the extents from the `i`-th on, laid out from
/// `vbase + offset`.
pub open spec fn scatter_plan<Meta: PagingMetaData>(
    vbase: u64,
    offset: int,
    extents: Seq<PhysAddrRange>,
    i: nat,
    granule: PageSize,
) -> Plan
    decreases extents.len() - i,
{
    if i >= extents.len() {
        Plan { leaves: Seq::empty(), stop: None }
    } else if vbase + offset + extents[i as int].len() > u64::MAX {
        rejected(PagingError::AddressOutOfRange)
    } else {
        let lo = vbase + offset;
        let hi = lo + extents[i as int].len();
        followed_by(
            contiguous_plan::<Meta>(
                AddrRange::of(lo as u64, hi as u64),
                extents[i as int],
                Some(granule),
            ),
            scatter_plan::<Meta>(
                vbase,
                offset + extents[i as int].len(),
                extents,
                i + 1,
                granule,
            ),
        )
    }
}

/// The leaves of a request whose leaf size is fixed to `granule`.
pub open spec fn granule_plan<Meta: PagingMetaData>(
    range: AddrRange<Meta::VirtAddr>,
    backing: MapBacking<'_>,
    granule: PageSize,
) -> Plan {
    if range.empty() || range.len() % granule.len() != 0 {
        rejected(PagingError::InvalidMappingShape)
    } else if level_for::<Meta>(granule) is None {
        rejected(PagingError::UnsupportedSize)
    } else {
        match backing {
            MapBacking::Contiguous(phys) => if !granular(phys, granule) || phys.len()
                != range.len() {
                rejected(PagingError::InvalidMappingShape)
            } else {
                contiguous_plan::<Meta>(range, phys, Some(granule))
            },
            MapBacking::Scattered(extents) => if extents@.len() == 0 || (exists|i: int|
                0 <= i < extents@.len() && !granular(#[trigger] extents@[i], granule)) || total_len(
                extents@,
                extents@.len(),
            ) != range.len() {
                rejected(PagingError::InvalidMappingShape)
            } else {
                scatter_plan::<Meta>(range.lo(), 0, extents@, 0, granule)
            },
        }
    }
}

/// The leaves of a mapping request.
pub open spec fn request_plan<Meta: PagingMetaData>(
    range: AddrRange<Meta::VirtAddr>,
    backing: MapBacking<'_>,
    contiguity: MappingContiguity,
) -> Plan {
    match contiguity {
        MappingContiguity::Scattered(granule) => granule_plan::<Meta>(range, backing, granule),
        MappingContiguity::Contiguous => match backing {
            MapBacking::Contiguous(phys) => contiguous_plan::<Meta>(range, phys, None),
            MapBacking::Scattered(_) => rejected(PagingError::InvalidMappingShape),
        },
    }
}

/// The placement of the leaf that `range` names, backed from `paddr`.
pub open spec fn named_placement<Meta: PagingMetaData>(
    range: AddrRange<Meta::VirtAddr>,
    paddr: u64,
) -> PagingResult<Placement> {
    match named_leaf::<Meta>(range) {
        Err(e) => Err(e),
        Ok(size) => admitted::<Meta>(range.lo(), range.hi(), paddr, size),
    }
}

/// The plan of a request for at most one leaf.
pub open spec fn one_leaf(leaf: PagingResult<Placement>) -> Plan {
    match leaf {
        Err(e) => rejected(e),
        Ok(leaf) => single(leaf),
    }
}

/// A page-sized range that lies in the address space names a leaf exactly
/// where one is admitted.
pub proof fn lemma_named_placement<Meta: PagingMetaData>(
    range: AddrRange<Meta::VirtAddr>,
    paddr: u64,
    size: PageSize,
)
    requires
        range.lo() + size.len() == range.hi(),
    ensures
        named_placement::<Meta>(range, paddr) == admitted::<Meta>(
            range.lo(),
            range.hi(),
            paddr,
            size,
        ),
{
    size.lemma_len();
    size.lemma_unique();
}

/// Every leaf of a plan is placed at a level of the tree that supports it.
pub open spec fn well_placed<Meta: PagingMetaData>(leaf: Placement) -> bool {
    &&& lowest_level::<Meta>(leaf.level, leaf.size)
    &&& fits_bits(leaf.paddr, Meta::PA_MAX_BITS)
    &&& leaf.paddr % leaf.size.len() == 0
    &&& leaf.vaddr % leaf.size.len() == 0
    &&& Meta::in_range(leaf.vaddr)
}

/// Whether the measures of a geometry suit the walker. They are constants of the
/// program, so one test, before the first page table is made, is enough.
pub fn walker_layout_ok<Meta: PagingMetaData>() -> (r: bool)
    ensures
        r == measures_ok::<Meta>(),
{
    if Meta::LEVELS < 1 || Meta::LEVELS > MAX_LEVELS {
        return false;
    }
    if Meta::ENTRIES_PER_TABLE as u64 > Meta::TABLE_FRAME_SIZE.bytes() / 8 {
        return false;
    }
    let mut level: u8 = 1;
    while (level as usize) <= Meta::LEVELS
        invariant
            1 <= level,
            1 <= Meta::LEVELS <= MAX_LEVELS,
            Meta::ENTRIES_PER_TABLE * 8 <= Meta::TABLE_FRAME_SIZE.len(),
            forall|k: u8|
                1 <= k < level && k <= Meta::LEVELS ==> #[trigger] Meta::shift(k) < 64 && pow2(
                    Meta::index_bits(k) as nat,
                ) <= Meta::ENTRIES_PER_TABLE,
        decreases MAX_LEVELS + 1 - level,
    {
        let bits: u32 = Meta::level_index_bits(level);
        let shift: u32 = Meta::level_shift(level);
        proof {
            lemma2_to64_rest();
            if bits > 64 {
                lemma_pow2_strictly_increases(64, bits as nat);
            }
            if bits < 64 {
                lemma_u64_pow2_no_overflow(bits as nat);
                lemma_u64_shl_is_mul(1, bits as u64);
            }
        }
        if shift >= 64 || bits >= 64 || (1u64 << (bits as u64)) > Meta::ENTRIES_PER_TABLE as u64 {
            return false;
        }
        level = level + 1;
    }
    true
}

/// A mask for the index bits of a table at `level`.
pub fn index_mask<Meta: PagingMetaData>(level: u8) -> (r: u64)
    requires
        layout_ok::<Meta>(),
        1 <= level <= Meta::LEVELS,
    ensures
        Meta::index_bits(level) < 64,
        r == low_bits_mask(Meta::index_bits(level) as nat),
{
    let bits: u32 = Meta::level_index_bits(level);
    proof {
        lemma2_to64();
        lemma2_to64_rest();
        assert(Meta::shift(level) < 64);
        if bits >= 64 {
            if bits > 64 {
                lemma_pow2_strictly_increases(64, bits as nat);
            }
            assert(pow2(bits as nat) >= 0x1_0000_0000_0000_0000);
            assert(Meta::ENTRIES_PER_TABLE <= u64::MAX);
            assert(false);
        }
        lemma_u64_pow2_no_overflow(bits as nat);
        lemma_u64_shl_is_mul(1, bits as u64);
        lemma_pow2_pos(bits as nat);
    }
    (1u64 << (bits as u64)) - 1
}

/// The table index for `vaddr` at `level`.
pub fn index_at<Meta: PagingMetaData>(level: u8, vaddr: Meta::VirtAddr) -> (r: usize)
    requires
        layout_ok::<Meta>(),
        1 <= level <= Meta::LEVELS,
    ensures
        r == slot_of::<Meta>(level, vaddr.value()),
        r < Meta::ENTRIES_PER_TABLE,
{
    let v: u64 = vaddr.as_u64();
    let shift: u32 = Meta::level_shift(level);
    let mask: u64 = index_mask::<Meta>(level);
    proof {
        assert(Meta::shift(level) < 64);
        crate::tree::lemma_slot_bound::<Meta>(level, v);
        lemma_u64_shr_is_div(v, shift as u64);
        lemma_u64_low_bits_mask_is_mod(v >> (shift as u64), Meta::index_bits(level) as nat);
    }
    ((v >> (shift as u64)) & mask) as usize
}

/// Validate `vaddr` against the metadata's input-address range.
pub fn check_vaddr<Meta: PagingMetaData>(vaddr: Meta::VirtAddr) -> (r: PagingResult)
    ensures
        r == if Meta::in_range(vaddr.value()) {
            Ok::<(), PagingError>(())
        } else {
            Err(PagingError::AddressOutOfRange)
        },
{
    if Meta::vaddr_is_valid(vaddr) {
        Ok(())
    } else {
        Err(PagingError::AddressOutOfRange)
    }
}

/// Validate `paddr` against the metadata's physical-address range.
pub fn check_paddr<Meta: PagingMetaData>(paddr: PhysAddr) -> (r: PagingResult)
    ensures
        r == if fits_bits(paddr.0, Meta::PA_MAX_BITS) {
            Ok::<(), PagingError>(())
        } else {
            Err(PagingError::AddressOutOfRange)
        },
{
    if Meta::paddr_is_valid(paddr) {
        Ok(())
    } else {
        Err(PagingError::AddressOutOfRange)
    }
}

/// The size of the leaf that `range` names.
pub fn check_leaf_range<Meta: PagingMetaData>(range: AddrRange<Meta::VirtAddr>) -> (r: PagingResult<
    PageSize,
>)
    ensures
        r == named_leaf::<Meta>(range),
{
    if range.is_empty() {
        return Err(PagingError::UnsupportedSize);
    }
    let size: PageSize = match PageSize::from_bytes(range.size()) {
        Some(size) => size,
        None => return Err(PagingError::UnsupportedSize),
    };
    check_vaddr::<Meta>(range.start)?;
    let last: u64 = match range.end.as_u64().checked_sub(1) {
        Some(last) => last,
        None => return Err(PagingError::AddressOutOfRange),
    };
    check_vaddr::<Meta>(Meta::VirtAddr::from_u64(last))?;
    if !size.is_aligned(range.start.as_u64()) {
        return Err(PagingError::NotAligned);
    }
    Ok(size)
}

/// The range of the leaf of `size` around `vaddr`.
pub fn leaf_range<Meta: PagingMetaData>(vaddr: Meta::VirtAddr, size: PageSize) -> (r: PagingResult<
    AddrRange<Meta::VirtAddr>,
>)
    ensures
        r == covering::<Meta::VirtAddr>(vaddr.value(), size),
{
    let v: u64 = vaddr.as_u64();
    let bytes: u64 = size.bytes();
    proof {
        size.lemma_len();
        vstd::arithmetic::div_mod::lemma_mod_decreases(v as nat, bytes as nat);
    }
    let base: u64 = v - v % bytes;
    match AddrRange::try_from_start_size(Meta::VirtAddr::from_u64(base), bytes) {
        Some(range) => Ok(range),
        None => Err(PagingError::AddressOutOfRange),
    }
}

/// `base + offset`, unless that leaves the address space.
pub fn offset_vaddr<Meta: PagingMetaData>(base: Meta::VirtAddr, offset: u64) -> (r: PagingResult<
    Meta::VirtAddr,
>)
    ensures
        r == if base.value() + offset > u64::MAX {
            Err(PagingError::AddressOutOfRange)
        } else {
            Ok(Meta::VirtAddr::of((base.value() + offset) as u64))
        },
{
    match base.as_u64().checked_add(offset) {
        Some(v) => Ok(Meta::VirtAddr::from_u64(v)),
        None => Err(PagingError::AddressOutOfRange),
    }
}

/// `base + offset`, unless that leaves the address space.
pub fn offset_paddr(base: PhysAddr, offset: u64) -> (r: PagingResult<PhysAddr>)
    ensures
        r == if base.0 + offset > u64::MAX {
            Err(PagingError::AddressOutOfRange)
        } else {
            Ok(PhysAddr((base.0 + offset) as u64))
        },
{
    match base.as_u64().checked_add(offset) {
        Some(p) => Ok(PhysAddr(p)),
        None => Err(PagingError::AddressOutOfRange),
    }
}

/// The next smaller page size.
fn next_smaller(size: PageSize) -> (r: Option<PageSize>)
    ensures
        match r {
            Some(s) => s.len() < size.len() && forall|o: PageSize|
                o.len() < size.len() ==> o.len() <= s.len(),
            None => forall|o: PageSize| o.len() >= size.len(),
        },
{
    match size {
        PageSize::Size4T => Some(PageSize::Size512G),
        PageSize::Size512G => Some(PageSize::Size64G),
        PageSize::Size64G => Some(PageSize::Size1G),
        PageSize::Size1G => Some(PageSize::Size512M),
        PageSize::Size512M => Some(PageSize::Size32M),
        PageSize::Size32M => Some(PageSize::Size2M),
        PageSize::Size2M => Some(PageSize::Size64K),
        PageSize::Size64K => Some(PageSize::Size16K),
        PageSize::Size16K => Some(PageSize::Size4K),
        PageSize::Size4K => None,
    }
}

/// The largest leaf size that fits at `vaddr` and `paddr`.
pub fn best_leaf_size<Meta: PagingMetaData>(
    vaddr: Meta::VirtAddr,
    paddr: PhysAddr,
    remaining: u64,
) -> (r: PagingResult<PageSize>)
    requires
        layout_ok::<Meta>(),
    ensures
        r == best_size::<Meta>(vaddr.value(), paddr.0, remaining),
        r matches Ok(s) ==> largest_fit::<Meta>(s, vaddr.value(), paddr.0, remaining),
{
    let v: u64 = vaddr.as_u64();
    let p: u64 = paddr.as_u64();
    let mut candidate: PageSize = PageSize::Size4T;
    loop
        invariant
            layout_ok::<Meta>(),
            v == vaddr.value(),
            p == paddr.0,
            forall|o: PageSize|
                o.len() > candidate.len() ==> !(#[trigger] leaf_fits::<Meta>(o, v, p, remaining)),
        decreases candidate.len(),
    {
        let size: PageSize = candidate;
        let level: Option<u8> = level_of_size::<Meta>(size);
        if remaining >= size.bytes() && size.is_aligned(v) && size.is_aligned(p)
            && level.is_some() {
            proof {
                assert(largest_fit::<Meta>(size, v, p, remaining));
                let other: PageSize = choose|s: PageSize| largest_fit::<Meta>(s, v, p, remaining);
                assert(largest_fit::<Meta>(other, v, p, remaining));
                assert(other.len() == size.len());
                other.lemma_unique();
                size.lemma_unique();
            }
            return Ok(size);
        }
        match next_smaller(size) {
            Some(smaller) => {
                proof {
                    assert forall|o: PageSize| o.len() > smaller.len() implies !(
                    #[trigger] leaf_fits::<Meta>(o, v, p, remaining)) by {
                        if o.len() == size.len() {
                            o.lemma_unique();
                            size.lemma_unique();
                        }
                    }
                }
                candidate = smaller;
            },
            None => {
                proof {
                    assert forall|o: PageSize| !(#[trigger] leaf_fits::<Meta>(o, v, p, remaining)) by {
                        if o.len() == size.len() {
                            o.lemma_unique();
                            size.lemma_unique();
                        }
                    }
                }
                return Err(PagingError::UnsupportedSize);
            },
        }
    }
}

/// The size and level of the one leaf that a request is, if it is one.
pub fn exact_leaf_size<Meta: PagingMetaData>(
    range: AddrRange<Meta::VirtAddr>,
    paddr: PhysAddr,
    fixed: Option<PageSize>,
) -> (r: PagingResult<Option<(PageSize, u8)>>)
    requires
        layout_ok::<Meta>(),
    ensures
        match (r, exact_leaf::<Meta>(range, paddr.0, fixed)) {
            (Err(e), Err(f)) => e == f,
            (Ok(None), Ok(None)) => true,
            (Ok(Some(found)), Ok(Some(leaf))) => {
                &&& leaf == (Placement {
                    vaddr: range.lo(),
                    paddr: paddr.0,
                    size: found.0,
                    level: found.1,
                })
                &&& well_placed::<Meta>(leaf)
                &&& range.lo() + found.0.len() == range.hi()
            },
            _ => false,
        },
{
    let size: PageSize = match PageSize::from_bytes(range.size()) {
        Some(size) => size,
        None => return Ok(None),
    };
    match fixed {
        Some(fixed) => if fixed != size {
            return Ok(None);
        },
        None => {},
    }
    check_vaddr::<Meta>(range.start)?;
    let last: u64 = match range.end.as_u64().checked_sub(1) {
        Some(last) => last,
        None => return Err(PagingError::AddressOutOfRange),
    };
    check_vaddr::<Meta>(Meta::VirtAddr::from_u64(last))?;
    if !size.is_aligned(range.start.as_u64()) {
        return Err(PagingError::NotAligned);
    }
    check_paddr::<Meta>(paddr)?;
    if !size.is_aligned(paddr.as_u64()) {
        return Err(PagingError::NotAligned);
    }
    match level_of_size::<Meta>(size) {
        Some(level) => {
            proof {
                lemma_no_wrap(range.lo(), range.hi(), size);
            }
            Ok(Some((size, level)))
        },
        None => Err(PagingError::UnsupportedSize),
    }
}

/// An aligned page never wraps around the address space but at its very top.
pub proof fn lemma_no_wrap(lo: u64, hi: u64, size: PageSize)
    requires
        crate::addr::span(lo, hi) == size.len(),
        lo % size.len() == 0,
        hi != 0,
    ensures
        lo + size.len() == hi,
{
    if lo > hi {
        size.lemma_len();
        assert(lo + size.len() == hi + 0x1_0000_0000_0000_0000);
        assert(0x1_0000_0000_0000_0000int % (size.len() as int) == 0);
        let n: int = size.len() as int;
        let top: int = 0x1_0000_0000_0000_0000;
        assert(lo as int == n * (lo as int / n)) by {
            vstd::arithmetic::div_mod::lemma_fundamental_div_mod(lo as int, n);
        }
        assert(top == n * (top / n)) by {
            vstd::arithmetic::div_mod::lemma_fundamental_div_mod(top, n);
        }
        let a: int = lo as int / n;
        let b: int = top / n;
        assert(a < b) by (nonlinear_arith)
            requires
                n * a < n * b,
                n > 0,
        ;
        assert(n * (a + 1) <= n * b) by (nonlinear_arith)
            requires
                a + 1 <= b,
                n > 0,
        ;
        assert(n * (a + 1) == n * a + n) by (nonlinear_arith);
        assert(false);
    }
}

/// Whether a present entry terminates the walk at `level`.
pub fn entry_is_leaf<Entry: PageTableEntry>(pte: Entry, level: u8) -> (r: PagingResult<bool>)
    ensures
        r == match Entry::kind(pte.raw(), level) {
            PageTableEntryKind::Leaf => Ok::<bool, PagingError>(true),
            PageTableEntryKind::Table => Ok(false),
            PageTableEntryKind::Invalid => Err(PagingError::InvalidEntryKind),
        },
{
    match pte.entry_kind(level) {
        PageTableEntryKind::Leaf => Ok(true),
        PageTableEntryKind::Table => Ok(false),
        PageTableEntryKind::Invalid => Err(PagingError::InvalidEntryKind),
    }
}

/// Whether a physical extent is a whole number of aligned granules.
pub fn check_scatter_segment(phys: PhysAddrRange, granule: PageSize) -> (r: PagingResult)
    ensures
        r == if granular(phys, granule) {
            Ok::<(), PagingError>(())
        } else {
            Err(PagingError::InvalidMappingShape)
        },
{
    if phys.is_empty() || !granule.is_aligned(phys.start.as_u64()) || !granule.is_aligned(
        phys.size(),
    ) {
        Err(PagingError::InvalidMappingShape)
    } else {
        Ok(())
    }
}

} // verus!
