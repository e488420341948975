//! What a caller asks a page table for, and what it gets.

use crate::addr::{AddrRange, MemoryAddr, PhysAddr, PhysAddrRange, VirtAddr};
use crate::error::{PagingError, PagingResult};
use crate::meta::PageSize;
use crate::paging::PageTableEntry;
use vstd::prelude::*;

verus! {

/// A resolved leaf mapping.
///
/// `range` is the exact virtual or IO-virtual range covered by the leaf; its
/// length determines the leaf size. `paddr` is the aligned physical base the
/// leaf points at.
#[derive(Clone, Copy, Debug, PartialEq, Eq)]
pub struct Mapping<Entry: PageTableEntry, V: MemoryAddr, P: MemoryAddr = PhysAddr> {
    pub range: AddrRange<V>,
    pub paddr: P,
    pub flags: Entry::Flags,
}

impl<Entry: PageTableEntry, V: MemoryAddr, P: MemoryAddr> Mapping<Entry, V, P> {
    pub fn new(range: AddrRange<V>, paddr: P, flags: Entry::Flags) -> (r: Self)
        ensures
            r == (Mapping::<Entry, V, P> { range, paddr, flags }),
    {
        Mapping { range, paddr, flags }
    }

    /// The leaf size.
    pub fn size(&self) -> (r: Option<PageSize>)
        ensures
            r == PageSize::of_len(self.range.len()),
    {
        PageSize::from_bytes(self.range.size())
    }
}

/// Where an access of `width` bytes at `offset` into `range` starts.
///
/// The access has to end within the range. An end beyond the address space
/// counts as the last address.
pub open spec fn access_at(
    range: AddrRange<VirtAddr>,
    offset: u64,
    width: nat,
) -> PagingResult<VirtAddr> {
    let end = if offset + width > u64::MAX {
        u64::MAX as int
    } else {
        offset + width
    };
    if end > range.len() {
        Err(PagingError::UnsupportedSize)
    } else if range.lo() + offset > u64::MAX {
        Err(PagingError::AddressOutOfRange)
    } else {
        Ok(VirtAddr((range.lo() + offset) as u64))
    }
}

/// An access is granted exactly where all of it lies in the mapping, and then at
/// `offset` bytes from the start; so its last byte is in the mapping too. Any
/// other does not fit the mapping's size.
pub proof fn law_access_lies_in_mapping(range: AddrRange<VirtAddr>, offset: u64, width: nat)
    requires
        range.lo() <= range.hi(),
        range.hi() - range.lo() < u64::MAX,
    ensures
        match access_at(range, offset, width) {
            Ok(addr) => offset + width <= range.hi() - range.lo() && addr.0 == range.lo() + offset
                && addr.0 + width <= range.hi(),
            Err(e) => e == PagingError::UnsupportedSize && offset + width > range.hi()
                - range.lo(),
        },
{
}

impl<Entry: PageTableEntry, P: MemoryAddr> Mapping<Entry, VirtAddr, P> {
    pub fn start(&self) -> (r: VirtAddr)
        ensures
            r == self.range.start,
    {
        self.range.start
    }

    pub fn end(&self) -> (r: VirtAddr)
        ensures
            r == self.range.end,
    {
        self.range.end
    }

    /// Whether the mapping covers `vaddr`.
    pub fn contains(&self, vaddr: VirtAddr) -> (r: bool)
        ensures
            r == (self.range.lo() <= vaddr.0 < self.range.hi()),
    {
        self.range.contains(vaddr)
    }

    /// The address of a `T` at byte `offset`, if the whole value lies in the
    /// mapping.
    pub fn offset_with<T: Copy>(&self, offset: u64) -> (r: Result<VirtAddr, PagingError>)
        ensures
            r == access_at(self.range, offset, vstd::layout::size_of::<T>()),
    {
        let width: u64 = core::mem::size_of::<T>() as u64;
        let end: u64 = match offset.checked_add(width) {
            Some(end) => end,
            None => u64::MAX,
        };
        if end <= self.range.size() {
            match self.start().as_u64().checked_add(offset) {
                Some(addr) => Ok(VirtAddr(addr)),
                None => Err(PagingError::AddressOutOfRange),
            }
        } else {
            Err(PagingError::UnsupportedSize)
        }
    }
}

/// Physical backing shape supplied to [`PageTable::map`](crate::PageTable::map).
///
/// `Contiguous` carries one physical extent. `Scattered` carries ordered
/// physical extents that back one virtually-contiguous range.
#[derive(Clone, Copy, Debug, PartialEq, Eq)]
pub enum MapBacking<'a> {
    Contiguous(PhysAddrRange),
    Scattered(&'a [PhysAddrRange]),
}

impl<'a> MapBacking<'a> {
    pub fn contiguous(range: PhysAddrRange) -> (r: Self)
        ensures
            r == MapBacking::<'a>::Contiguous(range),
    {
        MapBacking::Contiguous(range)
    }

    /// One extent of `size` bytes from `start`.
    pub fn contiguous_from_start_size(start: PhysAddr, size: u64) -> (r: Self)
        requires
            start.0 + size <= u64::MAX,
        ensures
            r == MapBacking::<'a>::Contiguous(
                AddrRange { start, end: PhysAddr((start.0 + size) as u64) },
            ),
    {
        MapBacking::Contiguous(PhysAddrRange::from_start_size(start, size))
    }

    pub fn scattered(ranges: &'a [PhysAddrRange]) -> (r: Self)
        ensures
            r == MapBacking::Scattered(ranges),
    {
        MapBacking::Scattered(ranges)
    }
}

impl<'a> From<PhysAddrRange> for MapBacking<'a> {
    fn from(range: PhysAddrRange) -> (r: Self) {
        MapBacking::Contiguous(range)
    }
}

impl<'a> vstd::std_specs::convert::FromSpecImpl<PhysAddrRange> for MapBacking<'a> {
    open spec fn obeys_from_spec() -> bool {
        true
    }

    open spec fn from_spec(range: PhysAddrRange) -> Self {
        MapBacking::Contiguous(range)
    }
}

/// Converts ergonomic backing expressions into a [`MapBacking`].
///
/// A bare [`PhysAddr`] is interpreted as one contiguous range with the
/// same byte length as the virtual range being mapped.
pub trait IntoMapBacking<'a>: Sized {
    /// Whether the backing is within the address space.
    open spec fn fits(self, virtual_size: u64) -> bool {
        arbitrary()
    }

    /// The backing this expression stands for.
    open spec fn backing(self, virtual_size: u64) -> PagingResult<MapBacking<'a>> {
        arbitrary()
    }

    fn into_map_backing(self, virtual_size: u64) -> (r: PagingResult<MapBacking<'a>>)
        requires
            self.fits(virtual_size),
        ensures
            r == self.backing(virtual_size),
    ;
}

impl<'a> IntoMapBacking<'a> for MapBacking<'a> {
    open spec fn fits(self, virtual_size: u64) -> bool {
        true
    }

    open spec fn backing(self, virtual_size: u64) -> PagingResult<MapBacking<'a>> {
        Ok(self)
    }

    fn into_map_backing(self, virtual_size: u64) -> (r: PagingResult<MapBacking<'a>>) {
        Ok(self)
    }
}

impl<'a> IntoMapBacking<'a> for PhysAddr {
    open spec fn fits(self, virtual_size: u64) -> bool {
        self.0 + virtual_size <= u64::MAX
    }

    open spec fn backing(self, virtual_size: u64) -> PagingResult<MapBacking<'a>> {
        Ok(
            MapBacking::Contiguous(
                AddrRange { start: self, end: PhysAddr((self.0 + virtual_size) as u64) },
            ),
        )
    }

    fn into_map_backing(self, virtual_size: u64) -> (r: PagingResult<MapBacking<'a>>) {
        Ok(MapBacking::contiguous_from_start_size(self, virtual_size))
    }
}

impl<'a> IntoMapBacking<'a> for PhysAddrRange {
    open spec fn fits(self, virtual_size: u64) -> bool {
        true
    }

    open spec fn backing(self, virtual_size: u64) -> PagingResult<MapBacking<'a>> {
        Ok(MapBacking::Contiguous(self))
    }

    fn into_map_backing(self, virtual_size: u64) -> (r: PagingResult<MapBacking<'a>>) {
        Ok(MapBacking::Contiguous(self))
    }
}

impl<'a> IntoMapBacking<'a> for &'a [PhysAddrRange] {
    open spec fn fits(self, virtual_size: u64) -> bool {
        true
    }

    open spec fn backing(self, virtual_size: u64) -> PagingResult<MapBacking<'a>> {
        Ok(MapBacking::Scattered(self))
    }

    fn into_map_backing(self, virtual_size: u64) -> (r: PagingResult<MapBacking<'a>>) {
        Ok(MapBacking::Scattered(self))
    }
}

/// Physical contiguity contract for a mapping request.
#[derive(Clone, Copy, Debug, PartialEq, Eq, Hash, Structural)]
pub enum MappingContiguity {
    /// Backing must be one contiguous physical range. The walker may use
    /// the largest legal leaf size at each aligned span.
    Contiguous,
    /// Backing may be multiple physical ranges. Every mapped leaf uses
    /// this granule exactly.
    Scattered(PageSize),
}

impl Default for MappingContiguity {
    fn default() -> (r: Self)
        ensures
            r == MappingContiguity::Contiguous,
    {
        MappingContiguity::Contiguous
    }
}

/// Mapping-level flags: hardware leaf flags plus backing-shape policy.
#[derive(Clone, Copy, Debug, PartialEq, Eq, Hash)]
pub struct MappingFlags<F> {
    pub leaf: F,
    pub contiguity: MappingContiguity,
}

impl<F> MappingFlags<F> {
    pub fn new(leaf: F) -> (r: Self)
        ensures
            r == (MappingFlags { leaf, contiguity: MappingContiguity::Contiguous }),
    {
        MappingFlags { leaf, contiguity: MappingContiguity::Contiguous }
    }

    pub fn contiguous(leaf: F) -> (r: Self)
        ensures
            r == (MappingFlags { leaf, contiguity: MappingContiguity::Contiguous }),
    {
        Self::new(leaf)
    }

    pub fn scattered(leaf: F, granule: PageSize) -> (r: Self)
        ensures
            r == (MappingFlags { leaf, contiguity: MappingContiguity::Scattered(granule) }),
    {
        MappingFlags { leaf, contiguity: MappingContiguity::Scattered(granule) }
    }

    pub fn with_contiguity(self, contiguity: MappingContiguity) -> (r: Self)
        ensures
            r == (MappingFlags { leaf: self.leaf, contiguity }),
    {
        MappingFlags { leaf: self.leaf, contiguity }
    }

    pub fn leaf(&self) -> (r: F) where F: Copy
        ensures
            r == self.leaf,
    {
        self.leaf
    }

    pub fn contiguity(&self) -> (r: MappingContiguity)
        ensures
            r == self.contiguity,
    {
        self.contiguity
    }
}

impl<F> From<F> for MappingFlags<F> {
    fn from(leaf: F) -> (r: Self) {
        Self::new(leaf)
    }
}

impl<F> vstd::std_specs::convert::FromSpecImpl<F> for MappingFlags<F> {
    open spec fn obeys_from_spec() -> bool {
        true
    }

    open spec fn from_spec(leaf: F) -> Self {
        MappingFlags { leaf, contiguity: MappingContiguity::Contiguous }
    }
}

/// Converts bare leaf flags, or flags with a contiguity policy, into
/// [`MappingFlags`].
pub trait IntoMappingFlags<F>: Sized {
    /// The mapping flags this value stands for.
    spec fn mapping_flags(self) -> MappingFlags<F>;

    fn into_mapping_flags(self) -> (r: MappingFlags<F>)
        ensures
            r == self.mapping_flags(),
    ;
}

impl<F> IntoMappingFlags<F> for F {
    open spec fn mapping_flags(self) -> MappingFlags<F> {
        MappingFlags { leaf: self, contiguity: MappingContiguity::Contiguous }
    }

    fn into_mapping_flags(self) -> (r: MappingFlags<F>) {
        MappingFlags::from(self)
    }
}

impl<F> IntoMappingFlags<F> for MappingFlags<F> {
    open spec fn mapping_flags(self) -> MappingFlags<F> {
        self
    }

    fn into_mapping_flags(self) -> (r: MappingFlags<F>) {
        self
    }
}

impl<'a, const N: usize> IntoMapBacking<'a> for &'a [PhysAddrRange; N] {
    open spec fn fits(self, virtual_size: u64) -> bool {
        true
    }

    open spec fn backing(self, virtual_size: u64) -> PagingResult<MapBacking<'a>> {
        Ok(MapBacking::Scattered(vstd::array::spec_array_as_slice(self)))
    }

    fn into_map_backing(self, virtual_size: u64) -> (r: PagingResult<MapBacking<'a>>) {
        Ok(MapBacking::Scattered(vstd::array::array_as_slice(self)))
    }
}

/// A bare address is backed by as many bytes from it on as are to be mapped; any
/// other expression stands for what it says, whatever its length.
pub proof fn law_backing_expressions<'a>(
    paddr: PhysAddr,
    phys: PhysAddrRange,
    extents: &'a [PhysAddrRange],
    virtual_size: u64,
)
    requires
        paddr.0 + virtual_size <= u64::MAX,
    ensures
        <PhysAddr as IntoMapBacking<'a>>::backing(paddr, virtual_size) matches Ok(
            MapBacking::Contiguous(r),
        ) && r.lo() == paddr.0 && r.hi() == paddr.0 + virtual_size,
        <PhysAddrRange as IntoMapBacking<'a>>::backing(phys, virtual_size) == Ok::<
            MapBacking<'a>,
            PagingError,
        >(MapBacking::Contiguous(phys)),
        <&'a [PhysAddrRange] as IntoMapBacking<'a>>::backing(extents, virtual_size) == Ok::<
            MapBacking<'a>,
            PagingError,
        >(MapBacking::Scattered(extents)),
{
}

/// Bare leaf flags ask for contiguous backing; mapping flags for what they say.
pub proof fn law_flag_expressions<F>(leaf: F, flags: MappingFlags<F>)
    ensures
        <F as IntoMappingFlags<F>>::mapping_flags(leaf).leaf == leaf,
        <F as IntoMappingFlags<F>>::mapping_flags(leaf).contiguity is Contiguous,
        <MappingFlags<F> as IntoMappingFlags<F>>::mapping_flags(flags) == flags,
{
}

/// A typed access by offset is granted exactly where all of the value lies in the
/// mapping, and then at that offset from its start.
pub proof fn law_offset_lies_in_mapping<Entry: PageTableEntry, P: MemoryAddr, T: Copy>(
    mapping: Mapping<Entry, VirtAddr, P>,
    offset: u64,
    r: Result<VirtAddr, PagingError>,
)
    requires
        call_ensures(Mapping::<Entry, VirtAddr, P>::offset_with::<T>, (&mapping, offset), r),
        mapping.range.lo() <= mapping.range.hi(),
        mapping.range.hi() - mapping.range.lo() < u64::MAX,
    ensures
        match r {
            Ok(addr) => addr.0 == mapping.range.lo() + offset && addr.0 + vstd::layout::size_of::<
                T,
            >() <= mapping.range.hi(),
            Err(e) => e == PagingError::UnsupportedSize && offset + vstd::layout::size_of::<T>()
                > mapping.range.hi() - mapping.range.lo(),
        },
{
    law_access_lies_in_mapping(mapping.range, offset, vstd::layout::size_of::<T>());
}

/// Mapping flags keep what they are given, and ask for contiguous backing unless
/// told otherwise.
pub proof fn law_mapping_flags_keep_values<F: Copy>(
    leaf: F,
    granule: PageSize,
    flags: MappingFlags<F>,
    contiguity: MappingContiguity,
    new: MappingFlags<F>,
    contiguous: MappingFlags<F>,
    scattered: MappingFlags<F>,
    changed: MappingFlags<F>,
    read: (F, MappingContiguity),
)
    requires
        call_ensures(MappingFlags::<F>::new, (leaf,), new),
        call_ensures(MappingFlags::<F>::contiguous, (leaf,), contiguous),
        call_ensures(MappingFlags::<F>::scattered, (leaf, granule), scattered),
        call_ensures(MappingFlags::<F>::with_contiguity, (flags, contiguity), changed),
        call_ensures(MappingFlags::<F>::leaf, (&flags,), read.0),
        call_ensures(MappingFlags::<F>::contiguity, (&flags,), read.1),
    ensures
        new.leaf == leaf && new.contiguity is Contiguous,
        contiguous == new,
        scattered.leaf == leaf && scattered.contiguity == MappingContiguity::Scattered(granule),
        changed.leaf == flags.leaf && changed.contiguity == contiguity,
        read.0 == flags.leaf && read.1 == flags.contiguity,
{
}

/// A mapping says what it was made of, and covers the addresses from its start up to
/// its end; its size is the page size of so many bytes, if there is one.
pub proof fn law_mapping_calls<Entry: PageTableEntry>(
    range: AddrRange<VirtAddr>,
    paddr: PhysAddr,
    flags: Entry::Flags,
    vaddr: VirtAddr,
    mapping: Mapping<Entry, VirtAddr, PhysAddr>,
    ends: (VirtAddr, VirtAddr),
    inside: bool,
    size: Option<PageSize>,
    other: PageSize,
)
    requires
        range.lo() <= range.hi(),
        call_ensures(Mapping::<Entry, VirtAddr, PhysAddr>::new, (range, paddr, flags), mapping),
        call_ensures(Mapping::<Entry, VirtAddr, PhysAddr>::start, (&mapping,), ends.0),
        call_ensures(Mapping::<Entry, VirtAddr, PhysAddr>::end, (&mapping,), ends.1),
        call_ensures(Mapping::<Entry, VirtAddr, PhysAddr>::contains, (&mapping, vaddr), inside),
        call_ensures(Mapping::<Entry, VirtAddr, PhysAddr>::size, (&mapping,), size),
    ensures
        mapping.range == range && mapping.paddr == paddr && mapping.flags == flags,
        ends.0 == range.start && ends.1 == range.end,
        inside <==> range.lo() <= vaddr.0 < range.hi(),
        size == Some(other) <==> range.lo() + other.len() == range.hi(),
{
    other.lemma_unique();
    if let Some(found) = size {
        assert(exists|s: PageSize| s.len() == range.len());
    }
}

/// Backings are what they are made of.
pub proof fn law_backing_calls<'a>(
    range: PhysAddrRange,
    start: PhysAddr,
    size: u64,
    extents: &'a [PhysAddrRange],
    whole: MapBacking<'a>,
    sized: MapBacking<'a>,
    pieces: MapBacking<'a>,
)
    requires
        start.0 + size <= u64::MAX,
        call_ensures(MapBacking::<'a>::contiguous, (range,), whole),
        call_ensures(MapBacking::<'a>::contiguous_from_start_size, (start, size), sized),
        call_ensures(MapBacking::<'a>::scattered, (extents,), pieces),
    ensures
        whole == MapBacking::<'a>::Contiguous(range),
        sized matches MapBacking::Contiguous(r) && r.lo() == start.0 && r.hi() == start.0 + size,
        pieces == MapBacking::Scattered(extents),
{
}

} // verus!
