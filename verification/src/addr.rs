//! Typed physical and virtual addresses and half-open ranges of them.

use vstd::prelude::*;

verus! {

/// An address type: a typed wrapper around one 64-bit address.
pub trait MemoryAddr: Copy {
    /// The raw address.
    open spec fn value(self) -> u64 {
        arbitrary()
    }

    /// The address with the given raw value.
    open spec fn of(value: u64) -> Self {
        arbitrary()
    }

    /// The raw address.
    fn as_u64(self) -> (r: u64)
        ensures
            r == self.value(),
    ;

    /// The address with the given raw value.
    fn from_u64(addr: u64) -> (r: Self)
        ensures
            r == Self::of(addr),
            r.value() == addr,
    ;
}

/// Whether addresses of a type and their raw values correspond one to one.
pub open spec fn one_to_one<A: MemoryAddr>() -> bool {
    &&& forall|value: u64| (#[trigger] A::of(value)).value() == value
    &&& forall|a: A| A::of(#[trigger] a.value()) == a
}

/// A physical memory address.
#[derive(Clone, Copy, Debug, PartialEq, Eq, PartialOrd, Ord, Hash, Structural)]
pub struct PhysAddr(pub u64);

impl Default for PhysAddr {
    fn default() -> (r: Self)
        ensures
            r == PhysAddr(0),
    {
        PhysAddr(0)
    }
}

/// A virtual memory address.
#[derive(Clone, Copy, Debug, PartialEq, Eq, PartialOrd, Ord, Hash, Structural)]
pub struct VirtAddr(pub u64);

impl Default for VirtAddr {
    fn default() -> (r: Self)
        ensures
            r == VirtAddr(0),
    {
        VirtAddr(0)
    }
}

impl PhysAddr {
    /// The physical address with the given raw value.
    pub fn from_u64(addr: u64) -> (r: Self)
        ensures
            r == PhysAddr(addr),
    {
        PhysAddr(addr)
    }

    /// The raw address.
    pub fn as_u64(self) -> (r: u64)
        ensures
            r == self.0,
    {
        self.0
    }
}

impl VirtAddr {
    /// The virtual address with the given raw value.
    pub fn from_u64(addr: u64) -> (r: Self)
        ensures
            r == VirtAddr(addr),
    {
        VirtAddr(addr)
    }

    /// The raw address.
    pub fn as_u64(self) -> (r: u64)
        ensures
            r == self.0,
    {
        self.0
    }
}

impl MemoryAddr for PhysAddr {
    open spec fn value(self) -> u64 {
        self.0
    }

    open spec fn of(value: u64) -> Self {
        PhysAddr(value)
    }

    fn as_u64(self) -> (r: u64) {
        self.0
    }

    fn from_u64(addr: u64) -> (r: Self) {
        PhysAddr(addr)
    }
}

impl MemoryAddr for VirtAddr {
    open spec fn value(self) -> u64 {
        self.0
    }

    open spec fn of(value: u64) -> Self {
        VirtAddr(value)
    }

    fn as_u64(self) -> (r: u64) {
        self.0
    }

    fn from_u64(addr: u64) -> (r: Self) {
        VirtAddr(addr)
    }
}

impl From<u64> for PhysAddr {
    fn from(addr: u64) -> (r: Self) {
        PhysAddr(addr)
    }
}

impl vstd::std_specs::convert::FromSpecImpl<u64> for PhysAddr {
    open spec fn obeys_from_spec() -> bool {
        true
    }

    open spec fn from_spec(addr: u64) -> Self {
        PhysAddr(addr)
    }
}

impl From<u64> for VirtAddr {
    fn from(addr: u64) -> (r: Self) {
        VirtAddr(addr)
    }
}

impl vstd::std_specs::convert::FromSpecImpl<u64> for VirtAddr {
    open spec fn obeys_from_spec() -> bool {
        true
    }

    open spec fn from_spec(addr: u64) -> Self {
        VirtAddr(addr)
    }
}

/// The half-open address range `start..end`.
///
/// The fields are public, so a range may be inverted. Such a range is empty,
/// and its [`size`](Self::size) is the wrapped difference of its ends.
#[derive(Clone, Copy, Debug, PartialEq, Eq)]
pub struct AddrRange<A: MemoryAddr> {
    pub start: A,
    pub end: A,
}

/// A range of physical addresses.
pub type PhysAddrRange = AddrRange<PhysAddr>;

/// A range of virtual addresses.
pub type VirtAddrRange = AddrRange<VirtAddr>;

/// `end - start`, modulo the width of an address.
pub open spec fn span(start: u64, end: u64) -> u64 {
    if start <= end {
        (end - start) as u64
    } else {
        (end - start + 0x1_0000_0000_0000_0000) as u64
    }
}

/// The largest multiple of `align` that is not above `addr`.
pub open spec fn floor_to(addr: u64, align: u64) -> u64 {
    (addr - addr % align) as u64
}

impl<A: MemoryAddr> AddrRange<A> {
    /// The raw first address.
    pub open spec fn lo(self) -> u64 {
        self.start.value()
    }

    /// The raw address just past the last one.
    pub open spec fn hi(self) -> u64 {
        self.end.value()
    }

    /// The number of bytes from `start` to `end`, modulo the address width.
    pub open spec fn len(self) -> u64 {
        span(self.lo(), self.hi())
    }

    /// Whether the range holds no address.
    pub open spec fn empty(self) -> bool {
        self.lo() >= self.hi()
    }

    /// The range `lo..hi` of raw addresses.
    pub open spec fn of(lo: u64, hi: u64) -> Self {
        AddrRange { start: A::of(lo), end: A::of(hi) }
    }

    /// The range `start..end`.
    pub fn new(start: A, end: A) -> (r: Self)
        requires
            start.value() <= end.value(),
        ensures
            r == (AddrRange { start, end }),
    {
        AddrRange { start, end }
    }

    /// The range of `size` bytes from `start`.
    pub fn from_start_size(start: A, size: u64) -> (r: Self)
        requires
            start.value() + size <= u64::MAX,
        ensures
            r == (AddrRange { start, end: A::of((start.value() + size) as u64) }),
            r.hi() == start.value() + size,
    {
        AddrRange { start, end: A::from_u64(start.as_u64() + size) }
    }

    /// The range of `size` bytes from `start`, unless its end leaves the
    /// address space.
    pub fn try_from_start_size(start: A, size: u64) -> (r: Option<Self>)
        ensures
            match r {
                Some(range) => {
                    &&& start.value() + size <= u64::MAX
                    &&& range == (AddrRange { start, end: A::of((start.value() + size) as u64) })
                    &&& range.hi() == start.value() + size
                },
                None => start.value() + size > u64::MAX,
            },
    {
        match start.as_u64().checked_add(size) {
            Some(end) => Some(AddrRange { start, end: A::from_u64(end) }),
            None => None,
        }
    }

    /// Whether the range holds no address.
    pub fn is_empty(self) -> (r: bool)
        ensures
            r == self.empty(),
    {
        self.start.as_u64() >= self.end.as_u64()
    }

    /// The size of the range in bytes.
    pub fn size(self) -> (r: u64)
        ensures
            r == self.len(),
    {
        self.end.as_u64().wrapping_sub(self.start.as_u64())
    }

    /// Whether `addr` lies in the range.
    pub fn contains(self, addr: A) -> (r: bool)
        ensures
            r == (self.lo() <= addr.value() < self.hi()),
    {
        let a: u64 = addr.as_u64();
        self.start.as_u64() <= a && a < self.end.as_u64()
    }

    /// Whether two ranges are equal.
    pub fn same(self, other: Self) -> (r: bool)
        requires
            one_to_one::<A>(),
        ensures
            r == (self == other),
    {
        self.start.as_u64() == other.start.as_u64() && self.end.as_u64() == other.end.as_u64()
    }
}

/// A range of so many bytes from a start holds as many addresses, from the start
/// on; it is there unless it reaches past the address space.
pub proof fn law_range_holds_its_bytes<A: MemoryAddr>(
    start: A,
    size: u64,
    r: Option<AddrRange<A>>,
    addr: A,
    inside: bool,
    len: u64,
    empty: bool,
)
    requires
        one_to_one::<A>(),
        call_ensures(AddrRange::<A>::try_from_start_size, (start, size), r),
        r matches Some(range) ==> call_ensures(AddrRange::<A>::contains, (range, addr), inside)
            && call_ensures(AddrRange::<A>::size, (range,), len) && call_ensures(
            AddrRange::<A>::is_empty,
            (range,),
            empty,
        ),
    ensures
        r is Some <==> start.value() + size <= u64::MAX,
        r is Some ==> {
            &&& inside <==> start.value() <= addr.value() < start.value() + size
            &&& len == size
            &&& empty <==> size == 0
        },
{
}

/// An address is its raw value.
pub proof fn law_addresses_are_values(
    value: u64,
    paddr: PhysAddr,
    vaddr: VirtAddr,
    read: (u64, u64),
)
    requires
        call_ensures(PhysAddr::from_u64, (value,), paddr),
        call_ensures(VirtAddr::from_u64, (value,), vaddr),
        call_ensures(PhysAddr::as_u64, (paddr,), read.0),
        call_ensures(VirtAddr::as_u64, (vaddr,), read.1),
    ensures
        paddr.0 == value && vaddr.0 == value,
        read.0 == value && read.1 == value,
        paddr.value() == value && vaddr.value() == value,
        one_to_one::<PhysAddr>(),
        one_to_one::<VirtAddr>(),
{
}

} // verus!
