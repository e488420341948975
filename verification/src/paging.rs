//! The traits that formats, geometries and environments implement.

use crate::addr::{MemoryAddr, PhysAddr, PhysAddrRange};
use crate::error::{PagingError, PagingResult};
use crate::invalidation::{law_sweep_invalidates_each_page, lemma_sweep_stays_inside};
use crate::meta::PageSize;
use vstd::arithmetic::power2::pow2;
use vstd::bits::{lemma_u64_pow2_no_overflow, lemma_u64_shl_is_mul};
use vstd::prelude::*;
use vstd::std_specs::cmp::PartialEqSpec;

verus! {

/// A present page-table entry's decoded role at a particular level.
#[derive(Clone, Copy, Debug, PartialEq, Eq, Hash, Structural)]
pub enum PageTableEntryKind {
    /// Entry points at the next lower-level table.
    Table,
    /// Entry terminates the walk and maps a physical leaf or block.
    Leaf,
    /// Entry encoding is not valid at this level.
    Invalid,
}

impl PageTableEntryKind {
    pub fn is_leaf(self) -> (r: bool)
        ensures
            r == (self == PageTableEntryKind::Leaf),
    {
        matches!(self, PageTableEntryKind::Leaf)
    }

    pub fn is_table(self) -> (r: bool)
        ensures
            r == (self == PageTableEntryKind::Table),
    {
        matches!(self, PageTableEntryKind::Table)
    }
}

/// A page-table entry: one 64-bit word of a table, as a format reads it.
///
/// The format is given by specification functions on raw words, which every
/// implementation replaces by its own. The methods are held to them, and the
/// walker reasons about tables through them alone.
///
/// # Level parameter on `new_table`
///
/// Intermediate entries at level `L` point at child tables at level `L - 1`.
/// Most CPU formats ignore `level`; others encode the child's level in each
/// intermediate entry.
pub trait PageTableEntry: Copy {
    /// Permission and memory-type bundle. Opaque to the walker, which only
    /// compares bundles for equality when it coalesces leaves.
    type Flags: Copy + PartialEq;

    /// The raw word of this entry.
    open spec fn raw(self) -> u64 {
        arbitrary()
    }

    /// Whether a raw word is a valid mapping or a valid table pointer.
    open spec fn present(raw: u64) -> bool {
        arbitrary()
    }

    /// The role of a present raw word at `level`.
    open spec fn kind(raw: u64, level: u8) -> PageTableEntryKind {
        arbitrary()
    }

    /// The physical address that a raw word points at.
    open spec fn target(raw: u64) -> u64 {
        arbitrary()
    }

    /// The flags that a raw word carries.
    open spec fn flags_of(raw: u64) -> Self::Flags {
        arbitrary()
    }

    /// Whether the flag fields of a raw word hold no reserved encoding.
    open spec fn decodable(raw: u64) -> bool {
        arbitrary()
    }

    /// Whether an entry can be made to point at this address.
    open spec fn encodable(paddr: u64) -> bool {
        arbitrary()
    }

    /// The raw word of a leaf.
    open spec fn leaf_raw(paddr: u64, flags: Self::Flags, size: PageSize) -> u64 {
        arbitrary()
    }

    /// The raw word of a table pointer at `level`.
    open spec fn table_raw(paddr: u64, level: u8) -> u64 {
        arbitrary()
    }

    /// Construct a leaf entry at the target page size.
    fn new_leaf(paddr: PhysAddr, flags: Self::Flags, size: PageSize) -> (r: Self)
        requires
            Self::encodable(paddr.0),
        ensures
            r.raw() == Self::leaf_raw(paddr.0, flags, size),
    ;

    /// Construct an intermediate entry pointing at a child table.
    ///
    /// `level` is the level of the containing table, not the child's.
    fn new_table(paddr: PhysAddr, level: u8) -> (r: Self)
        requires
            Self::encodable(paddr.0),
        ensures
            r.raw() == Self::table_raw(paddr.0, level),
    ;

    /// Physical address the entry points at.
    fn paddr(&self) -> (r: PhysAddr)
        ensures
            r.0 == Self::target(self.raw()),
    ;

    /// Current flags on this entry.
    fn flags(&self) -> (r: Self::Flags)
        requires
            Self::decodable(self.raw()),
        ensures
            r == Self::flags_of(self.raw()),
    ;

    /// Whether the entry is present.
    fn is_present(&self) -> (r: bool)
        ensures
            r == Self::present(self.raw()),
    ;

    /// Decode the entry's role at `level`.
    fn entry_kind(&self, level: u8) -> (r: PageTableEntryKind)
        ensures
            r == Self::kind(self.raw(), level),
    ;

    /// Convenience for callers that only need terminality.
    fn is_leaf_at(&self, level: u8) -> (r: bool)
        ensures
            r == (Self::kind(self.raw(), level) == PageTableEntryKind::Leaf),
    {
        self.entry_kind(level).is_leaf()
    }

    /// Zero out the entry.
    fn clear(&mut self)
        ensures
            final(self).raw() == 0,
    ;

    /// Raw 64-bit backing.
    fn bits(&self) -> (r: u64)
        ensures
            r == self.raw(),
    ;

    /// Reconstruct from raw 64-bit backing.
    fn from_bits(bits: u64) -> (r: Self)
        ensures
            r.raw() == bits,
    ;
}

/// Whether `==` on the flags of an entry format is equality.
pub open spec fn flags_comparable<Entry: PageTableEntry>() -> bool {
    &&& <Entry::Flags>::obeys_eq_spec()
    &&& forall|a: Entry::Flags, b: Entry::Flags| #[trigger] a.eq_spec(&b) == (a == b)
}

/// Paging metadata: the geometry of a translation tree.
///
/// The default constants match a 4 KiB page-table frame with 9-bit table
/// indices (512 entries per frame), the layout used by x86_64, the aarch64 4K
/// granule, and riscv Sv39/Sv48/Sv57.
pub trait PagingMetaData: Sized {
    /// Number of translation levels.
    const LEVELS: usize;

    /// Maximum physical address bits an entry can encode.
    const PA_MAX_BITS: usize;

    /// Maximum virtual (or IO-virtual) address bits the walker handles.
    const VA_MAX_BITS: usize;

    /// Bits per table index.
    const INDEX_BITS: u32 = 9;

    /// Finest translation granule for this paging format.
    const BASE_PAGE_SIZE: PageSize = PageSize::Size4K;

    /// Physical size and alignment of a page-table frame.
    const TABLE_FRAME_SIZE: PageSize = Self::BASE_PAGE_SIZE;

    /// Entries per page-table frame.
    const ENTRIES_PER_TABLE: usize = 1usize << Self::INDEX_BITS;

    /// The input address type the walker accepts.
    type VirtAddr: MemoryAddr;

    /// Position of the lowest index bit of the table at `level`.
    open spec fn shift(level: u8) -> u32 {
        arbitrary()
    }

    /// Number of index bits of the table at `level`.
    open spec fn index_bits(level: u8) -> u32 {
        arbitrary()
    }

    /// Whether a leaf of `size` may terminate at `level`.
    open spec fn supports(level: u8, size: PageSize) -> bool {
        arbitrary()
    }

    /// Whether a raw address lies in the legal input-address range.
    open spec fn in_range(vaddr: u64) -> bool {
        arbitrary()
    }

    /// Bit-shift for indexing into the table at `level`.
    fn level_shift(level: u8) -> (r: u32)
        requires
            level >= 1,
        ensures
            r == Self::shift(level),
    ;

    /// Number of table-index bits consumed at `level`.
    ///
    /// Most formats use [`INDEX_BITS`](Self::INDEX_BITS) at every level. The
    /// AArch64 16 KiB and 64 KiB granules have narrower root tables for some
    /// address widths.
    fn level_index_bits(level: u8) -> (r: u32)
        ensures
            r == Self::index_bits(level),
    ;

    /// Whether a leaf of `size` may terminate at `level`.
    fn level_supports_leaf(level: u8, size: PageSize) -> (r: bool)
        ensures
            r == Self::supports(level, size),
    ;

    /// The leaf size of `level`, derived from its shift.
    fn leaf_size_at_level(level: u8) -> (r: Option<PageSize>)
        requires
            level >= 1,
        ensures
            r == PageSize::of_shift(Self::shift(level)),
    {
        PageSize::from_shift(Self::level_shift(level))
    }

    /// The lowest level that natively supports `size`.
    fn size_to_level(size: PageSize) -> (r: Option<u8>)
        requires
            Self::LEVELS < 255,
        ensures
            match r {
                Some(level) => {
                    &&& 1 <= level <= Self::LEVELS
                    &&& Self::supports(level, size)
                    &&& forall|k: u8| 1 <= k < level ==> !Self::supports(k, size)
                },
                None => forall|level: u8|
                    1 <= level <= Self::LEVELS ==> !Self::supports(level, size),
            },
    {
        let mut lvl: u8 = 1;
        while (lvl as usize) <= Self::LEVELS
            invariant
                1 <= lvl <= 255,
                Self::LEVELS < 255,
                forall|k: u8| 1 <= k < lvl ==> !Self::supports(k, size),
            decreases 255 - lvl,
        {
            if Self::level_supports_leaf(lvl, size) {
                return Some(lvl);
            }
            lvl = lvl + 1;
        }
        None
    }

    /// Whether `vaddr` falls inside the legal input-address range.
    ///
    /// Formats whose range is `0..1 << VA_MAX_BITS` use [`linear_in_range`].
    fn vaddr_is_valid(vaddr: Self::VirtAddr) -> (r: bool)
        ensures
            r == Self::in_range(vaddr.value()),
    ;

    /// Whether `paddr` is representable in an entry's physical-address field.
    fn paddr_is_valid(paddr: PhysAddr) -> (r: bool)
        ensures
            r == fits_bits(paddr.0, Self::PA_MAX_BITS),
    {
        linear_in_range(paddr.0, Self::PA_MAX_BITS)
    }
}

/// The constants of a geometry.
pub open spec fn geometry<Meta: PagingMetaData>(
    levels: usize,
    pa_bits: usize,
    va_bits: usize,
    index_bits: u32,
    granule: PageSize,
    entries: usize,
) -> bool {
    &&& Meta::LEVELS == levels
    &&& Meta::PA_MAX_BITS == pa_bits
    &&& Meta::VA_MAX_BITS == va_bits
    &&& Meta::INDEX_BITS == index_bits
    &&& Meta::BASE_PAGE_SIZE == granule
    &&& Meta::TABLE_FRAME_SIZE == granule
    &&& Meta::ENTRIES_PER_TABLE == entries
}

/// Whether `addr` has no bit at or above position `bits`.
pub open spec fn fits_bits(addr: u64, bits: usize) -> bool {
    bits >= 64 || addr < pow2(bits as nat)
}

/// Whether `addr` has no bit at or above position `bits`.
pub fn linear_in_range(addr: u64, bits: usize) -> (r: bool)
    ensures
        r == fits_bits(addr, bits),
{
    if bits >= 64 {
        return true;
    }
    proof {
        lemma_u64_pow2_no_overflow(bits as nat);
        lemma_u64_shl_is_mul(1, bits as u64);
    }
    addr < (1u64 << (bits as u64))
}

/// Whether `level` is the lowest level of the tree that supports `size`.
pub open spec fn lowest_level<Meta: PagingMetaData>(level: u8, size: PageSize) -> bool {
    &&& 1 <= level <= Meta::LEVELS
    &&& Meta::supports(level, size)
    &&& forall|k: u8| 1 <= k < level ==> !Meta::supports(k, size)
}

/// The lowest level of the tree that supports `size`.
pub open spec fn level_for<Meta: PagingMetaData>(size: PageSize) -> Option<u8> {
    if exists|level: u8| lowest_level::<Meta>(level, size) {
        Some(choose|level: u8| lowest_level::<Meta>(level, size))
    } else {
        None
    }
}

/// There is at most one lowest level.
pub proof fn lemma_level_for<Meta: PagingMetaData>(level: u8, size: PageSize)
    requires
        lowest_level::<Meta>(level, size),
    ensures
        level_for::<Meta>(size) == Some(level),
{
    let other: u8 = choose|l: u8| lowest_level::<Meta>(l, size);
    assert(lowest_level::<Meta>(other, size));
    assert(!(other < level));
    assert(!(level < other));
}

/// The lowest level that natively supports `size`.
pub fn level_of_size<Meta: PagingMetaData>(size: PageSize) -> (r: Option<u8>)
    requires
        Meta::LEVELS < 255,
    ensures
        r == level_for::<Meta>(size),
        r matches Some(level) ==> lowest_level::<Meta>(level, size),
{
    let r: Option<u8> = Meta::size_to_level(size);
    proof {
        if let Some(level) = r {
            lemma_level_for::<Meta>(level, size);
        }
    }
    r
}

/// Post-mutation invalidation contract.
///
/// An implementation is modelled as a state that each flush transforms, so a
/// caller can say which flushes an operation issues and in what order.
pub trait TlbInvalidation<V: MemoryAddr>: Sized {
    /// The state after the entry of one base granule is invalidated.
    open spec fn after_local(self, vaddr: V) -> Self {
        arbitrary()
    }

    /// The state after the entire local TLB is invalidated.
    open spec fn after_all(self) -> Self {
        arbitrary()
    }

    /// The state after a run of pages is invalidated.
    open spec fn after_range(self, start: V, page_size: PageSize, count_pages: u64) -> Self {
        arbitrary()
    }

    /// Whether a full flush should replace `pending_count` page flushes.
    open spec fn wants_full(self, pending_count: u64) -> bool {
        arbitrary()
    }

    /// Invalidate one base-granule TLB entry on the local CPU.
    fn flush_tlb_local(&mut self, vaddr: V)
        ensures
            *final(self) == old(self).after_local(vaddr),
    ;

    /// Invalidate the entire local TLB.
    fn flush_tlb_all_local(&mut self)
        ensures
            *final(self) == old(self).after_all(),
    ;

    /// Range invalidation. Implementations without hardware assistance use
    /// [`sweep_range`].
    fn flush_tlb_range_local(&mut self, start: V, page_size: PageSize, count_pages: u64)
        ensures
            *final(self) == old(self).after_range(start, page_size, count_pages),
    ;

    /// Policy: should an accumulated batch of `pending_count` per-page
    /// invalidations be replaced by a single full-TLB flush? The usual
    /// threshold is [`many_pages`].
    fn prefer_full_flush(&self, pending_count: u64) -> (r: bool)
        ensures
            r == self.wants_full(pending_count),
    ;
}

/// Whether a batch is large enough that a full flush is usually cheaper.
pub open spec fn exceeds_batch(pending_count: u64) -> bool {
    pending_count > 32
}

/// The usual policy for [`TlbInvalidation::prefer_full_flush`].
pub fn many_pages(pending_count: u64) -> (r: bool)
    ensures
        r == exceeds_batch(pending_count),
{
    pending_count > 32
}

/// `base + stride`, held at the top of the address space.
pub open spec fn saturating_step(base: u64, stride: u64) -> u64 {
    if base + stride > u64::MAX {
        u64::MAX
    } else {
        (base + stride) as u64
    }
}

/// The state after `count` pages from `base` are invalidated one by one.
pub open spec fn swept<V: MemoryAddr, T: TlbInvalidation<V>>(
    tlb: T,
    base: u64,
    page_size: PageSize,
    count: nat,
) -> T
    decreases count,
{
    if count == 0 {
        tlb
    } else {
        swept::<V, T>(
            tlb.after_local(V::of(base)),
            saturating_step(base, page_size.len()),
            page_size,
            (count - 1) as nat,
        )
    }
}

/// Invalidate `count_pages` pages from `start`, one page at a time.
pub fn sweep_range<V: MemoryAddr, T: TlbInvalidation<V>>(
    tlb: &mut T,
    start: V,
    page_size: PageSize,
    count_pages: u64,
)
    ensures
        *final(tlb) == swept::<V, T>(*old(tlb), start.value(), page_size, count_pages as nat),
        start.value() + count_pages * page_size.len() <= u64::MAX ==> *final(tlb) == Seq::new(
            count_pages as nat,
            |k: int| (start.value() + k * page_size.len()) as u64,
        ).fold_left(*old(tlb), |t: T, a: u64| t.after_local(V::of(a))),
{
    proof {
        law_sweep_invalidates_each_page::<V, T>(
            *old(tlb),
            start.value(),
            page_size,
            count_pages as nat,
        );
        if start.value() + count_pages * page_size.len() <= u64::MAX {
            lemma_sweep_stays_inside(start.value(), page_size.len(), count_pages as nat);
        }
    }
    let stride: u64 = page_size.bytes();
    let mut base: u64 = start.as_u64();
    let mut done: u64 = 0;
    while done < count_pages
        invariant
            done <= count_pages,
            stride == page_size.len(),
            swept::<V, T>(*tlb, base, page_size, (count_pages - done) as nat) == swept::<V, T>(
                *old(tlb),
                start.value(),
                page_size,
                count_pages as nat,
            ),
        decreases count_pages - done,
    {
        tlb.flush_tlb_local(V::from_u64(base));
        base = base.saturating_add(stride);
        done = done + 1;
    }
}

/// No-op invalidation.
#[derive(Clone, Copy, Debug, Default)]
pub struct NoFlush;

impl<V: MemoryAddr> TlbInvalidation<V> for NoFlush {
    open spec fn after_local(self, vaddr: V) -> Self {
        self
    }

    open spec fn after_all(self) -> Self {
        self
    }

    open spec fn after_range(self, start: V, page_size: PageSize, count_pages: u64) -> Self {
        self
    }

    open spec fn wants_full(self, pending_count: u64) -> bool {
        false
    }

    fn flush_tlb_local(&mut self, vaddr: V) {
    }

    fn flush_tlb_all_local(&mut self) {
    }

    fn flush_tlb_range_local(&mut self, start: V, page_size: PageSize, count_pages: u64) {
    }

    fn prefer_full_flush(&self, pending_count: u64) -> (r: bool) {
        false
    }
}

/// Installed address-space token metadata shared by every activator.
///
/// Tokens are plain hardware-context descriptors and are safe to move or share
/// across CPUs.
pub trait AddrSpaceToken: Copy {
    /// The root frame that the token represents.
    open spec fn root_frame(self) -> PhysAddr {
        arbitrary()
    }

    /// Physical root frame represented by this token.
    fn root(self) -> (r: PhysAddr)
        ensures
            r == self.root_frame(),
    ;
}

/// CPU-local address-space installation policy.
///
/// Page tables produce a root physical address; callers provide the
/// architecture- and CPU-local controls required to turn that root into a
/// hardware context.
pub trait AddrSpaceActivation: Sized {
    /// Opaque installed address-space handle understood by this activator.
    type Token: AddrSpaceToken;

    /// Caller policy used to encode the hardware token.
    type Controls: Copy;

    /// The token that a root and controls encode to, or why they do not.
    open spec fn encoding(&self, root: PhysAddr, controls: Self::Controls) -> PagingResult<Self::Token> {
        arbitrary()
    }

    /// Whether [`current`](Self::current) can report a token at all.
    open spec fn observes() -> bool {
        false
    }

    /// Whether [`uninstall`](Self::uninstall) has state to release.
    open spec fn tracks() -> bool {
        false
    }

    /// Validate a page-table root and encode it with `controls`, but do not
    /// make it active on the CPU.
    fn install(&self, root: PhysAddr, controls: Self::Controls) -> (r: PagingResult<Self::Token>)
        ensures
            r == self.encoding(root, controls),
            r matches Ok(token) ==> token.root_frame() == root,
    ;

    /// Return the currently active token when the activator can observe it.
    fn current(&self) -> (r: PagingResult<Option<Self::Token>>)
        ensures
            !Self::observes() ==> r == Ok::<Option<Self::Token>, PagingError>(None),
    {
        Ok(None)
    }

    /// Release activator-local state for a previously installed token.
    fn uninstall(&self, token: Self::Token) -> (r: PagingResult)
        ensures
            !Self::tracks() ==> r == Ok::<(), PagingError>(()),
    {
        Ok(())
    }
}

/// One call of a [`FrameAllocator`] and its answer.
#[verifier::ext_equal]
pub enum FrameEvent {
    Allocated { size: u64, align: PageSize, granted: PagingResult<PhysAddrRange> },
    Deallocated { range: PhysAddrRange, released: PagingResult },
}

/// Frame allocation and table-memory access used by the walker.
///
/// An allocator is modelled by the frames it has handed out, each a sequence
/// of 64-bit words, by the log of calls made to it so far, and by the memory
/// that every call and every write left behind. Memory is
/// reached through [`read_entry`](Self::read_entry) and
/// [`write_entry`](Self::write_entry) alone.
pub trait FrameAllocator: Sized {
    /// Whether the allocator is in a usable state.
    open spec fn valid(&self) -> bool {
        arbitrary()
    }

    /// The live frames by physical base address.
    open spec fn frames(&self) -> Map<u64, Seq<u64>> {
        arbitrary()
    }

    /// Every allocation and release so far, oldest first.
    open spec fn log(&self) -> Seq<FrameEvent> {
        arbitrary()
    }

    /// Table memory after each call that may change it, oldest first: what
    /// others who walk the tables get to see.
    open spec fn history(&self) -> Seq<Map<u64, Seq<u64>>> {
        arbitrary()
    }

    /// Where this allocator may place frames.
    open spec fn places(paddr: u64) -> bool {
        arbitrary()
    }

    /// Allocate a zeroed contiguous physical range.
    fn allocate(&mut self, size: u64, align: PageSize) -> (r: PagingResult<PhysAddrRange>)
        requires
            old(self).valid(),
        ensures
            final(self).valid(),
            final(self).log() == old(self).log().push(
                FrameEvent::Allocated { size, align, granted: r },
            ),
            final(self).history() == old(self).history().push(final(self).frames()),
            match r {
                Ok(range) => {
                    &&& Self::places(range.lo())
                    &&& !old(self).frames().contains_key(range.lo())
                    &&& final(self).frames() == old(self).frames().insert(
                        range.lo(),
                        zeroed(range.len()),
                    )
                },
                Err(_) => final(self).frames() == old(self).frames(),
            },
    ;

    /// Release a range previously returned by [`allocate`](Self::allocate).
    fn deallocate(&mut self, range: PhysAddrRange) -> (r: PagingResult)
        requires
            old(self).valid(),
            old(self).frames().contains_key(range.lo()),
        ensures
            final(self).valid(),
            final(self).log() == old(self).log().push(FrameEvent::Deallocated { range, released: r }),
            final(self).history() == old(self).history().push(final(self).frames()),
            final(self).frames() == match r {
                Ok(()) => old(self).frames().remove(range.lo()),
                Err(_) => old(self).frames(),
            },
    ;

    /// Read the word at `idx` of the live frame at `paddr`.
    fn read_entry(&self, paddr: PhysAddr, idx: usize) -> (r: u64)
        requires
            self.valid(),
            self.frames().contains_key(paddr.0),
            idx < self.frames()[paddr.0].len(),
        ensures
            r == self.frames()[paddr.0][idx as int],
    ;

    /// Write the word at `idx` of the live frame at `paddr`.
    fn write_entry(&mut self, paddr: PhysAddr, idx: usize, bits: u64)
        requires
            old(self).valid(),
            old(self).frames().contains_key(paddr.0),
            idx < old(self).frames()[paddr.0].len(),
        ensures
            final(self).valid(),
            final(self).log() == old(self).log(),
            final(self).history() == old(self).history().push(final(self).frames()),
            final(self).frames() == poke(old(self).frames(), paddr.0, idx as int, bits),
    ;
}

/// A zeroed frame of `size` bytes, as words.
pub open spec fn zeroed(size: u64) -> Seq<u64> {
    Seq::new((size / 8) as nat, |i: int| 0u64)
}

/// Table memory with one word replaced.
pub open spec fn poke(
    frames: Map<u64, Seq<u64>>,
    frame: u64,
    idx: int,
    bits: u64,
) -> Map<u64, Seq<u64>> {
    frames.insert(frame, frames[frame].update(idx, bits))
}

} // verus!
