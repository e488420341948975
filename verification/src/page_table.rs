//! Page-table operations as a trait over a typed virtual address space.

use crate::addr::{AddrRange, MemoryAddr, PhysAddr};
use crate::effect::{
    flushed, lookup, mergeable, merged, protectable, protected, remappable, remapped, split,
    splittable, unmapped,
};
use crate::error::PagingResult;
use crate::flush::Pending;
use crate::invalidation::law_flush_covers_its_range;
use crate::mapping::{
    IntoMapBacking, IntoMappingFlags, MapBacking, Mapping, MappingContiguity, MappingFlags,
};
use crate::meta::PageSize;
use crate::paging::{
    AddrSpaceActivation, FrameAllocator, PageTableEntry, PagingMetaData, TlbInvalidation,
};
use crate::plan::Placement;
use crate::request::{encodes, map_effect, map_flush, map_plan, whole_leaf};
use crate::walker::PageTableWalker;
use vstd::prelude::*;

verus! {

/// Page-table operations over a typed virtual address space.
///
/// This is the trait form of the walker surface. CPU page tables use
/// [`crate::VirtAddr`]; IOMMU consumers can bind their own typed address.
pub trait PageTable<V: MemoryAddr>: Sized {
    const INPUT_ADDR_BITS: u8;

    const OUTPUT_ADDR_BITS: u8;

    type Entry: PageTableEntry;

    /// Whether the table is in a usable state.
    spec fn sound(&self) -> bool;

    /// The root frame.
    spec fn root_frame(&self) -> PhysAddr;

    /// What a query for `vaddr` returns.
    spec fn found(&self, vaddr: V) -> PagingResult<Mapping<Self::Entry, V>>;

    /// Whether a map request can be encoded.
    spec fn can_map(
        &self,
        range: AddrRange<V>,
        backing: PagingResult<MapBacking<'_>>,
        flags: MappingFlags<<Self::Entry as PageTableEntry>::Flags>,
    ) -> bool;

    /// What a map request does.
    spec fn maps(
        &self,
        after: &Self,
        range: AddrRange<V>,
        backing: PagingResult<MapBacking<'_>>,
        flags: MappingFlags<<Self::Entry as PageTableEntry>::Flags>,
        due: Pending,
        r: PagingResult,
    ) -> bool;

    /// The one leaf that a map request is, if it is one.
    spec fn one_leaf(
        range: AddrRange<V>,
        backing: PagingResult<MapBacking<'_>>,
        contiguity: MappingContiguity,
    ) -> PagingResult<Option<Placement>>;

    /// The page size by which invalidations are counted.
    spec fn granule() -> PageSize;

    /// Whether a remap request can be encoded.
    spec fn can_remap(
        &self,
        range: AddrRange<V>,
        paddr: PhysAddr,
        flags: <Self::Entry as PageTableEntry>::Flags,
    ) -> bool;

    /// What a remap request does.
    spec fn remaps(
        &self,
        after: &Self,
        range: AddrRange<V>,
        paddr: PhysAddr,
        flags: <Self::Entry as PageTableEntry>::Flags,
        r: PagingResult<Mapping<Self::Entry, V>>,
    ) -> bool;

    /// Whether a protect request can be encoded.
    spec fn can_protect(
        &self,
        range: AddrRange<V>,
        flags: <Self::Entry as PageTableEntry>::Flags,
    ) -> bool;

    /// What a protect request does.
    spec fn protects(
        &self,
        after: &Self,
        range: AddrRange<V>,
        flags: <Self::Entry as PageTableEntry>::Flags,
        r: PagingResult<Mapping<Self::Entry, V>>,
    ) -> bool;

    /// What an unmap request does.
    spec fn unmaps(
        &self,
        after: &Self,
        range: AddrRange<V>,
        r: PagingResult<Mapping<Self::Entry, V>>,
    ) -> bool;

    /// Whether a split request can be encoded.
    spec fn can_split(&self, range: AddrRange<V>) -> bool;

    /// What a split request does.
    spec fn splits(
        &self,
        after: &Self,
        range: AddrRange<V>,
        r: PagingResult<PageSize>,
    ) -> bool;

    /// Whether a merge request can be encoded.
    spec fn can_merge(&self, range: AddrRange<V>) -> bool;

    /// What a merge request does.
    spec fn merges(
        &self,
        after: &Self,
        range: AddrRange<V>,
        r: PagingResult<PageSize>,
    ) -> bool;

    fn root(&self) -> (r: PhysAddr)
        ensures
            r == self.root_frame(),
    ;

    /// Install this page table into an architecture-specific activation
    /// policy.
    fn install_with<A: AddrSpaceActivation>(&self, activation: &A, controls: A::Controls) -> (r:
        PagingResult<A::Token>)
        ensures
            r == activation.encoding(self.root_frame(), controls),
    {
        activation.install(self.root(), controls)
    }

    fn query(&self, vaddr: V) -> (r: PagingResult<Mapping<Self::Entry, V>>)
        requires
            self.sound(),
        ensures
            r == self.found(vaddr),
    ;

    fn map<
        'a,
        B: IntoMapBacking<'a>,
        F: IntoMappingFlags<<Self::Entry as PageTableEntry>::Flags>,
        T: TlbInvalidation<V>,
    >(&mut self, range: AddrRange<V>, backing: B, flags: F, tlb: &mut T) -> (r: PagingResult)
        requires
            old(self).sound(),
            backing.fits(range.len()),
            old(self).can_map(range, backing.backing(range.len()), flags.mapping_flags()),
        ensures
            final(self).sound(),
            exists|due: Pending|
                {
                    &&& #[trigger] old(self).maps(
                        final(self),
                        range,
                        backing.backing(range.len()),
                        flags.mapping_flags(),
                        due,
                        r,
                    )
                    &&& *final(tlb) == map_flush::<V, T>(
                        *old(tlb),
                        range,
                        Self::one_leaf(
                            range,
                            backing.backing(range.len()),
                            flags.mapping_flags().contiguity,
                        ),
                        due,
                        r,
                        Self::granule(),
                    )
                },
    ;

    fn remap<T: TlbInvalidation<V>>(
        &mut self,
        range: AddrRange<V>,
        paddr: PhysAddr,
        flags: <Self::Entry as PageTableEntry>::Flags,
        tlb: &mut T,
    ) -> (r: PagingResult<Mapping<Self::Entry, V>>)
        requires
            old(self).sound(),
            old(self).can_remap(range, paddr, flags),
        ensures
            final(self).sound(),
            old(self).remaps(final(self), range, paddr, flags, r),
            *final(tlb) == if r is Ok {
                flushed::<V, T>(*old(tlb), range, Self::granule())
            } else {
                *old(tlb)
            },
    ;

    fn protect<T: TlbInvalidation<V>>(
        &mut self,
        range: AddrRange<V>,
        flags: <Self::Entry as PageTableEntry>::Flags,
        tlb: &mut T,
    ) -> (r: PagingResult<Mapping<Self::Entry, V>>)
        requires
            old(self).sound(),
            old(self).can_protect(range, flags),
        ensures
            final(self).sound(),
            old(self).protects(final(self), range, flags, r),
            *final(tlb) == if r is Ok {
                flushed::<V, T>(*old(tlb), range, Self::granule())
            } else {
                *old(tlb)
            },
    ;

    fn unmap<T: TlbInvalidation<V>>(&mut self, range: AddrRange<V>, tlb: &mut T) -> (r:
        PagingResult<Mapping<Self::Entry, V>>)
        requires
            old(self).sound(),
        ensures
            final(self).sound(),
            old(self).unmaps(final(self), range, r),
            *final(tlb) == if r is Ok {
                flushed::<V, T>(*old(tlb), range, Self::granule())
            } else {
                *old(tlb)
            },
    ;

    fn split_at<T: TlbInvalidation<V>>(&mut self, range: AddrRange<V>, tlb: &mut T) -> (r:
        PagingResult<PageSize>)
        requires
            old(self).sound(),
            old(self).can_split(range),
        ensures
            final(self).sound(),
            old(self).splits(final(self), range, r),
            *final(tlb) == if r is Ok {
                flushed::<V, T>(*old(tlb), range, Self::granule())
            } else {
                *old(tlb)
            },
    ;

    fn merge_at<T: TlbInvalidation<V>>(&mut self, range: AddrRange<V>, tlb: &mut T) -> (r:
        PagingResult<PageSize>)
        requires
            old(self).sound(),
            old(self).can_merge(range),
        ensures
            final(self).sound(),
            old(self).merges(final(self), range, r),
            *final(tlb) == if r is Ok {
                flushed::<V, T>(*old(tlb), range, Self::granule())
            } else {
                *old(tlb)
            },
    ;
}

impl<Meta: PagingMetaData, Entry: PageTableEntry, Alloc: FrameAllocator> PageTable<
    Meta::VirtAddr,
> for PageTableWalker<Meta, Entry, Alloc> {
    const INPUT_ADDR_BITS: u8 = Meta::VA_MAX_BITS as u8;

    const OUTPUT_ADDR_BITS: u8 = Meta::PA_MAX_BITS as u8;

    type Entry = Entry;

    open spec fn sound(&self) -> bool {
        self.wf()
    }

    open spec fn root_frame(&self) -> PhysAddr {
        PhysAddr(self@.root)
    }

    open spec fn found(&self, vaddr: Meta::VirtAddr) -> PagingResult<
        Mapping<Entry, Meta::VirtAddr>,
    > {
        lookup::<Meta, Entry>(self@, vaddr.value())
    }

    open spec fn can_map(
        &self,
        range: AddrRange<Meta::VirtAddr>,
        backing: PagingResult<MapBacking<'_>>,
        flags: MappingFlags<Entry::Flags>,
    ) -> bool {
        encodes::<Entry>(map_plan::<Meta>(range, backing, flags.contiguity), flags.leaf)
    }

    open spec fn maps(
        &self,
        after: &Self,
        range: AddrRange<Meta::VirtAddr>,
        backing: PagingResult<MapBacking<'_>>,
        flags: MappingFlags<Entry::Flags>,
        due: Pending,
        r: PagingResult,
    ) -> bool {
        map_effect::<Meta, Entry>(self@, after@, range, backing, flags, due, r)
    }

    open spec fn one_leaf(
        range: AddrRange<Meta::VirtAddr>,
        backing: PagingResult<MapBacking<'_>>,
        contiguity: MappingContiguity,
    ) -> PagingResult<Option<Placement>> {
        whole_leaf::<Meta>(range, backing, contiguity)
    }

    open spec fn granule() -> PageSize {
        Meta::BASE_PAGE_SIZE
    }

    open spec fn can_remap(
        &self,
        range: AddrRange<Meta::VirtAddr>,
        paddr: PhysAddr,
        flags: Entry::Flags,
    ) -> bool {
        remappable::<Meta, Entry>(self@, range, paddr, flags)
    }

    open spec fn remaps(
        &self,
        after: &Self,
        range: AddrRange<Meta::VirtAddr>,
        paddr: PhysAddr,
        flags: Entry::Flags,
        r: PagingResult<Mapping<Entry, Meta::VirtAddr>>,
    ) -> bool {
        remapped::<Meta, Entry>(self@, after@, range, paddr, flags, r)
    }

    open spec fn can_protect(&self, range: AddrRange<Meta::VirtAddr>, flags: Entry::Flags) -> bool {
        protectable::<Meta, Entry>(self@, range, flags)
    }

    open spec fn protects(
        &self,
        after: &Self,
        range: AddrRange<Meta::VirtAddr>,
        flags: Entry::Flags,
        r: PagingResult<Mapping<Entry, Meta::VirtAddr>>,
    ) -> bool {
        protected::<Meta, Entry>(self@, after@, range, flags, r)
    }

    open spec fn unmaps(
        &self,
        after: &Self,
        range: AddrRange<Meta::VirtAddr>,
        r: PagingResult<Mapping<Entry, Meta::VirtAddr>>,
    ) -> bool {
        unmapped::<Meta, Entry>(self@, after@, range, r)
    }

    open spec fn can_split(&self, range: AddrRange<Meta::VirtAddr>) -> bool {
        splittable::<Meta, Entry>(self@, range)
    }

    open spec fn splits(
        &self,
        after: &Self,
        range: AddrRange<Meta::VirtAddr>,
        r: PagingResult<PageSize>,
    ) -> bool {
        split::<Meta, Entry>(self@, after@, range, r)
    }

    open spec fn can_merge(&self, range: AddrRange<Meta::VirtAddr>) -> bool {
        mergeable::<Meta, Entry>(self@, range)
    }

    open spec fn merges(
        &self,
        after: &Self,
        range: AddrRange<Meta::VirtAddr>,
        r: PagingResult<PageSize>,
    ) -> bool {
        merged::<Meta, Entry>(self@, after@, range, r)
    }

    fn root(&self) -> (r: PhysAddr) {
        PageTableWalker::root(self)
    }

    fn query(&self, vaddr: Meta::VirtAddr) -> (r: PagingResult<Mapping<Entry, Meta::VirtAddr>>) {
        PageTableWalker::query(self, vaddr)
    }

    fn map<
        'a,
        B: IntoMapBacking<'a>,
        F: IntoMappingFlags<Entry::Flags>,
        T: TlbInvalidation<Meta::VirtAddr>,
    >(&mut self, range: AddrRange<Meta::VirtAddr>, backing: B, flags: F, tlb: &mut T) -> (r:
        PagingResult) {
        let ghost before = *self;
        let ghost tlb_before = *tlb;
        let ghost b = backing.backing(range.len());
        let ghost f = flags.mapping_flags();
        let r: PagingResult = PageTableWalker::map(self, range, backing, flags, tlb);
        proof {
            let due: Pending = choose|due: Pending|
                {
                    &&& #[trigger] map_effect::<Meta, Entry>(before@, self@, range, b, f, due, r)
                    &&& *tlb == map_flush::<Meta::VirtAddr, T>(
                        tlb_before,
                        range,
                        whole_leaf::<Meta>(range, b, f.contiguity),
                        due,
                        r,
                        Meta::BASE_PAGE_SIZE,
                    )
                };
            assert(before.maps(self, range, b, f, due, r));
        }
        r
    }

    fn remap<T: TlbInvalidation<Meta::VirtAddr>>(
        &mut self,
        range: AddrRange<Meta::VirtAddr>,
        paddr: PhysAddr,
        flags: Entry::Flags,
        tlb: &mut T,
    ) -> (r: PagingResult<Mapping<Entry, Meta::VirtAddr>>) {
        PageTableWalker::remap(self, range, paddr, flags, tlb)
    }

    fn protect<T: TlbInvalidation<Meta::VirtAddr>>(
        &mut self,
        range: AddrRange<Meta::VirtAddr>,
        flags: Entry::Flags,
        tlb: &mut T,
    ) -> (r: PagingResult<Mapping<Entry, Meta::VirtAddr>>) {
        PageTableWalker::protect(self, range, flags, tlb)
    }

    fn unmap<T: TlbInvalidation<Meta::VirtAddr>>(
        &mut self,
        range: AddrRange<Meta::VirtAddr>,
        tlb: &mut T,
    ) -> (r: PagingResult<Mapping<Entry, Meta::VirtAddr>>) {
        PageTableWalker::unmap(self, range, tlb)
    }

    fn split_at<T: TlbInvalidation<Meta::VirtAddr>>(
        &mut self,
        range: AddrRange<Meta::VirtAddr>,
        tlb: &mut T,
    ) -> (r: PagingResult<PageSize>) {
        PageTableWalker::split_at(self, range, tlb)
    }

    fn merge_at<T: TlbInvalidation<Meta::VirtAddr>>(
        &mut self,
        range: AddrRange<Meta::VirtAddr>,
        tlb: &mut T,
    ) -> (r: PagingResult<PageSize>) {
        PageTableWalker::merge_at(self, range, tlb)
    }
}

/// A walker is a page table by what it does: its requests have the effects that the
/// walker's own operations have.
pub proof fn law_walker_is_a_page_table<
    Meta: PagingMetaData,
    Entry: PageTableEntry,
    Alloc: FrameAllocator,
>(
    before: PageTableWalker<Meta, Entry, Alloc>,
    after: PageTableWalker<Meta, Entry, Alloc>,
    vaddr: Meta::VirtAddr,
    range: AddrRange<Meta::VirtAddr>,
    paddr: PhysAddr,
    flags: Entry::Flags,
    backing: PagingResult<MapBacking<'_>>,
    mapping: MappingFlags<Entry::Flags>,
    due: Pending,
    r: PagingResult,
    changed: PagingResult<Mapping<Entry, Meta::VirtAddr>>,
    size: PagingResult<PageSize>,
)
    ensures
        before.root_frame().0 == before@.root,
        before.found(vaddr) == lookup::<Meta, Entry>(before@, vaddr.value()),
        before.maps(&after, range, backing, mapping, due, r) <==> map_effect::<Meta, Entry>(
            before@,
            after@,
            range,
            backing,
            mapping,
            due,
            r,
        ),
        before.remaps(&after, range, paddr, flags, changed) <==> remapped::<Meta, Entry>(
            before@,
            after@,
            range,
            paddr,
            flags,
            changed,
        ),
        before.protects(&after, range, flags, changed) <==> protected::<Meta, Entry>(
            before@,
            after@,
            range,
            flags,
            changed,
        ),
        before.unmaps(&after, range, changed) <==> unmapped::<Meta, Entry>(
            before@,
            after@,
            range,
            changed,
        ),
        before.splits(&after, range, size) <==> split::<Meta, Entry>(before@, after@, range, size),
        before.merges(&after, range, size) <==> merged::<Meta, Entry>(before@, after@, range, size),
        <PageTableWalker<Meta, Entry, Alloc> as PageTable<Meta::VirtAddr>>::granule()
            == Meta::BASE_PAGE_SIZE,
        <PageTableWalker<Meta, Entry, Alloc> as PageTable<Meta::VirtAddr>>::one_leaf(
            range,
            backing,
            mapping.contiguity,
        ) == whole_leaf::<Meta>(range, backing, mapping.contiguity),
{
}

/// Every page table flushes what it changes: a leaf of so many granules by one
/// flush of all of them, or of everything where the policy prefers that; where a
/// change fails nothing is flushed.
pub proof fn law_page_table_calls<V: MemoryAddr, P: PageTable<V>, T: TlbInvalidation<V>>(
    table: P,
    vaddr: V,
    found: PagingResult<Mapping<P::Entry, V>>,
    range: AddrRange<V>,
    paddr: PhysAddr,
    flags: <P::Entry as PageTableEntry>::Flags,
    changed: PagingResult<Mapping<P::Entry, V>>,
    size: PagingResult<PageSize>,
    pages: u64,
)
    requires
        range.lo() + pages * P::granule().len() == range.hi(),
        call_ensures(<P as PageTable<V>>::query, (&table, vaddr), found),
    ensures
        found == table.found(vaddr),
        forall|pt: &mut P, tlb: &mut T| #[trigger]
            call_ensures(<P as PageTable<V>>::remap::<T>, (pt, range, paddr, flags, tlb), changed) ==> {
                &&& pt.remaps(final(pt), range, paddr, flags, changed)
                &&& *final(tlb) == if changed is Err {
                    *tlb
                } else if tlb.wants_full(pages) {
                    tlb.after_all()
                } else {
                    tlb.after_range(range.start, P::granule(), pages)
                }
            },
        forall|pt: &mut P, tlb: &mut T| #[trigger]
            call_ensures(<P as PageTable<V>>::protect::<T>, (pt, range, flags, tlb), changed) ==> {
                &&& pt.protects(final(pt), range, flags, changed)
                &&& *final(tlb) == if changed is Err {
                    *tlb
                } else if tlb.wants_full(pages) {
                    tlb.after_all()
                } else {
                    tlb.after_range(range.start, P::granule(), pages)
                }
            },
        forall|pt: &mut P, tlb: &mut T| #[trigger]
            call_ensures(<P as PageTable<V>>::unmap::<T>, (pt, range, tlb), changed) ==> {
                &&& pt.unmaps(final(pt), range, changed)
                &&& *final(tlb) == if changed is Err {
                    *tlb
                } else if tlb.wants_full(pages) {
                    tlb.after_all()
                } else {
                    tlb.after_range(range.start, P::granule(), pages)
                }
            },
        forall|pt: &mut P, tlb: &mut T| #[trigger]
            call_ensures(<P as PageTable<V>>::split_at::<T>, (pt, range, tlb), size) ==> {
                &&& pt.splits(final(pt), range, size)
                &&& *final(tlb) == if size is Err {
                    *tlb
                } else if tlb.wants_full(pages) {
                    tlb.after_all()
                } else {
                    tlb.after_range(range.start, P::granule(), pages)
                }
            },
        forall|pt: &mut P, tlb: &mut T| #[trigger]
            call_ensures(<P as PageTable<V>>::merge_at::<T>, (pt, range, tlb), size) ==> {
                &&& pt.merges(final(pt), range, size)
                &&& *final(tlb) == if size is Err {
                    *tlb
                } else if tlb.wants_full(pages) {
                    tlb.after_all()
                } else {
                    tlb.after_range(range.start, P::granule(), pages)
                }
            },
{
    assert forall|pt: &mut P, tlb: &mut T| #[trigger]
        call_ensures(<P as PageTable<V>>::remap::<T>, (pt, range, paddr, flags, tlb), changed) implies {
            &&& pt.remaps(final(pt), range, paddr, flags, changed)
            &&& *final(tlb) == if changed is Err {
                *tlb
            } else if tlb.wants_full(pages) {
                tlb.after_all()
            } else {
                tlb.after_range(range.start, P::granule(), pages)
            }
        } by {
        law_flush_covers_its_range::<V, T>(*tlb, range, P::granule(), pages);
    }
    assert forall|pt: &mut P, tlb: &mut T| #[trigger]
        call_ensures(<P as PageTable<V>>::protect::<T>, (pt, range, flags, tlb), changed) implies {
            &&& pt.protects(final(pt), range, flags, changed)
            &&& *final(tlb) == if changed is Err {
                *tlb
            } else if tlb.wants_full(pages) {
                tlb.after_all()
            } else {
                tlb.after_range(range.start, P::granule(), pages)
            }
        } by {
        law_flush_covers_its_range::<V, T>(*tlb, range, P::granule(), pages);
    }
    assert forall|pt: &mut P, tlb: &mut T| #[trigger]
        call_ensures(<P as PageTable<V>>::unmap::<T>, (pt, range, tlb), changed) implies {
            &&& pt.unmaps(final(pt), range, changed)
            &&& *final(tlb) == if changed is Err {
                *tlb
            } else if tlb.wants_full(pages) {
                tlb.after_all()
            } else {
                tlb.after_range(range.start, P::granule(), pages)
            }
        } by {
        law_flush_covers_its_range::<V, T>(*tlb, range, P::granule(), pages);
    }
    assert forall|pt: &mut P, tlb: &mut T| #[trigger]
        call_ensures(<P as PageTable<V>>::split_at::<T>, (pt, range, tlb), size) implies {
            &&& pt.splits(final(pt), range, size)
            &&& *final(tlb) == if size is Err {
                *tlb
            } else if tlb.wants_full(pages) {
                tlb.after_all()
            } else {
                tlb.after_range(range.start, P::granule(), pages)
            }
        } by {
        law_flush_covers_its_range::<V, T>(*tlb, range, P::granule(), pages);
    }
    assert forall|pt: &mut P, tlb: &mut T| #[trigger]
        call_ensures(<P as PageTable<V>>::merge_at::<T>, (pt, range, tlb), size) implies {
            &&& pt.merges(final(pt), range, size)
            &&& *final(tlb) == if size is Err {
                *tlb
            } else if tlb.wants_full(pages) {
                tlb.after_all()
            } else {
                tlb.after_range(range.start, P::granule(), pages)
            }
        } by {
        law_flush_covers_its_range::<V, T>(*tlb, range, P::granule(), pages);
    }
}

} // verus!
