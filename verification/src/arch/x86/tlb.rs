//! Which invalidation instructions a flush takes.
//!
//! The policies here decide; executing the instructions is privileged and left
//! to the consumer.

use crate::addr::{floor_to, VirtAddr};
use crate::meta::PageSize;
use vstd::prelude::*;
use x86_64::instructions::tlb::{Invlpgb, Pcid};

verus! {

/// A process-context identifier, validated by `x86_64`.
#[verifier::external_type_specification]
#[verifier::external_body]
pub struct ExPcid(x86_64::instructions::tlb::Pcid);

/// Proof that the CPU has `INVLPGB`, as probed by `x86_64`.
#[verifier::external_type_specification]
#[verifier::external_body]
pub struct ExInvlpgb(x86_64::instructions::tlb::Invlpgb);

/// An invalidation of translations on the local CPU, or of a broadcast.
#[derive(Clone, Copy, Debug)]
pub enum X86Invalidation {
    /// `INVLPG`: one 4 KiB translation.
    Page(VirtAddr),
    /// A CR3 reload: every translation that is not global.
    All,
    /// `INVPCID` by address: one translation of one context.
    ContextPage(VirtAddr, Pcid),
    /// `INVPCID` by context: every translation of one context.
    Context(Pcid),
    /// `INVLPGB`, followed by `TLBSYNC`: so many 4 KiB pages from a page-aligned
    /// address on, on all CPUs, of one context if one is given, with global
    /// translations if asked for. No CPU holds a translation of them when it
    /// is done.
    Broadcast { start: VirtAddr, pages: u64, pcid: Option<Pcid>, include_global: bool },
    /// `TLBSYNC`: wait until all CPUs have carried out earlier broadcasts.
    Sync,
}

/// Where a run of pages ends, at the latest at the end of the address space.
pub open spec fn run_end(start: u64, page_size: PageSize, count_pages: u64) -> int {
    let end = start + count_pages * page_size.len();
    if end > 0x1_0000_0000_0000_0000 {
        0x1_0000_0000_0000_0000
    } else {
        end
    }
}

/// The number of 4 KiB pages from the one that holds `start` to the one that
/// holds the last address below `end`.
pub open spec fn pages_touched(start: u64, end: int) -> u64 {
    ((end - floor_to(start, 0x1000) + 0xfff) / 0x1000) as u64
}

/// A range flush reaches all of its run: every address in it lies in a page that
/// is broadcast, on all CPUs, before the flush returns.
pub proof fn law_range_flush_covers_run(
    start: u64,
    page_size: PageSize,
    count_pages: u64,
    x: u64,
)
    requires
        start <= x < start + count_pages * page_size.len(),
    ensures
        ({
            let first = floor_to(start, 0x1000);
            let pages = pages_touched(start, run_end(start, page_size, count_pages));
            first <= x < first + pages * 0x1000
        }),
{
    assert(count_pages * page_size.len() >= 0) by (nonlinear_arith);
}

/// A range flush reaches no further than its run: the first page that is
/// broadcast holds its start, each begins before its end, and the last reaches it
/// or the end of the address space.
pub proof fn law_range_flush_stays_in_run(
    start: u64,
    page_size: PageSize,
    count_pages: u64,
    k: int,
)
    requires
        count_pages > 0,
        0 <= k < pages_touched(start, run_end(start, page_size, count_pages)),
    ensures
        floor_to(start, 0x1000) as int % 0x1000 == 0,
        floor_to(start, 0x1000) <= start < floor_to(start, 0x1000) + 0x1000,
        floor_to(start, 0x1000) + k * 0x1000 < start + count_pages * page_size.len(),
        floor_to(start, 0x1000) + k * 0x1000 <= u64::MAX,
{
    page_size.lemma_len();
    assert(count_pages * page_size.len() >= 0x1000) by (nonlinear_arith)
        requires
            count_pages > 0,
            page_size.len() >= 0x1000,
    ;
}

/// Standard CPU TLB invalidation for x86_64: `INVLPG` per page, CR3 reload for
/// a full flush.
///
/// IOMMU consumers should use [`crate::NoFlush`] instead.
#[derive(Clone, Copy, Debug, Default)]
pub struct X86Tlb;

impl X86Tlb {
    /// How one page is invalidated.
    pub fn page(&self, vaddr: VirtAddr) -> (r: X86Invalidation)
        ensures
            r == X86Invalidation::Page(vaddr),
    {
        X86Invalidation::Page(vaddr)
    }

    /// How everything is invalidated.
    pub fn all(&self) -> (r: X86Invalidation)
        ensures
            r == X86Invalidation::All,
    {
        X86Invalidation::All
    }
}

/// PCID-tagged TLB invalidation via `INVPCID`.
///
/// Use when the kernel has enabled `CR4.PCIDE` and tagged each address-space's
/// CR3 with a unique identifier. `INVPCID` invalidates entries for one context
/// without disturbing others.
#[derive(Clone, Copy, Debug)]
pub struct X86PcidTlb {
    pub pcid: Pcid,
}

impl X86PcidTlb {
    /// Construct from an already-validated identifier.
    pub fn new(pcid: Pcid) -> (r: Self)
        ensures
            r == (X86PcidTlb { pcid }),
    {
        X86PcidTlb { pcid }
    }

    /// The identifier this TLB layer is tagged with.
    pub fn pcid(&self) -> (r: Pcid)
        ensures
            r == self.pcid,
    {
        self.pcid
    }

    /// How one page is invalidated.
    pub fn page(&self, vaddr: VirtAddr) -> (r: X86Invalidation)
        ensures
            r == X86Invalidation::ContextPage(vaddr, self.pcid),
    {
        X86Invalidation::ContextPage(vaddr, self.pcid)
    }

    /// How everything is invalidated.
    pub fn all(&self) -> (r: X86Invalidation)
        ensures
            r == X86Invalidation::Context(self.pcid),
    {
        X86Invalidation::Context(self.pcid)
    }
}

/// `INVLPGB`-based invalidation with hardware range flush.
///
/// `INVLPGB` invalidates a contiguous virtual range in one instruction and
/// broadcasts to other cores participating in the same translation context.
/// It is fire-and-forget, so every range flush is followed by a `TLBSYNC`:
/// callers get a synchronous "all CPUs done" guarantee.
///
/// - **PCID tag** ([`Self::with_pcid`]): scope the broadcast to one context,
///   leaving others untouched.
/// - **Global pages** ([`Self::with_global`]): include global kernel mappings.
///   Off by default.
#[derive(Clone, Copy, Debug)]
pub struct X86InvlpgbTlb {
    pub invlpgb: Invlpgb,
    pub pcid: Option<Pcid>,
    pub include_global: bool,
}

impl X86InvlpgbTlb {
    /// The policy for what probing the CPU found. Defaults: no PCID tag,
    /// global pages excluded.
    pub fn try_new(probe: Option<Invlpgb>) -> (r: Option<Self>)
        ensures
            r == match probe {
                Some(invlpgb) => Some(
                    X86InvlpgbTlb { invlpgb, pcid: None, include_global: false },
                ),
                None => None,
            },
    {
        match probe {
            Some(invlpgb) => Some(X86InvlpgbTlb { invlpgb, pcid: None, include_global: false }),
            None => None,
        }
    }

    /// Tag broadcast invalidations with a PCID. Single-page and full-flush
    /// paths then go through `INVPCID`, the cheaper instruction for
    /// non-broadcast scopes.
    pub fn with_pcid(self, pcid: Pcid) -> (r: Self)
        ensures
            r == (X86InvlpgbTlb { pcid: Some(pcid), ..self }),
    {
        X86InvlpgbTlb { pcid: Some(pcid), ..self }
    }

    /// Include global pages in subsequent range flushes.
    pub fn with_global(self) -> (r: Self)
        ensures
            r == (X86InvlpgbTlb { include_global: true, ..self }),
    {
        X86InvlpgbTlb { include_global: true, ..self }
    }

    /// How to wait for broadcasts that were issued outside the walker. A range
    /// flush waits by itself.
    pub fn tlbsync(&self) -> (r: X86Invalidation)
        ensures
            r == X86Invalidation::Sync,
    {
        X86Invalidation::Sync
    }

    /// What invalidates one page.
    pub open spec fn page_step(&self, vaddr: VirtAddr) -> X86Invalidation {
        match self.pcid {
            Some(pcid) => X86Invalidation::ContextPage(vaddr, pcid),
            None => X86Invalidation::Page(vaddr),
        }
    }

    /// What invalidates everything.
    pub open spec fn all_step(&self) -> X86Invalidation {
        match self.pcid {
            Some(pcid) => X86Invalidation::Context(pcid),
            None => X86Invalidation::All,
        }
    }

    /// What invalidates a run of pages.
    pub open spec fn range_step(
        &self,
        start: VirtAddr,
        page_size: PageSize,
        count_pages: u64,
    ) -> X86Invalidation {
        X86Invalidation::Broadcast {
            start: VirtAddr(floor_to(start.0, 0x1000)),
            pages: pages_touched(start.0, run_end(start.0, page_size, count_pages)),
            pcid: self.pcid,
            include_global: self.include_global,
        }
    }

    /// How one page is invalidated.
    pub fn page(&self, vaddr: VirtAddr) -> (r: X86Invalidation)
        ensures
            r == self.page_step(vaddr),
            r == match self.pcid {
                Some(pcid) => X86Invalidation::ContextPage(vaddr, pcid),
                None => X86Invalidation::Page(vaddr),
            },
    {
        match self.pcid {
            Some(pcid) => X86Invalidation::ContextPage(vaddr, pcid),
            None => X86Tlb.page(vaddr),
        }
    }

    /// How everything is invalidated.
    pub fn all(&self) -> (r: X86Invalidation)
        ensures
            r == self.all_step(),
            r == match self.pcid {
                Some(pcid) => X86Invalidation::Context(pcid),
                None => X86Invalidation::All,
            },
    {
        match self.pcid {
            Some(pcid) => X86Invalidation::Context(pcid),
            None => X86Tlb.all(),
        }
    }

    /// How a run of pages is invalidated: by one broadcast of the 4 KiB pages
    /// that it touches, whatever the size of its pages. What lies beyond the
    /// address space is cut off.
    pub fn range(&self, start: VirtAddr, page_size: PageSize, count_pages: u64) -> (r:
        X86Invalidation)
        ensures
            r == self.range_step(start, page_size, count_pages),
            r == (X86Invalidation::Broadcast {
                start: VirtAddr(floor_to(start.0, 0x1000)),
                pages: pages_touched(start.0, run_end(start.0, page_size, count_pages)),
                pcid: self.pcid,
                include_global: self.include_global,
            }),
    {
        let lo: u64 = start.as_u64();
        let first: u64 = lo - lo % 0x1000;
        proof {
            page_size.lemma_len();
            let (n, len) = (count_pages as int, page_size.len() as int);
            assert(0 <= n * len <= 0xffff_ffff_ffff_ffff * 0x400_0000_0000) by (nonlinear_arith)
                requires
                    0 <= n <= 0xffff_ffff_ffff_ffff,
                    0 <= len <= 0x400_0000_0000,
            ;
        }
        let end: u128 = lo as u128 + count_pages as u128 * page_size.bytes() as u128;
        let end: u128 = if end > 0x1_0000_0000_0000_0000 {
            0x1_0000_0000_0000_0000
        } else {
            end
        };
        let pages: u64 = ((end - first as u128 + 0xfff) / 0x1000) as u64;
        X86Invalidation::Broadcast {
            start: VirtAddr(first),
            pages,
            pcid: self.pcid,
            include_global: self.include_global,
        }
    }

    /// A real range instruction makes a full flush pointless: coalesced ranges
    /// are kept whatever their number.
    pub fn prefers_full(&self, pending_count: u64) -> (r: bool)
        ensures
            !r,
    {
        false
    }
}

/// Every invalidation of a tagged policy names its context and no other, and
/// that of a policy without a tag none. One page is invalidated by its address, and
/// a run by a broadcast that takes global translations in where they are asked for.
pub proof fn law_invalidations_are_scoped(
    tlb: X86InvlpgbTlb,
    vaddr: VirtAddr,
    page_size: PageSize,
    count_pages: u64,
)
    ensures
        match tlb.page_step(vaddr) {
            X86Invalidation::ContextPage(at, pcid) => at == vaddr && tlb.pcid == Some(pcid),
            X86Invalidation::Page(at) => at == vaddr && tlb.pcid is None,
            _ => false,
        },
        match tlb.all_step() {
            X86Invalidation::Context(pcid) => tlb.pcid == Some(pcid),
            X86Invalidation::All => tlb.pcid is None,
            _ => false,
        },
        tlb.range_step(vaddr, page_size, count_pages) matches X86Invalidation::Broadcast {
            start,
            pages,
            pcid,
            include_global,
        } && pcid == tlb.pcid && include_global == tlb.include_global && start.0 <= vaddr.0
            && vaddr.0 - start.0 < 0x1000 && start.0 as int % 0x1000 == 0 && (vaddr.0 + count_pages
            * page_size.len() <= u64::MAX && count_pages > 0 ==> start.0 + pages * 0x1000 >= vaddr.0
            + count_pages * page_size.len() && start.0 + pages * 0x1000 < vaddr.0 + count_pages
            * page_size.len() + 0x1000),
{
    assert(count_pages * page_size.len() >= 0) by (nonlinear_arith);
}

/// What the policies do: the plain one invalidates a page by its address and
/// everything by a CR3 reload; the one with a context does either for that
/// context alone.
pub proof fn law_policies_invalidate(
    plain: X86Tlb,
    pcid: Pcid,
    tagged: X86PcidTlb,
    vaddr: VirtAddr,
    page: X86Invalidation,
    all: X86Invalidation,
    tagged_page: X86Invalidation,
    tagged_all: X86Invalidation,
)
    requires
        call_ensures(X86PcidTlb::new, (pcid,), tagged),
        call_ensures(X86Tlb::page, (&plain, vaddr), page),
        call_ensures(X86Tlb::all, (&plain,), all),
        call_ensures(X86PcidTlb::page, (&tagged, vaddr), tagged_page),
        call_ensures(X86PcidTlb::all, (&tagged,), tagged_all),
    ensures
        page matches X86Invalidation::Page(at) && at == vaddr,
        all is All,
        tagged_page matches X86Invalidation::ContextPage(at, context) && at == vaddr && context
            == pcid,
        tagged_all matches X86Invalidation::Context(context) && context == pcid,
{
}

/// What a broadcasting policy does, from how it was made: it has no context and
/// leaves global translations alone until told otherwise; its page and full
/// flushes then name that context; a run is one broadcast, and never given up for a
/// full flush.
pub proof fn law_broadcast_policy(
    probe: Invlpgb,
    pcid: Pcid,
    plain: X86InvlpgbTlb,
    tagged: X86InvlpgbTlb,
    tlb: X86InvlpgbTlb,
    vaddr: VirtAddr,
    page_size: PageSize,
    count_pages: u64,
    page: X86Invalidation,
    all: X86Invalidation,
    plain_page: X86Invalidation,
    plain_all: X86Invalidation,
    run: X86Invalidation,
    full: bool,
)
    requires
        call_ensures(X86InvlpgbTlb::try_new, (Some(probe),), Some(plain)),
        call_ensures(X86InvlpgbTlb::with_pcid, (plain, pcid), tagged),
        call_ensures(X86InvlpgbTlb::with_global, (tagged,), tlb),
        call_ensures(X86InvlpgbTlb::page, (&tlb, vaddr), page),
        call_ensures(X86InvlpgbTlb::all, (&tlb,), all),
        call_ensures(X86InvlpgbTlb::page, (&plain, vaddr), plain_page),
        call_ensures(X86InvlpgbTlb::all, (&plain,), plain_all),
        call_ensures(X86InvlpgbTlb::range, (&tlb, vaddr, page_size, count_pages), run),
        call_ensures(X86InvlpgbTlb::prefers_full, (&tlb, count_pages), full),
    ensures
        plain.pcid is None && !plain.include_global && !tagged.include_global,
        page matches X86Invalidation::ContextPage(at, context) && at == vaddr && context == pcid,
        all matches X86Invalidation::Context(context) && context == pcid,
        plain_page matches X86Invalidation::Page(at) && at == vaddr,
        plain_all is All,
        run matches X86Invalidation::Broadcast { start, pages, pcid: context, include_global }
            && context == Some(pcid) && include_global && start.0 <= vaddr.0 && start.0 as int
            % 0x1000 == 0 && (count_pages > 0 && vaddr.0 + count_pages * page_size.len() <= u64::MAX
            ==> vaddr.0 + count_pages * page_size.len() <= start.0 + pages * 0x1000 < vaddr.0
            + count_pages * page_size.len() + 0x1000),
        !full,
{
    law_invalidations_are_scoped(tlb, vaddr, page_size, count_pages);
}

} // verus!
