//! Per-architecture entry formats and geometries.
//!
//! Each architecture module exposes concrete, named choices:
//!
//! - `<Arch>Pte{Granule}{AddrBits}`: a concrete [`crate::PageTableEntry`]
//! - `<Arch>Meta{Granule}{AddrBits}`: a concrete [`crate::PagingMetaData`]
//!
//! Frame allocation and the instructions that program the hardware belong to
//! the consumer.

use crate::addr::VirtAddr;
use vstd::arithmetic::power2::pow2;
use vstd::bits::{lemma_u64_pow2_no_overflow, lemma_u64_shl_is_mul};
use vstd::prelude::*;

pub mod aarch64;
pub mod riscv64;
pub mod x86;

verus! {

/// Whether `vaddr` is a sign-extended address of `bits` bits: all bits from
/// position `bits - 1` up are equal.
pub open spec fn canonical(vaddr: u64, bits: usize) -> bool {
    ||| bits >= 64
    ||| vaddr < pow2((bits - 1) as nat)
    ||| vaddr >= 0x1_0000_0000_0000_0000 - pow2((bits - 1) as nat)
}

/// Whether `vaddr` is a sign-extended address of `bits` bits.
pub fn canonical_vaddr_is_valid(vaddr: VirtAddr, bits: usize) -> (r: bool)
    requires
        bits >= 1,
    ensures
        r == canonical(vaddr.0, bits),
{
    let v: u64 = vaddr.as_u64();
    if bits >= 64 {
        return true;
    }
    let n: u64 = bits as u64;
    let upper: u64 = v >> n;
    let sign_set: bool = (v & (1u64 << ((n - 1) as u64))) != 0;
    proof {
        let half = 1u64 << ((n - 1) as u64);
        lemma_u64_pow2_no_overflow((n - 1) as nat);
        lemma_u64_shl_is_mul(1, (n - 1) as u64);
        let top = !((half - 1) as u64);
        assert((if (v & half) != 0 {
            (v >> n) == ((1u64 << ((64 - n) as u64)) - 1) as u64
        } else {
            (v >> n) == 0
        }) == (v < half || v >= top) && (1u64 << ((64 - n) as u64)) >= 1 && half >= 1) by (bit_vector)
            requires
                1 <= n < 64,
                half == 1u64 << ((n - 1) as u64),
                top == !((half - 1) as u64),
        ;
        assert(top == (u64::MAX - (half - 1)) as u64) by (bit_vector)
            requires
                top == !((half - 1) as u64),
                half >= 1,
        ;
    }
    if sign_set {
        upper == ((1u64 << ((64 - n) as u64)) - 1)
    } else {
        upper == 0
    }
}

/// The zero word has no bit set.
pub(crate) proof fn lemma_zero_word()
    ensures
        0u64 & 1 == 0,
{
    assert(0u64 & 1 == 0) by (bit_vector);
}

/// An address of so many bits is legal where its upper bits repeat the topmost of
/// them: it lies in the lower half of those addresses, or as far from the end of the
/// address space.
pub proof fn law_canonical_call(vaddr: VirtAddr, bits: usize, r: bool)
    requires
        1 <= bits < 64,
        call_ensures(canonical_vaddr_is_valid, (vaddr, bits), r),
    ensures
        r <==> vaddr.0 < pow2((bits - 1) as nat) || 0x1_0000_0000_0000_0000 - vaddr.0 <= pow2(
            (bits - 1) as nat,
        ),
{
}

} // verus!
