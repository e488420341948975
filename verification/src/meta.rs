//! Page sizes, access flags and memory attributes.

use vstd::arithmetic::power2::{lemma2_to64, lemma2_to64_rest, lemma_pow2_strictly_increases, pow2};
use vstd::bits::{lemma_u64_low_bits_mask_is_mod, low_bits_mask};
use vstd::prelude::*;

verus! {

/// Hardware-supported leaf page sizes.
///
/// Each [`crate::PagingMetaData`] implementation declares which sizes are
/// legal at which levels via [`crate::PagingMetaData::level_supports_leaf`].
#[derive(Clone, Copy, Debug, PartialEq, Eq, Hash, Structural)]
pub enum PageSize {
    Size4K,
    Size16K,
    Size64K,
    Size2M,
    Size32M,
    Size512M,
    Size1G,
    Size64G,
    Size512G,
    Size4T,
}

impl PageSize {
    /// The page size in bytes.
    pub open spec fn len(self) -> u64 {
        match self {
            PageSize::Size4K => 0x1000,
            PageSize::Size16K => 0x4000,
            PageSize::Size64K => 0x1_0000,
            PageSize::Size2M => 0x20_0000,
            PageSize::Size32M => 0x200_0000,
            PageSize::Size512M => 0x2000_0000,
            PageSize::Size1G => 0x4000_0000,
            PageSize::Size64G => 0x10_0000_0000,
            PageSize::Size512G => 0x80_0000_0000,
            PageSize::Size4T => 0x400_0000_0000,
        }
    }

    /// The binary logarithm of the page size.
    pub open spec fn shift(self) -> u32 {
        match self {
            PageSize::Size4K => 12,
            PageSize::Size16K => 14,
            PageSize::Size64K => 16,
            PageSize::Size2M => 21,
            PageSize::Size32M => 25,
            PageSize::Size512M => 29,
            PageSize::Size1G => 30,
            PageSize::Size64G => 36,
            PageSize::Size512G => 39,
            PageSize::Size4T => 42,
        }
    }

    /// The size of `pow2(shift)` bytes, if there is one.
    pub open spec fn of_shift(shift: u32) -> Option<PageSize> {
        if exists|s: PageSize| s.shift() == shift {
            Some(choose|s: PageSize| s.shift() == shift)
        } else {
            None
        }
    }

    /// The size of exactly `bytes` bytes, if there is one.
    pub open spec fn of_len(bytes: u64) -> Option<PageSize> {
        if exists|s: PageSize| s.len() == bytes {
            Some(choose|s: PageSize| s.len() == bytes)
        } else {
            None
        }
    }

    /// Every page size is the power of two that its shift names.
    pub proof fn lemma_len(self)
        ensures
            self.len() == pow2(self.shift() as nat),
            self.len() == low_bits_mask(self.shift() as nat) + 1,
            0x1000 <= self.len() <= 0x400_0000_0000,
            self.len() % 0x1000 == 0,
            self.len() % 8 == 0,
    {
        lemma2_to64();
        lemma2_to64_rest();
    }

    /// A length names at most one size, and so does a shift.
    pub proof fn lemma_unique(self)
        ensures
            Self::of_len(self.len()) == Some(self),
            Self::of_shift(self.shift()) == Some(self),
    {
    }

    /// The size that a shift names has that shift.
    pub proof fn lemma_of_shift(shift: u32)
        ensures
            Self::of_shift(shift) matches Some(size) ==> size.shift() == shift,
    {
        if exists|s: PageSize| s.shift() == shift {
            let size: PageSize = choose|s: PageSize| s.shift() == shift;
            assert(size.shift() == shift);
        }
    }

    /// A page size has as many bytes as its name says, in binary units.
    pub proof fn law_named_bytes(self)
        ensures
            self.len() == match self {
                PageSize::Size4K => 4 * 1024,
                PageSize::Size16K => 16 * 1024,
                PageSize::Size64K => 64 * 1024,
                PageSize::Size2M => 2 * 1024 * 1024,
                PageSize::Size32M => 32 * 1024 * 1024,
                PageSize::Size512M => 512 * 1024 * 1024,
                PageSize::Size1G => 1024 * 1024 * 1024,
                PageSize::Size64G => 64 * 1024 * 1024 * 1024,
                PageSize::Size512G => 512 * 1024 * 1024 * 1024,
                PageSize::Size4T => 4 * 1024 * 1024 * 1024 * 1024,
            },
    {
    }

    /// The page size in bytes.
    pub fn bytes(self) -> (r: u64)
        ensures
            r == self.len(),
    {
        match self {
            PageSize::Size4K => 0x1000,
            PageSize::Size16K => 0x4000,
            PageSize::Size64K => 0x1_0000,
            PageSize::Size2M => 0x20_0000,
            PageSize::Size32M => 0x200_0000,
            PageSize::Size512M => 0x2000_0000,
            PageSize::Size1G => 0x4000_0000,
            PageSize::Size64G => 0x10_0000_0000,
            PageSize::Size512G => 0x80_0000_0000,
            PageSize::Size4T => 0x400_0000_0000,
        }
    }

    /// Whether the page is larger than the 4 KiB base page.
    pub fn is_huge(self) -> (r: bool)
        ensures
            r == (self != PageSize::Size4K),
    {
        !matches!(self, PageSize::Size4K)
    }

    /// Whether `value` is a multiple of the page size.
    pub fn is_aligned(self, value: u64) -> (r: bool)
        ensures
            r == (value % self.len() == 0),
    {
        proof {
            self.lemma_len();
            lemma_u64_low_bits_mask_is_mod(value, self.shift() as nat);
        }
        (value & (self.bytes() - 1)) == 0
    }

    /// The page size of exactly `bytes` bytes.
    pub fn from_bytes(bytes: u64) -> (r: Option<Self>)
        ensures
            r == Self::of_len(bytes),
            match r {
                Some(s) => s.len() == bytes,
                None => forall|s: PageSize| s.len() != bytes,
            },
    {
        let r: Option<PageSize> = match bytes {
            0x1000 => Some(PageSize::Size4K),
            0x4000 => Some(PageSize::Size16K),
            0x1_0000 => Some(PageSize::Size64K),
            0x20_0000 => Some(PageSize::Size2M),
            0x200_0000 => Some(PageSize::Size32M),
            0x2000_0000 => Some(PageSize::Size512M),
            0x4000_0000 => Some(PageSize::Size1G),
            0x10_0000_0000 => Some(PageSize::Size64G),
            0x80_0000_0000 => Some(PageSize::Size512G),
            0x400_0000_0000 => Some(PageSize::Size4T),
            _ => None,
        };
        proof {
            if let Some(s) = r {
                s.lemma_unique();
            }
        }
        r
    }

    /// The page size of `1 << shift` bytes.
    pub fn from_shift(shift: u32) -> (r: Option<Self>)
        ensures
            r == Self::of_shift(shift),
            match r {
                Some(s) => s.shift() == shift,
                None => forall|s: PageSize| s.shift() != shift,
            },
    {
        let r: Option<PageSize> = match shift {
            12 => Some(PageSize::Size4K),
            14 => Some(PageSize::Size16K),
            16 => Some(PageSize::Size64K),
            21 => Some(PageSize::Size2M),
            25 => Some(PageSize::Size32M),
            29 => Some(PageSize::Size512M),
            30 => Some(PageSize::Size1G),
            36 => Some(PageSize::Size64G),
            39 => Some(PageSize::Size512G),
            42 => Some(PageSize::Size4T),
            _ => None,
        };
        proof {
            if let Some(s) = r {
                s.lemma_unique();
            }
        }
        r
    }
}

/// Access-permission bits for a page mapping.
///
/// Split from [`CachePolicy`] so cache policy stays a first-class enum
/// rather than an ad-hoc pair of bits.
#[derive(Clone, Copy, Debug, PartialEq, Eq, Hash, Structural)]
pub struct AccessFlags {
    read: bool,
    write: bool,
    execute: bool,
    user: bool,
    global: bool,
}

/// The five flags as bits, lowest first.
pub open spec fn packed(read: bool, write: bool, execute: bool, user: bool, global: bool) -> u8 {
    (if read {
        1u8
    } else {
        0
    }) | (if write {
        2u8
    } else {
        0
    }) | (if execute {
        4u8
    } else {
        0
    }) | (if user {
        8u8
    } else {
        0
    }) | (if global {
        16u8
    } else {
        0
    })
}

/// Packed flags hold the five bits that they were packed from and no others.
proof fn lemma_packed(read: bool, write: bool, execute: bool, user: bool, global: bool)
    ensures
        ({
            let mask = packed(read, write, execute, user, global);
            &&& mask & 0x1f == mask
            &&& (mask & 1 != 0) == read
            &&& (mask & 2 != 0) == write
            &&& (mask & 4 != 0) == execute
            &&& (mask & 8 != 0) == user
            &&& (mask & 16 != 0) == global
        }),
{
    let mask = packed(read, write, execute, user, global);
    assert(mask & 0x1f == mask && (mask & 1 != 0) == read && (mask & 2 != 0) == write && (mask & 4
        != 0) == execute && (mask & 8 != 0) == user && (mask & 16 != 0) == global) by (bit_vector)
        requires
            mask == (if read {
                1u8
            } else {
                0
            }) | (if write {
                2u8
            } else {
                0
            }) | (if execute {
                4u8
            } else {
                0
            }) | (if user {
                8u8
            } else {
                0
            }) | (if global {
                16u8
            } else {
                0
            }),
    ;
}

/// Two masks of five bits are equal if they agree on each of them.
proof fn lemma_five_bits(a: u8, b: u8)
    requires
        a & 0x1f == a,
        b & 0x1f == b,
        (a & 1 != 0) == (b & 1 != 0),
        (a & 2 != 0) == (b & 2 != 0),
        (a & 4 != 0) == (b & 4 != 0),
        (a & 8 != 0) == (b & 8 != 0),
        (a & 16 != 0) == (b & 16 != 0),
    ensures
        a == b,
{
    assert(a == b) by (bit_vector)
        requires
            a & 0x1f == a,
            b & 0x1f == b,
            (a & 1 != 0) == (b & 1 != 0),
            (a & 2 != 0) == (b & 2 != 0),
            (a & 4 != 0) == (b & 4 != 0),
            (a & 8 != 0) == (b & 8 != 0),
            (a & 16 != 0) == (b & 16 != 0),
    ;
}

/// How the bits of a mask combine with those of another.
proof fn lemma_mask_bits(a: u8, b: u8)
    ensures
        (a | b) & 1 != 0 <==> a & 1 != 0 || b & 1 != 0,
        (a | b) & 2 != 0 <==> a & 2 != 0 || b & 2 != 0,
        (a | b) & 4 != 0 <==> a & 4 != 0 || b & 4 != 0,
        (a | b) & 8 != 0 <==> a & 8 != 0 || b & 8 != 0,
        (a | b) & 16 != 0 <==> a & 16 != 0 || b & 16 != 0,
        (a & b) & 1 != 0 <==> a & 1 != 0 && b & 1 != 0,
        (a & b) & 2 != 0 <==> a & 2 != 0 && b & 2 != 0,
        (a & b) & 4 != 0 <==> a & 4 != 0 && b & 4 != 0,
        (a & b) & 8 != 0 <==> a & 8 != 0 && b & 8 != 0,
        (a & b) & 16 != 0 <==> a & 16 != 0 && b & 16 != 0,
        a & 0x1f == a && b & 0x1f == b ==> (a | b) & 0x1f == a | b && (a & b) & 0x1f == a & b,
        (a & 0x1f) & 0x1f == a & 0x1f,
        (a & 0x1f) & 1 == a & 1,
        (a & 0x1f) & 2 == a & 2,
        (a & 0x1f) & 4 == a & 4,
        (a & 0x1f) & 8 == a & 8,
        (a & 0x1f) & 16 == a & 16,
        a & 1 == 0 || a & 1 == 1,
        a & 2 == 0 || a & 2 == 2,
        a & 4 == 0 || a & 4 == 4,
        a & 8 == 0 || a & 8 == 8,
        a & 16 == 0 || a & 16 == 16,
        0u8 & a == 0,
{
    assert(((a | b) & 1 != 0 <==> a & 1 != 0 || b & 1 != 0) && ((a | b) & 2 != 0 <==> a & 2 != 0 ||
        b & 2 != 0) && ((a | b) & 4 != 0 <==> a & 4 != 0 || b & 4 != 0) && ((a | b) & 8 != 0 <==> a
        & 8 != 0 || b & 8 != 0) && ((a | b) & 16 != 0 <==> a & 16 != 0 || b & 16 != 0) && ((a & b)
        & 1 != 0 <==> a & 1 != 0 && b & 1 != 0) && ((a & b) & 2 != 0 <==> a & 2 != 0 && b & 2 != 0)
        && ((a & b) & 4 != 0 <==> a & 4 != 0 && b & 4 != 0) && ((a & b) & 8 != 0 <==> a & 8 != 0 &&
        b & 8 != 0) && ((a & b) & 16 != 0 <==> a & 16 != 0 && b & 16 != 0) && (a & 0x1f == a && b &
        0x1f == b ==> (a | b) & 0x1f == a | b && (a & b) & 0x1f == a & b) && (a & 0x1f) & 0x1f == a
        & 0x1f && (a & 0x1f) & 1 == a & 1 && (a & 0x1f) & 2 == a & 2 && (a & 0x1f) & 4 == a & 4 &&
        (a & 0x1f) & 8 == a & 8 && (a & 0x1f) & 16 == a & 16 && (a & 1 == 0 || a & 1 == 1) && (a &
        2 == 0 || a & 2 == 2) && (a & 4 == 0 || a & 4 == 4) && (a & 8 == 0 || a & 8 == 8) && (a &
        16 == 0 || a & 16 == 16) && 0u8 & a == 0) by (bit_vector);
}

impl AccessFlags {
    /// The raw permission bits.
    pub closed spec fn view(self) -> u8 {
        packed(self.read, self.write, self.execute, self.user, self.global)
    }

    /// The flags named by the five defined bits of `mask`.
    pub closed spec fn of(mask: u8) -> Self {
        AccessFlags {
            read: mask & 1 != 0,
            write: mask & 2 != 0,
            execute: mask & 4 != 0,
            user: mask & 8 != 0,
            global: mask & 16 != 0,
        }
    }

    /// Whether every bit of `mask` is set.
    pub open spec fn has(self, mask: u8) -> bool {
        (self@ & mask) == mask
    }

    /// Flags hold the five defined bits and no others, and are determined by
    /// them.
    pub proof fn law_five_bits(self, mask: u8)
        ensures
            self@ & 0x1f == self@,
            Self::of(self@) == self,
            Self::of(mask)@ == mask & 0x1f,
            Self::of(mask & 0x1f) == Self::of(mask),
            Self::of(mask & 0x1f)@ == mask & 0x1f,
    {
        lemma_packed(self.read, self.write, self.execute, self.user, self.global);
        let f = Self::of(mask);
        lemma_packed(f.read, f.write, f.execute, f.user, f.global);
        lemma_mask_bits(mask, mask);
        lemma_five_bits(f@, mask & 0x1f);
    }

    /// There are no flags exactly if none of the five is among them, and exactly
    /// if they do not meet themselves.
    pub proof fn law_empty(self)
        ensures
            self@ == 0 <==> !self.has(1) && !self.has(2) && !self.has(4) && !self.has(8)
                && !self.has(16),
            self@ == 0 <==> self == Self::of(0),
            self@ == 0 <==> (self@ & self@) == 0,
            self.has(0),
            self@ | 0 == self@,
            self@ & 0 == 0,
    {
        let a = self@;
        lemma_packed(self.read, self.write, self.execute, self.user, self.global);
        lemma_mask_bits(a, 0);
        self.law_five_bits(0);
        assert(a & a == a && a | 0 == a && a & 0 == 0 && 0u8 & 0x1f == 0 && 0u8 & 1 == 0 && 0u8 & 2
            == 0 && 0u8 & 4 == 0 && 0u8 & 8 == 0 && 0u8 & 16 == 0) by (bit_vector);
        if a & 1 == 0 && a & 2 == 0 && a & 4 == 0 && a & 8 == 0 && a & 16 == 0 {
            lemma_mask_bits(0, 0);
            lemma_five_bits(a, 0);
        }
    }

    /// Flags have a mask of defined bits exactly if they have each of its bits.
    pub proof fn law_has_each(self, mask: u8)
        requires
            mask & 0x1f == mask,
        ensures
            self.has(mask) <==> {
                &&& mask & 1 != 0 ==> self@ & 1 != 0
                &&& mask & 2 != 0 ==> self@ & 2 != 0
                &&& mask & 4 != 0 ==> self@ & 4 != 0
                &&& mask & 8 != 0 ==> self@ & 8 != 0
                &&& mask & 16 != 0 ==> self@ & 16 != 0
            },
    {
        lemma_packed(self.read, self.write, self.execute, self.user, self.global);
        lemma_mask_bits(self@, mask);
        if (mask & 1 != 0 ==> self@ & 1 != 0) && (mask & 2 != 0 ==> self@ & 2 != 0) && (mask & 4
            != 0 ==> self@ & 4 != 0) && (mask & 8 != 0 ==> self@ & 8 != 0) && (mask & 16 != 0
            ==> self@ & 16 != 0) {
            lemma_five_bits(self@ & mask, mask);
        }
    }

    /// Loads are permitted.
    pub fn read() -> (r: Self)
        ensures
            r == Self::of(1),
            r@ == 1,
    {
        Self::from_bits_truncate(1)
    }

    /// Stores are permitted.
    pub fn write() -> (r: Self)
        ensures
            r == Self::of(2),
            r@ == 2,
    {
        Self::from_bits_truncate(2)
    }

    /// Instruction fetches are permitted.
    pub fn execute() -> (r: Self)
        ensures
            r == Self::of(4),
            r@ == 4,
    {
        Self::from_bits_truncate(4)
    }

    /// Unprivileged code may use the mapping.
    pub fn user() -> (r: Self)
        ensures
            r == Self::of(8),
            r@ == 8,
    {
        Self::from_bits_truncate(8)
    }

    /// The mapping is shared by every address space.
    pub fn global() -> (r: Self)
        ensures
            r == Self::of(16),
            r@ == 16,
    {
        Self::from_bits_truncate(16)
    }

    /// No permission at all.
    pub fn empty() -> (r: Self)
        ensures
            r == Self::of(0),
            r@ == 0,
    {
        Self::from_bits_truncate(0)
    }

    /// The raw bits.
    pub fn bits(self) -> (r: u8)
        ensures
            r == self@,
            r & 0x1f == r,
            Self::of(r) == self,
    {
        proof {
            self.law_five_bits(0);
        }
        let read: u8 = if self.read {
            1
        } else {
            0
        };
        let write: u8 = if self.write {
            2
        } else {
            0
        };
        let execute: u8 = if self.execute {
            4
        } else {
            0
        };
        let user: u8 = if self.user {
            8
        } else {
            0
        };
        let global: u8 = if self.global {
            16
        } else {
            0
        };
        read | write | execute | user | global
    }

    /// The flags named by the five defined bits of `bits`; the rest are dropped.
    pub fn from_bits_truncate(bits: u8) -> (r: Self)
        ensures
            r == Self::of(bits & 0x1f),
            r == Self::of(bits),
            r@ == bits & 0x1f,
            bits <= 0x1f ==> r@ == bits,
    {
        proof {
            Self::of(bits).law_five_bits(bits);
            assert(bits <= 0x1f ==> bits & 0x1f == bits) by (bit_vector);
        }
        AccessFlags {
            read: bits & 1 != 0,
            write: bits & 2 != 0,
            execute: bits & 4 != 0,
            user: bits & 8 != 0,
            global: bits & 16 != 0,
        }
    }

    /// Whether no bit is set.
    pub fn is_empty(self) -> (r: bool)
        ensures
            r == (self@ == 0),
            r == (self == Self::of(0)),
            r == (!self.has(1) && !self.has(2) && !self.has(4) && !self.has(8) && !self.has(16)),
    {
        proof {
            self.law_empty();
        }
        self.bits() == 0
    }

    /// Whether every bit of `other` is set.
    pub fn contains(self, other: Self) -> (r: bool)
        ensures
            r == self.has(other@),
    {
        (self.bits() & other.bits()) == other.bits()
    }

    /// Whether some bit of `other` is set.
    pub fn intersects(self, other: Self) -> (r: bool)
        ensures
            r == ((self@ & other@) != 0),
    {
        (self.bits() & other.bits()) != 0
    }

    /// The bits of either.
    pub fn union(self, other: Self) -> (r: Self)
        ensures
            r == Self::of(self@ | other@),
            r@ == self@ | other@,
    {
        proof {
            self.law_five_bits(0);
            other.law_five_bits(0);
            lemma_mask_bits(self@, other@);
        }
        Self::from_bits_truncate(self.bits() | other.bits())
    }

    /// The bits of both.
    fn intersection(self, other: Self) -> (r: Self)
        ensures
            r == Self::of(self@ & other@),
            r@ == self@ & other@,
    {
        proof {
            self.law_five_bits(0);
            other.law_five_bits(0);
            lemma_mask_bits(self@, other@);
        }
        Self::from_bits_truncate(self.bits() & other.bits())
    }
}

impl Default for AccessFlags {
    fn default() -> (r: Self)
        ensures
            r == Self::of(0),
            r@ == 0,
    {
        Self::empty()
    }
}

impl core::ops::BitOr for AccessFlags {
    type Output = AccessFlags;

    fn bitor(self, rhs: AccessFlags) -> (r: AccessFlags)
        ensures
            r@ == self@ | rhs@,
    {
        self.union(rhs)
    }
}

impl vstd::std_specs::ops::BitOrSpecImpl for AccessFlags {
    open spec fn obeys_bitor_spec() -> bool {
        true
    }

    open spec fn bitor_req(self, rhs: AccessFlags) -> bool {
        true
    }

    open spec fn bitor_spec(self, rhs: AccessFlags) -> AccessFlags {
        AccessFlags::of(self@ | rhs@)
    }
}

impl core::ops::BitAnd for AccessFlags {
    type Output = AccessFlags;

    fn bitand(self, rhs: AccessFlags) -> (r: AccessFlags)
        ensures
            r@ == self@ & rhs@,
    {
        self.intersection(rhs)
    }
}

impl vstd::std_specs::ops::BitAndSpecImpl for AccessFlags {
    open spec fn obeys_bitand_spec() -> bool {
        true
    }

    open spec fn bitand_req(self, rhs: AccessFlags) -> bool {
        true
    }

    open spec fn bitand_spec(self, rhs: AccessFlags) -> AccessFlags {
        AccessFlags::of(self@ & rhs@)
    }
}

impl core::ops::BitOrAssign for AccessFlags {
    fn bitor_assign(&mut self, rhs: AccessFlags)
        ensures
            final(self)@ == old(self)@ | rhs@,
    {
        *self = self.union(rhs);
    }
}

impl core::ops::BitAndAssign for AccessFlags {
    fn bitand_assign(&mut self, rhs: AccessFlags)
        ensures
            final(self)@ == old(self)@ & rhs@,
    {
        *self = self.intersection(rhs);
    }
}

/// Cache behavior for a page mapping.
///
/// Per-arch encoders translate to:
/// - x86_64: PAT/PWT/PCD bit triples.
/// - aarch64: MAIR_EL1 index.
/// - riscv64: Svpbmt bits when supported; clamped to `Writeback` otherwise.
#[derive(Clone, Copy, Debug, PartialEq, Eq, Hash, Structural)]
pub enum CachePolicy {
    /// Cached, write-back: the default for RAM.
    Writeback,
    /// Strongly uncached: MMIO register frames.
    Uncached,
    /// Write-combining: framebuffer or GPU scratch.
    WriteCombine,
    /// Write-through.
    WriteThrough,
}

impl Default for CachePolicy {
    fn default() -> (r: Self)
        ensures
            r == CachePolicy::Writeback,
    {
        CachePolicy::Writeback
    }
}

/// Hardware-visible sharing domain for mappings that support one.
///
/// Some architectures fold this into cacheability, some expose explicit
/// descriptor bits, and x86 CPU paging ignores it because coherent cache
/// sharing is architectural.
#[derive(Clone, Copy, Debug, PartialEq, Eq, Hash, Structural)]
pub enum Shareability {
    /// No hardware sharing domain requested.
    NonShareable,
    /// Inner-domain sharing, commonly the CPU cluster.
    Inner,
    /// Outer-domain sharing.
    Outer,
    /// System-wide sharing domain.
    System,
}

impl Default for Shareability {
    fn default() -> (r: Self)
        ensures
            r == Shareability::Inner,
    {
        Shareability::Inner
    }
}

/// Coherency expectation for a mapping.
#[derive(Clone, Copy, Debug, PartialEq, Eq, Hash, Structural)]
pub enum Coherency {
    /// Hardware does not maintain coherence for this mapping.
    NonCoherent,
    /// Hardware maintains coherence for this mapping.
    Coherent,
}

impl Default for Coherency {
    fn default() -> (r: Self)
        ensures
            r == Coherency::Coherent,
    {
        Coherency::Coherent
    }
}

/// Target-neutral memory attributes carried by per-arch mapping flags.
#[derive(Clone, Copy, Debug, PartialEq, Eq, Hash, Structural)]
pub struct MemoryAttributes {
    pub cache: CachePolicy,
    pub shareability: Shareability,
    pub coherency: Coherency,
}

impl Default for MemoryAttributes {
    fn default() -> (r: Self)
        ensures
            r == Self::ram(),
    {
        Self::writeback()
    }
}

impl MemoryAttributes {
    /// Write-back, inner-shareable, coherent memory.
    pub open spec fn ram() -> Self {
        MemoryAttributes {
            cache: CachePolicy::Writeback,
            shareability: Shareability::Inner,
            coherency: Coherency::Coherent,
        }
    }

    pub fn new(cache: CachePolicy, shareability: Shareability, coherency: Coherency) -> (r: Self)
        ensures
            r == (MemoryAttributes { cache, shareability, coherency }),
    {
        MemoryAttributes { cache, shareability, coherency }
    }

    /// Write-back, inner-shareable, coherent memory.
    pub fn writeback() -> (r: Self)
        ensures
            r == Self::ram(),
    {
        Self::new(CachePolicy::Writeback, Shareability::Inner, Coherency::Coherent)
    }

    pub fn with_cache(self, cache: CachePolicy) -> (r: Self)
        ensures
            r == (MemoryAttributes { cache, ..self }),
    {
        MemoryAttributes { cache, ..self }
    }

    pub fn with_shareability(self, shareability: Shareability) -> (r: Self)
        ensures
            r == (MemoryAttributes { shareability, ..self }),
    {
        MemoryAttributes { shareability, ..self }
    }

    pub fn with_coherency(self, coherency: Coherency) -> (r: Self)
        ensures
            r == (MemoryAttributes { coherency, ..self }),
    {
        MemoryAttributes { coherency, ..self }
    }

    pub fn cache(self) -> (r: CachePolicy)
        ensures
            r == self.cache,
    {
        self.cache
    }

    pub fn shareability(self) -> (r: Shareability)
        ensures
            r == self.shareability,
    {
        self.shareability
    }

    pub fn coherency(self) -> (r: Coherency)
        ensures
            r == self.coherency,
    {
        self.coherency
    }
}

/// An address aligned to a page size is aligned to every smaller one.
pub(crate) proof fn lemma_granule_divides(paddr: u64, size: PageSize)
    requires
        paddr % size.len() == 0,
    ensures
        paddr % 0x1000 == 0,
        size.len() >= 0x4000 ==> paddr % 0x4000 == 0,
        size.len() >= 0x1_0000 ==> paddr % 0x1_0000 == 0,
{
    match size {
        PageSize::Size4K => assert(paddr % 0x1000 == 0),
        PageSize::Size16K => assert(paddr % 0x4000 == 0),
        PageSize::Size64K => assert(paddr % 0x1_0000 == 0),
        PageSize::Size2M => assert(paddr % 0x20_0000 == 0),
        PageSize::Size32M => assert(paddr % 0x200_0000 == 0),
        PageSize::Size512M => assert(paddr % 0x2000_0000 == 0),
        PageSize::Size1G => assert(paddr % 0x4000_0000 == 0),
        PageSize::Size64G => assert(paddr % 0x10_0000_0000 == 0),
        PageSize::Size512G => assert(paddr % 0x80_0000_0000 == 0),
        PageSize::Size4T => assert(paddr % 0x400_0000_0000 == 0),
    }
}

/// Page sizes and byte counts: a value is aligned to a size where it is a multiple
/// of its bytes; every size is found by its bytes and by their binary logarithm, and
/// no other value names one; the sizes above 4 KiB are huge.
pub proof fn law_sizes_are_their_bytes(
    size: PageSize,
    value: u64,
    shift: u32,
    bytes: u64,
    aligned: bool,
    huge: bool,
    named: Option<PageSize>,
    shifted: Option<PageSize>,
)
    requires
        call_ensures(PageSize::bytes, (size,), bytes),
        call_ensures(PageSize::is_aligned, (size, value), aligned),
        call_ensures(PageSize::is_huge, (size,), huge),
        call_ensures(PageSize::from_bytes, (value,), named),
        call_ensures(PageSize::from_shift, (shift,), shifted),
    ensures
        bytes == size.len(),
        aligned <==> value as int % bytes as int == 0,
        huge <==> bytes > 4096,
        named == Some(size) <==> value == bytes,
        shifted == Some(size) <==> bytes == pow2(shift as nat),
{
    size.lemma_len();
    size.lemma_unique();
    if bytes == pow2(shift as nat) {
        if size.shift() < shift {
            lemma_pow2_strictly_increases(
                size.shift() as nat,
                shift as nat,
            );
        } else if shift < size.shift() {
            lemma_pow2_strictly_increases(
                shift as nat,
                size.shift() as nat,
            );
        }
    }
}

/// Flags are sets of permissions: a union has what either has, flags contain others
/// where they have all that those have, meet others where they share one, and
/// are empty where they have none.
pub proof fn law_flags_are_sets(
    a: AccessFlags,
    b: AccessFlags,
    union: AccessFlags,
    contains: bool,
    intersects: bool,
    empty: bool,
)
    requires
        call_ensures(AccessFlags::union, (a, b), union),
        call_ensures(AccessFlags::contains, (a, b), contains),
        call_ensures(AccessFlags::intersects, (a, b), intersects),
        call_ensures(AccessFlags::is_empty, (a,), empty),
    ensures
        union@ & 1 != 0 <==> a@ & 1 != 0 || b@ & 1 != 0,
        union@ & 2 != 0 <==> a@ & 2 != 0 || b@ & 2 != 0,
        union@ & 4 != 0 <==> a@ & 4 != 0 || b@ & 4 != 0,
        union@ & 8 != 0 <==> a@ & 8 != 0 || b@ & 8 != 0,
        union@ & 16 != 0 <==> a@ & 16 != 0 || b@ & 16 != 0,
        contains <==> {
            &&& b@ & 1 != 0 ==> a@ & 1 != 0
            &&& b@ & 2 != 0 ==> a@ & 2 != 0
            &&& b@ & 4 != 0 ==> a@ & 4 != 0
            &&& b@ & 8 != 0 ==> a@ & 8 != 0
            &&& b@ & 16 != 0 ==> a@ & 16 != 0
        },
        intersects <==> {
            ||| a@ & 1 != 0 && b@ & 1 != 0
            ||| a@ & 2 != 0 && b@ & 2 != 0
            ||| a@ & 4 != 0 && b@ & 4 != 0
            ||| a@ & 8 != 0 && b@ & 8 != 0
            ||| a@ & 16 != 0 && b@ & 16 != 0
        },
        empty <==> a@ & 1 == 0 && a@ & 2 == 0 && a@ & 4 == 0 && a@ & 8 == 0 && a@ & 16 == 0,
{
    a.law_five_bits(0);
    b.law_five_bits(0);
    a.law_empty();
    a.law_has_each(b@);
    lemma_mask_bits(a@, b@);
    lemma_mask_bits(0x1f, 0);
    lemma_mask_bits(1, 0);
    lemma_mask_bits(2, 0);
    lemma_mask_bits(4, 0);
    lemma_mask_bits(8, 0);
    lemma_mask_bits(16, 0);
    let both = a@ & b@;
    if both & 1 == 0 && both & 2 == 0 && both & 4 == 0 && both & 8 == 0 && both & 16 == 0 {
        lemma_five_bits(both, 0);
    }
}

/// Attributes are what they were made of, the plain ones write-back, inner-shareable
/// and coherent, and a replacement changes nothing else.
pub proof fn law_attributes_keep_their_parts(
    plain: MemoryAttributes,
    attrs: MemoryAttributes,
    cache: CachePolicy,
    shareability: Shareability,
    coherency: Coherency,
    made: MemoryAttributes,
    cached: MemoryAttributes,
    shared: MemoryAttributes,
    coherent: MemoryAttributes,
    read: (CachePolicy, Shareability, Coherency),
)
    requires
        call_ensures(MemoryAttributes::writeback, (), plain),
        call_ensures(MemoryAttributes::new, (cache, shareability, coherency), made),
        call_ensures(MemoryAttributes::with_cache, (attrs, cache), cached),
        call_ensures(MemoryAttributes::with_shareability, (attrs, shareability), shared),
        call_ensures(MemoryAttributes::with_coherency, (attrs, coherency), coherent),
        call_ensures(MemoryAttributes::cache, (attrs,), read.0),
        call_ensures(MemoryAttributes::shareability, (attrs,), read.1),
        call_ensures(MemoryAttributes::coherency, (attrs,), read.2),
    ensures
        plain.cache == CachePolicy::Writeback && plain.shareability == Shareability::Inner
            && plain.coherency == Coherency::Coherent,
        made.cache == cache && made.shareability == shareability && made.coherency == coherency,
        cached.cache == cache && cached.shareability == attrs.shareability && cached.coherency
            == attrs.coherency,
        shared.shareability == shareability && shared.cache == attrs.cache && shared.coherency
            == attrs.coherency,
        coherent.coherency == coherency && coherent.cache == attrs.cache && coherent.shareability
            == attrs.shareability,
        read.0 == attrs.cache && read.1 == attrs.shareability && read.2 == attrs.coherency,
{
}

} // verus!
