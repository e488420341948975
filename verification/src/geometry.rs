//! Which addresses a leaf covers.
//!
//! The walker sees an address as a sequence of table slots. In a regular
//! geometry, where the index bits of the levels adjoin and determine what lies
//! above them, two addresses take the same slots down to a level exactly if
//! they lie in the same aligned block of that level's size.

use crate::arch::canonical;
use crate::meta::PageSize;
use crate::paging::{fits_bits, PagingMetaData};
use crate::tree::{layout_ok, same_path, slot_of};
use vstd::arithmetic::div_mod::{
    lemma_breakdown, lemma_div_denominator, lemma_fundamental_div_mod,
    lemma_fundamental_div_mod_converse, lemma_mod_bound,
};
use vstd::arithmetic::power2::{
    lemma2_to64, lemma2_to64_rest, lemma_pow2_adds, lemma_pow2_pos, lemma_pow2_strictly_increases,
    pow2,
};
use vstd::prelude::*;

verus! {

/// `a` without its lowest `bits` bits.
pub open spec fn block(a: u64, bits: nat) -> int {
    a as int / pow2(bits) as int
}

/// Whether legal addresses that take the same topmost slot agree in all their
/// bits from that slot's on.
pub open spec fn top_determined<Meta: PagingMetaData>() -> bool {
    forall|a: u64, b: u64|
        #![trigger Meta::in_range(a), Meta::in_range(b)]
        Meta::in_range(a) && Meta::in_range(b) && slot_of::<Meta>(Meta::LEVELS as u8, a)
            == slot_of::<Meta>(Meta::LEVELS as u8, b) ==> block(
            a,
            Meta::shift(Meta::LEVELS as u8) as nat,
        ) == block(b, Meta::shift(Meta::LEVELS as u8) as nat)
}

/// Whether a geometry is regular: the index bits of each level adjoin those of
/// the next, and a legal address is determined by its slots and the bits below
/// them.
pub open spec fn regular<Meta: PagingMetaData>() -> bool {
    &&& layout_ok::<Meta>()
    &&& forall|level: u8|
        1 <= level < Meta::LEVELS ==> #[trigger] Meta::shift(level) + Meta::index_bits(level)
            == Meta::shift((level + 1) as u8)
    &&& top_determined::<Meta>()
}

/// Where the index bits of a geometry end.
pub open spec fn index_end<Meta: PagingMetaData>() -> int {
    Meta::shift(Meta::LEVELS as u8) + Meta::index_bits(Meta::LEVELS as u8)
}

/// Whether leaves are as large as the blocks of their level.
pub open spec fn leaves_fill_blocks<Meta: PagingMetaData>() -> bool {
    forall|level: u8, size: PageSize| #[trigger]
        Meta::supports(level, size) ==> size.shift() == Meta::shift(level)
}

/// Whether every block that is as large as a page size can be a leaf.
pub open spec fn blocks_are_leaves<Meta: PagingMetaData>() -> bool {
    forall|level: u8, size: PageSize|
        1 <= level <= Meta::LEVELS && size.shift() == Meta::shift(level)
            ==> #[trigger] Meta::supports(level, size)
}

/// Whether every table below the root is full: its index bits select each of its
/// entries.
pub open spec fn tables_full<Meta: PagingMetaData>() -> bool {
    forall|level: u8|
        1 <= level < Meta::LEVELS ==> pow2(#[trigger] Meta::index_bits(level) as nat)
            == Meta::ENTRIES_PER_TABLE
}

/// A block is a block of the next level and a slot.
proof fn lemma_block_step<Meta: PagingMetaData>(a: u64, level: u8)
    ensures
        block(a, Meta::shift(level) as nat) == pow2(Meta::index_bits(level) as nat) * block(
            a,
            (Meta::shift(level) + Meta::index_bits(level)) as nat,
        ) + slot_of::<Meta>(level, a),
{
    let s = Meta::shift(level) as nat;
    let n = Meta::index_bits(level) as nat;
    lemma_pow2_pos(s);
    lemma_pow2_pos(n);
    lemma_pow2_adds(s, n);
    lemma_div_denominator(a as int, pow2(s) as int, pow2(n) as int);
    lemma_fundamental_div_mod(block(a, s), pow2(n) as int);
}

/// The top bit of the topmost slot is the bit below the end of the index bits.
proof fn lemma_top_bit<Meta: PagingMetaData>(a: u64)
    requires
        Meta::index_bits(Meta::LEVELS as u8) >= 1,
    ensures
        block(a, (index_end::<Meta>() - 1) as nat) % 2 == slot_of::<Meta>(Meta::LEVELS as u8, a)
            / pow2((Meta::index_bits(Meta::LEVELS as u8) - 1) as nat) as int,
{
    let top = Meta::LEVELS as u8;
    let s = Meta::shift(top) as nat;
    let n = (Meta::index_bits(top) - 1) as nat;
    let x = block(a, s);
    let y = pow2(n) as int;
    lemma_pow2_pos(s);
    lemma_pow2_pos(n);
    lemma_pow2_adds(n, 1);
    lemma_pow2_adds(s, n);
    lemma2_to64();
    lemma_div_denominator(a as int, pow2(s) as int, y);
    vstd::arithmetic::div_mod::lemma_div_pos_is_pos(a as int, pow2(s) as int);
    lemma_breakdown(x, y, 2);
    lemma_mod_bound(x, y);
    assert(y * ((x / y) % 2) == ((x / y) % 2) * y) by (nonlinear_arith);
    lemma_fundamental_div_mod_converse(x % (y * 2), y, (x / y) % 2, x % y);
}

/// Addresses that take the same slots down to `level` lie in one block.
proof fn lemma_path_block<Meta: PagingMetaData>(a: u64, b: u64, level: u8)
    requires
        regular::<Meta>(),
        Meta::in_range(a),
        Meta::in_range(b),
        1 <= level <= Meta::LEVELS,
        same_path::<Meta>(a, b, level),
    ensures
        block(a, Meta::shift(level) as nat) == block(b, Meta::shift(level) as nat),
    decreases Meta::LEVELS - level,
{
    let upper = (Meta::shift(level) + Meta::index_bits(level)) as nat;
    assert(slot_of::<Meta>(level, a) == slot_of::<Meta>(level, b));
    if level < Meta::LEVELS {
        lemma_path_block::<Meta>(a, b, (level + 1) as u8);
        assert(Meta::shift(level) + Meta::index_bits(level) == Meta::shift((level + 1) as u8));
        assert(block(a, upper) == block(b, upper));
        lemma_block_step::<Meta>(a, level);
        lemma_block_step::<Meta>(b, level);
    }
}

/// Addresses in one block take the same slots down to its level.
proof fn lemma_block_path<Meta: PagingMetaData>(a: u64, b: u64, level: u8)
    requires
        regular::<Meta>(),
        1 <= level <= Meta::LEVELS,
        block(a, Meta::shift(level) as nat) == block(b, Meta::shift(level) as nat),
    ensures
        same_path::<Meta>(a, b, level),
    decreases Meta::LEVELS - level,
{
    let s = Meta::shift(level) as nat;
    let n = Meta::index_bits(level) as nat;
    if level < Meta::LEVELS {
        assert(Meta::shift(level) + Meta::index_bits(level) == Meta::shift((level + 1) as u8));
        lemma_pow2_pos(s);
        lemma_pow2_pos(n);
        lemma_pow2_adds(s, n);
        lemma_div_denominator(a as int, pow2(s) as int, pow2(n) as int);
        lemma_div_denominator(b as int, pow2(s) as int, pow2(n) as int);
        lemma_block_path::<Meta>(a, b, (level + 1) as u8);
    }
    assert(slot_of::<Meta>(level, a) == slot_of::<Meta>(level, b));
}

/// Two legal addresses take the same slots down to a level exactly if they lie
/// in the same block of that level.
pub proof fn law_path_is_block<Meta: PagingMetaData>(a: u64, b: u64, level: u8)
    requires
        regular::<Meta>(),
        Meta::in_range(a),
        Meta::in_range(b),
        1 <= level <= Meta::LEVELS,
    ensures
        same_path::<Meta>(a, b, level) <==> block(a, Meta::shift(level) as nat) == block(
            b,
            Meta::shift(level) as nat,
        ),
{
    if same_path::<Meta>(a, b, level) {
        lemma_path_block::<Meta>(a, b, level);
    }
    if block(a, Meta::shift(level) as nat) == block(b, Meta::shift(level) as nat) {
        lemma_block_path::<Meta>(a, b, level);
    }
}

/// A leaf covers exactly the legal addresses in its range.
pub proof fn law_leaf_covers_its_range<Meta: PagingMetaData>(
    vaddr: u64,
    w: u64,
    level: u8,
    size: PageSize,
)
    requires
        regular::<Meta>(),
        Meta::in_range(vaddr),
        Meta::in_range(w),
        1 <= level <= Meta::LEVELS,
        size.shift() == Meta::shift(level),
        vaddr % size.len() == 0,
    ensures
        same_path::<Meta>(vaddr, w, level) <==> vaddr <= w < vaddr + size.len(),
{
    size.lemma_len();
    law_path_is_block::<Meta>(vaddr, w, level);
    let n = size.len() as int;
    lemma_fundamental_div_mod(vaddr as int, n);
    lemma_fundamental_div_mod(w as int, n);
    lemma_mod_bound(w as int, n);
    let q = vaddr as int / n;
    let p = w as int / n;
    if p > q {
        assert(n * p >= n * (q + 1)) by (nonlinear_arith)
            requires
                p >= q + 1,
                n > 0,
        ;
        assert(n * (q + 1) == n * q + n) by (nonlinear_arith);
    }
    if p < q {
        assert(n * q >= n * (p + 1)) by (nonlinear_arith)
            requires
                q >= p + 1,
                n > 0,
        ;
        assert(n * (p + 1) == n * p + n) by (nonlinear_arith);
    }
}

/// The block of a sign-extended address follows from its sign.
proof fn lemma_sign_block(a: int, half: int, count: int)
    requires
        0 < half,
        0 < count,
        2 * half * count == 0x1_0000_0000_0000_0000,
        0 <= a < 0x1_0000_0000_0000_0000,
        a < half || 0x1_0000_0000_0000_0000 - half <= a,
    ensures
        a / (2 * half) == if (a / half) % 2 == 0 {
            0
        } else {
            count - 1
        },
{
    if a < half {
        lemma_fundamental_div_mod_converse(a, half, 0, a);
        lemma_fundamental_div_mod_converse(a, 2 * half, 0, a);
    } else {
        let r = a - (0x1_0000_0000_0000_0000 - half);
        assert((2 * count - 1) * half == 2 * half * count - half) by (nonlinear_arith);
        assert((count - 1) * (2 * half) == 2 * half * count - 2 * half) by (nonlinear_arith);
        lemma_fundamental_div_mod_converse(a, half, 2 * count - 1, r);
        lemma_fundamental_div_mod_converse(a, 2 * half, count - 1, half + r);
    }
}

/// Sign-extended addresses are determined by their low bits.
proof fn lemma_canonical_sign(a: u64, b: u64, bits: usize)
    requires
        1 <= bits < 64,
        canonical(a, bits),
        canonical(b, bits),
        block(a, (bits - 1) as nat) % 2 == block(b, (bits - 1) as nat) % 2,
    ensures
        block(a, bits as nat) == block(b, bits as nat),
{
    let half = pow2((bits - 1) as nat) as int;
    let count = pow2((64 - bits) as nat) as int;
    lemma2_to64();
    lemma2_to64_rest();
    lemma_pow2_pos((bits - 1) as nat);
    lemma_pow2_pos((64 - bits) as nat);
    lemma_pow2_adds((bits - 1) as nat, 1);
    lemma_pow2_adds(bits as nat, (64 - bits) as nat);
    lemma_sign_block(a as int, half, count);
    lemma_sign_block(b as int, half, count);
}

/// Sign-extended addresses no wider than the index bits are determined by their
/// slots.
pub proof fn law_canonical_determined<Meta: PagingMetaData>()
    requires
        forall|a: u64| #[trigger] Meta::in_range(a) ==> canonical(a, Meta::VA_MAX_BITS),
        Meta::index_bits(Meta::LEVELS as u8) >= 1,
        1 <= Meta::VA_MAX_BITS <= index_end::<Meta>() <= 64,
    ensures
        top_determined::<Meta>(),
{
    let level = Meta::LEVELS as u8;
    let end = index_end::<Meta>() as nat;
    assert forall|a: u64, b: u64|
        #![trigger Meta::in_range(a), Meta::in_range(b)]
        Meta::in_range(a) && Meta::in_range(b) && slot_of::<Meta>(level, a) == slot_of::<Meta>(
            level,
            b,
        ) implies block(a, Meta::shift(level) as nat) == block(b, Meta::shift(level) as nat) by {
        lemma_top_bit::<Meta>(a);
        lemma_top_bit::<Meta>(b);
        if end < 64 {
            if Meta::VA_MAX_BITS < end {
                lemma_pow2_strictly_increases((Meta::VA_MAX_BITS - 1) as nat, (end - 1) as nat);
            }
            lemma_canonical_sign(a, b, end as usize);
        } else {
            lemma2_to64_rest();
            lemma_fundamental_div_mod_converse(a as int, pow2(end) as int, 0, a as int);
            lemma_fundamental_div_mod_converse(b as int, pow2(end) as int, 0, b as int);
        }
        assert(block(a, end) == block(b, end));
        lemma_block_step::<Meta>(a, level);
        lemma_block_step::<Meta>(b, level);
    }
}

/// Addresses from zero on that are no wider than the index bits are determined
/// by their slots.
pub proof fn law_linear_determined<Meta: PagingMetaData>()
    requires
        forall|a: u64| #[trigger] Meta::in_range(a) ==> fits_bits(a, Meta::VA_MAX_BITS),
        Meta::VA_MAX_BITS <= index_end::<Meta>() <= 64,
    ensures
        top_determined::<Meta>(),
{
    let level = Meta::LEVELS as u8;
    let end = index_end::<Meta>() as nat;
    assert forall|a: u64, b: u64|
        #![trigger Meta::in_range(a), Meta::in_range(b)]
        Meta::in_range(a) && Meta::in_range(b) && slot_of::<Meta>(level, a) == slot_of::<Meta>(
            level,
            b,
        ) implies block(a, Meta::shift(level) as nat) == block(b, Meta::shift(level) as nat) by {
        lemma2_to64_rest();
        if Meta::VA_MAX_BITS < end {
            lemma_pow2_strictly_increases(Meta::VA_MAX_BITS as nat, end);
        }
        lemma_pow2_pos(end);
        lemma_fundamental_div_mod_converse(a as int, pow2(end) as int, 0, a as int);
        lemma_fundamental_div_mod_converse(b as int, pow2(end) as int, 0, b as int);
        lemma_block_step::<Meta>(a, level);
        lemma_block_step::<Meta>(b, level);
    }
}

/// Whether a block is legal as a whole if one of its addresses is.
pub open spec fn blocks_legal<Meta: PagingMetaData>() -> bool {
    forall|a: u64, b: u64, level: u8|
        #![trigger Meta::in_range(a), Meta::in_range(b), Meta::shift(level)]
        Meta::in_range(a) && 1 <= level <= Meta::LEVELS && block(a, Meta::shift(level) as nat)
            == block(b, Meta::shift(level) as nat) ==> Meta::in_range(b)
}

/// Where sign-extended addresses are legal, so are the blocks of all levels.
pub proof fn law_canonical_blocks_legal<Meta: PagingMetaData>()
    requires
        forall|a: u64| #[trigger] Meta::in_range(a) == canonical(a, Meta::VA_MAX_BITS),
        1 <= Meta::VA_MAX_BITS < 64,
        forall|level: u8|
            1 <= level <= Meta::LEVELS ==> #[trigger] Meta::shift(level) < Meta::VA_MAX_BITS,
    ensures
        blocks_legal::<Meta>(),
{
    assert forall|a: u64, b: u64, level: u8|
        #![trigger Meta::in_range(a), Meta::in_range(b), Meta::shift(level)]
        Meta::in_range(a) && 1 <= level <= Meta::LEVELS && block(a, Meta::shift(level) as nat)
            == block(b, Meta::shift(level) as nat) implies Meta::in_range(b) by {
        let s = Meta::shift(level) as nat;
        let bits = Meta::VA_MAX_BITS as nat;
        lemma2_to64_rest();
        lemma_pow2_adds(s, (bits - 1 - s) as nat);
        lemma_pow2_adds((bits - 1) as nat, (65 - bits) as nat);
        lemma_pow2_pos(s);
        let (one, k, m) = (
            pow2(s) as int,
            pow2((bits - 1 - s) as nat) as int,
            pow2((65 - bits) as nat) as int,
        );
        lemma_same_side(a as int, b as int, one, k);
        assert((one * k) * m - one * k == one * (k * m - k)) by (nonlinear_arith);
        lemma_same_side(a as int, b as int, one, k * m - k);
    }
}

/// Addresses in one block lie on the same side of every block boundary.
proof fn lemma_same_side(a: int, b: int, one: int, k: int)
    requires
        0 <= a,
        0 <= b,
        0 < one,
        a / one == b / one,
    ensures
        a < one * k <==> b < one * k,
{
    lemma_fundamental_div_mod(a, one);
    lemma_fundamental_div_mod(b, one);
    lemma_mod_bound(a, one);
    lemma_mod_bound(b, one);
    let q = a / one;
    if q < k {
        assert(one * (q + 1) <= one * k) by (nonlinear_arith)
            requires
                q + 1 <= k,
                0 < one,
        ;
        assert(one * (q + 1) == one * q + one) by (nonlinear_arith);
    } else {
        assert(one * k <= one * q) by (nonlinear_arith)
            requires
                k <= q,
                0 < one,
        ;
    }
}

} // verus!
