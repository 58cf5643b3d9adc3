//! Facts about the bits of 64-bit words, shared by the bitboard types.

use vstd::prelude::*;
use vstd::std_specs::bits::{u64_trailing_zeros, axiom_u64_trailing_zeros};

verus! {

/// Whether bit `i` of `x` is set (bit 0 is the least significant one).
pub open spec fn bit_set(x: u64, i: int) -> bool {
    0 <= i < 64 && (x >> (i as u64)) & 1 == 1
}

/// The number of set bits of `x`.
pub open spec fn popcount(x: u64) -> nat
    decreases x,
{
    if x == 0 {
        0
    } else {
        (x % 2) as nat + popcount(x / 2)
    }
}

/// The index of the least significant set bit (64 for zero).
pub open spec fn lowest_bit(x: u64) -> int {
    u64_trailing_zeros(x) as int
}

/// `std`'s `u64::count_ones`: the number of ones in the binary representation.
#[verifier::external_body]
pub fn count_ones(x: u64) -> (r: u32)
    ensures
        r == popcount(x),
{
    x.count_ones()
}

proof fn lemma_bits_single(x: u64, i: u64, j: u64)
    by (bit_vector)
    requires
        i < 64,
        j < 64,
    ensures
        ((x | (1u64 << i)) >> j) & 1 == 1 <==> (j == i || (x >> j) & 1 == 1),
        ((x & !(1u64 << i)) >> j) & 1 == 1 <==> (j != i && (x >> j) & 1 == 1),
        (x & (1u64 << i) > 0) <==> (x >> i) & 1 == 1,
        (x & (1u64 << i) != 0) <==> (x >> i) & 1 == 1,
        (0u64 << i) == 0,
{
}

proof fn lemma_bits_logic(x: u64, y: u64, j: u64)
    by (bit_vector)
    requires
        j < 64,
    ensures
        ((x & y) >> j) & 1 == 1 <==> ((x >> j) & 1 == 1 && (y >> j) & 1 == 1),
        ((x | y) >> j) & 1 == 1 <==> ((x >> j) & 1 == 1 || (y >> j) & 1 == 1),
        ((x ^ y) >> j) & 1 == 1 <==> ((x >> j) & 1 == 1) != ((y >> j) & 1 == 1),
        ((!x) >> j) & 1 == 1 <==> !((x >> j) & 1 == 1),
        ((x & !y) >> j) & 1 == 1 <==> ((x >> j) & 1 == 1 && !((y >> j) & 1 == 1)),
        (0u64 >> j) & 1 != 1,
        (0xffff_ffff_ffff_ffffu64 >> j) & 1 == 1,
        (!x == 0) <==> x == 0xffff_ffff_ffff_ffffu64,
{
}

proof fn lemma_bits_shift(x: u64, s: u64, j: u64)
    by (bit_vector)
    requires
        s < 64,
        j < 64,
    ensures
        ((x << s) >> j) & 1 == 1 <==> (j >= s && (x >> (j - s) as u64) & 1 == 1),
        ((x >> s) >> j) & 1 == 1 <==> (j + s < 64 && (x >> (j + s) as u64) & 1 == 1),
{
}

proof fn lemma_bits_lowest(x: u64, t: u64, j: u64)
    by (bit_vector)
    requires
        t < 64,
        j < 64,
        x != 0,
        (x >> t) & 1 == 1,
        x & (((1u64 << t) - 1) as u64) == 0,
    ensures
        ((x & ((x - 1) as u64)) >> j) & 1 == 1 <==> (j != t && (x >> j) & 1 == 1),
{
}

proof fn lemma_bits_low_mask(t: u64, j: u64)
    by (bit_vector)
    requires
        t < 64,
        j < 64,
    ensures
        ((((1u64 << t) - 1) as u64) >> j) & 1 == 1 <==> j < t,
{
}

proof fn lemma_bits_file_masks(j: u64)
    by (bit_vector)
    requires
        j < 64,
    ensures
        (0xfefe_fefe_fefe_fefeu64 >> j) & 1 == 1 <==> j % 8 != 0,
        (0x7f7f_7f7f_7f7f_7f7fu64 >> j) & 1 == 1 <==> j % 8 != 7,
{
}

proof fn lemma_bits_rank_masks(j: u64, r: u64)
    by (bit_vector)
    requires
        j < 64,
        r < 8,
    ensures
        ((0xffu64 << (8 * r)) >> j) & 1 == 1 <==> j / 8 == r,
{
}

/// The mask of the squares of rank `r`.
pub proof fn lemma_rank_mask(j: int, r: int)
    requires
        0 <= j < 64,
        0 <= r < 8,
    ensures
        bit_set(0xffu64 << (8 * r) as u64, j) == (j / 8 == r),
{
    lemma_bits_rank_masks(j as u64, r as u64);
}

/// How the bits of a word change under the bitwise operations.
pub proof fn lemma_bit_ops(x: u64, y: u64, j: int)
    requires
        0 <= j < 64,
    ensures
        bit_set(x & y, j) == (bit_set(x, j) && bit_set(y, j)),
        bit_set(x | y, j) == (bit_set(x, j) || bit_set(y, j)),
        bit_set(x ^ y, j) == (bit_set(x, j) != bit_set(y, j)),
        bit_set(!x, j) == !bit_set(x, j),
        bit_set(x & !y, j) == (bit_set(x, j) && !bit_set(y, j)),
        !bit_set(0, j),
        bit_set(0xffff_ffff_ffff_ffffu64, j),
        (!x == 0) <==> x == 0xffff_ffff_ffff_ffffu64,
{
    lemma_bits_logic(x, y, j as u64);
}

/// Setting, clearing and testing a single bit.
pub proof fn lemma_single_bit(x: u64, i: int, j: int)
    requires
        0 <= i < 64,
        0 <= j < 64,
    ensures
        bit_set(x | (1u64 << (i as u64)), j) == (j == i || bit_set(x, j)),
        bit_set(x & !(1u64 << (i as u64)), j) == (j != i && bit_set(x, j)),
        (x & (1u64 << (i as u64)) > 0) == bit_set(x, i),
        (x & (1u64 << (i as u64)) != 0) == bit_set(x, i),
        (0u64 << (i as u64)) == 0,
{
    lemma_bits_single(x, i as u64, j as u64);
}

/// Shifting a word moves its bits.
pub proof fn lemma_shift(x: u64, s: int, j: int)
    requires
        0 <= s < 64,
        0 <= j < 64,
    ensures
        bit_set(x << (s as u64), j) == (j >= s && bit_set(x, j - s)),
        bit_set(x >> (s as u64), j) == (j + s < 64 && bit_set(x, j + s)),
{
    lemma_bits_shift(x, s as u64, j as u64);
}

/// The masks of all squares off file A and off file H.
pub proof fn lemma_file_masks(j: int)
    requires
        0 <= j < 64,
    ensures
        bit_set(0xfefe_fefe_fefe_fefeu64, j) == (j % 8 != 0),
        bit_set(0x7f7f_7f7f_7f7f_7f7fu64, j) == (j % 8 != 7),
{
    lemma_bits_file_masks(j as u64);
}

/// The lowest set bit of a non-zero word is set and the bits below it are not.
pub proof fn lemma_lowest_bit_basic(x: u64)
    requires
        x != 0,
    ensures
        0 <= lowest_bit(x) < 64,
        bit_set(x, lowest_bit(x)),
        forall|j: int| 0 <= j < lowest_bit(x) ==> !bit_set(x, j),
{
    axiom_u64_trailing_zeros(x);
    assert forall|j: int| 0 <= j < lowest_bit(x) implies !bit_set(x, j) by {
        assert((x >> (j as u64)) & 1u64 == 0u64);
    }
}

/// The lowest set bit of a non-zero word is set, the bits below it are not,
/// and `x & (x - 1)` clears exactly that bit.
pub proof fn lemma_lowest_bit(x: u64)
    requires
        x != 0,
    ensures
        0 <= lowest_bit(x) < 64,
        bit_set(x, lowest_bit(x)),
        forall|j: int| 0 <= j < lowest_bit(x) ==> !bit_set(x, j),
        forall|j: int| 0 <= j < 64 ==> bit_set(x & ((x - 1) as u64), j) == (j != lowest_bit(x) && bit_set(x, j)),
{
    lemma_lowest_bit_basic(x);
    let t = lowest_bit(x) as u64;
    let m = ((1u64 << t) - 1) as u64;
    assert forall|j: int| 0 <= j < 64 implies bit_set(x & m, j) == bit_set(0, j) by {
        lemma_bits_low_mask(t, j as u64);
        lemma_bit_ops(x, m, j);
    }
    lemma_bits_ext(x & m, 0);
    assert forall|j: int| 0 <= j < 64 implies bit_set(x & ((x - 1) as u64), j) == (j != lowest_bit(x) && bit_set(x, j)) by {
        lemma_bits_lowest(x, t, j as u64);
    }
}

/// The lowest set bit of zero is 64.
pub proof fn lemma_lowest_bit_zero()
    ensures
        lowest_bit(0) == 64,
{
    axiom_u64_trailing_zeros(0);
}

/// Two words with the same bits are equal.
pub proof fn lemma_bits_ext(x: u64, y: u64)
    requires
        forall|j: int| 0 <= j < 64 ==> bit_set(x, j) == bit_set(y, j),
    ensures
        x == y,
{
    if x != y {
        let d = x ^ y;
        assert(d != 0) by {
            assert(x ^ y == 0u64 ==> x == y) by (bit_vector);
        }
        lemma_lowest_bit_basic(d);
        let t = lowest_bit(d);
        lemma_bit_ops(x, y, t);
        assert(false);
    }
}

/// A word is zero exactly when none of its bits is set.
pub proof fn lemma_zero_iff_no_bits(x: u64)
    ensures
        x == 0 <==> forall|j: int| 0 <= j < 64 ==> !bit_set(x, j),
{
    if x == 0 {
        assert forall|j: int| 0 <= j < 64 implies !bit_set(x, j) by {
            lemma_bit_ops(x, x, j);
        }
    } else {
        lemma_lowest_bit_basic(x);
    }
}

proof fn lemma_bits_clear_lowest_step(x: u64)
    by (bit_vector)
    requires
        x != 0,
    ensures
        x % 2 == 1 ==> (x & ((x - 1) as u64)) == ((x - 1) as u64) && ((x - 1) as u64) / 2 == x / 2
            && ((x - 1) as u64) % 2 == 0,
        x % 2 == 0 ==> (x & ((x - 1) as u64)) % 2 == 0 && x / 2 != 0 && (x & ((x - 1) as u64)) / 2
            == ((x / 2) & ((x / 2 - 1) as u64)),
{
}

/// Clearing the lowest set bit lowers the number of set bits by exactly one.
pub proof fn lemma_popcount_clear_lowest(x: u64)
    requires
        x != 0,
    ensures
        popcount(x & ((x - 1) as u64)) + 1 == popcount(x),
    decreases x,
{
    lemma_bits_clear_lowest_step(x);
    let y = x & ((x - 1) as u64);
    if x % 2 == 1 {
        let z = (x - 1) as u64;
        if z != 0 {
            assert(popcount(z) == popcount(z / 2));
        }
    } else {
        lemma_popcount_clear_lowest(x / 2);
        if y != 0 {
            assert(popcount(y) == popcount(y / 2));
        } else {
            assert(y / 2 == 0);
        }
    }
}

} // verus!
