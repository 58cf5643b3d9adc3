//! Finding magic numbers for sliding piece attacks: for each square, a
//! multiplier that maps every set of blockers on the square's relevant squares
//! (its mask) to a table index, such that two blocker sets sharing an index have
//! the same attacks. Candidates are drawn at random and checked.

use crate::bits::{bit_set, count_ones, lowest_bit, popcount};
use crate::mattis_bitboard::BitBoard;
use crate::tables::{bb_fn, bishop_attacks, magic_bishop_moves, magic_rook_moves, rook_attacks, sq_file, sq_rank};
use crate::types::Square64;
use vstd::prelude::*;
use rand::Rng;

verus! {

pub const ROOK_MAGIC_BIT_COUNT: [u32; 64] = [
    12, 11, 11, 11, 11, 11, 11, 12,
    11, 10, 10, 10, 10, 10, 10, 11,
    11, 10, 10, 10, 10, 10, 10, 11,
    11, 10, 10, 10, 10, 10, 10, 11,
    11, 10, 10, 10, 10, 10, 10, 11,
    11, 10, 10, 10, 10, 10, 10, 11,
    11, 10, 10, 10, 10, 10, 10, 11,
    12, 11, 11, 11, 11, 11, 11, 12,
];

pub const BISHOP_MAGIC_BIT_COUNT: [u32; 64] = [
    6, 5, 5, 5, 5, 5, 5, 6,
    5, 5, 5, 5, 5, 5, 5, 5,
    5, 5, 7, 7, 7, 7, 5, 5,
    5, 5, 7, 9, 9, 7, 5, 5,
    5, 5, 7, 9, 9, 7, 5, 5,
    5, 5, 7, 7, 7, 7, 5, 5,
    5, 5, 5, 5, 5, 5, 5, 5,
    6, 5, 5, 5, 5, 5, 5, 6,
];

/// The number of index bits of the rook table of each square.
pub fn rook_magic_bit_count() -> (r: [u32; 64])
    ensures
        r@ == ROOK_MAGIC_BIT_COUNT@,
{
    ROOK_MAGIC_BIT_COUNT
}

/// The number of index bits of the bishop table of each square.
pub fn bishop_magic_bit_count() -> (r: [u32; 64])
    ensures
        r@ == BISHOP_MAGIC_BIT_COUNT@,
{
    BISHOP_MAGIC_BIT_COUNT
}

// ---------------------------------------------------------------------------
// Masks
// ---------------------------------------------------------------------------

/// The relevant squares of a rook on `s`: those of its file and rank, but not
/// `s` itself and not the edge squares at the ends of its lines.
pub open spec fn rook_mask_has(s: int, t: int) -> bool {
    ||| (sq_file(t) == sq_file(s) && t != s && 1 <= sq_rank(t) <= 6)
    ||| (sq_rank(t) == sq_rank(s) && t != s && 1 <= sq_file(t) <= 6)
}

/// The relevant squares of a bishop on `s`: the squares it attacks on an empty
/// board, but not the squares of the border.
pub open spec fn bishop_mask_has(s: int, t: int) -> bool {
    &&& bishop_attacks(s, |x: int| false, t)
    &&& 1 <= sq_file(t) <= 6
    &&& 1 <= sq_rank(t) <= 6
}

/// The relevant squares of a slider on `s`.
pub open spec fn mask_has(s: int, t: int, is_bishop: bool) -> bool {
    if is_bishop {
        bishop_mask_has(s, t)
    } else {
        rook_mask_has(s, t)
    }
}

/// The mask of a slider on the square.
fn slider_mask(sq: Square64, is_bishop: bool) -> (r: BitBoard)
    requires
        sq.is_valid(),
    ensures
        forall|t: int| 0 <= t < 64 ==> r.has(t) == mask_has(sq.idx(), t, is_bishop),
{
    let s = sq.index();
    let e = BitBoard::empty();
    let empty_moves = magic_bishop_moves(sq, e);
    proof {
        assert(bb_fn(e) =~= (|x: int| false));
    }
    let mut r = BitBoard::empty();
    let mut t: usize = 0;
    while t < 64
        invariant
            t <= 64,
            s == sq.idx(),
            sq.is_valid(),
            forall|j: int| 0 <= j < 64 ==> empty_moves.has(j) == bishop_attacks(s as int, |x: int| false, j),
            forall|j: int| 0 <= j < 64 ==> r.has(j) == (j < t && mask_has(s as int, j, is_bishop)),
        decreases 64 - t,
    {
        let (tf, tr) = (t % 8, t / 8);
        let inside = if is_bishop {
            empty_moves.get(Square64::from_primitive(t)) && 1 <= tf && tf <= 6 && 1 <= tr && tr <= 6
        } else {
            let (sf, sr) = (s % 8, s / 8);
            (tf == sf && t != s && 1 <= tr && tr <= 6) || (tr == sr && t != s && 1 <= tf && tf <= 6)
        };
        if inside {
            r.set(Square64::from_primitive(t));
        }
        t = t + 1;
    }
    r
}

/// The mask of a rook on each square.
pub fn rook_magic_masks() -> (r: [BitBoard; 64])
    ensures
        forall|s: int, t: int| 0 <= s < 64 && 0 <= t < 64 ==> #[trigger] r@[s].has(t) == rook_mask_has(s, t),
{
    slider_masks(false)
}

/// The mask of a bishop on each square.
pub fn bishop_magic_masks() -> (r: [BitBoard; 64])
    ensures
        forall|s: int, t: int| 0 <= s < 64 && 0 <= t < 64 ==> #[trigger] r@[s].has(t) == bishop_mask_has(s, t),
{
    slider_masks(true)
}

fn slider_masks(is_bishop: bool) -> (r: [BitBoard; 64])
    ensures
        forall|s: int, t: int| 0 <= s < 64 && 0 <= t < 64 ==> #[trigger] r@[s].has(t) == mask_has(s, t, is_bishop),
{
    let mut masks = [BitBoard::empty(); 64];
    let mut s: usize = 0;
    while s < 64
        invariant
            s <= 64,
            forall|i: int, t: int| 0 <= i < s && 0 <= t < 64 ==> #[trigger] masks@[i].has(t) == mask_has(i, t, is_bishop),
        decreases 64 - s,
    {
        let sq = Square64::from_primitive(s);
        let m = slider_mask(sq, is_bishop);
        masks[s] = m;
        s = s + 1;
    }
    masks
}

// ---------------------------------------------------------------------------
// Blocker sets and indices
// ---------------------------------------------------------------------------

/// The blocker set with number `idx` of the mask `m`: bit `k` of `idx` says
/// whether the `k`-th lowest square of the mask holds a blocker; `k` runs below
/// `n`.
pub open spec fn subset_bits(m: u64, idx: int, n: nat) -> u64
    decreases n,
{
    if n == 0 || m == 0 {
        0
    } else {
        let rest = subset_bits(m & ((m - 1) as u64), idx / 2, (n - 1) as nat);
        if idx % 2 == 1 {
            rest | (1u64 << (lowest_bit(m) as u64))
        } else {
            rest
        }
    }
}

proof fn lemma_index_bit_bv(index: u64, i: u64)
    by (bit_vector)
    requires
        i < 63,
    ensures
        (index & (1u64 << i) != 0) == ((index >> i) & 1 == 1),
        (index >> i) >> 1u64 == index >> (i + 1),
{
}

proof fn lemma_or_bv(a: u64, b: u64, c: u64)
    by (bit_vector)
    ensures
        (a | b) | c == a | (c | b),
        a | 0 == a,
        0 | a == a,
{
}

/// The blocker set with number `index` of the mask.
fn index_to_bb(index: u64, bits: u32, mask: BitBoard) -> (r: BitBoard)
    requires
        bits <= 62,
        popcount(mask@) >= bits,
        index < 0x1_0000_0000_0000,
    ensures
        r@ == subset_bits(mask@, index as int, bits as nat),
{
    let mut result: u64 = 0;
    let mut mask = mask;
    let ghost m0 = mask@;
    let mut i: u32 = 0;
    proof {
        assert(index >> 0u64 == index) by (bit_vector);
        lemma_or_bv(subset_bits(m0, index as int, bits as nat), 0, 0);
    }
    while i < bits
        invariant
            i <= bits,
            bits <= 62,
            popcount(mask@) >= bits - i,
            result | subset_bits(mask@, (index >> (i as u64)) as int, (bits - i) as nat) == subset_bits(
                m0,
                index as int,
                bits as nat,
            ),
        decreases bits - i,
    {
        let ghost before = mask@;
        proof {
            if mask@ == 0 {
                assert(popcount(0) == 0);
            }
            crate::bits::lemma_popcount_clear_lowest(mask@);
        }
        let popped = mask.pop();
        let j = match popped {
            Some(sq) => sq.index(),
            None => {
                return BitBoard::from_u64(result);
            },
        };
        proof {
            lemma_index_bit_bv(index, i as u64);
            let ix = index >> (i as u64);
            assert(ix as int % 2 == 1 <==> ix & 1 == 1) by (bit_vector);
            assert((ix as int) / 2 == (ix >> 1u64) as int) by (bit_vector);
        }
        if index & (1u64 << (i as u64)) != 0 {
            let ghost rest = subset_bits(mask@, (index >> ((i + 1) as u64)) as int, (bits - i - 1) as nat);
            proof {
                lemma_or_bv(result, 1u64 << (j as u64), rest);
            }
            result = result | (1u64 << (j as u64));
        }
        i = i + 1;
    }
    proof {
        lemma_or_bv(result, 0, 0);
    }
    BitBoard::from_u64(result)
}

/// The table index of a blocker set: the top `bits` bits of its product with
/// the magic number (taken modulo 2^64).
pub open spec fn index_of(b: u64, magic: u64, bits: u32) -> u64 {
    (((b as int * magic as int) % 0x1_0000_0000_0000_0000) as u64) >> ((64 - bits) as u64)
}

proof fn lemma_index_small(b: u64, magic: u64, m: u32)
    requires
        1 <= m <= 12,
    ensures
        index_of(b, magic, m) < 4096,
{
    let p = ((b as int * magic as int) % 0x1_0000_0000_0000_0000) as u64;
    let sh = (64 - m) as u64;
    assert(sh >= 52 ==> p >> sh < 4096) by (bit_vector);
}

fn transform(b: BitBoard, magic: u64, bits: u32) -> (r: u64)
    requires
        1 <= bits <= 12,
    ensures
        r == index_of(b@, magic, bits),
        r < 4096,
{
    let p = b.to_u64().wrapping_mul(magic);
    let r = p >> ((64 - bits) as u64);
    proof {
        assert(p == ((b@ as int * magic as int) % 0x1_0000_0000_0000_0000) as u64);
        let sh = (64 - bits) as u64;
        assert(sh >= 52 ==> p >> sh < 4096) by (bit_vector);
    }
    r
}

// ---------------------------------------------------------------------------
// Random candidates
// ---------------------------------------------------------------------------

/// `rand::thread_rng().gen::<u64>()`: a random number. Nothing is stated of it.
#[verifier::external_body]
fn random_u64() -> (r: u64) {
    rand::thread_rng().gen::<u64>()
}

/// A random number with few bits set: the and of three random numbers.
fn rand_u64_fewbits() -> (r: u64) {
    random_u64() & random_u64() & random_u64()
}

// ---------------------------------------------------------------------------
// Finding magic numbers
// ---------------------------------------------------------------------------

/// The attacks of a slider on `s` with blockers `b`.
pub open spec fn slider_attacks(s: int, b: u64, is_bishop: bool, t: int) -> bool {
    if is_bishop {
        bishop_attacks(s, |x: int| bit_set(b, x), t)
    } else {
        rook_attacks(s, |x: int| bit_set(b, x), t)
    }
}

/// A magic number for a slider on `s` with the mask `mask` and `bits` index
/// bits: any two blocker sets of the mask with the same index have the same
/// attacks.
pub open spec fn magic_works(s: int, mask: u64, magic: u64, bits: u32, is_bishop: bool) -> bool {
    let n = popcount(mask);
    forall|i: int, j: int|
        0 <= i < vstd::arithmetic::power2::pow2(n) && 0 <= j < vstd::arithmetic::power2::pow2(n) && #[trigger] index_of(
            subset_bits(mask, i, n),
            magic,
            bits,
        ) == #[trigger] index_of(subset_bits(mask, j, n), magic, bits) ==> forall|t: int|
            0 <= t < 64 ==> slider_attacks(s, subset_bits(mask, i, n), is_bishop, t) == slider_attacks(
                s,
                subset_bits(mask, j, n),
                is_bishop,
                t,
            )
}

/// The attacks of a slider as a bitboard.
fn attacks(sq: Square64, block: BitBoard, is_bishop: bool) -> (r: BitBoard)
    requires
        sq.is_valid(),
    ensures
        forall|t: int| 0 <= t < 64 ==> r.has(t) == slider_attacks(sq.idx(), block@, is_bishop, t),
{
    proof {
        assert(bb_fn(block) =~= (|x: int| bit_set(block@, x)));
    }
    if is_bishop {
        magic_bishop_moves(sq, block)
    } else {
        magic_rook_moves(sq, block)
    }
}

/// Tries up to 100 million random candidates for a magic number of a slider on
/// the square with `m` index bits, and returns the first that works. Candidates
/// whose product with the mask has fewer than six bits in its top byte are
/// passed over. The mask of a square has at most 12 squares; with more, no
/// magic is looked for.
pub fn find_magic(square: Square64, m: u32, is_bishop: bool) -> (r: Option<u64>)
    requires
        square.is_valid(),
        1 <= m <= 12,
    ensures
        r matches Some(magic) ==> {
            let mask = slider_mask_of(square.idx(), is_bishop);
            &&& magic_works(square.idx(), mask, magic, m, is_bishop)
            &&& popcount(vstd::wrapping::u64_specs::wrapping_mul(mask, magic) & 0xFF00_0000_0000_0000) >= 6
        },
        popcount(slider_mask_of(square.idx(), is_bishop)) > 12 ==> r is None,
{
    let mask = slider_mask(square, is_bishop);
    proof {
        lemma_mask_of(mask, square.idx(), is_bishop);
    }
    let n = mask.bit_count();
    if n > 12 {
        return None;
    }
    // the number of blocker sets: 2^n
    let mut count: u64 = 1;
    let mut k: u32 = 0;
    proof {
        vstd::arithmetic::power2::lemma2_to64();
    }
    while k < n
        invariant
            k <= n,
            n <= 12,
            count == vstd::arithmetic::power2::pow2(k as nat),
            vstd::arithmetic::power2::pow2(12) == 4096,
        decreases n - k,
    {
        proof {
            vstd::arithmetic::power2::lemma_pow2_unfold((k + 1) as nat);
            vstd::arithmetic::power2::lemma_pow2_strictly_increases(k as nat, 12);
        }
        count = count * 2;
        k = k + 1;
    }
    proof {
        if n < 12 {
            vstd::arithmetic::power2::lemma_pow2_strictly_increases(n as nat, 12);
        }
    }
    let ghost nn = n as nat;
    let mut blockers: Vec<BitBoard> = Vec::new();
    let mut atts: Vec<BitBoard> = Vec::new();
    let mut i: u64 = 0;
    while i < count
        invariant
            i <= count,
            count == vstd::arithmetic::power2::pow2(nn),
            count <= 4096,
            n == nn,
            n == popcount(mask@),
            n <= 12,
            square.is_valid(),
            blockers@.len() == i,
            atts@.len() == i,
            forall|k: int| 0 <= k < i ==> (#[trigger] blockers@[k])@ == subset_bits(mask@, k, nn),
            forall|k: int, t: int|
                0 <= k < i && 0 <= t < 64 ==> #[trigger] atts@[k].has(t) == slider_attacks(
                    square.idx(),
                    blockers@[k]@,
                    is_bishop,
                    t,
                ),
        decreases count - i,
    {
        let b = index_to_bb(i, n, mask);
        blockers.push(b);
        atts.push(attacks(square, b, is_bishop));
        i = i + 1;
    }

    let mut attempt: u32 = 0;
    while attempt < 100_000_000
        invariant
            count == vstd::arithmetic::power2::pow2(nn),
            count <= 4096,
            n == nn,
            n == popcount(mask@),
            n <= 12,
            1 <= m <= 12,
            blockers@.len() == count,
            atts@.len() == count,
            forall|k: int| 0 <= k < count ==> (#[trigger] blockers@[k])@ == subset_bits(mask@, k, nn),
            forall|k: int, t: int|
                0 <= k < count && 0 <= t < 64 ==> #[trigger] atts@[k].has(t) == slider_attacks(
                    square.idx(),
                    blockers@[k]@,
                    is_bishop,
                    t,
                ),
            mask@ == slider_mask_of(square.idx(), is_bishop),
        decreases 100_000_000 - attempt,
    {
        attempt = attempt + 1;
        let magic = rand_u64_fewbits();
        if count_ones(mask.to_u64().wrapping_mul(magic) & 0xFF00_0000_0000_0000) < 6 {
            continue;
        }
        if magic_fits(&blockers, &atts, magic, m, count) {
            proof {
                assert forall|i: int, j: int|
                    0 <= i < vstd::arithmetic::power2::pow2(nn) && 0 <= j < vstd::arithmetic::power2::pow2(nn)
                        && #[trigger] index_of(subset_bits(mask@, i, nn), magic, m) == #[trigger] index_of(
                        subset_bits(mask@, j, nn),
                        magic,
                        m,
                    ) implies forall|t: int|
                    0 <= t < 64 ==> slider_attacks(square.idx(), subset_bits(mask@, i, nn), is_bishop, t)
                        == slider_attacks(square.idx(), subset_bits(mask@, j, nn), is_bishop, t) by {
                    assert(blockers@[i]@ == subset_bits(mask@, i, nn));
                    assert(blockers@[j]@ == subset_bits(mask@, j, nn));
                    assert forall|t: int| 0 <= t < 64 implies slider_attacks(
                        square.idx(),
                        subset_bits(mask@, i, nn),
                        is_bishop,
                        t,
                    ) == slider_attacks(square.idx(), subset_bits(mask@, j, nn), is_bishop, t) by {
                        assert(atts@[i].has(t) == slider_attacks(square.idx(), blockers@[i]@, is_bishop, t));
                        assert(atts@[j].has(t) == slider_attacks(square.idx(), blockers@[j]@, is_bishop, t));
                    }
                }
            }
            return Some(magic);
        }
    }
    None
}

/// The word whose bits are the mask of a slider on `s`.
pub open spec fn is_mask_word(x: u64, s: int, is_bishop: bool) -> bool {
    forall|t: int| 0 <= t < 64 ==> bit_set(x, t) == mask_has(s, t, is_bishop)
}

/// The mask of a slider on `s`, as a number.
pub closed spec fn slider_mask_of(s: int, is_bishop: bool) -> u64 {
    choose|x: u64| is_mask_word(x, s, is_bishop)
}

proof fn lemma_mask_of(mask: BitBoard, s: int, is_bishop: bool)
    requires
        forall|t: int| 0 <= t < 64 ==> mask.has(t) == mask_has(s, t, is_bishop),
    ensures
        mask@ == slider_mask_of(s, is_bishop),
{
    assert forall|t: int| 0 <= t < 64 implies bit_set(mask@, t) == mask_has(s, t, is_bishop) by {
        assert(mask.has(t) == mask_has(s, t, is_bishop));
    }
    assert(is_mask_word(mask@, s, is_bishop));
    let x = slider_mask_of(s, is_bishop);
    assert(is_mask_word(x, s, is_bishop));
    crate::bits::lemma_bits_ext(mask@, x);
}

/// Blocker set `k` is entered in the table of used indices with its attacks.
pub open spec fn recorded(
    taken: Seq<bool>,
    used: Seq<BitBoard>,
    blockers: Seq<BitBoard>,
    atts: Seq<BitBoard>,
    magic: u64,
    m: u32,
    k: int,
) -> bool {
    let q = index_of(blockers[k]@, magic, m) as int;
    &&& taken[q]
    &&& used[q] == atts[k]
}

/// Whether no two blocker sets with the same index under the magic number have
/// different attacks.
fn magic_fits(blockers: &Vec<BitBoard>, atts: &Vec<BitBoard>, magic: u64, m: u32, count: u64) -> (r: bool)
    requires
        blockers@.len() == count,
        atts@.len() == count,
        count <= 4096,
        1 <= m <= 12,
    ensures
        r <==> forall|i: int, j: int|
            0 <= i < count && 0 <= j < count && index_of(blockers@[i]@, magic, m) == index_of(blockers@[j]@, magic, m)
                ==> atts@[i] == atts@[j],
{
    let mut used: Vec<BitBoard> = Vec::new();
    let mut taken: Vec<bool> = Vec::new();
    let mut z: usize = 0;
    while z < 4096
        invariant
            z <= 4096,
            used@.len() == z,
            taken@.len() == z,
            forall|q: int| 0 <= q < z ==> !#[trigger] taken@[q],
        decreases 4096 - z,
    {
        used.push(BitBoard::empty());
        taken.push(false);
        z = z + 1;
    }
    let mut i: usize = 0;
    while i < count as usize
        invariant
            i <= count,
            count <= 4096,
            blockers@.len() == count,
            atts@.len() == count,
            1 <= m <= 12,
            used@.len() == 4096,
            taken@.len() == 4096,
            forall|k: int| 0 <= k < i ==> #[trigger] recorded(taken@, used@, blockers@, atts@, magic, m, k),
            forall|k1: int, k2: int|
                0 <= k1 < i && 0 <= k2 < i && index_of(blockers@[k1]@, magic, m) == index_of(blockers@[k2]@, magic, m)
                    ==> atts@[k1] == atts@[k2],
            forall|q: int| 0 <= q < 4096 && #[trigger] taken@[q] ==> exists|k: int|
                0 <= k < i && index_of(blockers@[k]@, magic, m) == q,
        decreases count - i,
    {
        let j = transform(blockers[i], magic, m) as usize;
        let ghost i0 = i as int;
        let ghost used0 = used@;
        let ghost taken0 = taken@;
        if taken[j] {
            if used[j] != atts[i] {
                proof {
                    lemma_index_small(blockers@[i as int]@, magic, m);
                    let k = choose|k: int| 0 <= k < i && index_of(blockers@[k]@, magic, m) == j;
                    assert(recorded(taken@, used@, blockers@, atts@, magic, m, k));
                    assert(atts@[k] != atts@[i as int]);
                }
                return false;
            }
        } else {
            used.set(j, atts[i]);
            taken.set(j, true);
        }
        i = i + 1;
        proof {
            assert forall|k: int| 0 <= k < i implies #[trigger] recorded(taken@, used@, blockers@, atts@, magic, m, k) by {
                lemma_index_small(blockers@[k]@, magic, m);
                if k < i0 {
                    assert(recorded(taken0, used0, blockers@, atts@, magic, m, k));
                    assert(taken0[index_of(blockers@[k]@, magic, m) as int]);
                }
            }
            assert forall|q: int| 0 <= q < 4096 && #[trigger] taken@[q] implies exists|k: int|
                0 <= k < i && index_of(blockers@[k]@, magic, m) == q by {
                if q == j {
                    assert(index_of(blockers@[i0 as int]@, magic, m) == q);
                } else {
                    assert(taken0[q]);
                    let k = choose|k: int| 0 <= k < i0 && index_of(blockers@[k]@, magic, m) == q;
                }
            }
            assert forall|k1: int, k2: int|
                0 <= k1 < i && 0 <= k2 < i && index_of(blockers@[k1]@, magic, m) == index_of(blockers@[k2]@, magic, m)
                    implies atts@[k1] == atts@[k2] by {
                lemma_index_small(blockers@[k1]@, magic, m);
                lemma_index_small(blockers@[k2]@, magic, m);
                if k1 < i0 {
                    assert(recorded(taken0, used0, blockers@, atts@, magic, m, k1));
                    assert(taken0[index_of(blockers@[k1]@, magic, m) as int]);
                    assert(used0[index_of(blockers@[k1]@, magic, m) as int] == atts@[k1]);
                }
                if k2 < i0 {
                    assert(recorded(taken0, used0, blockers@, atts@, magic, m, k2));
                    assert(taken0[index_of(blockers@[k2]@, magic, m) as int]);
                    assert(used0[index_of(blockers@[k2]@, magic, m) as int] == atts@[k2]);
                }
            }
        }
    }
    true
}

/// Magic numbers for a rook on each square, or `None` if for some square none
/// was found.
pub fn rook_magics() -> (r: Option<[u64; 64]>)
    ensures
        r matches Some(a) ==> forall|s: int|
            0 <= s < 64 ==> magic_works(s, slider_mask_of(s, false), #[trigger] a@[s], ROOK_MAGIC_BIT_COUNT@[s], false),
{
    slider_magics(false)
}

/// Magic numbers for a bishop on each square, or `None` if for some square none
/// was found.
pub fn bishop_magics() -> (r: Option<[u64; 64]>)
    ensures
        r matches Some(a) ==> forall|s: int|
            0 <= s < 64 ==> magic_works(s, slider_mask_of(s, true), #[trigger] a@[s], BISHOP_MAGIC_BIT_COUNT@[s], true),
{
    slider_magics(true)
}

fn slider_magics(is_bishop: bool) -> (r: Option<[u64; 64]>)
    ensures
        r matches Some(a) ==> forall|s: int|
            0 <= s < 64 ==> magic_works(
                s,
                slider_mask_of(s, is_bishop),
                #[trigger] a@[s],
                if is_bishop {
                    BISHOP_MAGIC_BIT_COUNT@[s]
                } else {
                    ROOK_MAGIC_BIT_COUNT@[s]
                },
                is_bishop,
            ),
{
    let mut magics = [0u64; 64];
    let mut s: usize = 0;
    while s < 64
        invariant
            s <= 64,
            forall|i: int|
                0 <= i < s ==> magic_works(
                    i,
                    slider_mask_of(i, is_bishop),
                    #[trigger] magics@[i],
                    if is_bishop {
                        BISHOP_MAGIC_BIT_COUNT@[i]
                    } else {
                        ROOK_MAGIC_BIT_COUNT@[i]
                    },
                    is_bishop,
                ),
        decreases 64 - s,
    {
        let bits = if is_bishop {
            BISHOP_MAGIC_BIT_COUNT[s]
        } else {
            ROOK_MAGIC_BIT_COUNT[s]
        };
        if bits < 1 || bits > 12 {
            return None;
        }
        let sq = Square64::from_primitive(s);
        match find_magic(sq, bits, is_bishop) {
            Some(magic) => {
                magics[s] = magic;
            },
            None => {
                return None;
            },
        }
        s = s + 1;
    }
    Some(magics)
}

} // verus!
