//! Board geometry: knight and king move patterns, sliding attacks along rays,
//! file and rank masks, and the Zobrist keys used to hash positions.

use crate::mattis_bitboard::BitBoard;
use crate::types::Square64;
use vstd::prelude::*;

verus! {

// ---------------------------------------------------------------------------
// Geometry
// ---------------------------------------------------------------------------

/// The file (0 for A .. 7 for H) of a square index.
pub open spec fn sq_file(s: int) -> int {
    s % 8
}

/// The rank (0 for rank 1 .. 7 for rank 8) of a square index.
pub open spec fn sq_rank(s: int) -> int {
    s / 8
}

/// Whether a file/rank pair lies on the board.
pub open spec fn on_board(f: int, r: int) -> bool {
    0 <= f < 8 && 0 <= r < 8
}

/// The square index of a file/rank pair.
pub open spec fn sq_at(f: int, r: int) -> int {
    f + 8 * r
}

pub open spec fn abs_diff(a: int, b: int) -> int {
    if a >= b {
        a - b
    } else {
        b - a
    }
}

/// Whether a knight on `s` attacks `t`.
pub open spec fn knight_step(s: int, t: int) -> bool {
    &&& 0 <= s < 64
    &&& 0 <= t < 64
    &&& {
        let df = abs_diff(sq_file(s), sq_file(t));
        let dr = abs_diff(sq_rank(s), sq_rank(t));
        (df == 1 && dr == 2) || (df == 2 && dr == 1)
    }
}

/// Whether a king on `s` attacks `t`.
pub open spec fn king_step(s: int, t: int) -> bool {
    &&& 0 <= s < 64
    &&& 0 <= t < 64
    &&& s != t
    &&& abs_diff(sq_file(s), sq_file(t)) <= 1
    &&& abs_diff(sq_rank(s), sq_rank(t)) <= 1
}

/// `k` times the sign of `d` (so `k`, `-k` or 0).
pub open spec fn mulsign(k: int, d: int) -> int {
    if d > 0 {
        k
    } else if d < 0 {
        -k
    } else {
        0
    }
}

/// The number of steps in direction `(df, dr)` from `s` to `t`.
pub open spec fn ray_dist(s: int, t: int, df: int, dr: int) -> int {
    if df != 0 {
        mulsign(sq_file(t) - sq_file(s), df)
    } else {
        mulsign(sq_rank(t) - sq_rank(s), dr)
    }
}

/// The squares of a bitboard as a predicate on square indices.
pub open spec fn bb_fn(b: BitBoard) -> spec_fn(int) -> bool {
    |x: int| b.has(x)
}

/// Whether `t` lies on the ray from `s` in direction `(df, dr)` (not counting `s`).
pub open spec fn on_ray(s: int, t: int, df: int, dr: int) -> bool {
    let k = ray_dist(s, t, df, dr);
    &&& 0 <= s < 64
    &&& 0 <= t < 64
    &&& k >= 1
    &&& sq_file(t) == sq_file(s) + mulsign(k, df)
    &&& sq_rank(t) == sq_rank(s) + mulsign(k, dr)
}

/// Whether the first `k - 1` squares of the ray from `s` are free of blockers.
pub open spec fn ray_clear(s: int, df: int, dr: int, occ: spec_fn(int) -> bool, k: int) -> bool {
    forall|j: int|
        1 <= j < k ==> !occ(#[trigger] sq_at(sq_file(s) + mulsign(j, df), sq_rank(s) + mulsign(j, dr)))
}

/// Whether a slider on `s` moving in direction `(df, dr)` reaches `t`: `t` is on
/// the ray and no blocker stands strictly between `s` and `t`.
pub open spec fn ray_attacks(s: int, df: int, dr: int, occ: spec_fn(int) -> bool, t: int) -> bool {
    on_ray(s, t, df, dr) && ray_clear(s, df, dr, occ, ray_dist(s, t, df, dr))
}

/// Squares a rook on `s` attacks, given the occupied squares `occ`.
pub open spec fn rook_attacks(s: int, occ: spec_fn(int) -> bool, t: int) -> bool {
    ||| ray_attacks(s, 0, 1, occ, t)
    ||| ray_attacks(s, 0, -1, occ, t)
    ||| ray_attacks(s, 1, 0, occ, t)
    ||| ray_attacks(s, -1, 0, occ, t)
}

/// Squares a bishop on `s` attacks, given the occupied squares `occ`.
pub open spec fn bishop_attacks(s: int, occ: spec_fn(int) -> bool, t: int) -> bool {
    ||| ray_attacks(s, 1, 1, occ, t)
    ||| ray_attacks(s, -1, 1, occ, t)
    ||| ray_attacks(s, 1, -1, occ, t)
    ||| ray_attacks(s, -1, -1, occ, t)
}

/// A slider does not attack its own square.
pub proof fn lemma_no_self_attack(s: int, occ: spec_fn(int) -> bool)
    ensures
        !rook_attacks(s, occ, s),
        !bishop_attacks(s, occ, s),
{
}

/// Square indices in `0..64` split into file and rank.
pub proof fn lemma_sq_coords(s: int)
    requires
        0 <= s < 64,
    ensures
        0 <= sq_file(s) < 8,
        0 <= sq_rank(s) < 8,
        s == sq_at(sq_file(s), sq_rank(s)),
{
}

/// A file/rank pair on the board has an index in `0..64` that gives the pair back.
pub proof fn lemma_sq_at(f: int, r: int)
    requires
        on_board(f, r),
    ensures
        0 <= sq_at(f, r) < 64,
        sq_file(sq_at(f, r)) == f,
        sq_rank(sq_at(f, r)) == r,
{
}

/// A square index equals the index of a file/rank pair exactly when its file
/// and rank are that pair.
pub proof fn lemma_sq_at_iff(t: int, f: int, r: int)
    requires
        0 <= t < 64,
    ensures
        on_board(f, r) ==> ((t == sq_at(f, r)) <==> (sq_file(t) == f && sq_rank(t) == r)),
{
}

// ---------------------------------------------------------------------------
// Patterns and attacks
// ---------------------------------------------------------------------------

/// The squares of a rank.
pub fn rank_bitboard(rank: crate::types::Rank) -> (r: BitBoard)
    ensures
        forall|j: int| 0 <= j < 64 ==> r.has(j) == (j / 8 == rank.idx()),
{
    let k = rank.index() as u64;
    let r = BitBoard::from_u64(0xffu64 << (8 * k));
    proof {
        assert forall|j: int| 0 <= j < 64 implies r.has(j) == (j / 8 == rank.idx()) by {
            crate::bits::lemma_rank_mask(j, k as int);
        }
    }
    r
}

/// For each rank, from the first to the eighth, the squares not on it.
pub fn not_rank_bitboards() -> (r: [BitBoard; 8])
    ensures
        forall|k: int, j: int| 0 <= k < 8 && 0 <= j < 64 ==> #[trigger] r@[k].has(j) == (j / 8 != k),
{
    let mut boards = [BitBoard::empty(); 8];
    let mut k: usize = 0;
    while k < 8
        invariant
            k <= 8,
            forall|i: int, j: int| 0 <= i < k && 0 <= j < 64 ==> #[trigger] boards@[i].has(j) == (j / 8 != i),
        decreases 8 - k,
    {
        let rank = BitBoard::from_u64(0xffu64 << (8 * k as u64));
        let not_rank = rank.complement();
        proof {
            assert forall|j: int| 0 <= j < 64 implies not_rank.has(j) == (j / 8 != k) by {
                crate::bits::lemma_rank_mask(j, k as int);
            }
        }
        boards.set(k, not_rank);
        k = k + 1;
    }
    boards
}

/// Adds the square `(f + df, r + dr)` to `bb` if it lies on the board.
fn add_if_on_board(bb: BitBoard, f: i32, r: i32, df: i32, dr: i32) -> (res: BitBoard)
    requires
        0 <= f < 8,
        0 <= r < 8,
        -2 <= df <= 2,
        -2 <= dr <= 2,
    ensures
        forall|t: int|
            0 <= t < 64 ==> res.has(t) == (bb.has(t) || (on_board(f + df, r + dr) && t == sq_at(
                f + df,
                r + dr,
            ))),
{
    let nf = f + df;
    let nr = r + dr;
    if 0 <= nf && nf < 8 && 0 <= nr && nr < 8 {
        let mut res = bb;
        res.set(Square64::from_primitive((nf + 8 * nr) as usize));
        res
    } else {
        bb
    }
}

/// The squares a knight on `sq` attacks.
#[verifier::rlimit(40)]
pub fn knight_pattern(sq: Square64) -> (r: BitBoard)
    requires
        sq.is_valid(),
    ensures
        forall|t: int| 0 <= t < 64 ==> r.has(t) == knight_step(sq.idx(), t),
{
    let s = sq.index() as i32;
    let f = s % 8;
    let rk = s / 8;
    let mut bb = BitBoard::empty();
    bb = add_if_on_board(bb, f, rk, 1, 2);
    bb = add_if_on_board(bb, f, rk, 2, 1);
    bb = add_if_on_board(bb, f, rk, 2, -1);
    bb = add_if_on_board(bb, f, rk, 1, -2);
    bb = add_if_on_board(bb, f, rk, -1, -2);
    bb = add_if_on_board(bb, f, rk, -2, -1);
    bb = add_if_on_board(bb, f, rk, -2, 1);
    bb = add_if_on_board(bb, f, rk, -1, 2);
    proof {
        assert forall|t: int| 0 <= t < 64 implies bb.has(t) == knight_step(sq.idx(), t) by {
            lemma_sq_coords(t);
            lemma_sq_at_iff(t, f + 1, rk + 2);
            lemma_sq_at_iff(t, f + 2, rk + 1);
            lemma_sq_at_iff(t, f + 2, rk - 1);
            lemma_sq_at_iff(t, f + 1, rk - 2);
            lemma_sq_at_iff(t, f - 1, rk - 2);
            lemma_sq_at_iff(t, f - 2, rk - 1);
            lemma_sq_at_iff(t, f - 2, rk + 1);
            lemma_sq_at_iff(t, f - 1, rk + 2);
        }
    }
    bb
}

/// The squares a king on `sq` attacks.
#[verifier::rlimit(40)]
pub fn king_pattern(sq: Square64) -> (r: BitBoard)
    requires
        sq.is_valid(),
    ensures
        forall|t: int| 0 <= t < 64 ==> r.has(t) == king_step(sq.idx(), t),
{
    let s = sq.index() as i32;
    let f = s % 8;
    let rk = s / 8;
    let mut bb = BitBoard::empty();
    bb = add_if_on_board(bb, f, rk, -1, 1);
    bb = add_if_on_board(bb, f, rk, 0, 1);
    bb = add_if_on_board(bb, f, rk, 1, 1);
    bb = add_if_on_board(bb, f, rk, 1, 0);
    bb = add_if_on_board(bb, f, rk, 1, -1);
    bb = add_if_on_board(bb, f, rk, 0, -1);
    bb = add_if_on_board(bb, f, rk, -1, -1);
    bb = add_if_on_board(bb, f, rk, -1, 0);
    proof {
        assert forall|t: int| 0 <= t < 64 implies bb.has(t) == king_step(sq.idx(), t) by {
            lemma_sq_coords(t);
            lemma_sq_at_iff(t, f - 1, rk + 1);
            lemma_sq_at_iff(t, f + 0, rk + 1);
            lemma_sq_at_iff(t, f + 1, rk + 1);
            lemma_sq_at_iff(t, f + 1, rk + 0);
            lemma_sq_at_iff(t, f + 1, rk - 1);
            lemma_sq_at_iff(t, f + 0, rk - 1);
            lemma_sq_at_iff(t, f - 1, rk - 1);
            lemma_sq_at_iff(t, f - 1, rk + 0);
        }
    }
    bb
}

/// The squares a slider on `sq` reaches in direction `(df, dr)`: every square up to
/// and including the first blocker, or up to the edge of the board.
pub fn ray(sq: Square64, df: i32, dr: i32, blockers: BitBoard) -> (res: BitBoard)
    requires
        sq.is_valid(),
        -1 <= df <= 1,
        -1 <= dr <= 1,
        df != 0 || dr != 0,
    ensures
        forall|t: int| 0 <= t < 64 ==> res.has(t) == ray_attacks(sq.idx(), df as int, dr as int, bb_fn(blockers), t),
{
    let s = sq.index() as i32;
    let f = s % 8;
    let r = s / 8;
    let mut res = BitBoard::empty();
    let mut k: i32 = 1;
    let mut cf = f + df;
    let mut cr = r + dr;
    let ghost si = s as int;
    let ghost occ = bb_fn(blockers);
    loop
        invariant_except_break
            1 <= k <= 8,
            cf == f + mulsign(k as int, df as int),
            cr == r + mulsign(k as int, dr as int),
            ray_clear(si, df as int, dr as int, occ, k as int),
            forall|t: int|
                0 <= t < 64 ==> res.has(t) == (on_ray(si, t, df as int, dr as int) && ray_dist(
                    si,
                    t,
                    df as int,
                    dr as int,
                ) < k && ray_clear(si, df as int, dr as int, occ, ray_dist(si, t, df as int, dr as int))),
        invariant
            si == sq.idx(),
            occ == bb_fn(blockers),
            0 <= f < 8,
            0 <= r < 8,
            f == sq_file(si),
            r == sq_rank(si),
            -1 <= df <= 1,
            -1 <= dr <= 1,
            df != 0 || dr != 0,
        ensures
            forall|t: int| 0 <= t < 64 ==> res.has(t) == ray_attacks(si, df as int, dr as int, occ, t),
        decreases 8 - k,
    {
        if !(0 <= cf && cf < 8 && 0 <= cr && cr < 8) {
            proof {
                assert forall|u: int| 0 <= u < 64 implies res.has(u) == ray_attacks(si, df as int, dr as int, occ, u) by {
                    if on_ray(si, u, df as int, dr as int) && ray_dist(si, u, df as int, dr as int) >= k {
                        lemma_ray_off_board(si, df as int, dr as int, k as int, u);
                    }
                }
            }
            break;
        }
        let t = Square64::from_primitive((cf + 8 * cr) as usize);
        let ghost old_res = res;
        res.set(t);
        proof {
            lemma_sq_at(cf as int, cr as int);
            assert forall|u: int| 0 <= u < 64 implies res.has(u) == (on_ray(si, u, df as int, dr as int) && ray_dist(
                si,
                u,
                df as int,
                dr as int,
            ) < k + 1 && ray_clear(si, df as int, dr as int, occ, ray_dist(si, u, df as int, dr as int))) by {
                lemma_ray_step(si, df as int, dr as int, k as int, u);
                if ray_dist(si, u, df as int, dr as int) < k {
                    lemma_ray_clear_mono(si, df as int, dr as int, occ, ray_dist(si, u, df as int, dr as int), k as int);
                }
            }
        }
        if blockers.get(t) {
            proof {
                assert forall|u: int| 0 <= u < 64 implies res.has(u) == ray_attacks(si, df as int, dr as int, occ, u) by {
                    if on_ray(si, u, df as int, dr as int) && ray_dist(si, u, df as int, dr as int) > k {
                        let j = k as int;
                        assert(sq_at(sq_file(si) + mulsign(j, df as int), sq_rank(si) + mulsign(j, dr as int)) == t.idx());
                    }
                }
            }
            break;
        }
        proof {
            assert forall|j: int| 1 <= j < k + 1 implies !occ(
                #[trigger] sq_at(sq_file(si) + mulsign(j, df as int), sq_rank(si) + mulsign(j, dr as int)),
            ) by {
                if j == k {
                    assert(sq_at(sq_file(si) + mulsign(j, df as int), sq_rank(si) + mulsign(j, dr as int)) == t.idx());
                }
            }
        }
        k = k + 1;
        cf = cf + df;
        cr = cr + dr;
        assert(k <= 8) by {
            lemma_ray_bound(f as int, r as int, df as int, dr as int, k as int);
        }
    }
    res
}

/// Moving `k` steps from a square stays on the board for at most 7 steps.
proof fn lemma_ray_bound(f: int, r: int, df: int, dr: int, k: int)
    requires
        0 <= f < 8,
        0 <= r < 8,
        -1 <= df <= 1,
        -1 <= dr <= 1,
        df != 0 || dr != 0,
        k >= 1,
        on_board(f + mulsign(k - 1, df), r + mulsign(k - 1, dr)),
    ensures
        k <= 8,
{
    if df == 1 {
        assert(f + mulsign(k - 1, df) == f + k - 1);
    } else if df == -1 {
        assert(f + mulsign(k - 1, df) == f - k + 1);
    } else if dr == 1 {
        assert(r + mulsign(k - 1, dr) == r + k - 1);
    } else {
        assert(r + mulsign(k - 1, dr) == r - k + 1);
    }
}

/// The square `k` steps along the ray is the one at distance `k`.
proof fn lemma_ray_step(s: int, df: int, dr: int, k: int, u: int)
    requires
        0 <= s < 64,
        -1 <= df <= 1,
        -1 <= dr <= 1,
        df != 0 || dr != 0,
        k >= 1,
        on_board(sq_file(s) + mulsign(k, df), sq_rank(s) + mulsign(k, dr)),
        0 <= u < 64,
    ensures
        (u == sq_at(sq_file(s) + mulsign(k, df), sq_rank(s) + mulsign(k, dr))) <==> (on_ray(s, u, df, dr) && ray_dist(
            s,
            u,
            df,
            dr,
        ) == k),
{
    lemma_sq_at(sq_file(s) + mulsign(k, df), sq_rank(s) + mulsign(k, dr));
    lemma_sq_coords(u);
    if df == 1 {
        assert(mulsign(k, df) == k);
    } else if df == -1 {
        assert(mulsign(k, df) == -k);
    } else {
        assert(mulsign(k, df) == 0);
    }
    if dr == 1 {
        assert(mulsign(k, dr) == k);
    } else if dr == -1 {
        assert(mulsign(k, dr) == -k);
    } else {
        assert(mulsign(k, dr) == 0);
    }
    let d = ray_dist(s, u, df, dr);
    if df == 1 {
        assert(mulsign(d, df) == d);
    } else if df == -1 {
        assert(mulsign(d, df) == -d);
    } else {
        assert(mulsign(d, df) == 0);
    }
    if dr == 1 {
        assert(mulsign(d, dr) == d);
    } else if dr == -1 {
        assert(mulsign(d, dr) == -d);
    } else {
        assert(mulsign(d, dr) == 0);
    }
}

/// A square at distance `k` or more on the ray lies off the board once step `k` does.
proof fn lemma_ray_off_board(s: int, df: int, dr: int, k: int, u: int)
    requires
        0 <= s < 64,
        -1 <= df <= 1,
        -1 <= dr <= 1,
        df != 0 || dr != 0,
        k >= 1,
        !on_board(sq_file(s) + mulsign(k, df), sq_rank(s) + mulsign(k, dr)),
        on_ray(s, u, df, dr),
    ensures
        ray_dist(s, u, df, dr) < k,
{
    lemma_sq_coords(u);
    lemma_sq_coords(s);
    let d = ray_dist(s, u, df, dr);
    if d >= k {
        if df == 1 {
            assert(mulsign(k, df) == k);
            assert(mulsign(d, df) == d);
        } else if df == -1 {
            assert(mulsign(k, df) == -k);
            assert(mulsign(d, df) == -d);
        } else {
            assert(mulsign(k, df) == 0);
            assert(mulsign(d, df) == 0);
        }
        if dr == 1 {
            assert(mulsign(k, dr) == k);
            assert(mulsign(d, dr) == d);
        } else if dr == -1 {
            assert(mulsign(k, dr) == -k);
            assert(mulsign(d, dr) == -d);
        } else {
            assert(mulsign(k, dr) == 0);
            assert(mulsign(d, dr) == 0);
        }
    }
}

/// A ray that is clear for `k` steps is clear for fewer steps.
proof fn lemma_ray_clear_mono(s: int, df: int, dr: int, occ: spec_fn(int) -> bool, j: int, k: int)
    requires
        j <= k,
        ray_clear(s, df, dr, occ, k),
    ensures
        ray_clear(s, df, dr, occ, j),
{
}

/// The squares a rook on `sq` attacks, given the occupied squares `blockers`.
pub fn magic_rook_moves(sq: Square64, blockers: BitBoard) -> (r: BitBoard)
    requires
        sq.is_valid(),
    ensures
        forall|t: int| 0 <= t < 64 ==> r.has(t) == rook_attacks(sq.idx(), bb_fn(blockers), t),
{
    let n = ray(sq, 0, 1, blockers);
    let s = ray(sq, 0, -1, blockers);
    let e = ray(sq, 1, 0, blockers);
    let w = ray(sq, -1, 0, blockers);
    n.union(s).union(e).union(w)
}

/// The squares a bishop on `sq` attacks, given the occupied squares `blockers`.
pub fn magic_bishop_moves(sq: Square64, blockers: BitBoard) -> (r: BitBoard)
    requires
        sq.is_valid(),
    ensures
        forall|t: int| 0 <= t < 64 ==> r.has(t) == bishop_attacks(sq.idx(), bb_fn(blockers), t),
{
    let ne = ray(sq, 1, 1, blockers);
    let nw = ray(sq, -1, 1, blockers);
    let se = ray(sq, 1, -1, blockers);
    let sw = ray(sq, -1, -1, blockers);
    ne.union(nw).union(se).union(sw)
}

// ---------------------------------------------------------------------------
// Zobrist keys
// ---------------------------------------------------------------------------

/// A 64-bit mixing function (the SplitMix64 finalizer) used to derive the
/// Zobrist keys from small seeds.
pub open spec fn mix64(x: u64) -> u64 {
    let z = x.wrapping_add(0x9E37_79B9_7F4A_7C15);
    let z = (z ^ (z >> 30u64)).wrapping_mul(0xBF58_476D_1CE4_E5B9);
    let z = (z ^ (z >> 27u64)).wrapping_mul(0x94D0_49BB_1331_11EB);
    z ^ (z >> 31u64)
}

pub fn zobrist_mix(x: u64) -> (r: u64)
    ensures
        r == mix64(x),
{
    let z = x.wrapping_add(0x9E37_79B9_7F4A_7C15);
    let z = (z ^ (z >> 30u64)).wrapping_mul(0xBF58_476D_1CE4_E5B9);
    let z = (z ^ (z >> 27u64)).wrapping_mul(0x94D0_49BB_1331_11EB);
    z ^ (z >> 31u64)
}

/// The key of a piece standing on a square.
pub open spec fn piece_key(sq: int, piece_idx: int) -> u64 {
    mix64((1 + sq * 12 + piece_idx) as u64)
}

/// The key that is mixed in when white is to move.
pub open spec fn color_key() -> u64 {
    mix64(1000)
}

/// The key of a set of castle permissions (raw bits below 16).
pub open spec fn castle_key(bits: int) -> u64 {
    mix64((2000 + bits) as u64)
}

/// The key of an en passant square.
pub open spec fn en_passant_key(sq: int) -> u64 {
    mix64((3000 + sq) as u64)
}

pub fn zobrist_piece_key(sq: Square64, piece: crate::types::Piece) -> (r: u64)
    requires
        sq.is_valid(),
    ensures
        r == piece_key(sq.idx(), piece.idx()),
{
    let i = 1 + sq.index() as u64 * 12 + piece.index() as u64;
    zobrist_mix(i)
}

pub fn zobrist_color_key() -> (r: u64)
    ensures
        r == color_key(),
{
    zobrist_mix(1000)
}

pub fn zobrist_castle_key(bits: u8) -> (r: u64)
    requires
        bits < 16,
    ensures
        r == castle_key(bits as int),
{
    zobrist_mix(2000 + bits as u64)
}

pub fn zobrist_en_passant_key(sq: Square64) -> (r: u64)
    requires
        sq.is_valid(),
    ensures
        r == en_passant_key(sq.idx()),
{
    zobrist_mix(3000 + sq.index() as u64)
}

} // verus!
