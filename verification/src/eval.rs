//! Static evaluation of a position from the point of view of the side to move:
//! material, piece-square tables, pawn structure, rooks and queens on open
//! files, and the bishop pair. Positions without enough material to mate
//! evaluate to zero.

use crate::board::Board;
use crate::types::{Color, Piece, PieceType, color_of, opposite, piece_of, piece_type_value, type_of};
use vstd::prelude::*;

verus! {

/// The bonus for a passed pawn on each rank, seen from its own side (the first
/// and last entries are never used).
pub const PASSED_PAWN_BONUS: [i16; 8] = [0, 5, 10, 20, 35, 60, 100, 0];

pub const ISOLATED_PAWN_PENALTY: i16 = -25;

pub const ROOK_ON_OPEN_FILE_BONUS: i16 = 15;

pub const ROOK_ON_SEMI_OPEN_FILE_BONUS: i16 = 10;

pub const QUEEN_ON_OPEN_FILE_BONUS: i16 = 10;

pub const QUEEN_ON_SEMI_OPEN_FILE_BONUS: i16 = 5;

pub const BISHOP_PAIR_BONUS: i16 = 30;

/// The material below which the other side counts as being in the endgame: a
/// rook, two knights, four pawns and the king.
pub const ENDGAME_MATERIAL_THRESHOLD: i16 = 16600;

pub const PAWN_SQUARE_TABLE: [i16; 64] = [
    0, 0, 0, 0, 0, 0, 0, 0,
    5, 10, 10, -20, -20, 10, 10, 5,
    5, -5, -10, 0, 0, -10, -5, 5,
    0, 0, 0, 20, 20, 0, 0, 0,
    5, 5, 10, 25, 25, 10, 5, 5,
    10, 10, 20, 30, 30, 20, 10, 10,
    50, 50, 50, 50, 50, 50, 50, 50,
    0, 0, 0, 0, 0, 0, 0, 0,
];

pub const KNIGHT_SQUARE_TABLE: [i16; 64] = [
    -50, -40, -30, -30, -30, -30, -40, -50,
    -40, -20, 0, 5, 5, 0, -20, -40,
    -30, 5, 10, 15, 15, 10, 5, -30,
    -30, 0, 15, 20, 20, 15, 0, -30,
    -30, 5, 15, 20, 20, 15, 5, -30,
    -30, 0, 10, 15, 15, 10, 0, -30,
    -40, -20, 0, 0, 0, 0, -20, -40,
    -50, -40, -30, -30, -30, -30, -40, -50,
];

pub const BISHOP_SQUARE_TABLE: [i16; 64] = [
    -20, -10, -10, -10, -10, -10, -10, -20,
    -10, 5, 0, 0, 0, 0, 5, -10,
    -10, 10, 10, 10, 10, 10, 10, -10,
    -10, 0, 10, 10, 10, 10, 0, -10,
    -10, 5, 5, 10, 10, 5, 5, -10,
    -10, 0, 5, 10, 10, 5, 0, -10,
    -10, 0, 0, 0, 0, 0, 0, -10,
    -20, -10, -10, -10, -10, -10, -10, -20,
];

pub const ROOK_SQUARE_TABLE: [i16; 64] = [
    0, 0, 5, 10, 10, 5, 0, 0,
    -5, 0, 0, 10, 10, 0, 0, -5,
    -5, 0, 0, 10, 10, 0, 0, -5,
    -5, 0, 0, 10, 10, 0, 0, -5,
    -5, 0, 0, 10, 10, 0, 0, -5,
    -5, 0, 0, 10, 10, 0, 0, -5,
    5, 15, 15, 15, 15, 15, 15, 5,
    0, 0, 0, 0, 0, 0, 0, 0,
];

pub const QUEEN_SQUARE_TABLE: [i16; 64] = [
    -20, -10, -10, -5, -5, -10, -10, -20,
    -10, 0, 5, 0, 0, 0, 0, -10,
    -10, 5, 5, 5, 5, 5, 0, -10,
    0, 0, 5, 5, 5, 5, 0, -5,
    -5, 0, 5, 5, 5, 5, 0, -5,
    -10, 0, 5, 5, 5, 5, 0, -10,
    -10, 0, 0, 0, 0, 0, 0, -10,
    -20, -10, -10, -5, -5, -10, -10, -20,
];

pub const KING_SQUARE_TABLE: [i16; 64] = [
    20, 30, 10, 0, 0, 10, 30, 20,
    20, 20, 0, 0, 0, 0, 20, 20,
    -10, -20, -20, -20, -20, -20, -20, -10,
    -20, -30, -30, -40, -40, -30, -30, -20,
    -30, -40, -40, -50, -50, -40, -40, -30,
    -30, -40, -40, -50, -50, -40, -40, -30,
    -30, -40, -40, -50, -50, -40, -40, -30,
    -30, -40, -40, -50, -50, -40, -40, -30,
];

pub const KING_ENDGAME_SQUARE_TABLE: [i16; 64] = [
    -50, -30, -30, -30, -30, -30, -30, -50,
    -30, -30, 0, 0, 0, 0, -30, -30,
    -30, -10, 20, 30, 30, 20, -10, -30,
    -30, -10, 30, 40, 40, 30, -10, -30,
    -30, -10, 30, 40, 40, 30, -10, -30,
    -30, -10, 20, 30, 30, 20, -10, -30,
    -30, -20, -10, 0, 0, -10, -20, -30,
    -50, -40, -30, -20, -20, -30, -40, -50,
];

// ---------------------------------------------------------------------------
// The terms of the evaluation
// ---------------------------------------------------------------------------

/// The square seen from the other side: the same file, the mirrored rank.
pub open spec fn mirror(s: int) -> int {
    (7 - s / 8) * 8 + s % 8
}

/// The piece-square table of a piece type (the king's depends on the endgame).
pub open spec fn table_of(t: PieceType, endgame: bool) -> Seq<i16> {
    match t {
        PieceType::Pawn => PAWN_SQUARE_TABLE@,
        PieceType::Knight => KNIGHT_SQUARE_TABLE@,
        PieceType::Bishop => BISHOP_SQUARE_TABLE@,
        PieceType::Rook => ROOK_SQUARE_TABLE@,
        PieceType::Queen => QUEEN_SQUARE_TABLE@,
        PieceType::King => if endgame {
            KING_ENDGAME_SQUARE_TABLE@
        } else {
            KING_SQUARE_TABLE@
        },
    }
}

/// The highest rank below `n` holding a pawn of color `c` on file `f`, or -1.
pub open spec fn max_pawn_rank(p: Seq<Option<Piece>>, c: Color, f: int, n: int) -> int
    decreases n,
{
    if n <= 0 {
        -1
    } else if p[8 * (n - 1) + f] == Some(piece_of(PieceType::Pawn, c)) {
        n - 1
    } else {
        max_pawn_rank(p, c, f, n - 1)
    }
}

/// The lowest rank from `n` up holding a pawn of color `c` on file `f`, or 8.
pub open spec fn min_pawn_rank(p: Seq<Option<Piece>>, c: Color, f: int, n: int) -> int
    decreases 8 - n,
{
    if n >= 8 {
        8
    } else if p[8 * n + f] == Some(piece_of(PieceType::Pawn, c)) {
        n
    } else {
        min_pawn_rank(p, c, f, n + 1)
    }
}

/// Whether file `f` holds a pawn of color `c`.
pub open spec fn file_has_pawn(p: Seq<Option<Piece>>, c: Color, f: int) -> bool {
    max_pawn_rank(p, c, f, 8) >= 0
}

/// Whether a pawn of color `c` on file `f` has no pawn of its own color on the
/// neighbouring files.
pub open spec fn isolated(p: Seq<Option<Piece>>, c: Color, f: int) -> bool {
    &&& (f > 0 ==> !file_has_pawn(p, c, f - 1))
    &&& (f < 7 ==> !file_has_pawn(p, c, f + 1))
}

/// Whether an opposing pawn on file `g` stands ahead of a pawn of color `c` on
/// rank `r`.
pub open spec fn blocked_on(p: Seq<Option<Piece>>, c: Color, g: int, r: int) -> bool {
    if c == Color::White {
        max_pawn_rank(p, Color::Black, g, 8) > r
    } else {
        min_pawn_rank(p, Color::White, g, 0) < r
    }
}

/// Whether a pawn of color `c` on file `f` and rank `r` is passed: no opposing
/// pawn ahead of it on its own or the neighbouring files.
pub open spec fn passed(p: Seq<Option<Piece>>, c: Color, f: int, r: int) -> bool {
    &&& !blocked_on(p, c, f, r)
    &&& (f > 0 ==> !blocked_on(p, c, f - 1, r))
    &&& (f < 7 ==> !blocked_on(p, c, f + 1, r))
}

/// The terms for the piece on square `s`, counted for the side to move `my` and
/// against the other side: its piece-square value (tables seen from white, black
/// pieces using the mirrored square), the isolated and passed pawn terms (the
/// passed bonus indexed by the rank for the side to move and by the mirrored rank
/// for the other side), and the open and half-open file bonuses of rooks and
/// queens.
pub open spec fn square_score(p: Seq<Option<Piece>>, my: Color, eg_my: bool, eg_op: bool, s: int) -> int {
    match p[s] {
        None => 0,
        Some(q) => {
            let c = color_of(q);
            let t = type_of(q);
            let mine = c == my;
            let f = s % 8;
            let r = s / 8;
            let idx = if c == Color::White {
                s
            } else {
                mirror(s)
            };
            let base = table_of(t, if mine { eg_my } else { eg_op })[idx] as int;
            let pawn_terms = if t == PieceType::Pawn {
                (if isolated(p, c, f) {
                    ISOLATED_PAWN_PENALTY as int
                } else {
                    0
                }) + (if passed(p, c, f, r) {
                    PASSED_PAWN_BONUS@[if mine { r } else { 7 - r }] as int
                } else {
                    0
                })
            } else {
                0
            };
            let open = !file_has_pawn(p, Color::White, f) && !file_has_pawn(p, Color::Black, f);
            let half_open = !file_has_pawn(p, opposite(c), f);
            let file_terms = if t == PieceType::Rook {
                if open {
                    ROOK_ON_OPEN_FILE_BONUS as int
                } else if half_open {
                    ROOK_ON_SEMI_OPEN_FILE_BONUS as int
                } else {
                    0
                }
            } else if t == PieceType::Queen {
                if open {
                    QUEEN_ON_OPEN_FILE_BONUS as int
                } else if half_open {
                    QUEEN_ON_SEMI_OPEN_FILE_BONUS as int
                } else {
                    0
                }
            } else {
                0
            };
            let v = base + pawn_terms + file_terms;
            if mine {
                v
            } else {
                -v
            }
        },
    }
}

/// The sum of the square scores of the first `n` squares.
pub open spec fn score_sum(p: Seq<Option<Piece>>, my: Color, eg_my: bool, eg_op: bool, n: int) -> int
    decreases n,
{
    if n <= 0 {
        0
    } else {
        score_sum(p, my, eg_my, eg_op, n - 1) + square_score(p, my, eg_my, eg_op, n - 1)
    }
}

/// Whether the counts of pieces leave too little material to mate.
pub open spec fn draw_by_material(b: &Board) -> bool {
    let wq = b.count_pieces[Piece::WhiteQueen.idx()];
    let wr = b.count_pieces[Piece::WhiteRook.idx()];
    let wn = b.count_pieces[Piece::WhiteKnight.idx()];
    let wb = b.count_pieces[Piece::WhiteBishop.idx()];
    let wp = b.count_pieces[Piece::WhitePawn.idx()];
    let wm = b.count_minor_pieces[Color::White.idx()];
    let bq = b.count_pieces[Piece::BlackQueen.idx()];
    let br = b.count_pieces[Piece::BlackRook.idx()];
    let bn = b.count_pieces[Piece::BlackKnight.idx()];
    let bb = b.count_pieces[Piece::BlackBishop.idx()];
    let bp = b.count_pieces[Piece::BlackPawn.idx()];
    let bm = b.count_minor_pieces[Color::Black.idx()];
    if wq + bq + wp + bp != 0 {
        false
    } else if wr > 1 || br > 1 {
        false
    } else if wr == 1 && br == 1 && wm < 2 && bm < 2 {
        true
    } else if wr == 1 && br == 0 && wm == 0 && (bm == 1 || bm == 2) {
        true
    } else if br == 1 && wr == 0 && bm == 0 && (wm == 1 || wm == 2) {
        true
    } else if br + wr > 0 {
        false
    } else if wb + bb == 0 && wn < 3 && bn < 3 {
        true
    } else if wn + bn == 0 && (if wb >= bb { wb - bb } else { bb - wb }) < 2 {
        true
    } else {
        ((wn < 3 && wb == 0) || (wb == 1 && wn == 0)) && ((bn < 3 && bb == 0) || (bb == 1 && bn == 0))
    }
}

/// The evaluation as an integer: zero for a draw by material, else the material
/// difference, the square scores and the bishop pair bonuses.
pub open spec fn eval_spec(b: &Board) -> int {
    let my = b.color;
    let op = opposite(my);
    let eg_my = b.material[op.idx()] < ENDGAME_MATERIAL_THRESHOLD;
    let eg_op = b.material[my.idx()] < ENDGAME_MATERIAL_THRESHOLD;
    if draw_by_material(b) {
        0
    } else {
        b.material[my.idx()] - b.material[op.idx()] + score_sum(b.pieces@, my, eg_my, eg_op, 64) + (if b.count_pieces[
            piece_of(PieceType::Bishop, my).idx()] >= 2 {
            BISHOP_PAIR_BONUS as int
        } else {
            0
        }) - (if b.count_pieces[piece_of(PieceType::Bishop, op).idx()] >= 2 {
            BISHOP_PAIR_BONUS as int
        } else {
            0
        })
    }
}

/// A draw by material needs both sides short of mating material: no queen and
/// no pawn on the board, at most one rook a side, and a side with a rook facing
/// a rook or a minor piece. In particular a rook (or more) against a bare king
/// is never a draw by material.
pub proof fn law_draw_by_material_counts(b: &Board)
    ensures
        draw_by_material(b) ==> {
            let wr = b.count_pieces[Piece::WhiteRook.idx()];
            let br = b.count_pieces[Piece::BlackRook.idx()];
            let wm = b.count_minor_pieces[Color::White.idx()];
            let bm = b.count_minor_pieces[Color::Black.idx()];
            &&& b.count_pieces[Piece::WhiteQueen.idx()] == 0
            &&& b.count_pieces[Piece::BlackQueen.idx()] == 0
            &&& b.count_pieces[Piece::WhitePawn.idx()] == 0
            &&& b.count_pieces[Piece::BlackPawn.idx()] == 0
            &&& wr <= 1
            &&& br <= 1
            &&& wr >= 1 ==> br >= 1 || bm >= 1
            &&& br >= 1 ==> wr >= 1 || wm >= 1
        },
{
}

/// Whether the side `color` is in the endgame: its opponent's material is below
/// the threshold.
fn is_endgame_for_color(color: Color, board: &Board) -> (r: bool)
    ensures
        r == (board.material[opposite(color).idx()] < ENDGAME_MATERIAL_THRESHOLD),
{
    board.material[color.flipped().index()] < ENDGAME_MATERIAL_THRESHOLD
}

/// Whether neither side has enough material left to mate.
pub fn is_draw_by_material(board: &Board) -> (r: bool)
    ensures
        r == draw_by_material(board),
{
    let white_queens = board.count_pieces[Piece::WhiteQueen.index()];
    let white_rooks = board.count_pieces[Piece::WhiteRook.index()];
    let white_knights = board.count_pieces[Piece::WhiteKnight.index()];
    let white_bishops = board.count_pieces[Piece::WhiteBishop.index()];
    let white_pawns = board.count_pieces[Piece::WhitePawn.index()];
    let white_minors = board.count_minor_pieces[Color::White.index()];
    let black_queens = board.count_pieces[Piece::BlackQueen.index()];
    let black_rooks = board.count_pieces[Piece::BlackRook.index()];
    let black_knights = board.count_pieces[Piece::BlackKnight.index()];
    let black_bishops = board.count_pieces[Piece::BlackBishop.index()];
    let black_pawns = board.count_pieces[Piece::BlackPawn.index()];
    let black_minors = board.count_minor_pieces[Color::Black.index()];

    // any queens or pawns on the board: no draw
    if white_queens != 0 || black_queens != 0 || white_pawns != 0 || black_pawns != 0 {
        return false;
    }
    // a side with more than one rook: no draw
    if white_rooks > 1 || black_rooks > 1 {
        return false;
    }
    // no side has enough of an advantage
    if white_rooks == 1 && black_rooks == 1 && white_minors < 2 && black_minors < 2 {
        return true;
    }
    // a lone rook against one or two minor pieces
    if white_rooks == 1 && black_rooks == 0 && white_minors == 0 && (black_minors == 1 || black_minors == 2) {
        return true;
    }
    if black_rooks == 1 && white_rooks == 0 && black_minors == 0 && (white_minors == 1 || white_minors == 2) {
        return true;
    }
    // all other draws by material have no rooks
    if black_rooks + white_rooks > 0 {
        return false;
    }
    // only a few knights
    if white_bishops == 0 && black_bishops == 0 && white_knights < 3 && black_knights < 3 {
        return true;
    }
    // only bishops, neither side with significantly more than the other
    let bishop_diff = if white_bishops >= black_bishops {
        white_bishops - black_bishops
    } else {
        black_bishops - white_bishops
    };
    if white_knights == 0 && black_knights == 0 && bishop_diff < 2 {
        return true;
    }
    ((white_knights < 3 && white_bishops == 0) || (white_bishops == 1 && white_knights == 0)) && ((black_knights
        < 3 && black_bishops == 0) || (black_bishops == 1 && black_knights == 0))
}

/// The highest rank holding a pawn of color `c` on file `f`, or -1.
fn highest_pawn_rank(board: &Board, c: Color, f: usize) -> (r: i8)
    requires
        f < 8,
    ensures
        r == max_pawn_rank(board.pieces@, c, f as int, 8),
{
    let pawn = Piece::new(PieceType::Pawn, c);
    let mut r: i8 = -1;
    let mut n: usize = 0;
    while n < 8
        invariant
            n <= 8,
            f < 8,
            pawn == piece_of(PieceType::Pawn, c),
            r == max_pawn_rank(board.pieces@, c, f as int, n as int),
        decreases 8 - n,
    {
        let here = match board.pieces[8 * n + f] {
            Some(q) => q == pawn,
            None => false,
        };
        if here {
            r = n as i8;
        }
        n = n + 1;
    }
    r
}

/// The lowest rank holding a pawn of color `c` on file `f`, or 8.
fn lowest_pawn_rank(board: &Board, c: Color, f: usize) -> (r: i8)
    requires
        f < 8,
    ensures
        r == min_pawn_rank(board.pieces@, c, f as int, 0),
{
    let pawn = Piece::new(PieceType::Pawn, c);
    let mut r: i8 = 8;
    let mut n: usize = 8;
    while n > 0
        invariant
            n <= 8,
            f < 8,
            pawn == piece_of(PieceType::Pawn, c),
            r == min_pawn_rank(board.pieces@, c, f as int, n as int),
        decreases n,
    {
        n = n - 1;
        let here = match board.pieces[8 * n + f] {
            Some(q) => q == pawn,
            None => false,
        };
        if here {
            r = n as i8;
        }
    }
    r
}

/// The pawn ranks of one color, file by file: the highest and the lowest rank
/// holding one of its pawns (-1 and 8 on a file without any).
struct PawnFiles {
    highest: [i8; 8],
    lowest: [i8; 8],
}

impl PawnFiles {
    spec fn describes(&self, p: Seq<Option<Piece>>, c: Color) -> bool {
        forall|f: int|
            0 <= f < 8 ==> #[trigger] self.highest@[f] == max_pawn_rank(p, c, f, 8) && self.lowest@[f]
                == min_pawn_rank(p, c, f, 0)
    }
}

fn pawn_files(board: &Board, c: Color) -> (r: PawnFiles)
    ensures
        r.describes(board.pieces@, c),
{
    let mut r = PawnFiles { highest: [-1; 8], lowest: [8; 8] };
    let mut f: usize = 0;
    while f < 8
        invariant
            f <= 8,
            forall|g: int|
                0 <= g < f ==> #[trigger] r.highest@[g] == max_pawn_rank(board.pieces@, c, g, 8)
                    && r.lowest@[g] == min_pawn_rank(board.pieces@, c, g, 0),
        decreases 8 - f,
    {
        let hi = highest_pawn_rank(board, c, f);
        let lo = lowest_pawn_rank(board, c, f);
        r.highest[f] = hi;
        r.lowest[f] = lo;
        f = f + 1;
    }
    r
}

/// The value of a piece-square table at index `idx`.
fn table_value(t: PieceType, endgame: bool, idx: usize) -> (r: i16)
    requires
        idx < 64,
    ensures
        r == table_of(t, endgame)[idx as int],
{
    match t {
        PieceType::Pawn => PAWN_SQUARE_TABLE[idx],
        PieceType::Knight => KNIGHT_SQUARE_TABLE[idx],
        PieceType::Bishop => BISHOP_SQUARE_TABLE[idx],
        PieceType::Rook => ROOK_SQUARE_TABLE[idx],
        PieceType::Queen => QUEEN_SQUARE_TABLE[idx],
        PieceType::King => if endgame {
            KING_ENDGAME_SQUARE_TABLE[idx]
        } else {
            KING_SQUARE_TABLE[idx]
        },
    }
}

/// Whether an opposing pawn on file `g` stands ahead of a pawn of color `c` on
/// rank `r`, read from the opponent's pawn files.
fn blocked(c: Color, other: &PawnFiles, g: usize, r: usize, Ghost(p): Ghost<Seq<Option<Piece>>>) -> (b: bool)
    requires
        g < 8,
        r < 8,
        other.describes(p, opposite(c)),
    ensures
        b == blocked_on(p, c, g as int, r as int),
{
    assert(other.highest@[g as int] == max_pawn_rank(p, opposite(c), g as int, 8));
    match c {
        Color::White => other.highest[g] as i64 > r as i64,
        Color::Black => (other.lowest[g] as i64) < r as i64,
    }
}

/// The terms for the piece on square `s`.
fn square_score_of(
    board: &Board,
    my: Color,
    eg_my: bool,
    eg_op: bool,
    s: usize,
    white: &PawnFiles,
    black: &PawnFiles,
) -> (r: i32)
    requires
        s < 64,
        white.describes(board.pieces@, Color::White),
        black.describes(board.pieces@, Color::Black),
    ensures
        r == square_score(board.pieces@, my, eg_my, eg_op, s as int),
        -40000 <= r <= 40000,
{
    match board.pieces[s] {
        None => 0,
        Some(q) => {
            let c = q.color();
            let t = q.piece_type();
            let mine = c == my;
            let f = s % 8;
            let rank = s / 8;
            let idx = match c {
                Color::White => s,
                Color::Black => (7 - rank) * 8 + f,
            };
            let endgame = if mine {
                eg_my
            } else {
                eg_op
            };
            let mut v: i32 = table_value(t, endgame, idx) as i32;
            let (own, other) = match c {
                Color::White => (white, black),
                Color::Black => (black, white),
            };
            let ghost p = board.pieces@;
            if t == PieceType::Pawn {
                let left_has = f > 0 && own.highest[f - 1] >= 0;
                let right_has = f < 7 && own.highest[f + 1] >= 0;
                if !left_has && !right_has {
                    v = v + ISOLATED_PAWN_PENALTY as i32;
                }
                let is_passed = !blocked(c, other, f, rank, Ghost(p)) && (f == 0 || !blocked(
                    c,
                    other,
                    f - 1,
                    rank,
                    Ghost(p),
                )) && (f == 7 || !blocked(c, other, f + 1, rank, Ghost(p)));
                if is_passed {
                    let k = if mine {
                        rank
                    } else {
                        7 - rank
                    };
                    v = v + PASSED_PAWN_BONUS[k] as i32;
                }
            }
            let open = white.highest[f] < 0 && black.highest[f] < 0;
            let half_open = other.highest[f] < 0;
            if t == PieceType::Rook {
                if open {
                    v = v + ROOK_ON_OPEN_FILE_BONUS as i32;
                } else if half_open {
                    v = v + ROOK_ON_SEMI_OPEN_FILE_BONUS as i32;
                }
            } else if t == PieceType::Queen {
                if open {
                    v = v + QUEEN_ON_OPEN_FILE_BONUS as i32;
                } else if half_open {
                    v = v + QUEEN_ON_SEMI_OPEN_FILE_BONUS as i32;
                }
            }
            if mine {
                v
            } else {
                -v
            }
        },
    }
}

/// The static evaluation of the position for the side to move, in centipawns:
/// zero where neither side has enough material to mate, else the material
/// difference, the piece-square values, the pawn structure, rooks and queens on
/// open files and the bishop pair, each counted for the side to move and against
/// the other (the total taken modulo 2^16 where it leaves the range of `i16`).
pub fn evaluation(board: &Board) -> (r: i16)
    ensures
        r == eval_spec(board) as i16,
{
    if is_draw_by_material(board) {
        return 0;
    }
    let my = board.color;
    let op = my.flipped();
    let eg_my = is_endgame_for_color(my, board);
    let eg_op = is_endgame_for_color(op, board);
    let white = pawn_files(board, Color::White);
    let black = pawn_files(board, Color::Black);
    let mut eval: i32 = board.material[my.index()] as i32 - board.material[op.index()] as i32;
    let ghost base = eval as int;
    let mut s: usize = 0;
    while s < 64
        invariant
            s <= 64,
            -70000 <= base <= 70000,
            eval == base + score_sum(board.pieces@, my, eg_my, eg_op, s as int),
            -70000 - 40000 * s <= eval <= 70000 + 40000 * s,
            white.describes(board.pieces@, Color::White),
            black.describes(board.pieces@, Color::Black),
        decreases 64 - s,
    {
        let v = square_score_of(board, my, eg_my, eg_op, s, &white, &black);
        eval = eval + v;
        s = s + 1;
    }
    if board.count_pieces[Piece::new(PieceType::Bishop, my).index()] >= 2 {
        eval = eval + BISHOP_PAIR_BONUS as i32;
    }
    if board.count_pieces[Piece::new(PieceType::Bishop, op).index()] >= 2 {
        eval = eval - BISHOP_PAIR_BONUS as i32;
    }
    eval as i16
}

} // verus!
