//! The board: the pieces on the 64 squares, the side to move, castle permissions,
//! en passant square and move counters, plus data derived from the pieces that is
//! kept up to date incrementally (bitboards, piece counts, material and the
//! Zobrist position key).



use crate::chess_move::ChessMove;
use crate::mattis_bitboard::BitBoard;
use crate::tables::{
    bb_fn, bishop_attacks, magic_bishop_moves, castle_key, color_key, en_passant_key, king_pattern, king_step,
    knight_pattern, knight_step, piece_key, rook_attacks, magic_rook_moves, zobrist_castle_key,
    zobrist_color_key, zobrist_en_passant_key, zobrist_piece_key,
};
use crate::types::{
    CastlePerms, Color, Piece, PieceType, Square64, color_of, opposite, piece_of,
    piece_type_value, type_of,
};
pub mod makemove;
pub mod movegen;
pub mod fen;
pub mod diagram;

use vstd::prelude::*;

verus! {

/// What is needed to take a move back.
#[derive(Debug, PartialEq, Eq, Structural, Clone, Copy)]
pub struct HistoryEntry {
    pub move16: ChessMove,
    pub captured: Option<PieceType>,
    pub fifty_move: usize,
    pub en_passant: Option<Square64>,
    pub castle_perms: CastlePerms,
    pub position_key: u64,
    pub in_check: bool,
}

pub struct Board {
    /// The main representation of the pieces on the board, indexed by square.
    pub pieces: [Option<Piece>; 64],
    /// The side to move.
    pub color: Color,
    /// The en passant target square, if there is one.
    pub en_passant: Option<Square64>,
    pub castle_perms: CastlePerms,
    /// The number of half moves since the last capture or pawn move.
    pub fifty_move: usize,
    /// The number of half moves made on this board.
    pub ply: usize,
    /// The Zobrist key of the position.
    pub position_key: u64,
    /// Whether the side to move is in check.
    pub in_check: bool,
    /// The square of the white and of the black king.
    pub king_square: [Square64; 2],
    /// One bitboard per piece.
    pub bitboards: [BitBoard; 12],
    /// All pieces of each color.
    pub bb_all_per_color: [BitBoard; 2],
    /// All pieces.
    pub bb_all: BitBoard,
    /// The number of pieces of each kind.
    pub count_pieces: [usize; 12],
    /// The number of non-pawn pieces of each color.
    pub count_big_pieces: [usize; 2],
    /// The number of rooks, queens and kings of each color.
    pub count_major_pieces: [usize; 2],
    /// The number of bishops and knights of each color.
    pub count_minor_pieces: [usize; 2],
    /// The material of each color in centipawns.
    pub material: [i16; 2],
    /// The moves made so far, for taking them back.
    pub history: Vec<HistoryEntry>,
}

/// The state of a board as mathematical values: everything but the data derived
/// from the pieces (bitboards, counts and material).
#[verifier::ext_equal]
pub struct Position {
    pub pieces: Seq<Option<Piece>>,
    pub color: Color,
    pub en_passant: Option<Square64>,
    pub castle_perms: CastlePerms,
    pub fifty_move: usize,
    pub ply: usize,
    pub position_key: u64,
    pub in_check: bool,
    pub king_square: Seq<Square64>,
    pub history: Seq<HistoryEntry>,
}

impl View for Board {
    type V = Position;

    open spec fn view(&self) -> Position {
        Position {
            pieces: self.pieces@,
            color: self.color,
            en_passant: self.en_passant,
            castle_perms: self.castle_perms,
            fifty_move: self.fifty_move,
            ply: self.ply,
            position_key: self.position_key,
            in_check: self.in_check,
            king_square: self.king_square@,
            history: self.history@,
        }
    }
}

// ---------------------------------------------------------------------------
// Tallies over the squares
// ---------------------------------------------------------------------------

/// The sum of `f` over the first `n` squares.
pub open spec fn tally(s: Seq<Option<Piece>>, f: spec_fn(Option<Piece>) -> int, n: int) -> int
    decreases n,
{
    if n <= 0 {
        0
    } else {
        tally(s, f, n - 1) + f(s[n - 1])
    }
}

/// Counts the given piece.
pub open spec fn w_piece(p: Piece) -> spec_fn(Option<Piece>) -> int {
    |x: Option<Piece>| if x == Some(p) { 1int } else { 0int }
}

/// Counts the big (non-pawn) pieces of a color.
pub open spec fn w_big(c: Color) -> spec_fn(Option<Piece>) -> int {
    |x: Option<Piece>|
        match x {
            Some(q) => if color_of(q) == c && type_of(q) != PieceType::Pawn {
                1int
            } else {
                0int
            },
            None => 0int,
        }
}

/// Counts the major pieces (rooks, queens, kings) of a color.
pub open spec fn w_major(c: Color) -> spec_fn(Option<Piece>) -> int {
    |x: Option<Piece>|
        match x {
            Some(q) => if color_of(q) == c && (type_of(q) == PieceType::Rook || type_of(q)
                == PieceType::Queen || type_of(q) == PieceType::King) {
                1int
            } else {
                0int
            },
            None => 0int,
        }
}

/// Counts the minor pieces (bishops, knights) of a color.
pub open spec fn w_minor(c: Color) -> spec_fn(Option<Piece>) -> int {
    |x: Option<Piece>|
        match x {
            Some(q) => if color_of(q) == c && (type_of(q) == PieceType::Bishop || type_of(q)
                == PieceType::Knight) {
                1int
            } else {
                0int
            },
            None => 0int,
        }
}

/// The material value of the pieces of a color.
pub open spec fn w_material(c: Color) -> spec_fn(Option<Piece>) -> int {
    |x: Option<Piece>|
        match x {
            Some(q) => if color_of(q) == c {
                piece_type_value(type_of(q)) as int
            } else {
                0int
            },
            None => 0int,
        }
}

/// Changing one square changes a tally by the difference of the weights.
pub proof fn lemma_tally_update(
    s: Seq<Option<Piece>>,
    f: spec_fn(Option<Piece>) -> int,
    n: int,
    i: int,
    v: Option<Piece>,
)
    requires
        0 <= i < s.len(),
        n <= s.len(),
    ensures
        i < n ==> tally(s.update(i, v), f, n) == tally(s, f, n) - f(s[i]) + f(v),
        i >= n ==> tally(s.update(i, v), f, n) == tally(s, f, n),
    decreases n,
{
    if n > 0 {
        lemma_tally_update(s, f, n - 1, i, v);
    }
}

/// A tally of weights in `0..=m` lies between 0 and `n * m`, and grows with `n`.
pub proof fn lemma_tally_bounds(s: Seq<Option<Piece>>, f: spec_fn(Option<Piece>) -> int, n: int, k: int, m: int)
    requires
        0 <= k <= n <= s.len(),
        m >= 0,
        forall|x: Option<Piece>| 0 <= #[trigger] f(x) <= m,
    ensures
        0 <= tally(s, f, k) <= tally(s, f, n),
        tally(s, f, n) <= n * m,
    decreases n,
{
    if n > 0 {
        if k < n {
            lemma_tally_bounds(s, f, n - 1, k, m);
        } else {
            lemma_tally_bounds(s, f, n - 1, n - 1, m);
        }
        assert(0 <= f(s[n - 1]) <= m);
        assert((n - 1) * m + m == n * m) by (nonlinear_arith);
    }
}

// ---------------------------------------------------------------------------
// Zobrist key of a position
// ---------------------------------------------------------------------------

/// The key contribution of the content of a square.
pub open spec fn piece_contrib(sq: int, x: Option<Piece>) -> u64 {
    match x {
        Some(p) => piece_key(sq, p.idx()),
        None => 0,
    }
}

/// The XOR of the key contributions of the first `n` squares.
pub open spec fn xor_pieces(s: Seq<Option<Piece>>, n: int) -> u64
    decreases n,
{
    if n <= 0 {
        0
    } else {
        xor_pieces(s, n - 1) ^ piece_contrib(n - 1, s[n - 1])
    }
}

/// The key contribution of the side to move.
pub open spec fn color_contrib(c: Color) -> u64 {
    if c == Color::White {
        color_key()
    } else {
        0
    }
}

/// The key contribution of the en passant square.
pub open spec fn en_passant_contrib(ep: Option<Square64>) -> u64 {
    match ep {
        Some(sq) => en_passant_key(sq.idx()),
        None => 0,
    }
}

/// The Zobrist key of a position: the keys of all pieces on their squares, the key
/// of the side to move if it is white, the key of the en passant square and the
/// key of the castle permissions.
pub open spec fn key_of(
    pieces: Seq<Option<Piece>>,
    color: Color,
    ep: Option<Square64>,
    castle: CastlePerms,
) -> u64 {
    ((xor_pieces(pieces, 64) ^ color_contrib(color)) ^ en_passant_contrib(ep)) ^ castle_key(
        castle.bits() as int,
    )
}

proof fn lemma_xor_bv(a: u64, b: u64, c: u64, d: u64, e: u64)
    by (bit_vector)
    ensures
        (((a ^ e) ^ b) ^ c) ^ d == ((((a ^ b) ^ c) ^ d) ^ e),
        (((a ^ (b ^ e)) ^ c) ^ d) == ((((a ^ b) ^ c) ^ d) ^ e),
        (((a ^ b) ^ (c ^ e)) ^ d) == ((((a ^ b) ^ c) ^ d) ^ e),
        (((a ^ b) ^ c) ^ (d ^ e)) == ((((a ^ b) ^ c) ^ d) ^ e),
        (a ^ e) ^ (b ^ e) == a ^ b,
        a ^ 0 == a,
        a ^ a == 0,
        (a ^ b) ^ b == a,
        (a ^ b) ^ c == (a ^ c) ^ b,
        a ^ b == b ^ a,
{
}

/// XOR facts used to follow the position key through incremental updates.
pub proof fn lemma_xor(a: u64, b: u64, c: u64, d: u64, e: u64)
    ensures
        (((a ^ e) ^ b) ^ c) ^ d == ((((a ^ b) ^ c) ^ d) ^ e),
        (((a ^ (b ^ e)) ^ c) ^ d) == ((((a ^ b) ^ c) ^ d) ^ e),
        (((a ^ b) ^ (c ^ e)) ^ d) == ((((a ^ b) ^ c) ^ d) ^ e),
        (((a ^ b) ^ c) ^ (d ^ e)) == ((((a ^ b) ^ c) ^ d) ^ e),
        (a ^ e) ^ (b ^ e) == a ^ b,
        a ^ 0 == a,
        a ^ a == 0,
        (a ^ b) ^ b == a,
        (a ^ b) ^ c == (a ^ c) ^ b,
        a ^ b == b ^ a,
{
    lemma_xor_bv(a, b, c, d, e);
}

/// Changing one square changes the XOR of the piece keys by the two contributions.
pub proof fn lemma_xor_pieces_update(s: Seq<Option<Piece>>, n: int, i: int, v: Option<Piece>)
    requires
        0 <= i < s.len(),
        n <= s.len(),
    ensures
        i < n ==> xor_pieces(s.update(i, v), n) == (xor_pieces(s, n) ^ piece_contrib(i, s[i]))
            ^ piece_contrib(i, v),
        i >= n ==> xor_pieces(s.update(i, v), n) == xor_pieces(s, n),
    decreases n,
{
    if n > 0 {
        lemma_xor_pieces_update(s, n - 1, i, v);
        let a = xor_pieces(s, n - 1);
        let x = piece_contrib(i, s[i]);
        let y = piece_contrib(i, v);
        let last = piece_contrib(n - 1, s[n - 1]);
        if i < n - 1 {
            // ((a ^ x) ^ y) ^ last == ((a ^ last) ^ x) ^ y
            lemma_xor(a ^ x, y, last, 0, 0);
            lemma_xor(a, x, last, 0, 0);
            lemma_xor(a ^ last, x, y, 0, 0);
            lemma_xor(a ^ x, last, y, 0, 0);
        } else if i == n - 1 {
            lemma_xor(a, x, y, 0, 0);
            lemma_xor(a ^ x, x, y, 0, 0);
            lemma_xor(a, x, 0, 0, 0);
            lemma_xor(x, x, 0, 0, 0);
            lemma_xor_bv(a, x, y, 0, 0);
            assert(((a ^ x) ^ x) ^ y == a ^ y) by {
                lemma_xor(a, x, 0, 0, 0);
            }
        }
    }
}

// ---------------------------------------------------------------------------
// Well-formedness
// ---------------------------------------------------------------------------

impl Board {
    /// The pieces as a sequence indexed by square.
    pub open spec fn board_pieces(&self) -> Seq<Option<Piece>> {
        self.pieces@
    }

    /// The Zobrist key that the position should have.
    pub open spec fn spec_key(&self) -> u64 {
        key_of(self.pieces@, self.color, self.en_passant, self.castle_perms)
    }

    /// The bitboards agree with the pieces.
    pub open spec fn bitboards_wf(&self) -> bool {
        &&& forall|p: Piece, s: int|
            0 <= s < 64 ==> #[trigger] self.bitboards[p.idx()].has(s) == (self.pieces[s] == Some(p))
        &&& forall|c: Color, s: int|
            0 <= s < 64 ==> #[trigger] self.bb_all_per_color[c.idx()].has(s) == (self.pieces[s] matches Some(q)
                && color_of(q) == c)
        &&& forall|s: int| 0 <= s < 64 ==> #[trigger] self.bb_all.has(s) == self.pieces[s].is_some()
    }

    /// The counts and the material agree with the pieces.
    pub open spec fn counts_wf(&self) -> bool {
        &&& forall|p: Piece| #[trigger] self.count_pieces[p.idx()] == tally(self.pieces@, w_piece(p), 64)
        &&& forall|c: Color| #[trigger] self.count_big_pieces[c.idx()] == tally(self.pieces@, w_big(c), 64)
        &&& forall|c: Color| #[trigger] self.count_major_pieces[c.idx()] == tally(self.pieces@, w_major(c), 64)
        &&& forall|c: Color| #[trigger] self.count_minor_pieces[c.idx()] == tally(self.pieces@, w_minor(c), 64)
        &&& forall|c: Color| #[trigger] self.material[c.idx()] == tally(self.pieces@, w_material(c), 64)
    }

    /// The fields that index tables hold values in range.
    pub open spec fn fields_wf(&self) -> bool {
        &&& self.castle_perms.bits() < 16
        &&& (self.en_passant matches Some(sq) ==> sq.is_valid())
        &&& self.king_square[0].is_valid()
        &&& self.king_square[1].is_valid()
    }

    /// The difference between the stored position key and the one the position
    /// should have (zero when the key is up to date).
    pub open spec fn key_gap(&self) -> u64 {
        self.position_key ^ self.spec_key()
    }

    /// Everything but the pieces, the derived data and the key is the same.
    pub open spec fn same_state(&self, other: &Board) -> bool {
        &&& self.color == other.color
        &&& self.en_passant == other.en_passant
        &&& self.castle_perms == other.castle_perms
        &&& self.fifty_move == other.fifty_move
        &&& self.ply == other.ply
        &&& self.in_check == other.in_check
        &&& self.king_square == other.king_square
        &&& self.history@ == other.history@
    }

    /// The derived data is up to date; the key may be off.
    pub open spec fn derived_wf(&self) -> bool {
        &&& self.fields_wf()
        &&& self.bitboards_wf()
        &&& self.counts_wf()
    }

    /// The king of each color stands on its king square.
    pub open spec fn kings_wf(&self) -> bool {
        &&& self.pieces[self.king_square[0].idx()] == Some(Piece::WhiteKing)
        &&& self.pieces[self.king_square[1].idx()] == Some(Piece::BlackKing)
    }

    /// All data derived from the pieces is up to date, the position key is that of
    /// the position, and the kings stand on their king squares.
    pub open spec fn wf(&self) -> bool {
        &&& self.fields_wf()
        &&& self.bitboards_wf()
        &&& self.counts_wf()
        &&& self.kings_wf()
        &&& self.position_key == self.spec_key()
    }
}

// ---------------------------------------------------------------------------
// Attacks
// ---------------------------------------------------------------------------

/// Whether a pawn of color `c` on `t` attacks `s`.
pub open spec fn pawn_attacks(c: Color, t: int, s: int) -> bool {
    &&& 0 <= t < 64
    &&& 0 <= s < 64
    &&& match c {
        Color::White => (s == t + 9 && s % 8 != 0) || (s == t + 7 && s % 8 != 7),
        Color::Black => (s == t - 9 && s % 8 != 7) || (s == t - 7 && s % 8 != 0),
    }
}

/// Whether piece `q` standing on `t` attacks `s`. For sliders the rays are
/// followed from `s` towards `t`, blocked by the occupied squares `occ`.
pub open spec fn piece_attacks(q: Piece, t: int, s: int, occ: spec_fn(int) -> bool) -> bool {
    ||| type_of(q) == PieceType::Pawn && pawn_attacks(color_of(q), t, s)
    ||| type_of(q) == PieceType::Knight && knight_step(s, t)
    ||| type_of(q) == PieceType::King && king_step(s, t)
    ||| (type_of(q) == PieceType::Rook || type_of(q) == PieceType::Queen) && rook_attacks(s, occ, t)
    ||| (type_of(q) == PieceType::Bishop || type_of(q) == PieceType::Queen) && bishop_attacks(s, occ, t)
}

/// The occupied squares of a board as a predicate on square indices.
pub open spec fn occupied(pieces: Seq<Option<Piece>>) -> spec_fn(int) -> bool {
    |x: int| 0 <= x < 64 && pieces[x].is_some()
}

/// Whether square `s` is attacked by a piece of color `c` among `pieces`.
pub open spec fn attacked_in(pieces: Seq<Option<Piece>>, s: int, c: Color) -> bool {
    exists|t: int|
        0 <= t < 64 && (#[trigger] pieces[t] matches Some(q) && color_of(q) == c && piece_attacks(
            q,
            t,
            s,
            occupied(pieces),
        ))
}

impl Board {
    /// Whether square `s` is attacked by a piece of color `c`.
    pub open spec fn attacked(&self, s: int, c: Color) -> bool {
        attacked_in(self.pieces@, s, c)
    }
}

impl Board {
    /// Whether `square` is attacked by a piece of color `color`.
    pub fn is_square_attacked(&self, square: Square64, color: Color) -> (r: bool)
        requires
            self.bitboards_wf(),
            square.is_valid(),
        ensures
            r == self.attacked(square.idx(), color),
    {
        let ghost s = square.idx();
        // attacked by pawns?
        let pawns = self.bitboards[Piece::new(PieceType::Pawn, color).index()];
        let (east, west) = match color {
            Color::White => (pawns.shifted_northeast().get(square), pawns.shifted_northwest().get(square)),
            Color::Black => (pawns.shifted_southeast().get(square), pawns.shifted_southwest().get(square)),
        };
        let pawn_hit = east || west;

        // attacked by a knight?
        let knights = self.bitboards[Piece::new(PieceType::Knight, color).index()];
        let kp = knight_pattern(square);
        let knight_hit = !kp.intersection(knights).is_empty();

        // attacked by a rook or queen?
        let queens = self.bitboards[Piece::new(PieceType::Queen, color).index()];
        let rooks = self.bitboards[Piece::new(PieceType::Rook, color).index()];
        let rook_pattern = magic_rook_moves(square, self.bb_all);
        let rooks_and_queens = queens.union(rooks);
        let rook_hit = !rook_pattern.intersection(rooks_and_queens).is_empty();

        // attacked by a bishop or queen?
        let bishops = self.bitboards[Piece::new(PieceType::Bishop, color).index()];
        let bishop_pattern = magic_bishop_moves(square, self.bb_all);
        let bishops_and_queens = queens.union(bishops);
        let bishop_hit = !bishop_pattern.intersection(bishops_and_queens).is_empty();

        // attacked by a king?
        let kings = self.bitboards[Piece::new(PieceType::King, color).index()];
        let kgp = king_pattern(square);
        let king_hit = !kgp.intersection(kings).is_empty();

        proof {
            let pawn = piece_of(PieceType::Pawn, color);
            let knight = piece_of(PieceType::Knight, color);
            let bishop = piece_of(PieceType::Bishop, color);
            let rook = piece_of(PieceType::Rook, color);
            let queen = piece_of(PieceType::Queen, color);
            let king = piece_of(PieceType::King, color);
            let attacked = self.attacked(s, color);
            crate::types::lemma_square_index(square, square);
            assert(bb_fn(self.bb_all) =~= occupied(self.pieces@));
            if pawn_hit {
                let t = if color == Color::White {
                    if east { s - 9 } else { s - 7 }
                } else {
                    if east { s + 7 } else { s + 9 }
                };
                assert(self.bitboards[pawn.idx()].has(t));
                assert(self.pieces[t] == Some(pawn));
                assert(piece_attacks(pawn, t, s, occupied(self.pieces@)));
            }
            if knight_hit {
                let t = choose|t: int| 0 <= t < 64 && !!(kp.has(t) && knights.has(t));
                assert(self.pieces[t] == Some(knight));
                assert(piece_attacks(knight, t, s, occupied(self.pieces@)));
            }
            if rook_hit {
                let t = choose|t: int| 0 <= t < 64 && !!(rook_pattern.has(t) && rooks_and_queens.has(t));
                assert(self.pieces[t] == Some(queen) || self.pieces[t] == Some(rook));
                assert(self.pieces[t] matches Some(q) && color_of(q) == color && piece_attacks(q, t, s, occupied(self.pieces@)));
            }
            if bishop_hit {
                let t = choose|t: int| 0 <= t < 64 && !!(bishop_pattern.has(t) && bishops_and_queens.has(t));
                assert(self.pieces[t] == Some(queen) || self.pieces[t] == Some(bishop));
                assert(self.pieces[t] matches Some(q) && color_of(q) == color && piece_attacks(q, t, s, occupied(self.pieces@)));
            }
            if king_hit {
                let t = choose|t: int| 0 <= t < 64 && !!(kgp.has(t) && kings.has(t));
                assert(self.pieces[t] == Some(king));
                assert(piece_attacks(king, t, s, occupied(self.pieces@)));
            }
            if attacked {
                let t = choose|t: int|
                        0 <= t < 64 && (#[trigger] self.pieces@[t] matches Some(q) && color_of(q) == color
                        && piece_attacks(q, t, s, occupied(self.pieces@)));
                let q = self.pieces[t].unwrap();
                crate::types::lemma_piece_type_color(q, type_of(q), color);
                assert(self.bitboards[q.idx()].has(t));
                if type_of(q) == PieceType::Pawn && pawn_attacks(color, t, s) {
                    assert(pawn_hit);
                } else if type_of(q) == PieceType::Knight && knight_step(s, t) {
                    assert(kp.has(t) && knights.has(t));
                } else if type_of(q) == PieceType::King && king_step(s, t) {
                    assert(kgp.has(t) && kings.has(t));
                } else if (type_of(q) == PieceType::Rook || type_of(q) == PieceType::Queen) && rook_attacks(s, occupied(self.pieces@), t) {
                    assert(rook_pattern.has(t) && rooks_and_queens.has(t));
                } else {
                    assert(bishop_pattern.has(t) && bishops_and_queens.has(t));
                }
            }
        }
        pawn_hit || knight_hit || rook_hit || bishop_hit || king_hit
    }

    /// Whether the side to move has its king attacked.
    pub fn in_check(&self) -> (r: bool)
        requires
            self.bitboards_wf(),
            self.fields_wf(),
        ensures
            r == self.attacked(self.king_square[self.color.idx()].idx(), opposite(self.color)),
    {
        let my_king_square = self.king_square[self.color.index()];
        let op_color = self.color.flipped();
        self.is_square_attacked(my_king_square, op_color)
    }
}

/// Weights used in the tallies are never negative and at most their bound.
pub proof fn lemma_weights(p: Piece, c: Color, x: Option<Piece>)
    ensures
        0 <= w_piece(p)(x) <= 1,
        0 <= w_big(c)(x) <= 1,
        0 <= w_major(c)(x) <= 1,
        0 <= w_minor(c)(x) <= 1,
        0 <= w_material(c)(x) <= 15000,
        w_piece(p)(None) == 0,
        w_big(c)(None) == 0,
        w_major(c)(None) == 0,
        w_minor(c)(None) == 0,
        w_material(c)(None) == 0,
{
}

/// Moving a piece to an empty square leaves every tally unchanged.
pub proof fn lemma_tally_move(s: Seq<Option<Piece>>, f: spec_fn(Option<Piece>) -> int, from: int, to: int)
    requires
        s.len() == 64,
        0 <= from < 64,
        0 <= to < 64,
        from != to,
        s[to].is_none(),
    ensures
        tally(s.update(from, None).update(to, s[from]), f, 64) == tally(s, f, 64),
{
    lemma_tally_update(s, f, 64, from, None);
    lemma_tally_update(s.update(from, None), f, 64, to, s[from]);
}

/// Changing one square of the pieces changes the position key by the two contributions.
pub proof fn lemma_key_update(b: Seq<Option<Piece>>, color: Color, ep: Option<Square64>, castle: CastlePerms, i: int, v: Option<Piece>)
    requires
        0 <= i < 64,
        b.len() == 64,
    ensures
        key_of(b.update(i, v), color, ep, castle) == (key_of(b, color, ep, castle) ^ piece_contrib(i, b[i])) ^ piece_contrib(i, v),
{
    lemma_xor_pieces_update(b, 64, i, v);
    let p = xor_pieces(b, 64);
    let x = piece_contrib(i, b[i]);
    let y = piece_contrib(i, v);
    let c = color_contrib(color);
    let e = en_passant_contrib(ep);
    let k = castle_key(castle.bits() as int);
    lemma_xor(p ^ x, c, e, k, y);
    lemma_xor(p, c, e, k, x);
}

impl Board {
    /// Removes the piece on `square`, keeping the derived data and the key gap.
    fn clear_piece(&mut self, square: Square64)
        requires
            old(self).derived_wf(),
            square.is_valid(),
            old(self).pieces[square.idx()].is_some(),
        ensures
            final(self).derived_wf(),
            final(self).pieces@ == old(self).pieces@.update(square.idx(), None),
            final(self).same_state(old(self)),
            final(self).position_key == old(self).position_key ^ piece_contrib(square.idx(), old(self).pieces[square.idx()]),
            final(self).key_gap() == old(self).key_gap(),
            final(self).material[color_of(old(self).pieces[square.idx()].unwrap()).idx()] == old(self).material[color_of(
                old(self).pieces[square.idx()].unwrap(),
            ).idx()] - piece_type_value(type_of(old(self).pieces[square.idx()].unwrap())),
            final(self).material[opposite(color_of(old(self).pieces[square.idx()].unwrap())).idx()] == old(self).material[opposite(
                color_of(old(self).pieces[square.idx()].unwrap()),
            ).idx()],
    {
        let si = square.index();
        let piece = self.pieces[si].unwrap();
        let color = piece.color();
        let pi = piece.index();
        let ci = color.index();
        let ghost old_pieces = self.pieces@;
        proof {
            lemma_tally_update(old_pieces, w_material(color), 64, si as int, None);
            lemma_tally_update(old_pieces, w_piece(piece), 64, si as int, None);
            lemma_tally_update(old_pieces, w_big(color), 64, si as int, None);
            lemma_tally_update(old_pieces, w_major(color), 64, si as int, None);
            lemma_tally_update(old_pieces, w_minor(color), 64, si as int, None);
            lemma_weights(piece, color, None);
            lemma_weights(piece, color, Some(piece));
            lemma_tally_bounds(old_pieces.update(si as int, None), w_material(color), 64, 64, 15000);
            lemma_tally_bounds(old_pieces.update(si as int, None), w_piece(piece), 64, 64, 1);
            lemma_tally_bounds(old_pieces.update(si as int, None), w_big(color), 64, 64, 1);
            lemma_tally_bounds(old_pieces.update(si as int, None), w_major(color), 64, 64, 1);
            lemma_tally_bounds(old_pieces.update(si as int, None), w_minor(color), 64, 64, 1);
            lemma_key_update(old_pieces, self.color, self.en_passant, self.castle_perms, si as int, None);
        }
        self.pieces[si] = None;
        let key = zobrist_piece_key(square, piece);
        self.position_key = self.position_key ^ key;
        self.material[ci] = self.material[ci] - piece.value();
        self.count_pieces[pi] = self.count_pieces[pi] - 1;
        let mut bb = self.bitboards[pi];
        bb.clear(square);
        self.bitboards[pi] = bb;
        let mut bbc = self.bb_all_per_color[ci];
        bbc.clear(square);
        self.bb_all_per_color[ci] = bbc;
        let mut bba = self.bb_all;
        bba.clear(square);
        self.bb_all = bba;

        if piece.is_major() {
            self.count_big_pieces[ci] = self.count_big_pieces[ci] - 1;
            self.count_major_pieces[ci] = self.count_major_pieces[ci] - 1;
        } else if piece.is_minor() {
            self.count_big_pieces[ci] = self.count_big_pieces[ci] - 1;
            self.count_minor_pieces[ci] = self.count_minor_pieces[ci] - 1;
        }
        proof {
            assert(self.pieces@ == old_pieces.update(si as int, None));
            assert forall|p: Piece| #[trigger] self.count_pieces[p.idx()] == tally(self.pieces@, w_piece(p), 64) by {
                lemma_tally_update(old_pieces, w_piece(p), 64, si as int, None);
                crate::types::lemma_piece_index(p, piece);
            }
            assert forall|c: Color| #[trigger] self.count_big_pieces[c.idx()] == tally(self.pieces@, w_big(c), 64) by {
                lemma_tally_update(old_pieces, w_big(c), 64, si as int, None);
            }
            assert forall|c: Color| #[trigger] self.count_major_pieces[c.idx()] == tally(self.pieces@, w_major(c), 64) by {
                lemma_tally_update(old_pieces, w_major(c), 64, si as int, None);
            }
            assert forall|c: Color| #[trigger] self.count_minor_pieces[c.idx()] == tally(self.pieces@, w_minor(c), 64) by {
                lemma_tally_update(old_pieces, w_minor(c), 64, si as int, None);
            }
            assert forall|c: Color| #[trigger] self.material[c.idx()] == tally(self.pieces@, w_material(c), 64) by {
                lemma_tally_update(old_pieces, w_material(c), 64, si as int, None);
            }
            assert forall|p: Piece, s: int| 0 <= s < 64 implies #[trigger] self.bitboards[p.idx()].has(s) == (self.pieces[s] == Some(p)) by {
                crate::types::lemma_piece_index(p, piece);
            }
            lemma_xor(old(self).position_key, old(self).spec_key(), 0, 0, key);
            lemma_xor(old(self).spec_key() ^ key, 0, 0, 0, 0);
            assert(self.spec_key() == old(self).spec_key() ^ key);
        }
    }
}

impl Board {
    /// Puts `piece` on the empty `square`, keeping the derived data and the key gap.
    fn add_piece(&mut self, square: Square64, piece: Piece)
        requires
            old(self).derived_wf(),
            square.is_valid(),
            old(self).pieces[square.idx()].is_none(),
            old(self).material[color_of(piece).idx()] + piece_type_value(type_of(piece)) <= i16::MAX,
        ensures
            final(self).derived_wf(),
            final(self).pieces@ == old(self).pieces@.update(square.idx(), Some(piece)),
            final(self).same_state(old(self)),
            final(self).position_key == old(self).position_key ^ piece_contrib(square.idx(), Some(piece)),
            final(self).key_gap() == old(self).key_gap(),
            final(self).material[color_of(piece).idx()] == old(self).material[color_of(piece).idx()] + piece_type_value(
                type_of(piece),
            ),
            final(self).material[opposite(color_of(piece)).idx()] == old(self).material[opposite(color_of(piece)).idx()],
    {
        let si = square.index();
        let color = piece.color();
        let pi = piece.index();
        let ci = color.index();
        let ghost old_pieces = self.pieces@;
        proof {
            lemma_tally_update(old_pieces, w_material(color), 64, si as int, Some(piece));
            lemma_tally_update(old_pieces, w_piece(piece), 64, si as int, Some(piece));
            lemma_tally_update(old_pieces, w_big(color), 64, si as int, Some(piece));
            lemma_tally_update(old_pieces, w_major(color), 64, si as int, Some(piece));
            lemma_tally_update(old_pieces, w_minor(color), 64, si as int, Some(piece));
            lemma_weights(piece, color, None);
            lemma_weights(piece, color, Some(piece));
            lemma_tally_bounds(old_pieces.update(si as int, Some(piece)), w_piece(piece), 64, 64, 1);
            lemma_tally_bounds(old_pieces.update(si as int, Some(piece)), w_big(color), 64, 64, 1);
            lemma_tally_bounds(old_pieces.update(si as int, Some(piece)), w_major(color), 64, 64, 1);
            lemma_tally_bounds(old_pieces.update(si as int, Some(piece)), w_minor(color), 64, 64, 1);
            lemma_tally_bounds(old_pieces, w_material(color), 64, 64, 15000);
            lemma_key_update(old_pieces, self.color, self.en_passant, self.castle_perms, si as int, Some(piece));
        }
        let key = zobrist_piece_key(square, piece);
        self.position_key = self.position_key ^ key;
        self.pieces[si] = Some(piece);
        self.material[ci] = self.material[ci] + piece.value();
        self.count_pieces[pi] = self.count_pieces[pi] + 1;
        let mut bb = self.bitboards[pi];
        bb.set(square);
        self.bitboards[pi] = bb;
        let mut bbc = self.bb_all_per_color[ci];
        bbc.set(square);
        self.bb_all_per_color[ci] = bbc;
        let mut bba = self.bb_all;
        bba.set(square);
        self.bb_all = bba;

        if piece.is_major() {
            self.count_big_pieces[ci] = self.count_big_pieces[ci] + 1;
            self.count_major_pieces[ci] = self.count_major_pieces[ci] + 1;
        } else if piece.is_minor() {
            self.count_big_pieces[ci] = self.count_big_pieces[ci] + 1;
            self.count_minor_pieces[ci] = self.count_minor_pieces[ci] + 1;
        }
        proof {
            assert(self.pieces@ == old_pieces.update(si as int, Some(piece)));
            assert forall|p: Piece| #[trigger] self.count_pieces[p.idx()] == tally(self.pieces@, w_piece(p), 64) by {
                lemma_tally_update(old_pieces, w_piece(p), 64, si as int, Some(piece));
                crate::types::lemma_piece_index(p, piece);
            }
            assert forall|c: Color| #[trigger] self.count_big_pieces[c.idx()] == tally(self.pieces@, w_big(c), 64) by {
                lemma_tally_update(old_pieces, w_big(c), 64, si as int, Some(piece));
            }
            assert forall|c: Color| #[trigger] self.count_major_pieces[c.idx()] == tally(self.pieces@, w_major(c), 64) by {
                lemma_tally_update(old_pieces, w_major(c), 64, si as int, Some(piece));
            }
            assert forall|c: Color| #[trigger] self.count_minor_pieces[c.idx()] == tally(self.pieces@, w_minor(c), 64) by {
                lemma_tally_update(old_pieces, w_minor(c), 64, si as int, Some(piece));
            }
            assert forall|c: Color| #[trigger] self.material[c.idx()] == tally(self.pieces@, w_material(c), 64) by {
                lemma_tally_update(old_pieces, w_material(c), 64, si as int, Some(piece));
            }
            assert forall|p: Piece, s: int| 0 <= s < 64 implies #[trigger] self.bitboards[p.idx()].has(s) == (self.pieces[s] == Some(p)) by {
                crate::types::lemma_piece_index(p, piece);
            }
            lemma_xor(old(self).position_key, old(self).spec_key(), 0, 0, key);
            lemma_xor(old(self).spec_key(), 0, 0, 0, 0);
            assert(self.spec_key() == old(self).spec_key() ^ key);
        }
    }

    /// Moves the piece on `from` to the empty square `to`, keeping the derived data
    /// and the key gap.
    #[verifier::rlimit(50)]
    fn move_piece(&mut self, from: Square64, to: Square64)
        requires
            old(self).derived_wf(),
            from.is_valid(),
            to.is_valid(),
            from != to,
            old(self).pieces[from.idx()].is_some(),
            old(self).pieces[to.idx()].is_none(),
        ensures
            final(self).derived_wf(),
            final(self).pieces@ == old(self).pieces@.update(from.idx(), None).update(to.idx(), old(self).pieces[from.idx()]),
            final(self).same_state(old(self)),
            final(self).position_key == (old(self).position_key ^ piece_contrib(from.idx(), old(self).pieces[from.idx()]))
                ^ piece_contrib(to.idx(), old(self).pieces[from.idx()]),
            final(self).key_gap() == old(self).key_gap(),
            final(self).material == old(self).material,
    {
        let fi = from.index();
        let ti = to.index();
        let piece = self.pieces[fi].unwrap();
        let color = piece.color();
        let pi = piece.index();
        let ci = color.index();
        let ghost old_pieces = self.pieces@;
        let ghost mid = old_pieces.update(fi as int, None);
        proof {
            crate::types::lemma_square_index(from, to);
            lemma_key_update(old_pieces, self.color, self.en_passant, self.castle_perms, fi as int, None);
            lemma_key_update(mid, self.color, self.en_passant, self.castle_perms, ti as int, Some(piece));
        }
        self.pieces[fi] = None;
        self.pieces[ti] = Some(piece);

        let k1 = zobrist_piece_key(from, piece);
        let k2 = zobrist_piece_key(to, piece);
        self.position_key = self.position_key ^ k1;
        self.position_key = self.position_key ^ k2;

        let mut bb = self.bitboards[pi];
        bb.clear(from);
        bb.set(to);
        self.bitboards[pi] = bb;

        let mut bbc = self.bb_all_per_color[ci];
        bbc.clear(from);
        bbc.set(to);
        self.bb_all_per_color[ci] = bbc;

        let mut bba = self.bb_all;
        bba.clear(from);
        bba.set(to);
        self.bb_all = bba;
        proof {
            assert(self.pieces@ == mid.update(ti as int, Some(piece)));
            assert forall|p: Piece| #[trigger] self.count_pieces[p.idx()] == tally(self.pieces@, w_piece(p), 64) by {
                lemma_tally_move(old_pieces, w_piece(p), fi as int, ti as int);
            }
            assert forall|c: Color| #[trigger] self.count_big_pieces[c.idx()] == tally(self.pieces@, w_big(c), 64) by {
                lemma_tally_move(old_pieces, w_big(c), fi as int, ti as int);
            }
            assert forall|c: Color| #[trigger] self.count_major_pieces[c.idx()] == tally(self.pieces@, w_major(c), 64) by {
                lemma_tally_move(old_pieces, w_major(c), fi as int, ti as int);
            }
            assert forall|c: Color| #[trigger] self.count_minor_pieces[c.idx()] == tally(self.pieces@, w_minor(c), 64) by {
                lemma_tally_move(old_pieces, w_minor(c), fi as int, ti as int);
            }
            assert forall|c: Color| #[trigger] self.material[c.idx()] == tally(self.pieces@, w_material(c), 64) by {
                lemma_tally_move(old_pieces, w_material(c), fi as int, ti as int);
            }
            assert forall|p: Piece, s: int| 0 <= s < 64 implies #[trigger] self.bitboards[p.idx()].has(s) == (self.pieces[s] == Some(p)) by {
                crate::types::lemma_piece_index(p, piece);
            }
            let k0 = old(self).position_key;
            let s0 = old(self).spec_key();
            lemma_xor(k0, s0, 0, 0, k1);
            lemma_xor(k0 ^ k1, s0 ^ k1, 0, 0, k2);
            lemma_xor(s0, 0, 0, 0, 0);
            lemma_xor(s0 ^ k1, 0, 0, 0, 0);
            assert(mid[ti as int].is_none());
            assert(key_of(mid, self.color, self.en_passant, self.castle_perms) == s0 ^ k1);
            assert(self.spec_key() == (s0 ^ k1) ^ k2);
        }
    }
}

// ---------------------------------------------------------------------------
// Recomputing the derived data
// ---------------------------------------------------------------------------

/// The last square below `n` that holds the king of color `c`.
pub open spec fn last_king(p: Seq<Option<Piece>>, c: Color, n: int) -> Option<int>
    decreases n,
{
    if n <= 0 {
        None
    } else if p[n - 1] == Some(piece_of(PieceType::King, c)) {
        Some(n - 1)
    } else {
        last_king(p, c, n - 1)
    }
}

/// The data derived from the pieces, computed from scratch.
struct Derived {
    bitboards: [BitBoard; 12],
    bb_all_per_color: [BitBoard; 2],
    bb_all: BitBoard,
    count_pieces: [usize; 12],
    count_big_pieces: [usize; 2],
    count_major_pieces: [usize; 2],
    count_minor_pieces: [usize; 2],
    material: [i32; 2],
    kings: [Option<Square64>; 2],
}

/// Whether `d` is the data derived from the first `n` squares of `p`.
spec fn derived_upto(p: Seq<Option<Piece>>, d: Derived, n: int) -> bool {
    &&& forall|q: Piece, s: int| 0 <= s < 64 ==> #[trigger] d.bitboards[q.idx()].has(s) == (s < n && p[s] == Some(q))
    &&& forall|c: Color, s: int|
        0 <= s < 64 ==> #[trigger] d.bb_all_per_color[c.idx()].has(s) == (s < n && (p[s] matches Some(q)
            && color_of(q) == c))
    &&& forall|s: int| 0 <= s < 64 ==> #[trigger] d.bb_all.has(s) == (s < n && p[s].is_some())
    &&& forall|q: Piece| #[trigger] d.count_pieces[q.idx()] == tally(p, w_piece(q), n)
    &&& forall|c: Color| #[trigger] d.count_big_pieces[c.idx()] == tally(p, w_big(c), n)
    &&& forall|c: Color| #[trigger] d.count_major_pieces[c.idx()] == tally(p, w_major(c), n)
    &&& forall|c: Color| #[trigger] d.count_minor_pieces[c.idx()] == tally(p, w_minor(c), n)
    &&& forall|c: Color| #[trigger] d.material[c.idx()] == tally(p, w_material(c), n)
    &&& forall|c: Color|
        match last_king(p, c, n) {
            Some(k) => #[trigger] d.kings[c.idx()] matches Some(sq) && sq.idx() == k,
            None => d.kings[c.idx()] is None,
        }
}

/// Computes the bitboards, counts, material and king squares of the pieces.
#[verifier::rlimit(100)]
fn compute_derived(pieces: &[Option<Piece>; 64]) -> (d: Derived)
    ensures
        derived_upto(pieces@, d, 64),
{
    let mut d = Derived {
        bitboards: [BitBoard::empty(); 12],
        bb_all_per_color: [BitBoard::empty(); 2],
        bb_all: BitBoard::empty(),
        count_pieces: [0; 12],
        count_big_pieces: [0; 2],
        count_major_pieces: [0; 2],
        count_minor_pieces: [0; 2],
        material: [0; 2],
        kings: [None; 2],
    };
    let ghost p = pieces@;
    let mut i: usize = 0;
    while i < 64
        invariant
            0 <= i <= 64,
            p == pieces@,
            derived_upto(p, d, i as int),
        decreases 64 - i,
    {
        let square = Square64::from_primitive(i);
        proof {
            crate::types::lemma_square_of(i as int, square);
        }
        match pieces[i] {
            None => {},
            Some(piece) => {
                let color = piece.color();
                let pi = piece.index();
                let ci = color.index();
                proof {
                    lemma_weights(piece, color, Some(piece));
                    lemma_tally_bounds(p, w_piece(piece), i as int, i as int, 1);
                    lemma_tally_bounds(p, w_big(color), i as int, i as int, 1);
                    lemma_tally_bounds(p, w_major(color), i as int, i as int, 1);
                    lemma_tally_bounds(p, w_minor(color), i as int, i as int, 1);
                    lemma_tally_bounds(p, w_material(color), i as int, i as int, 15000);
                }
                let mut bb = d.bitboards[pi];
                bb.set_to(square, true);
                d.bitboards[pi] = bb;
                let mut bbc = d.bb_all_per_color[ci];
                bbc.set_to(square, true);
                d.bb_all_per_color[ci] = bbc;
                d.bb_all.set_to(square, true);
                d.count_pieces[pi] = d.count_pieces[pi] + 1;
                if piece.is_big() {
                    d.count_big_pieces[ci] = d.count_big_pieces[ci] + 1;
                }
                if piece.is_major() {
                    d.count_major_pieces[ci] = d.count_major_pieces[ci] + 1;
                }
                if piece.is_minor() {
                    d.count_minor_pieces[ci] = d.count_minor_pieces[ci] + 1;
                }
                proof {
                    assert(tally(p, w_material(color), i + 1) == tally(p, w_material(color), i as int)
                        + piece_type_value(type_of(piece)));
                    assert(d.material[color.idx()] == tally(p, w_material(color), i as int));
                }
                d.material[ci] = d.material[ci] + piece.value() as i32;
                if piece.piece_type() == PieceType::King {
                    d.kings[ci] = Some(square);
                }
                proof {
                    assert forall|q: Piece, t: int| 0 <= t < 64 implies #[trigger] d.bitboards[q.idx()].has(t) == (t < i + 1 && p[t] == Some(q)) by {
                        crate::types::lemma_piece_index(q, piece);
                    }
                    assert forall|q: Piece| #[trigger] d.count_pieces[q.idx()] == tally(p, w_piece(q), i + 1) by {
                        crate::types::lemma_piece_index(q, piece);
                    }
                    assert forall|c: Color| #[trigger] d.count_big_pieces[c.idx()] == tally(p, w_big(c), i + 1) by {}
                    assert forall|c: Color| #[trigger] d.count_major_pieces[c.idx()] == tally(p, w_major(c), i + 1) by {}
                    assert forall|c: Color| #[trigger] d.count_minor_pieces[c.idx()] == tally(p, w_minor(c), i + 1) by {}
                    assert forall|c: Color| #[trigger] d.material[c.idx()] == tally(p, w_material(c), i + 1) by {}
                    assert forall|c: Color| match last_king(p, c, i + 1) {
                        Some(k) => #[trigger] d.kings[c.idx()] matches Some(sq) && sq.idx() == k,
                        None => d.kings[c.idx()] is None,
                    } by {
                        crate::types::lemma_piece_type_color(piece, type_of(piece), color_of(piece));
                    }
                }
            },
        }
        i = i + 1;
    }
    d
}

/// Whether the en passant square lies on the rank a double pawn push of the side
/// that just moved leaves it on.
pub open spec fn en_passant_rank_ok(p: Position) -> bool {
    p.en_passant matches Some(sq) ==> ((sq.idx() / 8 == 5 && p.color == Color::White) || (sq.idx() / 8 == 2
        && p.color == Color::Black))
}

impl Board {
    /// The Zobrist key of the position, computed from scratch.
    pub fn generate_position_key(&self) -> (r: u64)
        requires
            self.castle_perms.bits() < 16,
            self.en_passant matches Some(sq) ==> sq.is_valid(),
        ensures
            r == self.spec_key(),
    {
        let mut key: u64 = 0;
        let mut sq: usize = 0;
        while sq < 64
            invariant
                0 <= sq <= 64,
                key == xor_pieces(self.pieces@, sq as int),
            decreases 64 - sq,
        {
            match self.pieces[sq] {
                Some(piece) => {
                    let square = Square64::from_primitive(sq);
                    key = key ^ zobrist_piece_key(square, piece);
                },
                None => {
                    proof {
                        lemma_xor(key, 0, 0, 0, 0);
                    }
                },
            }
            sq = sq + 1;
        }
        if self.color == Color::White {
            key = key ^ zobrist_color_key();
        } else {
            proof {
                lemma_xor(key, 0, 0, 0, 0);
            }
        }
        match self.en_passant {
            Some(sq) => {
                key = key ^ zobrist_en_passant_key(sq);
            },
            None => {
                proof {
                    lemma_xor(key, 0, 0, 0, 0);
                }
            },
        }
        key = key ^ zobrist_castle_key(self.castle_perms.as_u8());
        key
    }

    /// Recomputes the bitboards, piece counts and material from the pieces, and
    /// sets the king square of each color that has a king to the square of its
    /// last king (in square order). The material of a color wraps around when it
    /// does not fit in an `i16`.
    pub fn update_redundant_data(&mut self)
        ensures
            final(self).bitboards_wf(),
            forall|c: Color|
                tally(final(self).pieces@, w_material(c), 64) <= i16::MAX ==> #[trigger] final(self).material[c.idx()]
                    == tally(final(self).pieces@, w_material(c), 64),
            (forall|c: Color| tally(final(self).pieces@, w_material(c), 64) <= i16::MAX) ==> final(self).counts_wf(),
            final(self)@ == (Position { king_square: final(self).king_square@, ..old(self)@ }),
            forall|c: Color|
                match last_king(old(self).pieces@, c, 64) {
                    Some(k) => (#[trigger] final(self).king_square[c.idx()]).idx() == k,
                    None => final(self).king_square[c.idx()] == old(self).king_square[c.idx()],
                },
    {
        let d = compute_derived(&self.pieces);
        self.bitboards = d.bitboards;
        self.bb_all_per_color = d.bb_all_per_color;
        self.bb_all = d.bb_all;
        self.count_pieces = d.count_pieces;
        self.count_big_pieces = d.count_big_pieces;
        self.count_major_pieces = d.count_major_pieces;
        self.count_minor_pieces = d.count_minor_pieces;
        let ghost p = self.pieces@;
        proof {
            assert forall|c: Color| true implies 0 <= #[trigger] tally(p, w_material(c), 64) <= 64 * 15000 by {
                lemma_weights(Piece::WhitePawn, c, None);
                lemma_tally_bounds(p, w_material(c), 64, 64, 15000);
            }
        }
        let mut i: usize = 0;
        while i < 2
            invariant
                0 <= i <= 2,
                p == self.pieces@,
                derived_upto(p, d, 64),
                forall|c: Color| 0 <= #[trigger] tally(p, w_material(c), 64) <= 64 * 15000,
                forall|c: Color|
                    c.idx() < i ==> (tally(p, w_material(c), 64) <= i16::MAX ==> #[trigger] self.material[c.idx()]
                        == tally(p, w_material(c), 64)),
                forall|c: Color|
                    c.idx() < i ==> match last_king(p, c, 64) {
                        Some(k) => (#[trigger] self.king_square[c.idx()]).idx() == k,
                        None => self.king_square[c.idx()] == old(self).king_square[c.idx()],
                    },
                forall|c: Color| c.idx() >= i ==> #[trigger] self.king_square[c.idx()] == old(self).king_square[c.idx()],
                self.bitboards == d.bitboards,
                self.bb_all_per_color == d.bb_all_per_color,
                self.bb_all == d.bb_all,
                self.count_pieces == d.count_pieces,
                self.count_big_pieces == d.count_big_pieces,
                self.count_major_pieces == d.count_major_pieces,
                self.count_minor_pieces == d.count_minor_pieces,
                self.history@ == old(self).history@,
                self.pieces@ == old(self).pieces@,
                self.color == old(self).color,
                self.en_passant == old(self).en_passant,
                self.castle_perms == old(self).castle_perms,
                self.fifty_move == old(self).fifty_move,
                self.ply == old(self).ply,
                self.position_key == old(self).position_key,
                self.in_check == old(self).in_check,
            decreases 2 - i,
        {
            let c = if i == 0 {
                Color::White
            } else {
                Color::Black
            };
            let m = d.material[i];
            self.material[i] = m as i16;
            match d.kings[i] {
                Some(sq) => {
                    self.king_square[i] = sq;
                },
                None => {},
            }
            proof {
                assert(c.idx() == i);
            }
            i = i + 1;
        }
    }
}

impl Board {
    /// Whether the board is consistent: the derived data and the key agree with
    /// the pieces and the state, the kings stand on their king squares, and the
    /// en passant square is on the rank a double push of the side that just moved
    /// leaves it on.
    #[verifier::rlimit(60)]
    pub fn check_board_integrity(&self) -> (r: bool)
        ensures
            r == (self.wf() && en_passant_rank_ok(self@)),
    {
        if self.castle_perms.as_u8() >= 16 {
            return false;
        }
        match self.en_passant {
            Some(sq) => {
                if sq == Square64::Invalid {
                    return false;
                }
            },
            None => {},
        }
        if self.king_square[0] == Square64::Invalid || self.king_square[1] == Square64::Invalid {
            return false;
        }
        let d = compute_derived(&self.pieces);
        let ghost p = self.pieces@;
        let mut ok = true;
        let ghost mut bad_piece: Option<Piece> = None;
        let mut i: usize = 0;
        while i < 12
            invariant
                0 <= i <= 12,
                p == self.pieces@,
                derived_upto(p, d, 64),
                ok ==> (forall|q: Piece|
                    q.idx() < i ==> #[trigger] self.bitboards[q.idx()] == d.bitboards[q.idx()]
                        && self.count_pieces[q.idx()] == d.count_pieces[q.idx()]),
                !ok ==> (bad_piece matches Some(q) && !(self.bitboards[q.idx()] == d.bitboards[q.idx()]
                    && self.count_pieces[q.idx()] == d.count_pieces[q.idx()])),
            decreases 12 - i,
        {
            let q = Piece::ALL[i];
            proof {
                assert(q.idx() == i);
            }
            let same = self.bitboards[i].to_u64() == d.bitboards[i].to_u64() && self.count_pieces[i] == d.count_pieces[i];
            proof {
                if same {
                    BitBoard::lemma_view_eq(self.bitboards[i as int], d.bitboards[i as int]);
                } else {
                    assert(!(self.bitboards[q.idx()] == d.bitboards[q.idx()] && self.count_pieces[q.idx()] == d.count_pieces[q.idx()]));
                }
            }
            if !same {
                ok = false;
                proof {
                    bad_piece = Some(q);
                }
            }
            proof {
                if ok {
                    assert forall|q2: Piece| q2.idx() < i + 1 implies #[trigger] self.bitboards[q2.idx()]
                        == d.bitboards[q2.idx()] && self.count_pieces[q2.idx()] == d.count_pieces[q2.idx()] by {
                        if q2.idx() == i {
                            assert(self.count_pieces[q2.idx()] == d.count_pieces[i as int]);
                        }
                    }
                }
                assert(ok ==> (forall|q3: Piece|
                    q3.idx() < i + 1 ==> #[trigger] self.bitboards[q3.idx()] == d.bitboards[q3.idx()]
                        && self.count_pieces[q3.idx()] == d.count_pieces[q3.idx()]));
                assert(!ok ==> (bad_piece matches Some(q4) && !(self.bitboards[q4.idx()] == d.bitboards[q4.idx()]
                    && self.count_pieces[q4.idx()] == d.count_pieces[q4.idx()])));
            }
            i = i + 1;
        }
        proof {
            assert forall|q: Piece| #[trigger] q.idx() < 12 by {
                crate::types::lemma_piece_index(q, q);
            }
        }
        let ghost mut bad_color: Option<Color> = None;
        let mut j: usize = 0;
        while j < 2
            invariant
                0 <= j <= 2,
                p == self.pieces@,
                derived_upto(p, d, 64),
                forall|q: Piece| #[trigger] q.idx() < 12,
                ok ==> (forall|q: Piece|
                    #[trigger] self.bitboards[q.idx()] == d.bitboards[q.idx()] && self.count_pieces[q.idx()]
                        == d.count_pieces[q.idx()]),
                ok ==> (forall|c: Color|
                    c.idx() < j ==> (#[trigger] self.bb_all_per_color[c.idx()] == d.bb_all_per_color[c.idx()]
                        && self.count_big_pieces[c.idx()] == d.count_big_pieces[c.idx()]
                        && self.count_major_pieces[c.idx()] == d.count_major_pieces[c.idx()]
                        && self.count_minor_pieces[c.idx()] == d.count_minor_pieces[c.idx()]
                        && self.material[c.idx()] == d.material[c.idx()])),
                !ok ==> (bad_piece matches Some(q) && !(self.bitboards[q.idx()] == d.bitboards[q.idx()]
                    && self.count_pieces[q.idx()] == d.count_pieces[q.idx()])) || (bad_color matches Some(c) && !(
                    self.bb_all_per_color[c.idx()] == d.bb_all_per_color[c.idx()] && self.count_big_pieces[c.idx()]
                        == d.count_big_pieces[c.idx()] && self.count_major_pieces[c.idx()]
                        == d.count_major_pieces[c.idx()] && self.count_minor_pieces[c.idx()]
                        == d.count_minor_pieces[c.idx()] && self.material[c.idx()] == d.material[c.idx()])),
            decreases 2 - j,
        {
            let c = if j == 0 {
                Color::White
            } else {
                Color::Black
            };
            proof {
                assert(c.idx() == j);
            }
            let same = self.bb_all_per_color[j].to_u64() == d.bb_all_per_color[j].to_u64() && self.count_big_pieces[j]
                == d.count_big_pieces[j] && self.count_major_pieces[j] == d.count_major_pieces[j]
                && self.count_minor_pieces[j] == d.count_minor_pieces[j] && self.material[j] as i32 == d.material[j];
            proof {
                if same {
                    BitBoard::lemma_view_eq(self.bb_all_per_color[j as int], d.bb_all_per_color[j as int]);
                }
            }
            if !same {
                ok = false;
                proof {
                    bad_color = Some(c);
                }
            }
            proof {
                if ok {
                    assert forall|c2: Color| c2.idx() < j + 1 implies (#[trigger] self.bb_all_per_color[c2.idx()]
                        == d.bb_all_per_color[c2.idx()] && self.count_big_pieces[c2.idx()] == d.count_big_pieces[c2.idx()]
                        && self.count_major_pieces[c2.idx()] == d.count_major_pieces[c2.idx()]
                        && self.count_minor_pieces[c2.idx()] == d.count_minor_pieces[c2.idx()]
                        && self.material[c2.idx()] == d.material[c2.idx()]) by {
                        if c2.idx() == j {
                            assert(self.material[c2.idx()] == d.material[j as int]);
                        }
                    }
                }
            }
            j = j + 1;
        }
        if self.bb_all.to_u64() != d.bb_all.to_u64() {
            ok = false;
        } else {
            proof {
                BitBoard::lemma_view_eq(self.bb_all, d.bb_all);
            }
        }
        proof {
            // the derived data agrees exactly when it equals the recomputed data
            if self.bitboards_wf() && self.counts_wf() {
                assert forall|q: Piece| #[trigger] self.bitboards[q.idx()] == d.bitboards[q.idx()] by {
                    BitBoard::lemma_ext(self.bitboards[q.idx()], d.bitboards[q.idx()]);
                }
                assert forall|c: Color| #[trigger] self.bb_all_per_color[c.idx()] == d.bb_all_per_color[c.idx()] by {
                    BitBoard::lemma_ext(self.bb_all_per_color[c.idx()], d.bb_all_per_color[c.idx()]);
                }
                BitBoard::lemma_ext(self.bb_all, d.bb_all);
            }
            if ok {
                assert forall|q: Piece, s: int| 0 <= s < 64 implies #[trigger] self.bitboards[q.idx()].has(s) == (self.pieces[s] == Some(q)) by {
                    assert(self.bitboards[q.idx()] == d.bitboards[q.idx()]);
                }
                assert forall|c: Color, s: int| 0 <= s < 64 implies #[trigger] self.bb_all_per_color[c.idx()].has(s) == (self.pieces[s] matches Some(q) && color_of(q) == c) by {
                    assert(self.bb_all_per_color[c.idx()] == d.bb_all_per_color[c.idx()]);
                }
                assert(self.bitboards_wf());
                assert forall|q: Piece| #[trigger] self.count_pieces[q.idx()] == tally(self.pieces@, w_piece(q), 64) by {
                    assert(self.bitboards[q.idx()] == d.bitboards[q.idx()]);
                }
                assert forall|c: Color| #[trigger] self.material[c.idx()] == tally(self.pieces@, w_material(c), 64) by {
                    assert(self.bb_all_per_color[c.idx()] == d.bb_all_per_color[c.idx()]);
                }
                assert forall|c: Color| #[trigger] self.count_big_pieces[c.idx()] == tally(self.pieces@, w_big(c), 64) by {
                    assert(self.bb_all_per_color[c.idx()] == d.bb_all_per_color[c.idx()]);
                }
                assert forall|c: Color| #[trigger] self.count_major_pieces[c.idx()] == tally(self.pieces@, w_major(c), 64) by {
                    assert(self.bb_all_per_color[c.idx()] == d.bb_all_per_color[c.idx()]);
                }
                assert forall|c: Color| #[trigger] self.count_minor_pieces[c.idx()] == tally(self.pieces@, w_minor(c), 64) by {
                    assert(self.bb_all_per_color[c.idx()] == d.bb_all_per_color[c.idx()]);
                }
                assert(self.counts_wf());
            }
        }
        if !ok {
            return false;
        }
        if self.position_key != self.generate_position_key() {
            return false;
        }
        if self.pieces[self.king_square[0].index()] != Some(Piece::WhiteKing) || self.pieces[self.king_square[1].index()]
            != Some(Piece::BlackKing) {
            return false;
        }
        match self.en_passant {
            Some(sq) => {
                let r = sq.index() / 8;
                (r == 5 && self.color == Color::White) || (r == 2 && self.color == Color::Black)
            },
            None => true,
        }
    }
}

/// Every weight of an empty square is zero, so the tallies of an empty board are.
pub proof fn lemma_tally_empty(s: Seq<Option<Piece>>, f: spec_fn(Option<Piece>) -> int, n: int)
    requires
        0 <= n <= s.len(),
        forall|k: int| 0 <= k < s.len() ==> s[k] is None,
        f(None) == 0,
    ensures
        tally(s, f, n) == 0,
    decreases n,
{
    if n > 0 {
        lemma_tally_empty(s, f, n - 1);
    }
}

/// A board without pieces has no king.
proof fn lemma_no_king(s: Seq<Option<Piece>>, c: Color, n: int)
    requires
        n <= s.len(),
        forall|k: int| 0 <= k < s.len() ==> s[k] is None,
    ensures
        last_king(s, c, n) is None,
    decreases n,
{
    if n > 0 {
        lemma_no_king(s, c, n - 1);
    }
}

/// The empty board: no pieces, white to move, no en passant square, no castle
/// permissions, counters at zero and the kings' squares at A1.
pub open spec fn empty_position(key: u64) -> Position {
    Position {
        pieces: Seq::new(64, |i: int| None),
        color: Color::White,
        en_passant: None,
        castle_perms: CastlePerms::with_bits(0),
        fifty_move: 0,
        ply: 0,
        position_key: key,
        in_check: false,
        king_square: seq![Square64::A1, Square64::A1],
        history: Seq::empty(),
    }
}

impl Board {
    /// An empty board whose derived data and key are up to date.
    pub fn new() -> (r: Board)
        ensures
            r.derived_wf(),
            r.position_key == r.spec_key(),
            r@ == empty_position(r.position_key),
    {
        let empty = BitBoard::empty();
        let mut this = Board {
            pieces: [None; 64],
            color: Color::White,
            en_passant: None,
            castle_perms: CastlePerms::none(),
            fifty_move: 0,
            ply: 0,
            position_key: 0,
            in_check: false,
            king_square: [Square64::A1; 2],
            bitboards: [empty; 12],
            bb_all_per_color: [empty; 2],
            bb_all: empty,
            count_pieces: [0; 12],
            count_big_pieces: [0; 2],
            count_major_pieces: [0; 2],
            count_minor_pieces: [0; 2],
            material: [0; 2],
            history: Vec::new(),
        };
        proof {
            CastlePerms::lemma_with_bits(0, this.castle_perms);
            assert forall|c: Color| true implies #[trigger] tally(this.pieces@, w_material(c), 64) == 0 by {
                lemma_tally_empty(this.pieces@, w_material(c), 64);
            }
            assert forall|c: Color| last_king(this.pieces@, c, 64) is None by {
                lemma_no_king(this.pieces@, c, 64);
            }
        }
        this.update_redundant_data();
        this.position_key = this.generate_position_key();
        proof {
            assert(this.pieces@ =~= Seq::new(64, |i: int| None));
            assert(this.king_square[Color::White.idx()] == Square64::A1);
            assert(this.king_square[Color::Black.idx()] == Square64::A1);
            assert(this.king_square@ =~= seq![Square64::A1, Square64::A1]);
            assert(this.history@ =~= Seq::<HistoryEntry>::empty());
        }
        this
    }
}

impl Default for Board {
    fn default() -> (r: Board)
        ensures
            r.derived_wf(),
            r.position_key == r.spec_key(),
            r@ == empty_position(r.position_key),
    {
        Board::new()
    }
}

/// Whether the position repeats one reached since the last capture or pawn move:
/// one of the last `fifty_move` history entries has the current key.
pub open spec fn repeats(p: Position) -> bool {
    exists|k: int|
        #![trigger p.history[k]]
        p.history.len() - p.fifty_move <= k < p.history.len() && 0 <= k && p.history[k].position_key
            == p.position_key
}

impl Board {
    /// Whether the position repeats one reached since the fifty move counter was
    /// last reset.
    pub fn is_repetition(&self) -> (r: bool)
        ensures
            r == repeats(self@),
    {
        let n = self.history.len();
        let mut i: usize = n;
        let mut taken: usize = 0;
        while i > 0 && taken < self.fifty_move
            invariant
                i <= n,
                n == self.history@.len(),
                taken == n - i,
                forall|k: int| i <= k < n ==> #[trigger] self.history@[k].position_key != self.position_key,
            decreases i,
        {
            i = i - 1;
            if self.history[i].position_key == self.position_key {
                return true;
            }
            taken = taken + 1;
        }
        false
    }
}

} // verus!
