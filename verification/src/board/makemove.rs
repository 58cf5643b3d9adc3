//! Making and taking back moves, and null moves.
//!
//! A move is made on the board in place; what is needed to take it back is pushed
//! on the history. Making a move answers whether it was legal: a move that leaves
//! the mover's king attacked is taken back at once and the board is left as it was.

use crate::board::{
    Board, HistoryEntry, Position, attacked_in, color_contrib, en_passant_contrib, key_of, occupied,
    pawn_attacks, piece_contrib,
};
use crate::chess_move::{ChessMove, capture_bit, end_of, flags_of, promoted_of, promotion_bit, start_of};
use crate::tables::{
    zobrist_castle_key, zobrist_color_key, zobrist_en_passant_key, bb_fn, bishop_attacks, castle_key, color_key, en_passant_key, knight_pattern, knight_step,
    magic_bishop_moves, magic_rook_moves, rook_attacks,
};
use crate::types::{
    CastlePerm, CastlePerms, Color, Piece, PieceType, Square64, color_of, lemma_square_of, opposite, piece_of, piece_type_value,
    square_of, type_of,
};
use vstd::prelude::*;

verus! {

// ---------------------------------------------------------------------------
// Move shapes
// ---------------------------------------------------------------------------

/// The castle permissions that survive a move touching square `s`: moving the king
/// or a rook from its home square, or capturing on a rook's home square, clears the
/// permissions that depend on it.
pub open spec fn castle_modifier(s: int) -> u8 {
    if s == 0 {
        13
    } else if s == 4 {
        12
    } else if s == 7 {
        14
    } else if s == 56 {
        7
    } else if s == 60 {
        3
    } else if s == 63 {
        11
    } else {
        15
    }
}

/// The mask of castle permissions kept by a move touching `square`.
fn castle_perm_modifier(square: Square64) -> (r: u8)
    ensures
        r == castle_modifier(square.idx()),
{
    match square {
        Square64::A1 => 13,
        Square64::E1 => 12,
        Square64::H1 => 14,
        Square64::A8 => 7,
        Square64::E8 => 3,
        Square64::H8 => 11,
        _ => 15,
    }
}

/// The bits of the castle permission masks, one by one.
proof fn lemma_castle_mask_bits()
    by (bit_vector)
    ensures
        13u8 & 1u8 != 0 && 13u8 & 2u8 == 0 && 13u8 & 4u8 != 0 && 13u8 & 8u8 != 0,
        12u8 & 1u8 == 0 && 12u8 & 2u8 == 0 && 12u8 & 4u8 != 0 && 12u8 & 8u8 != 0,
        14u8 & 1u8 == 0 && 14u8 & 2u8 != 0 && 14u8 & 4u8 != 0 && 14u8 & 8u8 != 0,
        7u8 & 1u8 != 0 && 7u8 & 2u8 != 0 && 7u8 & 4u8 != 0 && 7u8 & 8u8 == 0,
        3u8 & 1u8 != 0 && 3u8 & 2u8 != 0 && 3u8 & 4u8 == 0 && 3u8 & 8u8 == 0,
        11u8 & 1u8 != 0 && 11u8 & 2u8 != 0 && 11u8 & 4u8 == 0 && 11u8 & 8u8 != 0,
        15u8 & 1u8 != 0 && 15u8 & 2u8 != 0 && 15u8 & 4u8 != 0 && 15u8 & 8u8 != 0,
{
}

/// A bit of a three-way intersection is set exactly when it is set in all three.
proof fn lemma_and3_bit(c: u8, x: u8, y: u8, b: u8)
    by (bit_vector)
    requires
        b == 1 || b == 2 || b == 4 || b == 8,
    ensures
        ((c & x & y) & b != 0) == ((c & b != 0) && (x & b != 0) && (y & b != 0)),
{
}

/// Castle rights after a move: each right survives exactly when it was held
/// and the move neither starts nor ends on the home square of its king or its
/// rook (e1 and h1 for White's kingside right, e1 and a1 for its queenside
/// right, e8 and h8, e8 and a8 for Black's).
pub proof fn law_castle_rights_after_move(p: Position, m: ChessMove)
    ensures
        ({
            let s = start_of(m@);
            let e = end_of(m@);
            let c = make_spec(p, m).castle_perms;
            &&& c.has(CastlePerm::WhiteKingside) == (p.castle_perms.has(CastlePerm::WhiteKingside) && s != 4 && s
                != 7 && e != 4 && e != 7)
            &&& c.has(CastlePerm::WhiteQueenside) == (p.castle_perms.has(CastlePerm::WhiteQueenside) && s != 4
                && s != 0 && e != 4 && e != 0)
            &&& c.has(CastlePerm::BlackKingside) == (p.castle_perms.has(CastlePerm::BlackKingside) && s != 60 && s
                != 63 && e != 60 && e != 63)
            &&& c.has(CastlePerm::BlackQueenside) == (p.castle_perms.has(CastlePerm::BlackQueenside) && s != 60
                && s != 56 && e != 60 && e != 56)
        }),
{
    let s = start_of(m@);
    let e = end_of(m@);
    let cb = p.castle_perms.bits();
    let x = castle_modifier(s);
    let y = castle_modifier(e);
    CastlePerms::lemma_with_bits(cb & x & y, make_spec(p, m).castle_perms);
    lemma_castle_mask_bits();
    lemma_and3_bit(cb, x, y, 1);
    lemma_and3_bit(cb, x, y, 2);
    lemma_and3_bit(cb, x, y, 4);
    lemma_and3_bit(cb, x, y, 8);
}

pub open spec fn is_ep(m: ChessMove) -> bool {
    flags_of(m@) == 0x5000
}

pub open spec fn is_kingside(m: ChessMove) -> bool {
    flags_of(m@) == 0x2000
}

pub open spec fn is_queenside(m: ChessMove) -> bool {
    flags_of(m@) == 0x3000
}

pub open spec fn is_castle(m: ChessMove) -> bool {
    is_kingside(m) || is_queenside(m)
}

pub open spec fn is_double_push(m: ChessMove) -> bool {
    flags_of(m@) == 0x1000
}

/// A capture other than en passant: the captured piece stands on the end square.
pub open spec fn is_plain_capture(m: ChessMove) -> bool {
    capture_bit(m@) && !is_ep(m)
}

/// The square of the pawn taken en passant by color `c` moving to `e`.
pub open spec fn ep_victim(c: Color, e: int) -> int {
    if c == Color::White {
        e - 8
    } else {
        e + 8
    }
}

/// The en passant square left behind by a double pawn push of color `c` from `s`.
pub open spec fn ep_target(c: Color, s: int) -> int {
    if c == Color::White {
        s + 8
    } else {
        s - 8
    }
}

/// The square the castling rook comes from.
pub open spec fn rook_from(m: ChessMove) -> int {
    if is_kingside(m) {
        start_of(m@) + 3
    } else {
        start_of(m@) - 4
    }
}

/// The square the castling rook goes to.
pub open spec fn rook_to(m: ChessMove) -> int {
    if is_kingside(m) {
        start_of(m@) + 1
    } else {
        start_of(m@) - 1
    }
}

pub open spec fn is_king_at(pieces: Seq<Option<Piece>>, i: int) -> bool {
    pieces[i] matches Some(q) && type_of(q) == PieceType::King
}

/// The pieces after color `c` makes move `m`: the side effect of the move (the
/// pawn taken en passant, the castling rook), the captured piece, the move itself
/// and the promotion.
pub open spec fn make_pieces(p: Seq<Option<Piece>>, m: ChessMove, c: Color) -> Seq<Option<Piece>> {
    let s = start_of(m@);
    let e = end_of(m@);
    let p1 = if is_ep(m) {
        p.update(ep_victim(c, e), None)
    } else if is_castle(m) {
        p.update(rook_from(m), None).update(rook_to(m), p[rook_from(m)])
    } else {
        p
    };
    let p2 = if is_plain_capture(m) {
        p1.update(e, None)
    } else {
        p1
    };
    let p3 = p2.update(s, None).update(e, p2[s]);
    match promoted_of(m@) {
        Some(t) => p3.update(e, Some(piece_of(t, c))),
        None => p3,
    }
}

/// The pieces after the side effect of move `m` of color `c` is undone and the
/// moved piece is back on its start square.
pub open spec fn unmake_moved(p: Seq<Option<Piece>>, m: ChessMove, c: Color) -> Seq<Option<Piece>> {
    let s = start_of(m@);
    let e = end_of(m@);
    let q1 = if is_ep(m) {
        p.update(ep_victim(c, e), Some(piece_of(PieceType::Pawn, opposite(c))))
    } else if is_castle(m) {
        p.update(rook_to(m), None).update(rook_from(m), p[rook_to(m)])
    } else {
        p
    };
    q1.update(e, None).update(s, q1[e])
}

/// Once the moved piece is back, the captured piece (of type `captured`) returns
/// to the end square and a promoted piece turns back into a pawn.
pub open spec fn unmake_rest(q2: Seq<Option<Piece>>, m: ChessMove, c: Color, captured: Option<PieceType>) -> Seq<
    Option<Piece>,
> {
    let s = start_of(m@);
    let e = end_of(m@);
    let q3 = if is_plain_capture(m) {
        q2.update(e, Some(piece_of(captured.unwrap(), opposite(c))))
    } else {
        q2
    };
    if promotion_bit(m@) {
        q3.update(s, Some(piece_of(PieceType::Pawn, c)))
    } else {
        q3
    }
}

/// The pieces after move `m` of color `c` is taken back, `captured` being the type
/// of the piece it captured.
pub open spec fn unmake_pieces(p: Seq<Option<Piece>>, m: ChessMove, c: Color, captured: Option<PieceType>) -> Seq<
    Option<Piece>,
> {
    unmake_rest(unmake_moved(p, m, c), m, c, captured)
}

/// The material color `c` loses to its opponent's move `m`.
pub open spec fn captured_value(p: Seq<Option<Piece>>, m: ChessMove) -> int {
    if is_ep(m) {
        piece_type_value(PieceType::Pawn) as int
    } else if is_plain_capture(m) {
        piece_type_value(type_of(p[end_of(m@)].unwrap())) as int
    } else {
        0
    }
}

/// The material a promotion gains.
pub open spec fn promotion_gain(m: ChessMove) -> int {
    match promoted_of(m@) {
        Some(t) => piece_type_value(t) - piece_type_value(PieceType::Pawn),
        None => 0,
    }
}

/// The type of the piece that move `m` captures.
pub open spec fn captured_by(p: Seq<Option<Piece>>, m: ChessMove) -> Option<PieceType> {
    if is_ep(m) {
        Some(PieceType::Pawn)
    } else {
        match p[end_of(m@)] {
            Some(q) => Some(type_of(q)),
            None => None,
        }
    }
}

/// The castle permissions whose bits are those of `c` masked by the modifiers of
/// the squares `s` and `e`.
pub open spec fn castle_after(c: CastlePerms, s: int, e: int) -> CastlePerms {
    CastlePerms::with_bits(c.bits() & castle_modifier(s) & castle_modifier(e))
}

// ---------------------------------------------------------------------------
// Checks
// ---------------------------------------------------------------------------

/// The occupied squares once the piece on `s` has moved to `e`.
pub open spec fn occ_after(pieces: Seq<Option<Piece>>, s: int, e: int) -> spec_fn(int) -> bool {
    |x: int| 0 <= x < 64 && ((pieces[x].is_some() && x != s) || x == e)
}

/// Whether a queen or a piece of type `kind` of color `a` stands on `t`.
pub open spec fn slider_on(pieces: Seq<Option<Piece>>, t: int, a: Color, kind: PieceType) -> bool {
    pieces[t] == Some(piece_of(PieceType::Queen, a)) || pieces[t] == Some(piece_of(kind, a))
}

/// The test for a check discovered by moving the piece on `s` to `e`, against the
/// king on `k`, by the sliders of color `a`: the occupancy is that after the move;
/// if `s` lies on a diagonal seen from the king, any bishop or queen of `a` (other
/// than one on `e`) seen from the king counts, and likewise for rook lines.
pub open spec fn discovered_check(pieces: Seq<Option<Piece>>, k: int, s: int, e: int, a: Color) -> bool {
    let occ = occ_after(pieces, s, e);
    ||| bishop_attacks(k, occ, s) && exists|t: int|
        0 <= t < 64 && t != e && #[trigger] slider_on(pieces, t, a, PieceType::Bishop) && bishop_attacks(
            k,
            occ,
            t,
        )
    ||| rook_attacks(k, occ, s) && exists|t: int|
        0 <= t < 64 && t != e && #[trigger] slider_on(pieces, t, a, PieceType::Rook) && rook_attacks(
            k,
            occ,
            t,
        )
}

/// Whether a pawn of color `c` attacks square `k`.
pub open spec fn pawn_check(pieces: Seq<Option<Piece>>, k: int, c: Color) -> bool {
    exists|t: int| 0 <= t < 64 && #[trigger] pieces[t] == Some(piece_of(PieceType::Pawn, c)) && pawn_attacks(c, t, k)
}

/// The square a castling rook of the side `c` lands on.
pub open spec fn castled_rook_square(c: Color, kingside: bool) -> int {
    match (c, kingside) {
        (Color::White, true) => 5,
        (Color::Black, true) => 61,
        (Color::White, false) => 3,
        (Color::Black, false) => 59,
    }
}

/// The test, after color `c` made move `m` (giving the pieces `np`), whether the
/// opposing king on `k` is in check: directly by the moved piece (for a pawn, by
/// any pawn of `c`; for a castle, by the rook), or by a discovered check.
pub open spec fn gives_check(np: Seq<Option<Piece>>, k: int, m: ChessMove, c: Color) -> bool {
    let s = start_of(m@);
    let e = end_of(m@);
    let occ = occupied(np);
    let direct = match np[e] {
        Some(q) => match type_of(q) {
            PieceType::Pawn => pawn_check(np, k, c),
            PieceType::Knight => knight_step(e, k),
            PieceType::Bishop => bishop_attacks(e, occ, k),
            PieceType::Rook => rook_attacks(e, occ, k),
            PieceType::Queen => bishop_attacks(e, occ, k) || rook_attacks(e, occ, k),
            PieceType::King => if is_kingside(m) {
                rook_attacks(castled_rook_square(c, true), occ, k)
            } else if is_queenside(m) {
                rook_attacks(castled_rook_square(c, false), occ, k)
            } else {
                false
            },
        },
        None => false,
    };
    direct || discovered_check(np, k, s, e, c)
}

impl Board {
    /// Whether a pawn of color `color` attacks `square`.
    fn pawn_attacks_square(&self, square: Square64, color: Color) -> (r: bool)
        requires
            self.bitboards_wf(),
            square.is_valid(),
        ensures
            r == pawn_check(self.pieces@, square.idx(), color),
    {
        let ghost s = square.idx();
        let pawn = Piece::new(PieceType::Pawn, color);
        let pawns = self.bitboards[pawn.index()];
        let (east, west) = match color {
            Color::White => (pawns.shifted_northeast().get(square), pawns.shifted_northwest().get(square)),
            Color::Black => (pawns.shifted_southeast().get(square), pawns.shifted_southwest().get(square)),
        };
        proof {
            if east || west {
                let t = if color == Color::White {
                    if east { s - 9 } else { s - 7 }
                } else {
                    if east { s + 7 } else { s + 9 }
                };
                assert(self.bitboards[pawn.idx()].has(t));
                assert(self.pieces@[t] == Some(piece_of(PieceType::Pawn, color)));
                assert(pawn_attacks(color, t, s));
            }
            if pawn_check(self.pieces@, s, color) {
                let t = choose|t: int|
                    0 <= t < 64 && #[trigger] self.pieces@[t] == Some(piece_of(PieceType::Pawn, color))
                        && pawn_attacks(color, t, s);
                assert(self.bitboards[pawn.idx()].has(t));
            }
        }
        east || west
    }

    /// Whether moving the piece on the start square of `cmove` to its end square
    /// uncovers an attack by a slider of the other color on the king of the side
    /// to move.
    fn will_be_discovered_check(&self, cmove: ChessMove) -> (r: bool)
        requires
            self.bitboards_wf(),
            self.fields_wf(),
        ensures
            r == discovered_check(
                self.pieces@,
                self.king_square[self.color.idx()].idx(),
                start_of(cmove@),
                end_of(cmove@),
                opposite(self.color),
            ),
    {
        let king_square = self.king_square[self.color.index()];
        let start = cmove.start();
        let end = cmove.end();
        let ghost s = start.idx();
        let ghost e = end.idx();
        let ghost k = king_square.idx();
        let ghost occ = occ_after(self.pieces@, s, e);
        let mut bb_all = self.bb_all;
        bb_all.clear(start);
        bb_all.set_to(end, true);
        proof {
            assert(bb_fn(bb_all) =~= occ);
        }
        let op = self.color.flipped();
        let queen = Piece::new(PieceType::Queen, op);
        let bishop = Piece::new(PieceType::Bishop, op);
        let rook = Piece::new(PieceType::Rook, op);

        let bq_attacks = magic_bishop_moves(king_square, bb_all);
        let mut bq_hit = false;
        if bq_attacks.get(start) {
            let mut bishops_and_queens = self.bitboards[queen.index()].union(self.bitboards[bishop.index()]);
            bishops_and_queens.clear(end);
            let hits = bq_attacks.intersection(bishops_and_queens);
            bq_hit = !hits.is_empty();
            proof {
                if bq_hit {
                    let t = choose|t: int| 0 <= t < 64 && !!hits.has(t);
                    assert(slider_on(self.pieces@, t, op, PieceType::Bishop));
                } else {
                    assert forall|t: int|
                        0 <= t < 64 && t != e && #[trigger] slider_on(self.pieces@, t, op, PieceType::Bishop)
                            implies !bishop_attacks(k, occ, t) by {
                        assert(!hits.has(t));
                    }
                }
            }
        }
        if bq_hit {
            return true;
        }
        let rq_attacks = magic_rook_moves(king_square, bb_all);
        let mut rq_hit = false;
        if rq_attacks.get(start) {
            let mut rooks_and_queens = self.bitboards[queen.index()].union(self.bitboards[rook.index()]);
            rooks_and_queens.clear(end);
            let hits = rq_attacks.intersection(rooks_and_queens);
            rq_hit = !hits.is_empty();
            proof {
                if rq_hit {
                    let t = choose|t: int| 0 <= t < 64 && !!hits.has(t);
                    assert(slider_on(self.pieces@, t, op, PieceType::Rook));
                } else {
                    assert forall|t: int|
                        0 <= t < 64 && t != e && #[trigger] slider_on(self.pieces@, t, op, PieceType::Rook)
                            implies !rook_attacks(k, occ, t) by {
                        assert(!hits.has(t));
                    }
                }
            }
        }
        rq_hit
    }
}

// ---------------------------------------------------------------------------
// The effect of making and taking back a move
// ---------------------------------------------------------------------------

/// The conditions on the pieces under which color `c` can make move `m`, as the
/// move generator produces them: the mover's piece on the start square, an empty
/// end square unless the move captures, an opponent's piece other than the king to
/// capture, the opponent's pawn behind the end square for en passant, the rook on
/// its home square and free squares for a castle, and a pawn for a promotion.
pub open spec fn pieces_applicable(p: Seq<Option<Piece>>, m: ChessMove, c: Color) -> bool {
    let s = start_of(m@);
    let e = end_of(m@);
    &&& p.len() == 64
    &&& s != e
    &&& p[s] matches Some(mp) && color_of(mp) == c
    &&& is_ep(m) ==> {
        &&& 0 <= ep_victim(c, e) < 64
        &&& p[ep_victim(c, e)] == Some(piece_of(PieceType::Pawn, opposite(c)))
    }
    &&& is_castle(m) ==> {
        &&& 0 <= rook_from(m) < 64
        &&& 0 <= rook_to(m) < 64
        &&& p[rook_from(m)] == Some(piece_of(PieceType::Rook, c))
        &&& p[rook_to(m)].is_none()
        &&& e != rook_from(m)
        &&& e != rook_to(m)
    }
    &&& is_plain_capture(m) ==> (p[e] matches Some(q) && color_of(q) == opposite(c) && type_of(q)
        != PieceType::King)
    &&& !is_plain_capture(m) ==> p[e].is_none()
    &&& promotion_bit(m@) ==> p[s] == Some(piece_of(PieceType::Pawn, c))
}

/// The conditions under which the side to move of `p` can make move `m`: those on
/// the pieces, a king move starting from the king square, and room for the en
/// passant square of a double pawn push.
pub open spec fn move_applicable(p: Position, m: ChessMove) -> bool {
    let c = p.color;
    let s = start_of(m@);
    &&& pieces_applicable(p.pieces, m, c)
    &&& is_king_at(p.pieces, s) ==> p.king_square[c.idx()].idx() == s
    &&& is_double_push(m) ==> 0 <= ep_target(c, s) < 64
}

/// The position after the side to move of `p` makes move `m` (whether it is
/// legal or not).
pub open spec fn make_spec(p: Position, m: ChessMove) -> Position {
    let c = p.color;
    let nc = opposite(c);
    let s = start_of(m@);
    let e = end_of(m@);
    let np = make_pieces(p.pieces, m, c);
    let nep = if is_double_push(m) {
        Some(square_of(ep_target(c, s)))
    } else {
        None
    };
    let ncastle = castle_after(p.castle_perms, s, e);
    let fifty = if is_plain_capture(m) || (p.pieces[s] matches Some(q) && type_of(q) == PieceType::Pawn) {
        0usize
    } else {
        (p.fifty_move + 1) as usize
    };
    let ks = if is_king_at(np, e) {
        p.king_square.update(c.idx(), square_of(e))
    } else {
        p.king_square
    };
    let entry = HistoryEntry {
        move16: m,
        captured: captured_by(p.pieces, m),
        fifty_move: p.fifty_move,
        en_passant: p.en_passant,
        castle_perms: p.castle_perms,
        position_key: p.position_key,
        in_check: p.in_check,
    };
    Position {
        pieces: np,
        color: nc,
        en_passant: nep,
        castle_perms: ncastle,
        fifty_move: fifty,
        ply: (p.ply + 1) as usize,
        position_key: key_of(np, nc, nep, ncastle) ^ (p.position_key ^ key_of(
            p.pieces,
            c,
            p.en_passant,
            p.castle_perms,
        )),
        in_check: gives_check(np, ks[nc.idx()].idx(), m, c),
        king_square: ks,
        history: p.history.push(entry),
    }
}

/// The position after the last move on the history of `p` is taken back.
pub open spec fn take_spec(p: Position) -> Position {
    let h = p.history.last();
    let m = h.move16;
    let c = opposite(p.color);
    let s = start_of(m@);
    let np = unmake_pieces(p.pieces, m, c, h.captured);
    let ks = if is_king_at(unmake_moved(p.pieces, m, c), s) {
        p.king_square.update(c.idx(), square_of(s))
    } else {
        p.king_square
    };
    Position {
        pieces: np,
        color: c,
        en_passant: h.en_passant,
        castle_perms: h.castle_perms,
        fifty_move: h.fifty_move,
        ply: (p.ply - 1) as usize,
        position_key: key_of(np, c, h.en_passant, h.castle_perms) ^ (p.position_key ^ key_of(
            p.pieces,
            p.color,
            p.en_passant,
            p.castle_perms,
        )),
        in_check: h.in_check,
        king_square: ks,
        history: p.history.drop_last(),
    }
}

/// Whether making move `m` succeeds: after the move the king of the side that
/// moved is not attacked.
pub open spec fn make_legal(p: Position, m: ChessMove) -> bool {
    let q = make_spec(p, m);
    !attacked_in(q.pieces, q.king_square[p.color.idx()].idx(), opposite(p.color))
}

/// The conditions on the pieces under which the last move, `m` of color `c`, can
/// be taken back: the moved piece on the end square, its start square empty, the
/// square of a pawn taken en passant empty, the castling rook on its new square
/// and its home square empty, and the type of a captured piece recorded.
pub open spec fn pieces_undoable(p: Seq<Option<Piece>>, m: ChessMove, c: Color) -> bool {
    let s = start_of(m@);
    let e = end_of(m@);
    &&& p.len() == 64
    &&& s != e
    &&& p[e].is_some()
    &&& p[s].is_none()
    &&& is_ep(m) ==> {
        &&& 0 <= ep_victim(c, e) < 64
        &&& ep_victim(c, e) != s
        &&& p[ep_victim(c, e)].is_none()
    }
    &&& is_castle(m) ==> {
        &&& 0 <= rook_from(m) < 64
        &&& 0 <= rook_to(m) < 64
        &&& p[rook_to(m)].is_some()
        &&& p[rook_from(m)].is_none()
        &&& e != rook_from(m)
        &&& e != rook_to(m)
    }
    &&& promotion_bit(m@) ==> (p[e] matches Some(q) && color_of(q) == c)
}

/// The conditions under which the last move of `p` can be taken back.
pub open spec fn undo_applicable(p: Position) -> bool {
    let h = p.history.last();
    &&& p.history.len() > 0
    &&& p.ply >= 1
    &&& pieces_undoable(p.pieces, h.move16, opposite(p.color))
    &&& is_plain_capture(h.move16) ==> h.captured.is_some()
    &&& h.castle_perms.bits() < 16
    &&& (h.en_passant matches Some(sq) ==> sq.is_valid())
}

/// The position after a null move: the other side is to move and the en passant
/// square is gone.
pub open spec fn make_null_spec(p: Position) -> Position {
    let entry = HistoryEntry {
        move16: ChessMove::nomove(),
        captured: None,
        fifty_move: p.fifty_move,
        en_passant: p.en_passant,
        castle_perms: p.castle_perms,
        position_key: p.position_key,
        in_check: p.in_check,
    };
    Position {
        color: opposite(p.color),
        en_passant: None,
        ply: (p.ply + 1) as usize,
        position_key: (p.position_key ^ color_key()) ^ en_passant_contrib(p.en_passant),
        in_check: false,
        history: p.history.push(entry),
        ..p
    }
}

/// The position after a null move is taken back from the history.
pub open spec fn take_null_spec(p: Position) -> Position {
    let h = p.history.last();
    Position {
        color: opposite(p.color),
        en_passant: h.en_passant,
        castle_perms: h.castle_perms,
        fifty_move: h.fifty_move,
        ply: (p.ply - 1) as usize,
        position_key: ((p.position_key ^ en_passant_contrib(p.en_passant)) ^ en_passant_contrib(h.en_passant))
            ^ color_key(),
        in_check: h.in_check,
        history: p.history.drop_last(),
        ..p
    }
}

impl Board {
    /// Whether the move just made (the side to move now being the other one) gives
    /// check: directly by the moved piece, or by a discovered slider.
    fn gave_check(&self, cmove: ChessMove) -> (r: bool)
        requires
            self.bitboards_wf(),
            self.fields_wf(),
            self.pieces@[end_of(cmove@)].is_some(),
        ensures
            r == gives_check(self.pieces@, self.king_square[self.color.idx()].idx(), cmove, opposite(self.color)),
    {
        let king_square = self.king_square[self.color.index()];
        let end = cmove.end();
        let piece = self.pieces[end.index()].unwrap();
        proof {
            assert(bb_fn(self.bb_all) =~= occupied(self.pieces@));
        }
        let direct_check = match piece.piece_type() {
            PieceType::Pawn => self.pawn_attacks_square(king_square, self.color.flipped()),
            PieceType::Knight => knight_pattern(end).get(king_square),
            PieceType::Bishop => magic_bishop_moves(end, self.bb_all).get(king_square),
            PieceType::Rook => magic_rook_moves(end, self.bb_all).get(king_square),
            PieceType::Queen => {
                magic_bishop_moves(end, self.bb_all).get(king_square) || magic_rook_moves(end, self.bb_all).get(
                    king_square,
                )
            },
            PieceType::King => {
                if cmove.is_kingside_castle() {
                    let start_square = match self.color {
                        Color::White => Square64::F8,
                        Color::Black => Square64::F1,
                    };
                    magic_rook_moves(start_square, self.bb_all).get(king_square)
                } else if cmove.is_queenside_castle() {
                    let start_square = match self.color {
                        Color::White => Square64::D8,
                        Color::Black => Square64::D1,
                    };
                    magic_rook_moves(start_square, self.bb_all).get(king_square)
                } else {
                    false
                }
            },
        };
        direct_check || self.will_be_discovered_check(cmove)
    }

    /// Makes the changes to the pieces of move `m` by color `color`: the pawn
    /// taken en passant or the castling rook, the captured piece, the move itself
    /// and the promotion.
    #[verifier::rlimit(60)]
    fn play_pieces(&mut self, m: ChessMove, color: Color)
        requires
            old(self).derived_wf(),
            pieces_applicable(old(self).pieces@, m, color),
            old(self).material[color.idx()] + promotion_gain(m) <= i16::MAX,
        ensures
            final(self).derived_wf(),
            final(self).pieces@ == make_pieces(old(self).pieces@, m, color),
            final(self).same_state(old(self)),
            final(self).key_gap() == old(self).key_gap(),
            final(self).material[color.idx()] == old(self).material[color.idx()] + promotion_gain(m),
            final(self).material[opposite(color).idx()] == old(self).material[opposite(color).idx()]
                - captured_value(old(self).pieces@, m),
    {
        let start = m.start();
        let end = m.end();
        let ghost p0 = self.pieces@;
        let ghost s = start.idx();
        let ghost e = end.idx();
        proof {
            crate::chess_move::lemma_flag_bits(m@);
            crate::types::lemma_square_index(start, end);
        }
        if m.is_en_passant() {
            let victim = if color == Color::White {
                end.index() - 8
            } else {
                end.index() + 8
            };
            self.clear_piece(Square64::from_primitive(victim));
        } else if m.is_queenside_castle() {
            let rook_from = Square64::from_primitive(start.index() - 4);
            let rook_to = Square64::from_primitive(start.index() - 1);
            self.move_piece(rook_from, rook_to);
        } else if m.is_kingside_castle() {
            let rook_from = Square64::from_primitive(start.index() + 3);
            let rook_to = Square64::from_primitive(start.index() + 1);
            self.move_piece(rook_from, rook_to);
        }
        let ghost p1 = self.pieces@;
        proof {
            assert(p1[s] == p0[s]);
            assert(p1[e] == p0[e]);
        }
        if m.is_capture() && !m.is_en_passant() {
            self.clear_piece(end);
        }
        let ghost p2 = self.pieces@;
        self.move_piece(start, end);
        match m.promoted() {
            Some(promoted) => {
                self.clear_piece(end);
                self.add_piece(end, Piece::new(promoted, color));
            },
            None => {},
        }
        proof {
            assert(self.pieces@ =~= make_pieces(p0, m, color));
        }
    }

    /// Undoes the side effect of move `m` by color `color` and moves the piece
    /// back to its start square.
    #[verifier::rlimit(60)]
    fn unplay_moved(&mut self, m: ChessMove, color: Color)
        requires
            old(self).derived_wf(),
            pieces_undoable(old(self).pieces@, m, color),
            is_ep(m) ==> old(self).material[opposite(color).idx()] + piece_type_value(PieceType::Pawn) <= i16::MAX,
        ensures
            final(self).derived_wf(),
            final(self).pieces@ == unmake_moved(old(self).pieces@, m, color),
            final(self).same_state(old(self)),
            final(self).key_gap() == old(self).key_gap(),
            final(self).material[color.idx()] == old(self).material[color.idx()],
            !is_ep(m) ==> final(self).material[opposite(color).idx()] == old(self).material[opposite(color).idx()],
    {
        let from = m.start();
        let to = m.end();
        let ghost p0 = self.pieces@;
        let ghost s = from.idx();
        let ghost e = to.idx();
        proof {
            crate::chess_move::lemma_flag_bits(m@);
            crate::types::lemma_square_index(from, to);
        }
        if m.is_en_passant() {
            let enemy_pawn = Piece::new(PieceType::Pawn, color.flipped());
            let victim = if color == Color::White {
                to.index() - 8
            } else {
                to.index() + 8
            };
            self.add_piece(Square64::from_primitive(victim), enemy_pawn);
        } else if m.is_queenside_castle() {
            let rook_from = Square64::from_primitive(from.index() - 1);
            let rook_to = Square64::from_primitive(from.index() - 4);
            self.move_piece(rook_from, rook_to);
        } else if m.is_kingside_castle() {
            let rook_from = Square64::from_primitive(from.index() + 1);
            let rook_to = Square64::from_primitive(from.index() + 3);
            self.move_piece(rook_from, rook_to);
        }
        proof {
            assert(self.pieces@[s] == p0[s]);
            assert(self.pieces@[e] == p0[e]);
        }
        self.move_piece(to, from);
        proof {
            assert(self.pieces@ =~= unmake_moved(p0, m, color));
        }
    }

    /// Puts a captured piece back on the end square of move `m` by color `color`
    /// and turns a promoted piece back into a pawn.
    #[verifier::rlimit(60)]
    fn unplay_rest(&mut self, m: ChessMove, color: Color, captured: Option<PieceType>)
        requires
            old(self).derived_wf(),
            start_of(m@) != end_of(m@),
            is_plain_capture(m) ==> {
                &&& old(self).pieces@[end_of(m@)].is_none()
                &&& captured.is_some()
                &&& old(self).material[opposite(color).idx()] + piece_type_value(captured.unwrap()) <= i16::MAX
            },
            promotion_bit(m@) ==> {
                &&& old(self).pieces@[start_of(m@)] matches Some(q) && color_of(q) == color
                &&& old(self).material[color.idx()] - piece_type_value(
                    type_of(old(self).pieces@[start_of(m@)].unwrap()),
                ) + piece_type_value(PieceType::Pawn) <= i16::MAX
            },
        ensures
            final(self).derived_wf(),
            final(self).pieces@ == unmake_rest(old(self).pieces@, m, color, captured),
            final(self).same_state(old(self)),
            final(self).key_gap() == old(self).key_gap(),
    {
        let from = m.start();
        let to = m.end();
        let ghost p0 = self.pieces@;
        proof {
            crate::chess_move::lemma_flag_bits(m@);
            crate::types::lemma_square_index(from, to);
        }
        if m.is_capture() && !m.is_en_passant() {
            self.add_piece(to, Piece::new(captured.unwrap(), color.flipped()));
        }
        proof {
            crate::types::lemma_flip_involution(color);
        }
        if m.is_promotion() {
            let pawn = match color {
                Color::White => Piece::WhitePawn,
                Color::Black => Piece::BlackPawn,
            };
            self.clear_piece(from);
            self.add_piece(from, pawn);
        }
        proof {
            assert(self.pieces@ =~= unmake_rest(p0, m, color, captured));
        }
    }
}

// ---------------------------------------------------------------------------
// Keys
// ---------------------------------------------------------------------------

proof fn lemma_key_fields_bv(x: u64, a1: u64, a2: u64, b1: u64, b2: u64, d1: u64, d2: u64)
    by (bit_vector)
    ensures
        ((x ^ a2) ^ b2) ^ d2 == (((x ^ a1) ^ b1) ^ d1) ^ ((a1 ^ a2) ^ ((b1 ^ b2) ^ (d1 ^ d2))),
{
}

proof fn lemma_key_steps_bv(x: u64, g: u64, c: u64, e0: u64, en: u64, d0: u64, d1: u64)
    by (bit_vector)
    ensures
        (((((x ^ g) ^ e0) ^ d0) ^ d1) ^ en) ^ c == (x ^ (c ^ ((e0 ^ en) ^ (d0 ^ d1)))) ^ g,
        ((x ^ g) ^ x) == g,
        x ^ (g ^ x) == g,
        (x ^ g) == 0 ==> x == g,
        x ^ 0 == x,
        0 ^ x == x,
{
}

/// Changing the side to move, the en passant square and the castle permissions
/// changes the position key by the XOR of the old and new contributions.
pub proof fn lemma_key_fields(
    pc: Seq<Option<Piece>>,
    c1: Color,
    c2: Color,
    e1: Option<Square64>,
    e2: Option<Square64>,
    k1: CastlePerms,
    k2: CastlePerms,
)
    ensures
        key_of(pc, c2, e2, k2) == key_of(pc, c1, e1, k1) ^ ((color_contrib(c1) ^ color_contrib(c2)) ^ ((
        en_passant_contrib(e1) ^ en_passant_contrib(e2)) ^ (castle_key(k1.bits() as int) ^ castle_key(
            k2.bits() as int,
        )))),
{
    lemma_key_fields_bv(
        crate::board::xor_pieces(pc, 64),
        color_contrib(c1),
        color_contrib(c2),
        en_passant_contrib(e1),
        en_passant_contrib(e2),
        castle_key(k1.bits() as int),
        castle_key(k2.bits() as int),
    );
}

/// The contributions of the side to move to the key differ by the color key.
proof fn lemma_color_flip(c: Color)
    ensures
        color_contrib(c) ^ color_contrib(opposite(c)) == color_key(),
{
    lemma_key_steps_bv(color_key(), 0, 0, 0, 0, 0, 0);
}

impl Board {
    /// Takes back the last move on the history.
    #[verifier::rlimit(80)]
    pub fn take_move(&mut self)
        requires
            old(self).derived_wf(),
            undo_applicable(old(self)@),
            undo_material_ok(old(self)),
        ensures
            final(self).derived_wf(),
            final(self).key_gap() == old(self).key_gap(),
            final(self)@ == take_spec(old(self)@),
    {
        let ghost p0 = self@;
        let ghost g0 = self.key_gap();
        self.ply = self.ply - 1;
        let his = self.history.pop().unwrap();
        let m = his.move16;
        let from = m.start();
        let to = m.end();
        let ghost k0 = self.position_key;
        let ghost e0 = en_passant_contrib(self.en_passant);
        let ghost d0 = castle_key(self.castle_perms.bits() as int);

        // hash out the current en passant square, if there is one
        match self.en_passant {
            Some(sq) => {
                self.position_key = self.position_key ^ zobrist_en_passant_key(sq);
            },
            None => {
                proof {
                    lemma_key_steps_bv(k0, 0, 0, 0, 0, 0, 0);
                }
            },
        }
        assert(self.position_key == k0 ^ e0);

        self.fifty_move = his.fifty_move;
        self.in_check = his.in_check;

        // reset the castle permissions
        self.position_key = self.position_key ^ zobrist_castle_key(self.castle_perms.as_u8());
        self.castle_perms = his.castle_perms;
        self.position_key = self.position_key ^ zobrist_castle_key(self.castle_perms.as_u8());
        let ghost d1 = castle_key(self.castle_perms.bits() as int);

        // reset the en passant square and hash it in
        self.en_passant = his.en_passant;
        let ghost en = en_passant_contrib(self.en_passant);
        let ghost k2 = self.position_key;
        match self.en_passant {
            Some(sq) => {
                self.position_key = self.position_key ^ zobrist_en_passant_key(sq);
            },
            None => {
                proof {
                    lemma_key_steps_bv(k2, 0, 0, 0, 0, 0, 0);
                }
            },
        }
        assert(self.position_key == k2 ^ en);

        self.color = self.color.flipped();
        self.position_key = self.position_key ^ zobrist_color_key();
        proof {
            let x = key_of(p0.pieces, p0.color, p0.en_passant, p0.castle_perms);
            lemma_key_fields(p0.pieces, p0.color, self.color, p0.en_passant, self.en_passant, p0.castle_perms, self.castle_perms);
            lemma_color_flip(p0.color);
            lemma_key_steps_bv(x, g0, color_key(), e0, en, d0, d1);
            lemma_key_steps_bv(x, k0, 0, 0, 0, 0, 0);
            lemma_key_steps_bv(self.spec_key(), g0, 0, 0, 0, 0, 0);
            assert(self.key_gap() == g0);
            crate::types::lemma_flip_involution(p0.color);
        }

        let color = self.color;
        self.unplay_moved(m, color);
        let ghost q2 = self.pieces@;
        match self.pieces[from.index()] {
            Some(p) => {
                if p.piece_type() == PieceType::King {
                    self.king_square[color.index()] = from;
                }
            },
            None => {},
        }
        proof {
            lemma_square_of(from.idx(), from);
        }
        self.unplay_rest(m, color, his.captured);
        proof {
            let t = take_spec(p0);
            assert(self.pieces@ =~= t.pieces);
            assert(self.king_square@ =~= t.king_square);
            assert(self.history@ =~= t.history);
            lemma_key_steps_bv(self.spec_key(), g0, 0, 0, 0, 0, 0);
            lemma_key_steps_bv(self.spec_key(), self.position_key, 0, 0, 0, 0, 0);
            assert(self.position_key == t.position_key);
            assert(self@ =~= take_spec(p0));
        }
    }
}

/// The bounds on the material that keep taking back the last move of `b` within
/// range: the captured piece goes back to the opponent of the mover, and a
/// promoted piece turns back into a pawn.
pub open spec fn undo_material_ok(b: &Board) -> bool {
    let h = b@.history.last();
    let m = h.move16;
    let c = opposite(b.color);
    &&& is_ep(m) ==> b.material[b.color.idx()] + piece_type_value(PieceType::Pawn) <= i16::MAX
    &&& is_plain_capture(m) ==> b.material[b.color.idx()] + piece_type_value(h.captured.unwrap()) <= i16::MAX
    &&& promotion_bit(m@) ==> b.material[c.idx()] - piece_type_value(type_of(b.pieces@[end_of(m@)].unwrap()))
        + piece_type_value(PieceType::Pawn) <= i16::MAX
}

// ---------------------------------------------------------------------------
// Laws
// ---------------------------------------------------------------------------

/// Taking back a move made on the pieces gives the pieces back.
pub proof fn lemma_unmake_make_pieces(p: Seq<Option<Piece>>, m: ChessMove, c: Color)
    requires
        pieces_applicable(p, m, c),
    ensures
        pieces_undoable(make_pieces(p, m, c), m, c),
        unmake_pieces(make_pieces(p, m, c), m, c, captured_by(p, m))
            == p,
{
    crate::chess_move::lemma_flag_bits(m@);
    crate::chess_move::lemma_field_bounds(m@);
    let s = start_of(m@);
    let e = end_of(m@);
    let np = make_pieces(p, m, c);
    let cap = captured_by(p, m);
    crate::types::lemma_flip_involution(c);
    if is_plain_capture(m) {
        let q = p[e].unwrap();
        crate::types::lemma_piece_type_color(q, type_of(q), color_of(q));
    }
    if promotion_bit(m@) {
        let t = promoted_of(m@).unwrap();
        crate::types::lemma_piece_type_color(piece_of(t, c), t, c);
    }
    assert(unmake_pieces(np, m, c, cap) =~= p);
}


/// Taking back a move gives back the position it was made in: the pieces, the
/// side to move, the en passant square, the castle permissions, the counters, the
/// key, the check flag, the king squares and the history.
pub proof fn lemma_take_undoes_make(p: Position, m: ChessMove)
    requires
        move_applicable(p, m),
        p.ply < usize::MAX,
        p.king_square.len() == 2,
    ensures
        take_spec(make_spec(p, m)) == p,
{
    let c = p.color;
    let s = start_of(m@);
    let e = end_of(m@);
    let q = make_spec(p, m);
    let t = take_spec(q);
    lemma_unmake_make_pieces(p.pieces, m, c);
    crate::chess_move::lemma_flag_bits(m@);
    crate::chess_move::lemma_field_bounds(m@);
    crate::types::lemma_flip_involution(c);
    assert(q.history.last() == q.history[q.history.len() - 1]);
    assert(t.pieces =~= p.pieces);
    assert(t.history =~= p.history);
    // the king squares
    let np = make_pieces(p.pieces, m, c);
    assert(unmake_moved(np, m, c)[s] == np[e]);
    if is_king_at(np, e) {
        if promotion_bit(m@) {
            let pt = promoted_of(m@).unwrap();
            crate::types::lemma_piece_type_color(piece_of(pt, c), pt, c);
        }
        assert(np[e] == p.pieces[s]);
        lemma_square_of(s, p.king_square[c.idx()]);
        assert(t.king_square =~= p.king_square);
    } else {
        assert(t.king_square =~= p.king_square);
    }
    // the key
    let x = key_of(p.pieces, c, p.en_passant, p.castle_perms);
    let y = key_of(np, opposite(c), q.en_passant, q.castle_perms);
    lemma_key_steps_bv(y, p.position_key ^ x, 0, 0, 0, 0, 0);
    lemma_key_steps_bv(x, p.position_key, 0, 0, 0, 0, 0);
    assert(t.position_key == p.position_key);
    assert(t =~= p);
}

/// The kings of a position stand on their king squares.
pub open spec fn kings_placed(p: Position) -> bool {
    &&& p.king_square.len() == 2
    &&& p.king_square[0].is_valid()
    &&& p.king_square[1].is_valid()
    &&& p.pieces[p.king_square[0].idx()] == Some(Piece::WhiteKing)
    &&& p.pieces[p.king_square[1].idx()] == Some(Piece::BlackKing)
}

/// Making a move leaves the squares it does not touch as they were.
proof fn lemma_make_pieces_frame(p: Seq<Option<Piece>>, m: ChessMove, c: Color, k: int)
    requires
        pieces_applicable(p, m, c),
        0 <= k < 64,
        k != start_of(m@),
        k != end_of(m@),
        is_ep(m) ==> k != ep_victim(c, end_of(m@)),
        is_castle(m) ==> k != rook_from(m) && k != rook_to(m),
    ensures
        make_pieces(p, m, c)[k] == p[k],
{
    crate::chess_move::lemma_field_bounds(m@);
}

/// Making a move keeps the kings on their king squares.
#[verifier::rlimit(40)]
proof fn lemma_kings_after_make(p: Position, m: ChessMove)
    requires
        move_applicable(p, m),
        kings_placed(p),
    ensures
        kings_placed(make_spec(p, m)),
{
    let c = p.color;
    let s = start_of(m@);
    let e = end_of(m@);
    let np = make_pieces(p.pieces, m, c);
    crate::chess_move::lemma_flag_bits(m@);
    crate::chess_move::lemma_field_bounds(m@);
    let w = p.king_square[0].idx();
    let b = p.king_square[1].idx();
    if promotion_bit(m@) {
        let pt = promoted_of(m@).unwrap();
        crate::types::lemma_piece_type_color(piece_of(pt, c), pt, c);
    }
    if is_king_at(np, e) {
        assert(np[e] == p.pieces[s]);
        lemma_square_of(e, Square64::A1);
    }
    crate::types::lemma_square_index(p.king_square[0], p.king_square[1]);
    if is_ep(m) {
        assert(p.pieces[ep_victim(c, e)] == Some(piece_of(PieceType::Pawn, opposite(c))));
    }
    if w != s {
        lemma_make_pieces_frame(p.pieces, m, c, w);
    }
    if b != s {
        lemma_make_pieces_frame(p.pieces, m, c, b);
    }
}

impl Board {
    /// Updates everything but the pieces and the check flag after the pieces of
    /// move `m` (by `color`, moving `moving_piece`) were moved in position `p0`:
    /// the en passant square, the castle permissions, the counters, the king
    /// square, the side to move and the key.
    #[verifier::rlimit(60)]
    fn finish_move(&mut self, m: ChessMove, color: Color, moving_piece: Piece, Ghost(p0): Ghost<Position>)
        requires
            old(self).derived_wf(),
            move_applicable(p0, m),
            p0.pieces[start_of(m@)] == Some(moving_piece),
            p0.color == color,
            p0.ply < usize::MAX,
            p0.fifty_move < usize::MAX,
            p0.castle_perms.bits() < 16,
            p0.king_square.len() == 2,
            old(self)@ == (Position {
                pieces: make_pieces(p0.pieces, m, color),
                history: make_spec(p0, m).history,
                position_key: old(self).position_key,
                ..p0
            }),
        ensures
            final(self).derived_wf(),
            final(self).key_gap() == old(self).key_gap(),
            final(self)@ == (Position { in_check: p0.in_check, position_key: final(self).position_key, ..make_spec(p0, m) }),
    {
        let start_square = m.start();
        let end_square = m.end();
        let ghost g0 = self.key_gap();
        let ghost k0 = self.position_key;
        let ghost np = self.pieces@;
        let ghost x = key_of(np, color, p0.en_passant, p0.castle_perms);
        let ghost e0 = en_passant_contrib(p0.en_passant);
        let ghost d0 = castle_key(p0.castle_perms.bits() as int);
        proof {
            crate::chess_move::lemma_flag_bits(m@);
        }

        // remove the en passant square and hash it out
        match self.en_passant {
            Some(sq) => {
                self.position_key = self.position_key ^ zobrist_en_passant_key(sq);
                self.en_passant = None;
            },
            None => {
                proof {
                    lemma_key_steps_bv(k0, 0, 0, 0, 0, 0, 0);
                }
            },
        }
        assert(self.position_key == k0 ^ e0);

        // update the castle permissions and the key
        self.position_key = self.position_key ^ zobrist_castle_key(self.castle_perms.as_u8());
        let castle_perms = self.castle_perms.as_u8() & castle_perm_modifier(start_square) & castle_perm_modifier(
            end_square,
        );
        proof {
            let cb = p0.castle_perms.bits();
            let m1 = castle_modifier(start_square.idx());
            let m2 = castle_modifier(end_square.idx());
            assert(castle_perms < 16) by (bit_vector)
                requires
                    castle_perms == cb & m1 & m2,
                    cb < 16,
            ;
        }
        self.castle_perms = CastlePerms::from_u8(castle_perms);
        self.position_key = self.position_key ^ zobrist_castle_key(self.castle_perms.as_u8());
        let ghost d1 = castle_key(self.castle_perms.bits() as int);

        // update the fifty move counter and the ply
        self.fifty_move = self.fifty_move + 1;
        self.ply = self.ply + 1;
        if m.is_capture() && !m.is_en_passant() {
            self.fifty_move = 0;
        }
        if moving_piece.piece_type() == PieceType::Pawn {
            self.fifty_move = 0;
        }

        // set the en passant square of a double pawn push and hash it in
        let ghost k2 = self.position_key;
        if m.is_doube_pawn_push() {
            let target = if color == Color::White {
                start_square.index() + 8
            } else {
                start_square.index() - 8
            };
            let en_pas = Square64::from_primitive(target);
            self.en_passant = Some(en_pas);
            self.position_key = self.position_key ^ zobrist_en_passant_key(en_pas);
        } else {
            proof {
                lemma_key_steps_bv(k2, 0, 0, 0, 0, 0, 0);
            }
        }
        let ghost en = en_passant_contrib(self.en_passant);
        assert(self.position_key == k2 ^ en);

        // update the king square if the king moved
        match self.pieces[end_square.index()] {
            Some(p) => {
                if p.piece_type() == PieceType::King {
                    self.king_square[color.index()] = end_square;
                }
            },
            None => {},
        }

        self.color = self.color.flipped();
        self.position_key = self.position_key ^ zobrist_color_key();
        proof {
            lemma_key_fields(np, color, self.color, p0.en_passant, self.en_passant, p0.castle_perms, self.castle_perms);
            lemma_color_flip(color);
            lemma_key_steps_bv(x, g0, color_key(), e0, en, d0, d1);
            lemma_key_steps_bv(x, k0, 0, 0, 0, 0, 0);
            lemma_key_steps_bv(self.spec_key(), g0, 0, 0, 0, 0, 0);
            lemma_square_of(end_square.idx(), end_square);
            let q = make_spec(p0, m);
            assert(self.king_square@ =~= q.king_square);
        }
    }

    /// Makes the move if it leads to a valid position, that is if the moving side
    /// does not leave its king in check. A move found to be invalid is taken back
    /// at once, so the board stays as it was. Returns whether the move was made.
    #[verifier::rlimit(60)]
    pub fn make_move(&mut self, m: ChessMove) -> (r: bool)
        requires
            old(self).wf(),
            move_applicable(old(self)@, m),
            old(self).fifty_move < usize::MAX,
            old(self).ply < usize::MAX,
            old(self).material[old(self).color.idx()] + promotion_gain(m) <= i16::MAX,
        ensures
            final(self).wf(),
            r == make_legal(old(self)@, m),
            r ==> final(self)@ == make_spec(old(self)@, m),
            r ==> undo_applicable(final(self)@) && undo_material_ok(final(self)),
            !r ==> final(self)@ == old(self)@,
    {
        let ghost p0 = self@;
        proof {
            lemma_key_steps_bv(self.position_key, 0, 0, 0, 0, 0, 0);
            assert(self.key_gap() == 0);
        }
        let start_square = m.start();
        let end_square = m.end();
        let moving_piece = self.pieces[start_square.index()].unwrap();
        let color = self.color;
        proof {
            crate::chess_move::lemma_flag_bits(m@);
            crate::types::lemma_flip_involution(color);
        }

        let captured = if m.is_en_passant() {
            Some(PieceType::Pawn)
        } else {
            match self.pieces[end_square.index()] {
                Some(p) => Some(p.piece_type()),
                None => None,
            }
        };

        // store the old board data in the history
        self.history.push(
            HistoryEntry {
                move16: m,
                captured,
                fifty_move: self.fifty_move,
                en_passant: self.en_passant,
                castle_perms: self.castle_perms,
                position_key: self.position_key,
                in_check: self.in_check,
            },
        );
        self.play_pieces(m, color);
        proof {
            assert(self@ =~= (Position {
                pieces: make_pieces(p0.pieces, m, color),
                history: make_spec(p0, m).history,
                position_key: self.position_key,
                ..p0
            }));
        }
        self.finish_move(m, color, moving_piece, Ghost(p0));

        self.in_check = self.gave_check(m);
        proof {
            let q = make_spec(p0, m);
            lemma_key_steps_bv(self.spec_key(), self.position_key, 0, 0, 0, 0, 0);
            assert(self@ =~= q);
            lemma_kings_after_make(p0, m);
            assert(self.kings_wf());
            CastlePerms::lemma_with_bits(
                p0.castle_perms.bits() & castle_modifier(start_square.idx()) & castle_modifier(end_square.idx()),
                self.castle_perms,
            );
            if is_double_push(m) {
                lemma_square_of(ep_target(color, start_square.idx()), start_square);
            }
            assert(self.fields_wf());
            lemma_key_steps_bv(self.position_key, self.spec_key(), 0, 0, 0, 0, 0);
            assert(self.key_gap() == 0);
            assert(self.position_key == self.spec_key());
        }

        proof {
            lemma_unmake_make_pieces(p0.pieces, m, color);
        }
        // the move must not leave the own king attacked
        if self.is_square_attacked(self.king_square[color.index()], self.color) {
            proof {
                lemma_take_undoes_make(p0, m);
            }
            self.take_move();
            return false;
        }
        true
    }
}

impl Board {
    /// Passes the move to the other side. Not allowed when in check.
    pub fn make_null_move(&mut self)
        requires
            old(self).wf(),
            !old(self).in_check,
            old(self).ply < usize::MAX,
        ensures
            final(self).wf(),
            final(self)@ == make_null_spec(old(self)@),
    {
        let ghost p0 = self@;
        self.ply = self.ply + 1;
        self.history.push(
            HistoryEntry {
                move16: ChessMove::default(),
                captured: None,
                fifty_move: self.fifty_move,
                en_passant: self.en_passant,
                castle_perms: self.castle_perms,
                position_key: self.position_key,
                in_check: self.in_check,
            },
        );

        self.color = self.color.flipped();
        self.position_key = self.position_key ^ zobrist_color_key();

        // remove the en passant square and hash it out
        let ghost k1 = self.position_key;
        match self.en_passant {
            Some(sq) => {
                self.position_key = self.position_key ^ zobrist_en_passant_key(sq);
                self.en_passant = None;
            },
            None => {
                proof {
                    lemma_key_steps_bv(k1, 0, 0, 0, 0, 0, 0);
                }
            },
        }
        self.in_check = false;
        proof {
            assert(self.history@ =~= make_null_spec(p0).history);
            assert(self@ =~= make_null_spec(p0));
            let x = key_of(p0.pieces, p0.color, p0.en_passant, p0.castle_perms);
            lemma_key_fields(p0.pieces, p0.color, self.color, p0.en_passant, None, p0.castle_perms, p0.castle_perms);
            lemma_color_flip(p0.color);
            lemma_key_steps_bv(x, 0, color_key(), en_passant_contrib(p0.en_passant), 0, castle_key(p0.castle_perms.bits() as int), castle_key(p0.castle_perms.bits() as int));
            lemma_null_key_bv(x, color_key(), en_passant_contrib(p0.en_passant), castle_key(p0.castle_perms.bits() as int));
        }
    }

    /// Takes back a null move.
    pub fn take_null_move(&mut self)
        requires
            old(self).derived_wf(),
            old(self).history.len() > 0,
            old(self).ply >= 1,
            old(self)@.history.last().castle_perms.bits() < 16,
            old(self)@.history.last().en_passant matches Some(sq) ==> sq.is_valid(),
        ensures
            final(self).derived_wf(),
            final(self)@ == take_null_spec(old(self)@),
    {
        let ghost p0 = self@;
        self.ply = self.ply - 1;

        match self.en_passant {
            Some(sq) => {
                self.position_key = self.position_key ^ zobrist_en_passant_key(sq);
            },
            None => {
                proof {
                    lemma_key_steps_bv(p0.position_key, 0, 0, 0, 0, 0, 0);
                }
            },
        }
        let ghost k1 = self.position_key;

        let his = self.history.pop().unwrap();
        self.castle_perms = his.castle_perms;
        self.fifty_move = his.fifty_move;
        self.en_passant = his.en_passant;
        self.in_check = his.in_check;

        match self.en_passant {
            Some(sq) => {
                self.position_key = self.position_key ^ zobrist_en_passant_key(sq);
            },
            None => {
                proof {
                    lemma_key_steps_bv(k1, 0, 0, 0, 0, 0, 0);
                }
            },
        }

        self.color = self.color.flipped();
        self.position_key = self.position_key ^ zobrist_color_key();
        proof {
            assert(self.history@ =~= take_null_spec(p0).history);
            assert(self@ =~= take_null_spec(p0));
        }
    }
}

proof fn lemma_null_key_bv(x: u64, c: u64, e: u64, d: u64)
    by (bit_vector)
    ensures
        (x ^ (c ^ ((e ^ 0) ^ (d ^ d)))) == (x ^ c) ^ e,
        (((((x ^ c) ^ e) ^ 0) ^ e) ^ c) == x,
{
}

/// Taking back a null move gives back the position it was made in.
pub proof fn lemma_take_null_undoes_make_null(p: Position)
    requires
        p.ply < usize::MAX,
    ensures
        take_null_spec(make_null_spec(p)) == p,
{
    let q = make_null_spec(p);
    crate::types::lemma_flip_involution(p.color);
    lemma_null_key_bv(p.position_key, color_key(), en_passant_contrib(p.en_passant), 0);
    assert(q.history.last() == q.history[q.history.len() - 1]);
    assert(take_null_spec(q).history =~= p.history);
    assert(take_null_spec(q) =~= p);
}

/// A board whose derived data is up to date and whose state is that of a
/// well-formed board is well-formed.
pub proof fn lemma_wf_of_view(a: &Board, b: &Board)
    requires
        a.wf(),
        b.derived_wf(),
        a@ == b@,
    ensures
        b.wf(),
{
    assert(a.pieces@ =~= b.pieces@);
    assert(a.king_square@ =~= b.king_square@);
    assert(a.king_square[0] == b.king_square[0]);
    assert(a.king_square[1] == b.king_square[1]);
}

/// Boards with up-to-date counts and the same pieces have the same material.
pub proof fn lemma_material_of_pieces(a: &Board, b: &Board)
    requires
        a.counts_wf(),
        b.counts_wf(),
        a.pieces@ == b.pieces@,
    ensures
        a.material[0] == b.material[0],
        a.material[1] == b.material[1],
{
    assert(a.material[Color::White.idx()] == b.material[Color::White.idx()]);
    assert(a.material[Color::Black.idx()] == b.material[Color::Black.idx()]);
}

impl Board {
    /// Whether `m` has the shape `make_move` needs: the mover's piece on its start
    /// square, the squares a capture, an en passant capture, a castle or a
    /// promotion needs, and room in the material for a promotion.
    pub fn can_make(&self, m: ChessMove) -> (r: bool)
        requires
            self.wf(),
        ensures
            r == (move_applicable(self@, m) && self.material[self.color.idx()] + promotion_gain(m) <= i16::MAX),
    {
        let c = self.color;
        let start = m.start();
        let end = m.end();
        let s = start.index();
        let e = end.index();
        proof {
            crate::chess_move::lemma_flag_bits(m@);
            crate::types::lemma_flip_involution(c);
        }
        if s == e {
            return false;
        }
        let mp = match self.pieces[s] {
            Some(p) => p,
            None => {
                return false;
            },
        };
        if mp.color() != c {
            return false;
        }
        // king moves start from the king square
        if mp.piece_type() == PieceType::King && self.king_square[c.index()] != start {
            proof {
                crate::types::lemma_square_index(self.king_square[c.idx()], start);
            }
            return false;
        }
        proof {
            crate::types::lemma_square_index(self.king_square[c.idx()], start);
        }
        if m.is_en_passant() {
            let victim_ok = match c {
                Color::White => e >= 8 && self.pieces[e - 8] == Some(Piece::BlackPawn),
                Color::Black => e + 8 < 64 && self.pieces[e + 8] == Some(Piece::WhitePawn),
            };
            if !victim_ok {
                return false;
            }
        }
        if m.is_kingside_castle() || m.is_queenside_castle() {
            let kingside = m.is_kingside_castle();
            let ok = if kingside {
                s + 3 < 64 && self.pieces[s + 3] == Some(Piece::new(PieceType::Rook, c)) && self.pieces[s + 1].is_none()
                    && e != s + 3 && e != s + 1
            } else {
                s >= 4 && self.pieces[s - 4] == Some(Piece::new(PieceType::Rook, c)) && self.pieces[s - 1].is_none()
                    && e != s - 4 && e != s - 1
            };
            if !ok {
                return false;
            }
        }
        if m.is_capture() && !m.is_en_passant() {
            match self.pieces[e] {
                Some(q) => {
                    if q.color() == c || q.piece_type() == PieceType::King {
                        return false;
                    }
                },
                None => {
                    return false;
                },
            }
        } else if self.pieces[e].is_some() {
            return false;
        }
        if m.is_promotion() && mp != Piece::new(PieceType::Pawn, c) {
            return false;
        }
        if m.is_doube_pawn_push() {
            let ok = match c {
                Color::White => s + 8 < 64,
                Color::Black => s >= 8,
            };
            if !ok {
                return false;
            }
        }
        let gain: i16 = match m.promoted() {
            Some(t) => t.value() - 100,
            None => 0,
        };
        proof {
            crate::board::lemma_tally_bounds(self.pieces@, crate::board::w_material(c), 64, 64, 15000);
            crate::board::lemma_weights(Piece::WhitePawn, c, None);
        }
        self.material[c.index()] <= i16::MAX - gain
    }
}

} // verus!
