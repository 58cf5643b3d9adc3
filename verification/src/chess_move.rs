//! `ChessMove`: a move packed into 16 bits.
//!
//! ```text
//! 0000 0000 00XX XXXX  -  start square (index 0..64)
//! 0000 XXXX XX00 0000  -  end square (index 0..64)
//! 000X 0000 0000 0000  -  special flag 2
//! 00X0 0000 0000 0000  -  special flag 1
//! 0X00 0000 0000 0000  -  capture flag
//! X000 0000 0000 0000  -  promotion flag
//! ```
//!
//! The flags, read from the promotion flag down: `0000` quiet move, `0001` double
//! pawn push, `0010` kingside castle, `0011` queenside castle, `0100` capture,
//! `0101` en passant capture, `10xx` promotion to knight, bishop, rook, queen,
//! `11xx` the same promotions with a capture. A move whose bits are all zero is
//! the no-move.

use crate::types::{Piece, PieceType, Square64, type_of};
use vstd::prelude::*;

verus! {

/// The flag nibble of a packed move.
pub open spec fn flags_of(bits: u16) -> u16 {
    bits & 0xF000
}

/// The index of the start square of a packed move.
pub open spec fn start_of(bits: u16) -> int {
    (bits & 0x3F) as int
}

/// The index of the end square of a packed move.
pub open spec fn end_of(bits: u16) -> int {
    ((bits & 0xFC0) >> 6) as int
}

/// The flag nibble that a promotion to this piece sets (knight, bishop, rook, queen).
pub open spec fn promotion_flags(t: PieceType) -> u16 {
    match t {
        PieceType::Knight => 0x8000,
        PieceType::Bishop => 0x9000,
        PieceType::Rook => 0xA000,
        PieceType::Queen => 0xB000,
        _ => 0x8000,
    }
}

/// Whether a piece can be promoted to.
pub open spec fn is_promotion_piece(p: Piece) -> bool {
    type_of(p) == PieceType::Knight || type_of(p) == PieceType::Bishop || type_of(p) == PieceType::Rook
        || type_of(p) == PieceType::Queen
}

/// The piece type a move promotes to, read from the promotion flag and the two
/// special flags (the capture flag does not matter).
pub open spec fn promoted_of(bits: u16) -> Option<PieceType> {
    if bits & 0xB000 == 0x8000 {
        Some(PieceType::Knight)
    } else if bits & 0xB000 == 0x9000 {
        Some(PieceType::Bishop)
    } else if bits & 0xB000 == 0xA000 {
        Some(PieceType::Rook)
    } else if bits & 0xB000 == 0xB000 {
        Some(PieceType::Queen)
    } else {
        None
    }
}

/// Whether the capture flag of a packed move is set.
pub open spec fn capture_bit(bits: u16) -> bool {
    bits & 0x4000 != 0
}

/// Whether the promotion flag of a packed move is set.
pub open spec fn promotion_bit(bits: u16) -> bool {
    bits & 0x8000 != 0
}

proof fn lemma_flag_bits_bv(x: u16)
    by (bit_vector)
    ensures
        x & 0xF000 == 0x5000 ==> x & 0x4000 != 0 && x & 0x8000 == 0,
        x & 0xF000 == 0x1000 ==> x & 0x4000 == 0 && x & 0x8000 == 0,
        x & 0xF000 == 0x2000 ==> x & 0x4000 == 0 && x & 0x8000 == 0,
        x & 0xF000 == 0x3000 ==> x & 0x4000 == 0 && x & 0x8000 == 0,
        (x & 0x8000 != 0) == (x & 0xB000 == 0x8000 || x & 0xB000 == 0x9000 || x & 0xB000 == 0xA000
            || x & 0xB000 == 0xB000),
{
}

/// How the flag nibble relates to the capture and promotion flags: en passant is a
/// capture, double pawn pushes and castles are quiet, and only the promotion flag
/// makes a promotion.
pub proof fn lemma_flag_bits(x: u16)
    ensures
        flags_of(x) == 0x5000 ==> capture_bit(x) && !promotion_bit(x),
        flags_of(x) == 0x1000 ==> !capture_bit(x) && !promotion_bit(x),
        flags_of(x) == 0x2000 ==> !capture_bit(x) && !promotion_bit(x),
        flags_of(x) == 0x3000 ==> !capture_bit(x) && !promotion_bit(x),
        promotion_bit(x) == promoted_of(x).is_some(),
{
    lemma_flag_bits_bv(x);
}

#[derive(Debug, PartialEq, Eq, Structural, Clone, Copy, Hash)]
pub struct ChessMove(u16);

impl View for ChessMove {
    type V = u16;

    closed spec fn view(&self) -> u16 {
        self.0
    }
}

impl ChessMove {
    /// The no-move, with all bits cleared.
    pub closed spec fn nomove() -> ChessMove {
        ChessMove(0)
    }

    /// The no-move has all bits cleared, and it is the only move that has.
    pub proof fn lemma_nomove(m: ChessMove)
        ensures
            ChessMove::nomove()@ == 0,
            m@ == 0 ==> m == ChessMove::nomove(),
    {
    }

    /// Two moves with the same bits are the same move.
    pub proof fn lemma_view_eq(a: ChessMove, b: ChessMove)
        requires
            a@ == b@,
        ensures
            a == b,
    {
    }

    /// The raw bits of the move.
    pub fn to_bits(self) -> (r: u16)
        ensures
            r == self@,
    {
        self.0
    }

    /// The move with the given raw bits.
    pub closed spec fn with_bits(v: u16) -> ChessMove {
        ChessMove(v)
    }

    /// A move is the move with its own bits, and its bits are those it was made with.
    pub proof fn lemma_with_bits(m: ChessMove, v: u16)
        ensures
            ChessMove::with_bits(v)@ == v,
            ChessMove::with_bits(m@) == m,
    {
    }

    /// The move with the given raw bits.
    pub fn from_bits(v: u16) -> (r: ChessMove)
        ensures
            r@ == v,
            r == ChessMove::with_bits(v),
    {
        ChessMove(v)
    }

    /// A builder with all bits cleared.
    pub fn build() -> (r: ChessMoveBuilder)
        ensures
            r@ == 0,
    {
        ChessMoveBuilder(0)
    }

    pub fn is_nomove(self) -> (r: bool)
        ensures
            r == (self@ == 0),
    {
        self.0 == 0
    }

    pub fn is_doube_pawn_push(self) -> (r: bool)
        ensures
            r == (flags_of(self@) == 0x1000),
    {
        self.0 & 0xF000 == 0x1000
    }

    pub fn is_kingside_castle(self) -> (r: bool)
        ensures
            r == (flags_of(self@) == 0x2000),
    {
        self.0 & 0xF000 == 0x2000
    }

    pub fn is_queenside_castle(self) -> (r: bool)
        ensures
            r == (flags_of(self@) == 0x3000),
    {
        self.0 & 0xF000 == 0x3000
    }

    pub fn is_capture(self) -> (r: bool)
        ensures
            r == capture_bit(self@),
    {
        self.0 & 0x4000 != 0
    }

    pub fn is_promotion(self) -> (r: bool)
        ensures
            r == promotion_bit(self@),
    {
        self.0 & 0x8000 != 0
    }

    pub fn is_en_passant(self) -> (r: bool)
        ensures
            r == (flags_of(self@) == 0x5000),
    {
        self.0 & 0xF000 == 0x5000
    }

    pub fn start(self) -> (r: Square64)
        ensures
            r.idx() == start_of(self@),
            r.is_valid(),
    {
        proof {
            lemma_field_bounds(self@);
        }
        Square64::from_primitive((self.0 & 0x3F) as usize)
    }

    pub fn end(self) -> (r: Square64)
        ensures
            r.idx() == end_of(self@),
            r.is_valid(),
    {
        proof {
            lemma_field_bounds(self@);
        }
        Square64::from_primitive(((self.0 & 0xFC0) >> 6) as usize)
    }


    /// The piece type a promotion promotes to. Only the promotion flag and the two
    /// special flags are looked at; the capture flag is ignored.
    pub fn promoted(self) -> (r: Option<PieceType>)
        ensures
            r == promoted_of(self@),
    {
        let f = self.0 & 0xB000;
        if f == 0x8000 {
            Some(PieceType::Knight)
        } else if f == 0x9000 {
            Some(PieceType::Bishop)
        } else if f == 0xA000 {
            Some(PieceType::Rook)
        } else if f == 0xB000 {
            Some(PieceType::Queen)
        } else {
            None
        }
    }
}

impl Default for ChessMove {
    /// The no-move.
    fn default() -> (r: ChessMove)
        ensures
            r == ChessMove::nomove(),
    {
        ChessMove(0)
    }
}

#[derive(Debug, Clone, Copy, PartialEq, Eq, Structural)]
pub struct ChessMoveBuilder(u16);

impl View for ChessMoveBuilder {
    type V = u16;

    closed spec fn view(&self) -> u16 {
        self.0
    }
}

impl ChessMoveBuilder {
    /// Sets the start square (`Invalid` is stored as A1).
    pub fn start(self, square: Square64) -> (r: ChessMoveBuilder)
        ensures
            r@ == (self@ & !0x3Fu16) | ((square.idx() as u16) & 0x3F),
            start_of(r@) == square.idx() % 64,
            end_of(r@) == end_of(self@),
            flags_of(r@) == flags_of(self@),
    {
        let sq = square.index() as u16;
        proof {
            lemma_set_start(self@, sq);
        }
        ChessMoveBuilder((self.0 & !0x3F) | (sq & 0x3F))
    }

    /// Sets the end square (`Invalid` is stored as A1).
    pub fn end(self, square: Square64) -> (r: ChessMoveBuilder)
        ensures
            r@ == (self@ & !0xFC0u16) | (((square.idx() as u16) & 0x3F) << 6u16),
            end_of(r@) == square.idx() % 64,
            start_of(r@) == start_of(self@),
            flags_of(r@) == flags_of(self@),
    {
        let sq = square.index() as u16;
        proof {
            lemma_set_end(self@, sq);
        }
        ChessMoveBuilder((self.0 & !0xFC0) | ((sq & 0x3F) << 6))
    }

    /// Marks the move as a double pawn push; the move must be quiet so far.
    pub fn double_pawn_push(self) -> (r: ChessMoveBuilder)
        requires
            self@ < 0x1000,
        ensures
            r@ == (self@ & !0xF000u16) | 0x1000,
            flags_of(r@) == 0x1000,
            r@ & 0xFFF == self@ & 0xFFF,
    {
        proof {
            lemma_set_flags(self@);
        }
        ChessMoveBuilder((self.0 & !0xF000) | 0x1000)
    }

    /// Marks the move as a castle; the move must be quiet so far.
    pub fn castle(self, kingside: bool) -> (r: ChessMoveBuilder)
        requires
            self@ < 0x1000,
        ensures
            r@ == self@ | (if kingside { 0x2000u16 } else { 0x3000u16 }),
            flags_of(r@) == (if kingside { 0x2000u16 } else { 0x3000u16 }),
            r@ & 0xFFF == self@ & 0xFFF,
    {
        proof {
            lemma_set_flags(self@);
        }
        if kingside {
            ChessMoveBuilder(self.0 | 0x2000)
        } else {
            ChessMoveBuilder(self.0 | 0x3000)
        }
    }

    /// Marks the move as a capture; the move must be quiet or a promotion so far.
    pub fn capture(self) -> (r: ChessMoveBuilder)
        requires
            self@ < 0x1000 || self@ > 0x3FFF,
        ensures
            r@ == self@ | 0x4000,
            flags_of(r@) == flags_of(self@) | 0x4000,
            r@ & 0xFFF == self@ & 0xFFF,
    {
        proof {
            lemma_set_flags(self@);
        }
        ChessMoveBuilder(self.0 | 0x4000)
    }

    /// Marks the move as an en passant capture; the move must be quiet or a plain capture so far.
    pub fn en_passant(self) -> (r: ChessMoveBuilder)
        requires
            flags_of(self@) == 0 || flags_of(self@) == 0x4000,
        ensures
            r@ == self@ | 0x5000,
            flags_of(r@) == 0x5000,
            r@ & 0xFFF == self@ & 0xFFF,
    {
        proof {
            lemma_set_flags(self@);
        }
        ChessMoveBuilder(self.0 | 0x5000)
    }

    /// Marks the move as a promotion to the type of `piece` (knight, bishop, rook or
    /// queen); the move must be quiet or a plain capture so far.
    pub fn promote(self, piece: Piece) -> (r: ChessMoveBuilder)
        requires
            self@ < 0x1000 || self@ > 0x3FFF,
            flags_of(self@) == 0 || flags_of(self@) == 0x4000,
            is_promotion_piece(piece),
        ensures
            r@ == self@ | promotion_flags(type_of(piece)),
            flags_of(r@) == flags_of(self@) | promotion_flags(type_of(piece)),
            r@ & 0xFFF == self@ & 0xFFF,
    {
        let sp: u16 = match piece {
            Piece::WhiteKnight | Piece::BlackKnight => 0x0000,
            Piece::WhiteBishop | Piece::BlackBishop => 0x1000,
            Piece::WhiteRook | Piece::BlackRook => 0x2000,
            _ => 0x3000,
        };
        proof {
            lemma_set_flags(self@);
        }
        ChessMoveBuilder(self.0 | (0x8000 | sp))
    }

    /// The finished move. The flags must not be one of the two unused
    /// configurations, and start and end must differ unless it is the no-move.
    pub fn finish(self) -> (r: ChessMove)
        requires
            flags_of(self@) != 0x6000,
            flags_of(self@) != 0x7000,
            self@ == 0 || start_of(self@) != end_of(self@),
        ensures
            r@ == self@,
    {
        ChessMove(self.0)
    }
}

proof fn lemma_field_bounds_bv(x: u16)
    by (bit_vector)
    ensures
        x & 0x3F < 64,
        (x & 0xFC0) >> 6 < 64,
{
}

/// The square fields of a packed move hold indices below 64.
pub proof fn lemma_field_bounds(x: u16)
    ensures
        0 <= start_of(x) < 64,
        0 <= end_of(x) < 64,
{
    lemma_field_bounds_bv(x);
}

proof fn lemma_set_start(x: u16, s: u16)
    by (bit_vector)
    ensures
        ((x & !0x3Fu16) | (s & 0x3F)) & 0x3F == s & 0x3F,
        (((x & !0x3Fu16) | (s & 0x3F)) & 0xFC0) >> 6 == (x & 0xFC0) >> 6,
        ((x & !0x3Fu16) | (s & 0x3F)) & 0xF000 == x & 0xF000,
        s & 0x3F == s % 64,
{
}

proof fn lemma_set_end(x: u16, s: u16)
    by (bit_vector)
    ensures
        ((x & !0xFC0u16) | ((s & 0x3F) << 6u16)) & 0x3F == x & 0x3F,
        ((((x & !0xFC0u16) | ((s & 0x3F) << 6u16)) & 0xFC0) >> 6) == s & 0x3F,
        ((x & !0xFC0u16) | ((s & 0x3F) << 6u16)) & 0xF000 == x & 0xF000,
        s & 0x3F == s % 64,
{
}

proof fn lemma_set_flags(x: u16)
    by (bit_vector)
    ensures
        ((x & !0xF000u16) | 0x1000) & 0xF000 == 0x1000,
        ((x & !0xF000u16) | 0x1000) & 0xFFF == x & 0xFFF,
        x < 0x1000 ==> (x | 0x2000) & 0xF000 == 0x2000,
        x < 0x1000 ==> (x | 0x3000) & 0xF000 == 0x3000,
        (x | 0x2000) & 0xFFF == x & 0xFFF,
        (x | 0x3000) & 0xFFF == x & 0xFFF,
        (x | 0x4000) & 0xF000 == (x & 0xF000) | 0x4000,
        (x | 0x4000) & 0xFFF == x & 0xFFF,
        (x & 0xF000 == 0 || x & 0xF000 == 0x4000) ==> (x | 0x5000) & 0xF000 == 0x5000,
        (x | 0x5000) & 0xFFF == x & 0xFFF,
        (x | (0x8000u16 | 0x0000u16)) & 0xF000 == (x & 0xF000) | 0x8000u16,
        (x | (0x8000u16 | 0x1000u16)) & 0xF000 == (x & 0xF000) | 0x9000u16,
        (x | (0x8000u16 | 0x2000u16)) & 0xF000 == (x & 0xF000) | 0xA000u16,
        (x | (0x8000u16 | 0x3000u16)) & 0xF000 == (x & 0xF000) | 0xB000u16,
        (x | (0x8000u16 | 0x0000u16)) & 0xFFF == x & 0xFFF,
        (x | (0x8000u16 | 0x1000u16)) & 0xFFF == x & 0xFFF,
        (x | (0x8000u16 | 0x2000u16)) & 0xFFF == x & 0xFFF,
        (x | (0x8000u16 | 0x3000u16)) & 0xFFF == x & 0xFFF,
        x & 0xFFF == 0 && x & 0xF000 == 0 ==> x == 0,
        0x8000u16 | 0x0000u16 == 0x8000u16,
        0x8000u16 | 0x1000u16 == 0x9000u16,
        0x8000u16 | 0x2000u16 == 0xA000u16,
        0x8000u16 | 0x3000u16 == 0xB000u16,
{
}

} // verus!
