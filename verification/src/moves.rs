//! `Move16`, a move packed into 16 bits (same layout as `ChessMove`), and
//! `Move32`, a `Move16` together with the piece it captured.

use crate::types::{Color, Piece, PieceType, Square64, color_of, piece_of, type_of};
use crate::chess_move::promoted_of;
use vstd::prelude::*;

verus! {

/// The flag nibble of a packed move.
pub open spec fn flags_of(bits: u16) -> u16 {
    bits & 0xF000
}

/// The index of the start square of a packed move.
pub open spec fn start_of(bits: u16) -> int {
    (bits & 0x3F) as int
}

/// The index of the end square of a packed move.
pub open spec fn end_of(bits: u16) -> int {
    ((bits & 0xFC0) >> 6) as int
}

/// The flag nibble that a promotion to this piece sets (knight, bishop, rook, queen).
pub open spec fn promotion_flags(t: PieceType) -> u16 {
    match t {
        PieceType::Knight => 0x8000,
        PieceType::Bishop => 0x9000,
        PieceType::Rook => 0xA000,
        PieceType::Queen => 0xB000,
        _ => 0x8000,
    }
}

/// Whether a piece can be promoted to.
pub open spec fn is_promotion_piece(p: Piece) -> bool {
    type_of(p) == PieceType::Knight || type_of(p) == PieceType::Bishop || type_of(p) == PieceType::Rook
        || type_of(p) == PieceType::Queen
}

#[derive(Debug, PartialEq, Eq, Structural, Clone, Copy, Hash)]
pub struct Move16(u16);

impl View for Move16 {
    type V = u16;

    closed spec fn view(&self) -> u16 {
        self.0
    }
}

impl Move16 {
    /// Two moves with the same bits are the same move.
    pub proof fn lemma_view_eq(a: Move16, b: Move16)
        requires
            a@ == b@,
        ensures
            a == b,
    {
    }

    /// The raw bits of the move.
    pub fn to_bits(self) -> (r: u16)
        ensures
            r == self@,
    {
        self.0
    }

    /// A builder with all bits cleared.
    pub fn build() -> (r: Move16Builder)
        ensures
            r@ == 0,
    {
        Move16Builder(0)
    }

    pub fn is_nomove(self) -> (r: bool)
        ensures
            r == (self@ == 0),
    {
        self.0 == 0
    }

    pub fn is_doube_pawn_push(self) -> (r: bool)
        ensures
            r == (flags_of(self@) == 0x1000),
    {
        self.0 & 0xF000 == 0x1000
    }

    pub fn is_kingside_castle(self) -> (r: bool)
        ensures
            r == (flags_of(self@) == 0x2000),
    {
        self.0 & 0xF000 == 0x2000
    }

    pub fn is_queenside_castle(self) -> (r: bool)
        ensures
            r == (flags_of(self@) == 0x3000),
    {
        self.0 & 0xF000 == 0x3000
    }

    pub fn is_capture(self) -> (r: bool)
        ensures
            r == (self@ & 0x4000 != 0),
    {
        self.0 & 0x4000 != 0
    }

    pub fn is_promotion(self) -> (r: bool)
        ensures
            r == (self@ & 0x8000 != 0),
    {
        self.0 & 0x8000 != 0
    }

    pub fn is_en_passant(self) -> (r: bool)
        ensures
            r == (flags_of(self@) == 0x5000),
    {
        self.0 & 0xF000 == 0x5000
    }

    pub fn start(self) -> (r: Square64)
        ensures
            r.idx() == start_of(self@),
            r.is_valid(),
    {
        proof {
            lemma_field_bounds(self@);
        }
        Square64::from_primitive((self.0 & 0x3F) as usize)
    }

    pub fn end(self) -> (r: Square64)
        ensures
            r.idx() == end_of(self@),
            r.is_valid(),
    {
        proof {
            lemma_field_bounds(self@);
        }
        Square64::from_primitive(((self.0 & 0xFC0) >> 6) as usize)
    }


    /// The piece of the given color that a promotion promotes to, for a quiet
    /// promotion and a promotion capture alike (the capture flag is ignored).
    pub fn promoted_piece(self, color: Color) -> (r: Option<Piece>)
        ensures
            r == (match promoted_of(self@) {
                Some(t) => Some(piece_of(t, color)),
                None => None::<Piece>,
            }),
    {
        let f = self.0 & 0xB000;
        if f == 0x8000 {
            Some(Piece::new(PieceType::Knight, color))
        } else if f == 0x9000 {
            Some(Piece::new(PieceType::Bishop, color))
        } else if f == 0xA000 {
            Some(Piece::new(PieceType::Rook, color))
        } else if f == 0xB000 {
            Some(Piece::new(PieceType::Queen, color))
        } else {
            None
        }
    }
}

#[derive(Clone, Copy)]
pub struct Move16Builder(u16);

impl View for Move16Builder {
    type V = u16;

    closed spec fn view(&self) -> u16 {
        self.0
    }
}

impl Move16Builder {
    /// Sets the start square (`Invalid` is stored as A1).
    pub fn start(self, square: Square64) -> (r: Move16Builder)
        ensures
            r@ == (self@ & !0x3Fu16) | ((square.idx() as u16) & 0x3F),
            start_of(r@) == square.idx() % 64,
            end_of(r@) == end_of(self@),
            flags_of(r@) == flags_of(self@),
    {
        let sq = square.index() as u16;
        proof {
            lemma_set_start(self@, sq);
        }
        Move16Builder((self.0 & !0x3F) | (sq & 0x3F))
    }

    /// Sets the end square (`Invalid` is stored as A1).
    pub fn end(self, square: Square64) -> (r: Move16Builder)
        ensures
            r@ == (self@ & !0xFC0u16) | (((square.idx() as u16) & 0x3F) << 6u16),
            end_of(r@) == square.idx() % 64,
            start_of(r@) == start_of(self@),
            flags_of(r@) == flags_of(self@),
    {
        let sq = square.index() as u16;
        proof {
            lemma_set_end(self@, sq);
        }
        Move16Builder((self.0 & !0xFC0) | ((sq & 0x3F) << 6))
    }

    /// Marks the move as a double pawn push; the move must be quiet so far.
    pub fn double_pawn_push(self) -> (r: Move16Builder)
        requires
            self@ < 0x1000,
        ensures
            r@ == (self@ & !0xF000u16) | 0x1000,
            flags_of(r@) == 0x1000,
            r@ & 0xFFF == self@ & 0xFFF,
    {
        proof {
            lemma_set_flags(self@);
        }
        Move16Builder((self.0 & !0xF000) | 0x1000)
    }

    /// Marks the move as a castle; the move must be quiet so far.
    pub fn castle(self, kingside: bool) -> (r: Move16Builder)
        requires
            self@ < 0x1000,
        ensures
            r@ == self@ | (if kingside { 0x2000u16 } else { 0x3000u16 }),
            flags_of(r@) == (if kingside { 0x2000u16 } else { 0x3000u16 }),
            r@ & 0xFFF == self@ & 0xFFF,
    {
        proof {
            lemma_set_flags(self@);
        }
        if kingside {
            Move16Builder(self.0 | 0x2000)
        } else {
            Move16Builder(self.0 | 0x3000)
        }
    }

    /// Marks the move as a capture; the move must be quiet or a promotion so far.
    pub fn capture(self) -> (r: Move16Builder)
        requires
            self@ < 0x1000 || self@ > 0x3FFF,
        ensures
            r@ == self@ | 0x4000,
            flags_of(r@) == flags_of(self@) | 0x4000,
            r@ & 0xFFF == self@ & 0xFFF,
    {
        proof {
            lemma_set_flags(self@);
        }
        Move16Builder(self.0 | 0x4000)
    }

    /// Marks the move as an en passant capture; the move must be quiet or a plain capture so far.
    pub fn en_passant(self) -> (r: Move16Builder)
        requires
            flags_of(self@) == 0 || flags_of(self@) == 0x4000,
        ensures
            r@ == self@ | 0x5000,
            flags_of(r@) == 0x5000,
            r@ & 0xFFF == self@ & 0xFFF,
    {
        proof {
            lemma_set_flags(self@);
        }
        Move16Builder(self.0 | 0x5000)
    }

    /// Marks the move as a promotion to the type of `piece` (knight, bishop, rook or
    /// queen); the move must be quiet or a plain capture so far.
    pub fn promote(self, piece: Piece) -> (r: Move16Builder)
        requires
            self@ < 0x1000 || self@ > 0x3FFF,
            flags_of(self@) == 0 || flags_of(self@) == 0x4000,
            is_promotion_piece(piece),
        ensures
            r@ == self@ | promotion_flags(type_of(piece)),
            flags_of(r@) == flags_of(self@) | promotion_flags(type_of(piece)),
            r@ & 0xFFF == self@ & 0xFFF,
    {
        let sp: u16 = match piece {
            Piece::WhiteKnight | Piece::BlackKnight => 0x0000,
            Piece::WhiteBishop | Piece::BlackBishop => 0x1000,
            Piece::WhiteRook | Piece::BlackRook => 0x2000,
            _ => 0x3000,
        };
        proof {
            lemma_set_flags(self@);
        }
        Move16Builder(self.0 | (0x8000 | sp))
    }

    /// The finished move. The flags must not be one of the two unused
    /// configurations, and start and end must differ unless it is the no-move.
    pub fn finish(self) -> (r: Move16)
        requires
            flags_of(self@) != 0x6000,
            flags_of(self@) != 0x7000,
            self@ == 0 || start_of(self@) != end_of(self@),
        ensures
            r@ == self@,
    {
        Move16(self.0)
    }
}

proof fn lemma_field_bounds_bv(x: u16)
    by (bit_vector)
    ensures
        x & 0x3F < 64,
        (x & 0xFC0) >> 6 < 64,
{
}

/// The square fields of a packed move hold indices below 64.
pub proof fn lemma_field_bounds(x: u16)
    ensures
        0 <= start_of(x) < 64,
        0 <= end_of(x) < 64,
{
    lemma_field_bounds_bv(x);
}

proof fn lemma_set_start(x: u16, s: u16)
    by (bit_vector)
    ensures
        ((x & !0x3Fu16) | (s & 0x3F)) & 0x3F == s & 0x3F,
        (((x & !0x3Fu16) | (s & 0x3F)) & 0xFC0) >> 6 == (x & 0xFC0) >> 6,
        ((x & !0x3Fu16) | (s & 0x3F)) & 0xF000 == x & 0xF000,
        s & 0x3F == s % 64,
{
}

proof fn lemma_set_end(x: u16, s: u16)
    by (bit_vector)
    ensures
        ((x & !0xFC0u16) | ((s & 0x3F) << 6u16)) & 0x3F == x & 0x3F,
        ((((x & !0xFC0u16) | ((s & 0x3F) << 6u16)) & 0xFC0) >> 6) == s & 0x3F,
        ((x & !0xFC0u16) | ((s & 0x3F) << 6u16)) & 0xF000 == x & 0xF000,
        s & 0x3F == s % 64,
{
}

proof fn lemma_set_flags(x: u16)
    by (bit_vector)
    ensures
        ((x & !0xF000u16) | 0x1000) & 0xF000 == 0x1000,
        ((x & !0xF000u16) | 0x1000) & 0xFFF == x & 0xFFF,
        x < 0x1000 ==> (x | 0x2000) & 0xF000 == 0x2000,
        x < 0x1000 ==> (x | 0x3000) & 0xF000 == 0x3000,
        (x | 0x2000) & 0xFFF == x & 0xFFF,
        (x | 0x3000) & 0xFFF == x & 0xFFF,
        (x | 0x4000) & 0xF000 == (x & 0xF000) | 0x4000,
        (x | 0x4000) & 0xFFF == x & 0xFFF,
        (x & 0xF000 == 0 || x & 0xF000 == 0x4000) ==> (x | 0x5000) & 0xF000 == 0x5000,
        (x | 0x5000) & 0xFFF == x & 0xFFF,
        (x | (0x8000u16 | 0x0000u16)) & 0xF000 == (x & 0xF000) | 0x8000u16,
        (x | (0x8000u16 | 0x1000u16)) & 0xF000 == (x & 0xF000) | 0x9000u16,
        (x | (0x8000u16 | 0x2000u16)) & 0xF000 == (x & 0xF000) | 0xA000u16,
        (x | (0x8000u16 | 0x3000u16)) & 0xF000 == (x & 0xF000) | 0xB000u16,
        (x | (0x8000u16 | 0x0000u16)) & 0xFFF == x & 0xFFF,
        (x | (0x8000u16 | 0x1000u16)) & 0xFFF == x & 0xFFF,
        (x | (0x8000u16 | 0x2000u16)) & 0xFFF == x & 0xFFF,
        (x | (0x8000u16 | 0x3000u16)) & 0xFFF == x & 0xFFF,
        x & 0xFFF == 0 && x & 0xF000 == 0 ==> x == 0,
        0x8000u16 | 0x0000u16 == 0x8000u16,
        0x8000u16 | 0x1000u16 == 0x9000u16,
        0x8000u16 | 0x2000u16 == 0xA000u16,
        0x8000u16 | 0x3000u16 == 0xB000u16,
{
}

/// A `Move16` together with the piece it captured, if any.
#[derive(Debug, PartialEq, Eq, Structural, Clone, Copy, Hash)]
pub struct Move32 {
    v: u16,
    pub m16: Move16,
}

/// The piece with the given index in `Piece::ALL`, if the index is below 12.
pub open spec fn piece_with_index(i: int) -> Option<Piece> {
    if 0 <= i < 12 {
        Some(choose|p: Piece| p.idx() == i)
    } else {
        None
    }
}

impl Move32 {
    /// The captured-piece field: 0 for none, otherwise the piece's index plus one.
    pub closed spec fn captured_field(self) -> u16 {
        self.v
    }

    /// The 16-bit move.
    pub closed spec fn move16(self) -> Move16 {
        self.m16
    }

    /// The piece the move captured, as recorded.
    pub open spec fn captured_spec(self) -> Option<Piece> {
        if self.captured_field() == 0 {
            None
        } else {
            piece_with_index(self.captured_field() - 1)
        }
    }

    pub fn new(m16: Move16, captured: Option<Piece>) -> (r: Move32)
        ensures
            r.move16() == m16,
            r.captured_spec() == captured,
    {
        let v: u16 = match captured {
            Some(piece) => piece.index() as u16 + 1,
            None => 0,
        };
        proof {
            if let Some(p) = captured {
                let q = choose|q: Piece| q.idx() == p.idx();
                crate::types::lemma_piece_index(p, q);
            }
        }
        Move32 { v, m16 }
    }

    pub fn captured(self) -> (r: Option<Piece>)
        ensures
            r == self.captured_spec(),
    {
        if self.v == 0 {
            None
        } else {
            let r = match self.v - 1 {
                0 => Some(Piece::WhitePawn),
                1 => Some(Piece::WhiteKnight),
                2 => Some(Piece::WhiteBishop),
                3 => Some(Piece::WhiteRook),
                4 => Some(Piece::WhiteQueen),
                5 => Some(Piece::WhiteKing),
                6 => Some(Piece::BlackPawn),
                7 => Some(Piece::BlackKnight),
                8 => Some(Piece::BlackBishop),
                9 => Some(Piece::BlackRook),
                10 => Some(Piece::BlackQueen),
                11 => Some(Piece::BlackKing),
                _ => None,
            };
            proof {
                if let Some(p) = r {
                    let q = choose|q: Piece| q.idx() == p.idx();
                    crate::types::lemma_piece_index(p, q);
                }
            }
            r
        }
    }
}

} // verus!
