//! Basic chess vocabulary: piece types, pieces, colors, files, ranks,
//! castle permissions and the 64 squares of the board.

use vstd::prelude::*;

verus! {

// ---------------------------------------------------------------------------
// Piece types
// ---------------------------------------------------------------------------

#[derive(Debug, PartialEq, Eq, Structural, Clone, Copy, Hash)]
pub enum PieceType {
    Pawn,
    Knight,
    Bishop,
    Rook,
    Queen,
    King,
}

/// The material value of a piece type in centipawns.
pub open spec fn piece_type_value(t: PieceType) -> i16 {
    match t {
        PieceType::Pawn => 100,
        PieceType::Knight => 325,
        PieceType::Bishop => 325,
        PieceType::Rook => 550,
        PieceType::Queen => 1000,
        PieceType::King => 15000,
    }
}

/// The lower case letter of a piece type.
pub open spec fn piece_type_char(t: PieceType) -> char {
    match t {
        PieceType::Pawn => 'p',
        PieceType::Knight => 'n',
        PieceType::Bishop => 'b',
        PieceType::Rook => 'r',
        PieceType::Queen => 'q',
        PieceType::King => 'k',
    }
}

impl PieceType {
    pub const ALL: [PieceType; 6] = [
        PieceType::Pawn,
        PieceType::Knight,
        PieceType::Bishop,
        PieceType::Rook,
        PieceType::Queen,
        PieceType::King,
    ];

    /// Position of the piece type in `ALL`.
    pub open spec fn idx(self) -> int {
        match self {
            PieceType::Pawn => 0,
            PieceType::Knight => 1,
            PieceType::Bishop => 2,
            PieceType::Rook => 3,
            PieceType::Queen => 4,
            PieceType::King => 5,
        }
    }

    pub fn index(self) -> (r: usize)
        ensures
            r == self.idx(),
    {
        match self {
            PieceType::Pawn => 0,
            PieceType::Knight => 1,
            PieceType::Bishop => 2,
            PieceType::Rook => 3,
            PieceType::Queen => 4,
            PieceType::King => 5,
        }
    }

    /// Everything but a pawn is a big piece.
    pub fn is_big(self) -> (r: bool)
        ensures
            r == (self != PieceType::Pawn),
    {
        !matches!(self, PieceType::Pawn)
    }

    /// Rooks, queens and kings are major pieces.
    pub fn is_major(self) -> (r: bool)
        ensures
            r == (self == PieceType::Rook || self == PieceType::Queen || self == PieceType::King),
    {
        matches!(self, PieceType::Rook | PieceType::Queen | PieceType::King)
    }

    /// Bishops and knights are minor pieces.
    pub fn is_minor(self) -> (r: bool)
        ensures
            r == (self == PieceType::Bishop || self == PieceType::Knight),
    {
        matches!(self, PieceType::Bishop | PieceType::Knight)
    }

    pub fn value(self) -> (r: i16)
        ensures
            r == piece_type_value(self),
    {
        match self {
            PieceType::Pawn => 100,
            PieceType::Knight | PieceType::Bishop => 325,
            PieceType::Rook => 550,
            PieceType::Queen => 1000,
            PieceType::King => 15_000,
        }
    }

    pub fn to_char(self) -> (r: char)
        ensures
            r == piece_type_char(self),
    {
        match self {
            PieceType::Pawn => 'p',
            PieceType::Knight => 'n',
            PieceType::Bishop => 'b',
            PieceType::Rook => 'r',
            PieceType::Queen => 'q',
            PieceType::King => 'k',
        }
    }
}

// ---------------------------------------------------------------------------
// Colors
// ---------------------------------------------------------------------------

#[derive(Debug, PartialEq, Eq, Structural, Clone, Copy, Hash)]
pub enum Color {
    White,
    Black,
}

pub open spec fn color_char(c: Color) -> char {
    match c {
        Color::White => 'w',
        Color::Black => 'b',
    }
}

pub open spec fn opposite(c: Color) -> Color {
    match c {
        Color::White => Color::Black,
        Color::Black => Color::White,
    }
}

impl Color {
    pub open spec fn idx(self) -> int {
        match self {
            Color::White => 0,
            Color::Black => 1,
        }
    }

    pub fn index(self) -> (r: usize)
        ensures
            r == self.idx(),
    {
        match self {
            Color::White => 0,
            Color::Black => 1,
        }
    }

    pub fn from_char(c: char) -> (r: Option<Color>)
        ensures
            r == (if c == 'w' {
                Some(Color::White)
            } else if c == 'b' {
                Some(Color::Black)
            } else {
                None::<Color>
            }),
    {
        match c {
            'w' => Some(Color::White),
            'b' => Some(Color::Black),
            _ => None,
        }
    }

    pub fn to_char(self) -> (r: char)
        ensures
            r == color_char(self),
    {
        match self {
            Color::White => 'w',
            Color::Black => 'b',
        }
    }

    pub fn flipped(self) -> (r: Color)
        ensures
            r == opposite(self),
    {
        match self {
            Color::White => Color::Black,
            Color::Black => Color::White,
        }
    }
}

/// Flipping a color twice gives the color back, and never gives the same color.
pub proof fn lemma_flip_involution(c: Color)
    ensures
        opposite(opposite(c)) == c,
        opposite(c) != c,
{
}

/// Parsing the character of a color gives the color back.
pub proof fn lemma_color_char_roundtrip(c: Color)
    ensures
        color_char(c) == 'w' ==> c == Color::White,
        color_char(c) == 'b' ==> c == Color::Black,
{
}

// ---------------------------------------------------------------------------
// Pieces
// ---------------------------------------------------------------------------

#[derive(Debug, PartialEq, Eq, Structural, Clone, Copy, Hash)]
pub enum Piece {
    WhitePawn,
    WhiteKnight,
    WhiteBishop,
    WhiteRook,
    WhiteQueen,
    WhiteKing,
    BlackPawn,
    BlackKnight,
    BlackBishop,
    BlackRook,
    BlackQueen,
    BlackKing,
}

/// The type of a piece.
pub open spec fn type_of(p: Piece) -> PieceType {
    match p {
        Piece::WhitePawn | Piece::BlackPawn => PieceType::Pawn,
        Piece::WhiteKnight | Piece::BlackKnight => PieceType::Knight,
        Piece::WhiteBishop | Piece::BlackBishop => PieceType::Bishop,
        Piece::WhiteRook | Piece::BlackRook => PieceType::Rook,
        Piece::WhiteQueen | Piece::BlackQueen => PieceType::Queen,
        Piece::WhiteKing | Piece::BlackKing => PieceType::King,
    }
}

/// The color of a piece.
pub open spec fn color_of(p: Piece) -> Color {
    match p {
        Piece::WhitePawn | Piece::WhiteKnight | Piece::WhiteBishop | Piece::WhiteRook
        | Piece::WhiteQueen | Piece::WhiteKing => Color::White,
        _ => Color::Black,
    }
}

/// The piece of the given type and color.
pub open spec fn piece_of(t: PieceType, c: Color) -> Piece {
    match (t, c) {
        (PieceType::Pawn, Color::White) => Piece::WhitePawn,
        (PieceType::Knight, Color::White) => Piece::WhiteKnight,
        (PieceType::Bishop, Color::White) => Piece::WhiteBishop,
        (PieceType::Rook, Color::White) => Piece::WhiteRook,
        (PieceType::Queen, Color::White) => Piece::WhiteQueen,
        (PieceType::King, Color::White) => Piece::WhiteKing,
        (PieceType::Pawn, Color::Black) => Piece::BlackPawn,
        (PieceType::Knight, Color::Black) => Piece::BlackKnight,
        (PieceType::Bishop, Color::Black) => Piece::BlackBishop,
        (PieceType::Rook, Color::Black) => Piece::BlackRook,
        (PieceType::Queen, Color::Black) => Piece::BlackQueen,
        (PieceType::King, Color::Black) => Piece::BlackKing,
    }
}

/// The FEN letter of a piece: upper case for white, lower case for black.
pub open spec fn piece_char(p: Piece) -> char {
    match p {
        Piece::WhitePawn => 'P',
        Piece::WhiteKnight => 'N',
        Piece::WhiteBishop => 'B',
        Piece::WhiteRook => 'R',
        Piece::WhiteQueen => 'Q',
        Piece::WhiteKing => 'K',
        Piece::BlackPawn => 'p',
        Piece::BlackKnight => 'n',
        Piece::BlackBishop => 'b',
        Piece::BlackRook => 'r',
        Piece::BlackQueen => 'q',
        Piece::BlackKing => 'k',
    }
}

/// The letter of a piece type is the FEN letter of the black piece of that
/// type: reading it as FEN gives back that piece.
pub proof fn law_piece_type_letter(t: PieceType)
    ensures
        piece_from_char(piece_type_char(t)) == Some(piece_of(t, Color::Black)),
        piece_char(piece_of(t, Color::Black)) == piece_type_char(t),
{
}

/// The piece that a FEN letter stands for, if any.
pub open spec fn piece_from_char(c: char) -> Option<Piece> {
    if c == 'P' {
        Some(Piece::WhitePawn)
    } else if c == 'N' {
        Some(Piece::WhiteKnight)
    } else if c == 'B' {
        Some(Piece::WhiteBishop)
    } else if c == 'R' {
        Some(Piece::WhiteRook)
    } else if c == 'Q' {
        Some(Piece::WhiteQueen)
    } else if c == 'K' {
        Some(Piece::WhiteKing)
    } else if c == 'p' {
        Some(Piece::BlackPawn)
    } else if c == 'n' {
        Some(Piece::BlackKnight)
    } else if c == 'b' {
        Some(Piece::BlackBishop)
    } else if c == 'r' {
        Some(Piece::BlackRook)
    } else if c == 'q' {
        Some(Piece::BlackQueen)
    } else if c == 'k' {
        Some(Piece::BlackKing)
    } else {
        None
    }
}

impl Piece {
    pub const ALL: [Piece; 12] = [
        Piece::WhitePawn,
        Piece::WhiteKnight,
        Piece::WhiteBishop,
        Piece::WhiteRook,
        Piece::WhiteQueen,
        Piece::WhiteKing,
        Piece::BlackPawn,
        Piece::BlackKnight,
        Piece::BlackBishop,
        Piece::BlackRook,
        Piece::BlackQueen,
        Piece::BlackKing,
    ];

    pub const ALL_WHITE: [Piece; 6] = [
        Piece::WhitePawn,
        Piece::WhiteKnight,
        Piece::WhiteBishop,
        Piece::WhiteRook,
        Piece::WhiteQueen,
        Piece::WhiteKing,
    ];

    pub const ALL_BLACK: [Piece; 6] = [
        Piece::BlackPawn,
        Piece::BlackKnight,
        Piece::BlackBishop,
        Piece::BlackRook,
        Piece::BlackQueen,
        Piece::BlackKing,
    ];

    /// Position of the piece in `ALL`: the type's index, plus 6 for black.
    pub open spec fn idx(self) -> int {
        type_of(self).idx() + 6 * color_of(self).idx()
    }

    pub fn index(self) -> (r: usize)
        ensures
            r == self.idx(),
            r < 12,
    {
        match self {
            Piece::WhitePawn => 0,
            Piece::WhiteKnight => 1,
            Piece::WhiteBishop => 2,
            Piece::WhiteRook => 3,
            Piece::WhiteQueen => 4,
            Piece::WhiteKing => 5,
            Piece::BlackPawn => 6,
            Piece::BlackKnight => 7,
            Piece::BlackBishop => 8,
            Piece::BlackRook => 9,
            Piece::BlackQueen => 10,
            Piece::BlackKing => 11,
        }
    }

    /// The piece of the given type and color.
    pub fn new(ty: PieceType, color: Color) -> (r: Piece)
        ensures
            r == piece_of(ty, color),
            type_of(r) == ty,
            color_of(r) == color,
    {
        match (ty, color) {
            (PieceType::Pawn, Color::White) => Piece::WhitePawn,
            (PieceType::Knight, Color::White) => Piece::WhiteKnight,
            (PieceType::Bishop, Color::White) => Piece::WhiteBishop,
            (PieceType::Rook, Color::White) => Piece::WhiteRook,
            (PieceType::Queen, Color::White) => Piece::WhiteQueen,
            (PieceType::King, Color::White) => Piece::WhiteKing,
            (PieceType::Pawn, Color::Black) => Piece::BlackPawn,
            (PieceType::Knight, Color::Black) => Piece::BlackKnight,
            (PieceType::Bishop, Color::Black) => Piece::BlackBishop,
            (PieceType::Rook, Color::Black) => Piece::BlackRook,
            (PieceType::Queen, Color::Black) => Piece::BlackQueen,
            (PieceType::King, Color::Black) => Piece::BlackKing,
        }
    }

    pub fn from_char(c: char) -> (r: Option<Piece>)
        ensures
            r == piece_from_char(c),
    {
        match c {
            'P' => Some(Piece::WhitePawn),
            'N' => Some(Piece::WhiteKnight),
            'B' => Some(Piece::WhiteBishop),
            'R' => Some(Piece::WhiteRook),
            'Q' => Some(Piece::WhiteQueen),
            'K' => Some(Piece::WhiteKing),
            'p' => Some(Piece::BlackPawn),
            'n' => Some(Piece::BlackKnight),
            'b' => Some(Piece::BlackBishop),
            'r' => Some(Piece::BlackRook),
            'q' => Some(Piece::BlackQueen),
            'k' => Some(Piece::BlackKing),
            _ => None,
        }
    }

    pub fn to_char(self) -> (r: char)
        ensures
            r == piece_char(self),
    {
        match self {
            Piece::WhitePawn => 'P',
            Piece::WhiteKnight => 'N',
            Piece::WhiteBishop => 'B',
            Piece::WhiteRook => 'R',
            Piece::WhiteQueen => 'Q',
            Piece::WhiteKing => 'K',
            Piece::BlackPawn => 'p',
            Piece::BlackKnight => 'n',
            Piece::BlackBishop => 'b',
            Piece::BlackRook => 'r',
            Piece::BlackQueen => 'q',
            Piece::BlackKing => 'k',
        }
    }

    pub fn is_big(self) -> (r: bool)
        ensures
            r == (type_of(self) != PieceType::Pawn),
    {
        self.piece_type().is_big()
    }

    pub fn is_major(self) -> (r: bool)
        ensures
            r == (type_of(self) == PieceType::Rook || type_of(self) == PieceType::Queen
                || type_of(self) == PieceType::King),
    {
        self.piece_type().is_major()
    }

    pub fn is_minor(self) -> (r: bool)
        ensures
            r == (type_of(self) == PieceType::Bishop || type_of(self) == PieceType::Knight),
    {
        self.piece_type().is_minor()
    }

    pub fn value(self) -> (r: i16)
        ensures
            r == piece_type_value(type_of(self)),
    {
        self.piece_type().value()
    }

    pub fn piece_type(self) -> (r: PieceType)
        ensures
            r == type_of(self),
    {
        match self {
            Piece::WhitePawn | Piece::BlackPawn => PieceType::Pawn,
            Piece::WhiteKnight | Piece::BlackKnight => PieceType::Knight,
            Piece::WhiteBishop | Piece::BlackBishop => PieceType::Bishop,
            Piece::WhiteRook | Piece::BlackRook => PieceType::Rook,
            Piece::WhiteQueen | Piece::BlackQueen => PieceType::Queen,
            Piece::WhiteKing | Piece::BlackKing => PieceType::King,
        }
    }

    pub fn color(self) -> (r: Color)
        ensures
            r == color_of(self),
    {
        match self {
            Piece::WhitePawn | Piece::WhiteKnight | Piece::WhiteBishop | Piece::WhiteRook
            | Piece::WhiteQueen | Piece::WhiteKing => Color::White,
            Piece::BlackPawn | Piece::BlackKnight | Piece::BlackBishop | Piece::BlackRook
            | Piece::BlackQueen | Piece::BlackKing => Color::Black,
        }
    }
}

/// A piece is determined by its type and color, and building a piece from a type
/// and color gives that type and color back.
pub proof fn lemma_piece_type_color(p: Piece, t: PieceType, c: Color)
    ensures
        piece_of(type_of(p), color_of(p)) == p,
        type_of(piece_of(t, c)) == t,
        color_of(piece_of(t, c)) == c,
{
}

/// Reading the FEN letter of a piece gives the piece back, and every letter that
/// stands for a piece is that piece's letter.
pub proof fn lemma_piece_char_roundtrip(p: Piece, c: char)
    ensures
        piece_from_char(piece_char(p)) == Some(p),
        piece_from_char(c) matches Some(q) ==> piece_char(q) == c,
{
}

/// Distinct pieces have distinct indices in `0..12`.
pub proof fn lemma_piece_index(p: Piece, q: Piece)
    ensures
        0 <= p.idx() < 12,
        p.idx() == q.idx() ==> p == q,
{
}
// ---------------------------------------------------------------------------
// Files and ranks
// ---------------------------------------------------------------------------

#[derive(Debug, PartialEq, Eq, Structural, Clone, Copy, Hash)]
pub enum File {
    A,
    B,
    C,
    D,
    E,
    F,
    G,
    H,
}

/// The character that names a file.
pub open spec fn file_char(x: File) -> char {
    match x {
        File::A => 'a',
        File::B => 'b',
        File::C => 'c',
        File::D => 'd',
        File::E => 'e',
        File::F => 'f',
        File::G => 'g',
        File::H => 'h',
    }
}

impl File {
    pub open spec fn idx(self) -> int {
        match self {
            File::A => 0,
            File::B => 1,
            File::C => 2,
            File::D => 3,
            File::E => 4,
            File::F => 5,
            File::G => 6,
            File::H => 7,
        }
    }

    /// The file with the given index, if the index is below 8.
    pub open spec fn spec_from_index(i: int) -> Option<File> {
        if i == 0 {
            Some(File::A)
        } else if i == 1 {
            Some(File::B)
        } else if i == 2 {
            Some(File::C)
        } else if i == 3 {
            Some(File::D)
        } else if i == 4 {
            Some(File::E)
        } else if i == 5 {
            Some(File::F)
        } else if i == 6 {
            Some(File::G)
        } else if i == 7 {
            Some(File::H)
        } else {
            None
        }
    }

    pub fn index(self) -> (r: u8)
        ensures
            r == self.idx(),
            r < 8,
    {
        match self {
            File::A => 0,
            File::B => 1,
            File::C => 2,
            File::D => 3,
            File::E => 4,
            File::F => 5,
            File::G => 6,
            File::H => 7,
        }
    }

    /// The file with the given index, if the index is below 8.
    pub fn from_index(i: u8) -> (r: Option<File>)
        ensures
            r == File::spec_from_index(i as int),
            i < 8 ==> (r matches Some(x) && x.idx() == i),
            i >= 8 ==> r is None,
    {
        match i {
            0 => Some(File::A),
            1 => Some(File::B),
            2 => Some(File::C),
            3 => Some(File::D),
            4 => Some(File::E),
            5 => Some(File::F),
            6 => Some(File::G),
            7 => Some(File::H),
            _ => None,
        }
    }

    pub fn from_char(c: char) -> (r: Option<File>)
        ensures
            r matches Some(x) ==> file_char(x) == c,
            r is None ==> forall|x: File| file_char(x) != c,
    {
        match c {
            'a' => Some(File::A),
            'b' => Some(File::B),
            'c' => Some(File::C),
            'd' => Some(File::D),
            'e' => Some(File::E),
            'f' => Some(File::F),
            'g' => Some(File::G),
            'h' => Some(File::H),
            _ => None,
        }
    }

    pub fn to_char(self) -> (r: char)
        ensures
            r == file_char(self),
    {
        match self {
            File::A => 'a',
            File::B => 'b',
            File::C => 'c',
            File::D => 'd',
            File::E => 'e',
            File::F => 'f',
            File::G => 'g',
            File::H => 'h',
        }
    }

    /// The next file (towards index 7), if there is one.
    pub fn up(self) -> (r: Option<File>)
        ensures
            r == File::spec_from_index(self.idx() + 1),
    {
        Self::from_index(self.index() + 1)
    }

    /// The previous file (towards index 0), if there is one.
    pub fn down(self) -> (r: Option<File>)
        ensures
            r == File::spec_from_index(self.idx() - 1),
    {
        let i = self.index();
        if i == 0 {
            None
        } else {
            Self::from_index(i - 1)
        }
    }

    /// This file and all files above it, in increasing order.
    pub fn iter_up(self) -> (r: Vec<File>)
        ensures
            r@.len() == 8 - self.idx(),
            forall|k: int| 0 <= k < r@.len() ==> #[trigger] r@[k].idx() == self.idx() + k,
    {
        let mut v: Vec<File> = Vec::new();
        let mut i: u8 = self.index();
        while i < 8
            invariant
                self.idx() <= i <= 8,
                v@.len() == i - self.idx(),
                forall|k: int| 0 <= k < v@.len() ==> #[trigger] v@[k].idx() == self.idx() + k,
            decreases 8 - i,
        {
            match Self::from_index(i) {
                Some(x) => v.push(x),
                None => {},
            }
            i = i + 1;
        }
        v
    }

    /// This file and all files below it, in decreasing order.
    pub fn iter_down(self) -> (r: Vec<File>)
        ensures
            r@.len() == self.idx() + 1,
            forall|k: int| 0 <= k < r@.len() ==> #[trigger] r@[k].idx() == self.idx() - k,
    {
        let mut v: Vec<File> = Vec::new();
        let mut i: u8 = self.index() + 1;
        while i > 0
            invariant
                0 <= i <= self.idx() + 1,
                v@.len() == self.idx() + 1 - i,
                forall|k: int| 0 <= k < v@.len() ==> #[trigger] v@[k].idx() == self.idx() - k,
            decreases i,
        {
            i = i - 1;
            match Self::from_index(i) {
                Some(x) => v.push(x),
                None => {},
            }
        }
        v
    }
}

#[derive(Debug, PartialEq, Eq, Structural, Clone, Copy, Hash)]
pub enum Rank {
    R1,
    R2,
    R3,
    R4,
    R5,
    R6,
    R7,
    R8,
}

/// The character that names a rank.
pub open spec fn rank_char(x: Rank) -> char {
    match x {
        Rank::R1 => '1',
        Rank::R2 => '2',
        Rank::R3 => '3',
        Rank::R4 => '4',
        Rank::R5 => '5',
        Rank::R6 => '6',
        Rank::R7 => '7',
        Rank::R8 => '8',
    }
}

impl Rank {
    pub open spec fn idx(self) -> int {
        match self {
            Rank::R1 => 0,
            Rank::R2 => 1,
            Rank::R3 => 2,
            Rank::R4 => 3,
            Rank::R5 => 4,
            Rank::R6 => 5,
            Rank::R7 => 6,
            Rank::R8 => 7,
        }
    }

    /// The rank with the given index, if the index is below 8.
    pub open spec fn spec_from_index(i: int) -> Option<Rank> {
        if i == 0 {
            Some(Rank::R1)
        } else if i == 1 {
            Some(Rank::R2)
        } else if i == 2 {
            Some(Rank::R3)
        } else if i == 3 {
            Some(Rank::R4)
        } else if i == 4 {
            Some(Rank::R5)
        } else if i == 5 {
            Some(Rank::R6)
        } else if i == 6 {
            Some(Rank::R7)
        } else if i == 7 {
            Some(Rank::R8)
        } else {
            None
        }
    }

    pub fn index(self) -> (r: u8)
        ensures
            r == self.idx(),
            r < 8,
    {
        match self {
            Rank::R1 => 0,
            Rank::R2 => 1,
            Rank::R3 => 2,
            Rank::R4 => 3,
            Rank::R5 => 4,
            Rank::R6 => 5,
            Rank::R7 => 6,
            Rank::R8 => 7,
        }
    }

    /// The rank with the given index, if the index is below 8.
    pub fn from_index(i: u8) -> (r: Option<Rank>)
        ensures
            r == Rank::spec_from_index(i as int),
            i < 8 ==> (r matches Some(x) && x.idx() == i),
            i >= 8 ==> r is None,
    {
        match i {
            0 => Some(Rank::R1),
            1 => Some(Rank::R2),
            2 => Some(Rank::R3),
            3 => Some(Rank::R4),
            4 => Some(Rank::R5),
            5 => Some(Rank::R6),
            6 => Some(Rank::R7),
            7 => Some(Rank::R8),
            _ => None,
        }
    }

    pub fn from_char(c: char) -> (r: Option<Rank>)
        ensures
            r matches Some(x) ==> rank_char(x) == c,
            r is None ==> forall|x: Rank| rank_char(x) != c,
    {
        match c {
            '1' => Some(Rank::R1),
            '2' => Some(Rank::R2),
            '3' => Some(Rank::R3),
            '4' => Some(Rank::R4),
            '5' => Some(Rank::R5),
            '6' => Some(Rank::R6),
            '7' => Some(Rank::R7),
            '8' => Some(Rank::R8),
            _ => None,
        }
    }

    pub fn to_char(self) -> (r: char)
        ensures
            r == rank_char(self),
    {
        match self {
            Rank::R1 => '1',
            Rank::R2 => '2',
            Rank::R3 => '3',
            Rank::R4 => '4',
            Rank::R5 => '5',
            Rank::R6 => '6',
            Rank::R7 => '7',
            Rank::R8 => '8',
        }
    }

    /// The next rank (towards index 7), if there is one.
    pub fn up(self) -> (r: Option<Rank>)
        ensures
            r == Rank::spec_from_index(self.idx() + 1),
    {
        Self::from_index(self.index() + 1)
    }

    /// The previous rank (towards index 0), if there is one.
    pub fn down(self) -> (r: Option<Rank>)
        ensures
            r == Rank::spec_from_index(self.idx() - 1),
    {
        let i = self.index();
        if i == 0 {
            None
        } else {
            Self::from_index(i - 1)
        }
    }

    /// This rank and all ranks above it, in increasing order.
    pub fn iter_up(self) -> (r: Vec<Rank>)
        ensures
            r@.len() == 8 - self.idx(),
            forall|k: int| 0 <= k < r@.len() ==> #[trigger] r@[k].idx() == self.idx() + k,
    {
        let mut v: Vec<Rank> = Vec::new();
        let mut i: u8 = self.index();
        while i < 8
            invariant
                self.idx() <= i <= 8,
                v@.len() == i - self.idx(),
                forall|k: int| 0 <= k < v@.len() ==> #[trigger] v@[k].idx() == self.idx() + k,
            decreases 8 - i,
        {
            match Self::from_index(i) {
                Some(x) => v.push(x),
                None => {},
            }
            i = i + 1;
        }
        v
    }

    /// This rank and all ranks below it, in decreasing order.
    pub fn iter_down(self) -> (r: Vec<Rank>)
        ensures
            r@.len() == self.idx() + 1,
            forall|k: int| 0 <= k < r@.len() ==> #[trigger] r@[k].idx() == self.idx() - k,
    {
        let mut v: Vec<Rank> = Vec::new();
        let mut i: u8 = self.index() + 1;
        while i > 0
            invariant
                0 <= i <= self.idx() + 1,
                v@.len() == self.idx() + 1 - i,
                forall|k: int| 0 <= k < v@.len() ==> #[trigger] v@[k].idx() == self.idx() - k,
            decreases i,
        {
            i = i - 1;
            match Self::from_index(i) {
                Some(x) => v.push(x),
                None => {},
            }
        }
        v
    }

    /// The rank seen from the other side of the board (R1 becomes R8 and so on).
    pub fn mirrored(self) -> (r: Rank)
        ensures
            r.idx() == 7 - self.idx(),
    {
        match self {
            Rank::R1 => Rank::R8,
            Rank::R2 => Rank::R7,
            Rank::R3 => Rank::R6,
            Rank::R4 => Rank::R5,
            Rank::R5 => Rank::R4,
            Rank::R6 => Rank::R3,
            Rank::R7 => Rank::R2,
            Rank::R8 => Rank::R1,
        }
    }
}


// ---------------------------------------------------------------------------
// Castle permissions
// ---------------------------------------------------------------------------

#[derive(Debug, PartialEq, Eq, Structural, Clone, Copy, Hash)]
pub enum CastlePerm {
    WhiteKingside,
    WhiteQueenside,
    BlackKingside,
    BlackQueenside,
}

/// The bit that stands for a castle permission.
pub open spec fn perm_bit(p: CastlePerm) -> u8 {
    match p {
        CastlePerm::WhiteKingside => 1,
        CastlePerm::WhiteQueenside => 2,
        CastlePerm::BlackKingside => 4,
        CastlePerm::BlackQueenside => 8,
    }
}

/// The FEN letter of a castle permission.
pub open spec fn perm_char(p: CastlePerm) -> char {
    match p {
        CastlePerm::WhiteKingside => 'K',
        CastlePerm::WhiteQueenside => 'Q',
        CastlePerm::BlackKingside => 'k',
        CastlePerm::BlackQueenside => 'q',
    }
}

impl CastlePerm {
    /// The bit that stands for this permission (1, 2, 4 or 8).
    pub fn bit(self) -> (r: u8)
        ensures
            r == perm_bit(self),
    {
        match self {
            CastlePerm::WhiteKingside => 1,
            CastlePerm::WhiteQueenside => 2,
            CastlePerm::BlackKingside => 4,
            CastlePerm::BlackQueenside => 8,
        }
    }

    pub fn from_char(c: char) -> (r: Option<CastlePerm>)
        ensures
            r matches Some(p) ==> perm_char(p) == c,
            r is None ==> forall|p: CastlePerm| perm_char(p) != c,
    {
        match c {
            'K' => Some(CastlePerm::WhiteKingside),
            'Q' => Some(CastlePerm::WhiteQueenside),
            'k' => Some(CastlePerm::BlackKingside),
            'q' => Some(CastlePerm::BlackQueenside),
            _ => None,
        }
    }

    pub fn to_char(self) -> (r: char)
        ensures
            r == perm_char(self),
    {
        match self {
            CastlePerm::WhiteKingside => 'K',
            CastlePerm::WhiteQueenside => 'Q',
            CastlePerm::BlackKingside => 'k',
            CastlePerm::BlackQueenside => 'q',
        }
    }
}

/// A set of castle permissions, one bit per permission.
#[derive(Debug, PartialEq, Eq, Structural, Clone, Copy, Hash)]
pub struct CastlePerms(u8);

impl CastlePerms {
    /// The empty set of permissions.
    pub fn none() -> (r: CastlePerms)
        ensures
            r.bits() == 0,
    {
        CastlePerms(0)
    }

    /// All four permissions.
    pub fn all() -> (r: CastlePerms)
        ensures
            r.bits() == 0x0F,
    {
        CastlePerms(0x0F)
    }

    /// The raw bits of the set.
    pub closed spec fn bits(self) -> u8 {
        self.0
    }

    /// The set with exactly the bits `v`.
    pub closed spec fn with_bits(v: u8) -> CastlePerms {
        CastlePerms(v)
    }

    /// A set is determined by its bits.
    pub proof fn lemma_with_bits(v: u8, c: CastlePerms)
        ensures
            CastlePerms::with_bits(v).bits() == v,
            c.bits() == v ==> c == CastlePerms::with_bits(v),
    {
    }

    /// Whether the set holds the permission.
    pub open spec fn has(self, p: CastlePerm) -> bool {
        self.bits() & perm_bit(p) != 0
    }

    pub fn set(&mut self, perm: CastlePerm)
        ensures
            final(self).bits() == old(self).bits() | perm_bit(perm),
            final(self).has(perm),
            forall|q: CastlePerm| q != perm ==> final(self).has(q) == old(self).has(q),
    {
        let b = perm.bit();
        let old_bits = self.0;
        self.0 = self.0 | b;
        proof {
            lemma_perm_bits(old_bits);
            lemma_perm_bits(old_bits | b);
        }
    }

    pub fn clear(&mut self, perm: CastlePerm)
        ensures
            final(self).bits() == old(self).bits() & !perm_bit(perm),
            !final(self).has(perm),
            forall|q: CastlePerm| q != perm ==> final(self).has(q) == old(self).has(q),
    {
        let b = perm.bit();
        let old_bits = self.0;
        self.0 = self.0 & !b;
        proof {
            lemma_perm_bits(old_bits);
            lemma_perm_bits(old_bits & !b);
        }
    }

    pub fn get(&self, perm: CastlePerm) -> (r: bool)
        ensures
            r == self.has(perm),
    {
        (self.0 & perm.bit()) > 0
    }

    pub fn as_u8(self) -> (r: u8)
        ensures
            r == self.bits(),
    {
        self.0
    }

    pub fn from_u8(v: u8) -> (r: CastlePerms)
        ensures
            r.bits() == v,
            r == CastlePerms::with_bits(v),
    {
        CastlePerms(v)
    }
}

/// How each permission's bit sits in a byte.
proof fn lemma_perm_bits(x: u8)
    by (bit_vector)
    ensures
        (x | 1) & 1 != 0,
        (x | 2) & 2 != 0,
        (x | 4) & 4 != 0,
        (x | 8) & 8 != 0,
        ((x | 1) & 2 != 0) == (x & 2 != 0),
        ((x | 1) & 4 != 0) == (x & 4 != 0),
        ((x | 1) & 8 != 0) == (x & 8 != 0),
        ((x | 2) & 1 != 0) == (x & 1 != 0),
        ((x | 2) & 4 != 0) == (x & 4 != 0),
        ((x | 2) & 8 != 0) == (x & 8 != 0),
        ((x | 4) & 1 != 0) == (x & 1 != 0),
        ((x | 4) & 2 != 0) == (x & 2 != 0),
        ((x | 4) & 8 != 0) == (x & 8 != 0),
        ((x | 8) & 1 != 0) == (x & 1 != 0),
        ((x | 8) & 2 != 0) == (x & 2 != 0),
        ((x | 8) & 4 != 0) == (x & 4 != 0),
        (x & !1u8) & 1 == 0,
        (x & !2u8) & 2 == 0,
        (x & !4u8) & 4 == 0,
        (x & !8u8) & 8 == 0,
        ((x & !1u8) & 2 != 0) == (x & 2 != 0),
        ((x & !1u8) & 4 != 0) == (x & 4 != 0),
        ((x & !1u8) & 8 != 0) == (x & 8 != 0),
        ((x & !2u8) & 1 != 0) == (x & 1 != 0),
        ((x & !2u8) & 4 != 0) == (x & 4 != 0),
        ((x & !2u8) & 8 != 0) == (x & 8 != 0),
        ((x & !4u8) & 1 != 0) == (x & 1 != 0),
        ((x & !4u8) & 2 != 0) == (x & 2 != 0),
        ((x & !4u8) & 8 != 0) == (x & 8 != 0),
        ((x & !8u8) & 1 != 0) == (x & 1 != 0),
        ((x & !8u8) & 2 != 0) == (x & 2 != 0),
        ((x & !8u8) & 4 != 0) == (x & 4 != 0),
        (x & 1 > 0) == (x & 1 != 0),
        (x & 2 > 0) == (x & 2 != 0),
        (x & 4 > 0) == (x & 4 != 0),
        (x & 8 > 0) == (x & 8 != 0),
{
}

// ---------------------------------------------------------------------------
// Squares
// ---------------------------------------------------------------------------

#[derive(Debug, PartialEq, Eq, Structural, Clone, Copy, Hash)]
pub enum Square64 {
    A1, B1, C1, D1, E1, F1, G1, H1,
    A2, B2, C2, D2, E2, F2, G2, H2,
    A3, B3, C3, D3, E3, F3, G3, H3,
    A4, B4, C4, D4, E4, F4, G4, H4,
    A5, B5, C5, D5, E5, F5, G5, H5,
    A6, B6, C6, D6, E6, F6, G6, H6,
    A7, B7, C7, D7, E7, F7, G7, H7,
    A8, B8, C8, D8, E8, F8, G8, H8,
    Invalid,
}

impl Square64 {
    /// The index of the square (0 for A1 up to 63 for H8, 64 for `Invalid`).
    pub open spec fn idx(self) -> int {
        match self {
            Square64::A1 => 0,
            Square64::B1 => 1,
            Square64::C1 => 2,
            Square64::D1 => 3,
            Square64::E1 => 4,
            Square64::F1 => 5,
            Square64::G1 => 6,
            Square64::H1 => 7,
            Square64::A2 => 8,
            Square64::B2 => 9,
            Square64::C2 => 10,
            Square64::D2 => 11,
            Square64::E2 => 12,
            Square64::F2 => 13,
            Square64::G2 => 14,
            Square64::H2 => 15,
            Square64::A3 => 16,
            Square64::B3 => 17,
            Square64::C3 => 18,
            Square64::D3 => 19,
            Square64::E3 => 20,
            Square64::F3 => 21,
            Square64::G3 => 22,
            Square64::H3 => 23,
            Square64::A4 => 24,
            Square64::B4 => 25,
            Square64::C4 => 26,
            Square64::D4 => 27,
            Square64::E4 => 28,
            Square64::F4 => 29,
            Square64::G4 => 30,
            Square64::H4 => 31,
            Square64::A5 => 32,
            Square64::B5 => 33,
            Square64::C5 => 34,
            Square64::D5 => 35,
            Square64::E5 => 36,
            Square64::F5 => 37,
            Square64::G5 => 38,
            Square64::H5 => 39,
            Square64::A6 => 40,
            Square64::B6 => 41,
            Square64::C6 => 42,
            Square64::D6 => 43,
            Square64::E6 => 44,
            Square64::F6 => 45,
            Square64::G6 => 46,
            Square64::H6 => 47,
            Square64::A7 => 48,
            Square64::B7 => 49,
            Square64::C7 => 50,
            Square64::D7 => 51,
            Square64::E7 => 52,
            Square64::F7 => 53,
            Square64::G7 => 54,
            Square64::H7 => 55,
            Square64::A8 => 56,
            Square64::B8 => 57,
            Square64::C8 => 58,
            Square64::D8 => 59,
            Square64::E8 => 60,
            Square64::F8 => 61,
            Square64::G8 => 62,
            Square64::H8 => 63,
            Square64::Invalid => 64,
        }
    }

    /// The index of the square (0 for A1 up to 63 for H8, 64 for `Invalid`).
    pub fn index(self) -> (r: usize)
        ensures
            r == self.idx(),
    {
        match self {
            Square64::A1 => 0,
            Square64::B1 => 1,
            Square64::C1 => 2,
            Square64::D1 => 3,
            Square64::E1 => 4,
            Square64::F1 => 5,
            Square64::G1 => 6,
            Square64::H1 => 7,
            Square64::A2 => 8,
            Square64::B2 => 9,
            Square64::C2 => 10,
            Square64::D2 => 11,
            Square64::E2 => 12,
            Square64::F2 => 13,
            Square64::G2 => 14,
            Square64::H2 => 15,
            Square64::A3 => 16,
            Square64::B3 => 17,
            Square64::C3 => 18,
            Square64::D3 => 19,
            Square64::E3 => 20,
            Square64::F3 => 21,
            Square64::G3 => 22,
            Square64::H3 => 23,
            Square64::A4 => 24,
            Square64::B4 => 25,
            Square64::C4 => 26,
            Square64::D4 => 27,
            Square64::E4 => 28,
            Square64::F4 => 29,
            Square64::G4 => 30,
            Square64::H4 => 31,
            Square64::A5 => 32,
            Square64::B5 => 33,
            Square64::C5 => 34,
            Square64::D5 => 35,
            Square64::E5 => 36,
            Square64::F5 => 37,
            Square64::G5 => 38,
            Square64::H5 => 39,
            Square64::A6 => 40,
            Square64::B6 => 41,
            Square64::C6 => 42,
            Square64::D6 => 43,
            Square64::E6 => 44,
            Square64::F6 => 45,
            Square64::G6 => 46,
            Square64::H6 => 47,
            Square64::A7 => 48,
            Square64::B7 => 49,
            Square64::C7 => 50,
            Square64::D7 => 51,
            Square64::E7 => 52,
            Square64::F7 => 53,
            Square64::G7 => 54,
            Square64::H7 => 55,
            Square64::A8 => 56,
            Square64::B8 => 57,
            Square64::C8 => 58,
            Square64::D8 => 59,
            Square64::E8 => 60,
            Square64::F8 => 61,
            Square64::G8 => 62,
            Square64::H8 => 63,
            Square64::Invalid => 64,
        }
    }

    /// Converts an index to a square. Indices above 63 give `Invalid`.
    pub fn from_primitive(number: usize) -> (r: Square64)
        ensures
            r.idx() == if number < 64 { number as int } else { 64 },
    {
        match number {
            0 => Square64::A1,
            1 => Square64::B1,
            2 => Square64::C1,
            3 => Square64::D1,
            4 => Square64::E1,
            5 => Square64::F1,
            6 => Square64::G1,
            7 => Square64::H1,
            8 => Square64::A2,
            9 => Square64::B2,
            10 => Square64::C2,
            11 => Square64::D2,
            12 => Square64::E2,
            13 => Square64::F2,
            14 => Square64::G2,
            15 => Square64::H2,
            16 => Square64::A3,
            17 => Square64::B3,
            18 => Square64::C3,
            19 => Square64::D3,
            20 => Square64::E3,
            21 => Square64::F3,
            22 => Square64::G3,
            23 => Square64::H3,
            24 => Square64::A4,
            25 => Square64::B4,
            26 => Square64::C4,
            27 => Square64::D4,
            28 => Square64::E4,
            29 => Square64::F4,
            30 => Square64::G4,
            31 => Square64::H4,
            32 => Square64::A5,
            33 => Square64::B5,
            34 => Square64::C5,
            35 => Square64::D5,
            36 => Square64::E5,
            37 => Square64::F5,
            38 => Square64::G5,
            39 => Square64::H5,
            40 => Square64::A6,
            41 => Square64::B6,
            42 => Square64::C6,
            43 => Square64::D6,
            44 => Square64::E6,
            45 => Square64::F6,
            46 => Square64::G6,
            47 => Square64::H6,
            48 => Square64::A7,
            49 => Square64::B7,
            50 => Square64::C7,
            51 => Square64::D7,
            52 => Square64::E7,
            53 => Square64::F7,
            54 => Square64::G7,
            55 => Square64::H7,
            56 => Square64::A8,
            57 => Square64::B8,
            58 => Square64::C8,
            59 => Square64::D8,
            60 => Square64::E8,
            61 => Square64::F8,
            62 => Square64::G8,
            63 => Square64::H8,
            _ => Square64::Invalid,
        }
    }
}

/// The square with index `i`, `Invalid` for indices outside `0..64`.
pub open spec fn square_of(i: int) -> Square64 {
    if i == 0 {
        Square64::A1
    } else if i == 1 {
        Square64::B1
    } else if i == 2 {
        Square64::C1
    } else if i == 3 {
        Square64::D1
    } else if i == 4 {
        Square64::E1
    } else if i == 5 {
        Square64::F1
    } else if i == 6 {
        Square64::G1
    } else if i == 7 {
        Square64::H1
    } else if i == 8 {
        Square64::A2
    } else if i == 9 {
        Square64::B2
    } else if i == 10 {
        Square64::C2
    } else if i == 11 {
        Square64::D2
    } else if i == 12 {
        Square64::E2
    } else if i == 13 {
        Square64::F2
    } else if i == 14 {
        Square64::G2
    } else if i == 15 {
        Square64::H2
    } else if i == 16 {
        Square64::A3
    } else if i == 17 {
        Square64::B3
    } else if i == 18 {
        Square64::C3
    } else if i == 19 {
        Square64::D3
    } else if i == 20 {
        Square64::E3
    } else if i == 21 {
        Square64::F3
    } else if i == 22 {
        Square64::G3
    } else if i == 23 {
        Square64::H3
    } else if i == 24 {
        Square64::A4
    } else if i == 25 {
        Square64::B4
    } else if i == 26 {
        Square64::C4
    } else if i == 27 {
        Square64::D4
    } else if i == 28 {
        Square64::E4
    } else if i == 29 {
        Square64::F4
    } else if i == 30 {
        Square64::G4
    } else if i == 31 {
        Square64::H4
    } else if i == 32 {
        Square64::A5
    } else if i == 33 {
        Square64::B5
    } else if i == 34 {
        Square64::C5
    } else if i == 35 {
        Square64::D5
    } else if i == 36 {
        Square64::E5
    } else if i == 37 {
        Square64::F5
    } else if i == 38 {
        Square64::G5
    } else if i == 39 {
        Square64::H5
    } else if i == 40 {
        Square64::A6
    } else if i == 41 {
        Square64::B6
    } else if i == 42 {
        Square64::C6
    } else if i == 43 {
        Square64::D6
    } else if i == 44 {
        Square64::E6
    } else if i == 45 {
        Square64::F6
    } else if i == 46 {
        Square64::G6
    } else if i == 47 {
        Square64::H6
    } else if i == 48 {
        Square64::A7
    } else if i == 49 {
        Square64::B7
    } else if i == 50 {
        Square64::C7
    } else if i == 51 {
        Square64::D7
    } else if i == 52 {
        Square64::E7
    } else if i == 53 {
        Square64::F7
    } else if i == 54 {
        Square64::G7
    } else if i == 55 {
        Square64::H7
    } else if i == 56 {
        Square64::A8
    } else if i == 57 {
        Square64::B8
    } else if i == 58 {
        Square64::C8
    } else if i == 59 {
        Square64::D8
    } else if i == 60 {
        Square64::E8
    } else if i == 61 {
        Square64::F8
    } else if i == 62 {
        Square64::G8
    } else if i == 63 {
        Square64::H8
    } else {
        Square64::Invalid
    }
}

/// `square_of` gives the square with the index, and every valid square back.
pub proof fn lemma_square_of(i: int, sq: Square64)
    ensures
        0 <= i < 64 ==> square_of(i).idx() == i && square_of(i).is_valid(),
        sq.is_valid() ==> square_of(sq.idx()) == sq,
{
}

impl Square64 {
    /// Whether this is one of the 64 squares of the board.
    pub open spec fn is_valid(self) -> bool {
        self != Square64::Invalid
    }

    /// The square on the given file and rank.
    pub fn from_file_rank(file: File, rank: Rank) -> (r: Square64)
        ensures
            r.idx() == file.idx() + 8 * rank.idx(),
            r.is_valid(),
    {
        let f = file.index();
        let rk = rank.index();
        let square = f + rk * 8;
        Square64::from_primitive(square as usize)
    }

    /// The file of the square, `None` for `Invalid`.
    pub fn file(self) -> (r: Option<File>)
        ensures
            self.is_valid() ==> (r matches Some(f) && f.idx() == self.idx() % 8),
            !self.is_valid() ==> r is None,
    {
        if self == Square64::Invalid {
            return None;
        }
        let sq = self.index();
        File::from_index((sq % 8) as u8)
    }

    /// The rank of the square, `None` for `Invalid`.
    pub fn rank(self) -> (r: Option<Rank>)
        ensures
            self.is_valid() ==> (r matches Some(rk) && rk.idx() == self.idx() / 8),
            !self.is_valid() ==> r is None,
    {
        if self == Square64::Invalid {
            return None;
        }
        let sq = self.index();
        Rank::from_index((sq / 8) as u8)
    }
}

/// Squares are determined by their index, and every index is in `0..=64`.
pub proof fn lemma_square_index(a: Square64, b: Square64)
    ensures
        0 <= a.idx() <= 64,
        a.is_valid() <==> a.idx() < 64,
        a.idx() == b.idx() ==> a == b,
{
}

/// A valid square is the square of its own file and rank.
pub proof fn lemma_square_file_rank(s: Square64)
    requires
        s.is_valid(),
    ensures
        s.idx() == s.idx() % 8 + 8 * (s.idx() / 8),
        0 <= s.idx() % 8 < 8,
        0 <= s.idx() / 8 < 8,
{
}

} // verus!
