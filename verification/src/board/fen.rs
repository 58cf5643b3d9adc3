//! Reading and writing positions in Forsyth-Edwards Notation.
//!
//! A FEN string has six fields separated by whitespace: the pieces rank by rank
//! from rank 8 down to rank 1 (letters for pieces, digits for empty squares,
//! ranks separated by slashes), the side to move (`w` or `b`), the castle
//! permissions (`KQkq` or `-`), the en passant square (`-` if none), and the
//! half-move and full-move counters (which are not read).

use crate::board::{Board, Position, empty_position, last_king, tally};
use crate::types::{
    CastlePerm, CastlePerms, Color, File, Piece, PieceType, Rank, Square64, file_char, perm_bit, piece_from_char,
    rank_char, square_of,
};
use vstd::prelude::*;
use vstd::string::StringSliceAdditionalSpecFns;
use crate::text::push_char;

verus! {

/// Why a FEN string was refused.
#[derive(Debug, PartialEq, Eq, Structural, Clone, Copy)]
pub enum FenError {
    /// The string does not have exactly 6 fields separated by whitespace.
    WrongFieldCount,
    /// The placement does not have exactly 8 ranks separated by slashes.
    WrongRankCount,
    /// A rank does not describe exactly 8 files.
    WrongFileCount,
    /// The side to move is not `w` or `b`.
    InvalidColor,
    /// The castle permissions are not `-` or up to four of `KQkq`.
    InvalidCastlePerms,
    /// The en passant square is not `-` or a square.
    InvalidEnPassantSquare,
}

// ---------------------------------------------------------------------------
// Splitting
// ---------------------------------------------------------------------------

/// ASCII whitespace: space, tab, line feed, form feed and carriage return.
pub open spec fn is_ascii_ws(c: u8) -> bool {
    c == 32 || c == 9 || c == 10 || c == 12 || c == 13
}

/// The fields of `b` separated by ASCII whitespace, continuing from position `i`
/// with the current field `cur` and the fields `acc` found so far.
pub open spec fn split_ws_from(b: Seq<u8>, i: int, cur: Seq<u8>, acc: Seq<Seq<u8>>) -> Seq<Seq<u8>>
    decreases b.len() - i,
{
    if i >= b.len() {
        if cur.len() > 0 {
            acc.push(cur)
        } else {
            acc
        }
    } else if is_ascii_ws(b[i]) {
        split_ws_from(
            b,
            i + 1,
            Seq::empty(),
            if cur.len() > 0 {
                acc.push(cur)
            } else {
                acc
            },
        )
    } else {
        split_ws_from(b, i + 1, cur.push(b[i]), acc)
    }
}

/// The non-empty fields of `b` separated by ASCII whitespace.
pub open spec fn fen_fields(b: Seq<u8>) -> Seq<Seq<u8>> {
    split_ws_from(b, 0, Seq::empty(), Seq::empty())
}

/// The pieces of `b` separated by `sep`, continuing from position `i`.
pub open spec fn split_on_from(b: Seq<u8>, sep: u8, i: int, cur: Seq<u8>, acc: Seq<Seq<u8>>) -> Seq<Seq<u8>>
    decreases b.len() - i,
{
    if i >= b.len() {
        acc.push(cur)
    } else if b[i] == sep {
        split_on_from(b, sep, i + 1, Seq::empty(), acc.push(cur))
    } else {
        split_on_from(b, sep, i + 1, cur.push(b[i]), acc)
    }
}

/// The pieces of `b` separated by slashes (possibly empty).
pub open spec fn split_slashes(b: Seq<u8>) -> Seq<Seq<u8>> {
    split_on_from(b, 47, 0, Seq::empty(), Seq::empty())
}

/// The contents of a sequence of byte vectors.
pub open spec fn views(v: Seq<Vec<u8>>) -> Seq<Seq<u8>> {
    v.map_values(|x: Vec<u8>| x@)
}

/// Splits `b` at ASCII whitespace, leaving out empty fields.
pub(crate) fn split_fields(b: &[u8]) -> (r: Vec<Vec<u8>>)
    ensures
        views(r@) == fen_fields(b@),
{
    let mut acc: Vec<Vec<u8>> = Vec::new();
    let mut cur: Vec<u8> = Vec::new();
    proof {
        assert(views(acc@) =~= Seq::<Seq<u8>>::empty());
        assert(cur@ =~= Seq::<u8>::empty());
    }
    let mut i: usize = 0;
    while i < b.len()
        invariant
            0 <= i <= b@.len(),
            split_ws_from(b@, i as int, cur@, views(acc@)) == fen_fields(b@),
        decreases b@.len() - i,
    {
        let c = b[i];
        if c == 32 || c == 9 || c == 10 || c == 12 || c == 13 {
            if cur.len() > 0 {
                let ghost before = views(acc@);
                acc.push(cur);
                proof {
                    assert(views(acc@) =~= before.push(cur@));
                }
            }
            cur = Vec::new();
            proof {
                assert(cur@ =~= Seq::<u8>::empty());
            }
        } else {
            cur.push(c);
        }
        i = i + 1;
    }
    if cur.len() > 0 {
        let ghost before = views(acc@);
        acc.push(cur);
        proof {
            assert(views(acc@) =~= before.push(cur@));
        }
    }
    acc
}

/// Splits `b` at the byte `sep` (keeping empty pieces).
pub(crate) fn split_on(b: &[u8], sep: u8) -> (r: Vec<Vec<u8>>)
    ensures
        views(r@) == split_on_from(b@, sep, 0, Seq::empty(), Seq::empty()),
{
    let mut acc: Vec<Vec<u8>> = Vec::new();
    let mut cur: Vec<u8> = Vec::new();
    proof {
        assert(views(acc@) =~= Seq::<Seq<u8>>::empty());
        assert(cur@ =~= Seq::<u8>::empty());
    }
    let mut i: usize = 0;
    while i < b.len()
        invariant
            0 <= i <= b@.len(),
            split_on_from(b@, sep, i as int, cur@, views(acc@)) == split_on_from(b@, sep, 0, Seq::empty(), Seq::empty()),
        decreases b@.len() - i,
    {
        let c = b[i];
        if c == sep {
            let ghost before = views(acc@);
            acc.push(cur);
            proof {
                assert(views(acc@) =~= before.push(cur@));
            }
            cur = Vec::new();
            proof {
                assert(cur@ =~= Seq::<u8>::empty());
            }
        } else {
            cur.push(c);
        }
        i = i + 1;
    }
    let ghost before = views(acc@);
    acc.push(cur);
    proof {
        assert(views(acc@) =~= before.push(cur@));
    }
    acc
}

/// Splits `b` at slashes.
fn split_slash(b: &Vec<u8>) -> (r: Vec<Vec<u8>>)
    ensures
        views(r@) == split_slashes(b@),
{
    split_on(b.as_slice(), 47)
}

// ---------------------------------------------------------------------------
// The placement of the pieces
// ---------------------------------------------------------------------------

/// Whether `c` is an ASCII digit.
pub open spec fn is_digit(c: u8) -> bool {
    48 <= c <= 57
}

/// Reads a rank of the placement from position `i` on, `file` files being
/// described so far and `row` holding the pieces placed: a digit skips that many
/// files, a piece letter takes the next file (there must be one), anything else
/// is skipped. The rank must describe exactly 8 files.
pub open spec fn scan_rank_from(r: Seq<u8>, i: int, file: int, row: Seq<Option<Piece>>) -> Option<Seq<Option<Piece>>>
    decreases r.len() - i,
{
    if i >= r.len() {
        if file == 8 {
            Some(row)
        } else {
            None
        }
    } else if is_digit(r[i]) {
        scan_rank_from(r, i + 1, file + (r[i] - 48), row)
    } else {
        match piece_from_char(r[i] as char) {
            Some(p) => if file >= 8 {
                None
            } else {
                scan_rank_from(r, i + 1, file + 1, row.update(file, Some(p)))
            },
            None => scan_rank_from(r, i + 1, file, row),
        }
    }
}

/// The 8 squares (file A to H) a rank of the placement describes, if it is valid.
pub open spec fn scan_rank(r: Seq<u8>) -> Option<Seq<Option<Piece>>> {
    scan_rank_from(r, 0, 0, Seq::new(8, |j: int| None))
}

/// Once more than 8 files are described, the rank is invalid whatever follows.
proof fn lemma_scan_over(r: Seq<u8>, i: int, file: int, row: Seq<Option<Piece>>)
    requires
        file > 8,
    ensures
        scan_rank_from(r, i, file, row) is None,
    decreases r.len() - i,
{
    if i < r.len() {
        if is_digit(r[i]) {
            lemma_scan_over(r, i + 1, file + (r[i] - 48), row);
        } else {
            match piece_from_char(r[i] as char) {
                Some(p) => {},
                None => lemma_scan_over(r, i + 1, file, row),
            }
        }
    }
}

/// A valid rank gives 8 squares.
proof fn lemma_scan_len(r: Seq<u8>, i: int, file: int, row: Seq<Option<Piece>>)
    requires
        row.len() == 8,
        0 <= file,
    ensures
        scan_rank_from(r, i, file, row) matches Some(x) ==> x.len() == 8,
    decreases r.len() - i,
{
    if i < r.len() {
        if is_digit(r[i]) {
            lemma_scan_len(r, i + 1, file + (r[i] - 48), row);
        } else {
            match piece_from_char(r[i] as char) {
                Some(p) => if file < 8 {
                    lemma_scan_len(r, i + 1, file + 1, row.update(file, Some(p)));
                },
                None => lemma_scan_len(r, i + 1, file, row),
            }
        }
    }
}

/// Reads one rank of the placement.
fn read_rank(r: &Vec<u8>) -> (res: Option<[Option<Piece>; 8]>)
    ensures
        match res {
            Some(row) => scan_rank(r@) == Some(row@),
            None => scan_rank(r@) is None,
        },
{
    let mut row: [Option<Piece>; 8] = [None; 8];
    let mut file: usize = 0;
    let mut i: usize = 0;
    proof {
        assert(row@ =~= Seq::new(8, |j: int| None::<Piece>));
    }
    while i < r.len()
        invariant
            0 <= i <= r@.len(),
            file <= 8,
            scan_rank_from(r@, i as int, file as int, row@) == scan_rank(r@),
        decreases r@.len() - i,
    {
        let c = r[i];
        if 48 <= c && c <= 57 {
            file = file + (c - 48) as usize;
            if file > 8 {
                proof {
                    lemma_scan_over(r@, i + 1, file as int, row@);
                }
                return None;
            }
        } else {
            match Piece::from_char(c as char) {
                Some(p) => {
                    if file >= 8 {
                        return None;
                    }
                    let ghost before = row@;
                    row[file] = Some(p);
                    proof {
                        assert(row@ =~= before.update(file as int, Some(p)));
                    }
                    file = file + 1;
                },
                None => {},
            }
        }
        i = i + 1;
    }
    if file == 8 {
        Some(row)
    } else {
        None
    }
}

/// The number of characters of UTF-8 bytes: the bytes that are not continuation
/// bytes.
pub open spec fn char_count(f: Seq<u8>) -> int
    decreases f.len(),
{
    if f.len() == 0 {
        0
    } else {
        char_count(f.drop_last()) + if 0x80 <= f.last() < 0xC0 {
            0int
        } else {
            1int
        }
    }
}

/// Counts the characters of UTF-8 bytes.
fn count_chars(f: &Vec<u8>) -> (n: usize)
    ensures
        n == char_count(f@),
{
    let mut n: usize = 0;
    let mut i: usize = 0;
    while i < f.len()
        invariant
            0 <= i <= f@.len(),
            n <= i,
            n == char_count(f@.subrange(0, i as int)),
        decreases f@.len() - i,
    {
        proof {
            assert(f@.subrange(0, i + 1).drop_last() =~= f@.subrange(0, i as int));
        }
        if f[i] < 0x80 || f[i] >= 0xC0 {
            n = n + 1;
        }
        i = i + 1;
    }
    proof {
        assert(f@.subrange(0, f@.len() as int) =~= f@);
    }
    n
}

// ---------------------------------------------------------------------------
// Reading a FEN string
// ---------------------------------------------------------------------------

/// The side to move a character stands for.
pub open spec fn color_byte(c: u8) -> Option<Color> {
    if c as char == 'w' {
        Some(Color::White)
    } else if c as char == 'b' {
        Some(Color::Black)
    } else {
        None
    }
}

/// The FEN letter of a castle permission reads back as that permission's bit.
pub proof fn law_castle_letters(p: CastlePerm)
    ensures
        perm_byte(crate::types::perm_char(p) as u8) == Some(perm_bit(p)),
{
}

/// The bit of the castle permission a character stands for.
pub open spec fn perm_byte(c: u8) -> Option<u8> {
    if c as char == 'K' {
        Some(1u8)
    } else if c as char == 'Q' {
        Some(2u8)
    } else if c as char == 'k' {
        Some(4u8)
    } else if c as char == 'q' {
        Some(8u8)
    } else {
        None
    }
}

/// The bits of the castle permissions the first `n` characters stand for.
pub open spec fn castle_bits(f: Seq<u8>, n: int) -> u8
    decreases n,
{
    if n <= 0 {
        0
    } else {
        castle_bits(f, n - 1) | perm_byte(f[n - 1]).unwrap_or(0)
    }
}

/// The file (0 for `a`) a character stands for.
pub open spec fn file_of(c: u8) -> Option<int> {
    let x = c as char;
    if x == 'a' {
        Some(0)
    } else if x == 'b' {
        Some(1)
    } else if x == 'c' {
        Some(2)
    } else if x == 'd' {
        Some(3)
    } else if x == 'e' {
        Some(4)
    } else if x == 'f' {
        Some(5)
    } else if x == 'g' {
        Some(6)
    } else if x == 'h' {
        Some(7)
    } else {
        None
    }
}

/// The rank (0 for `1`) a character stands for.
pub open spec fn rank_of(c: u8) -> Option<int> {
    let x = c as char;
    if x == '1' {
        Some(0)
    } else if x == '2' {
        Some(1)
    } else if x == '3' {
        Some(2)
    } else if x == '4' {
        Some(3)
    } else if x == '5' {
        Some(4)
    } else if x == '6' {
        Some(5)
    } else if x == '7' {
        Some(6)
    } else if x == '8' {
        Some(7)
    } else {
        None
    }
}

/// The field holding just a dash.
pub open spec fn dash() -> Seq<u8> {
    seq![45u8]
}

/// The pieces the 8 ranks of a placement put on the board, rank 8 first.
pub open spec fn placement(rk: Seq<Seq<u8>>) -> Seq<Option<Piece>> {
    Seq::new(64, |s: int| scan_rank(rk[7 - s / 8]).unwrap()[s % 8])
}

/// The error a FEN string gives, if any, before its en passant field is read.
pub open spec fn fen_error_before_ep(b: Seq<u8>) -> Option<FenError> {
    let parts = fen_fields(b);
    let ranks = split_slashes(parts[0]);
    if parts.len() != 6 {
        Some(FenError::WrongFieldCount)
    } else if ranks.len() != 8 {
        Some(FenError::WrongRankCount)
    } else if exists|k: int| 0 <= k < 8 && #[trigger] scan_rank(ranks[k]) is None {
        Some(FenError::WrongFileCount)
    } else if char_count(parts[1]) != 1 || color_byte(parts[1][0]) is None {
        Some(FenError::InvalidColor)
    } else if char_count(parts[2]) > 4 {
        Some(FenError::InvalidCastlePerms)
    } else if parts[2] != dash() && exists|j: int| 0 <= j < parts[2].len() && #[trigger] perm_byte(parts[2][j]) is None {
        Some(FenError::InvalidCastlePerms)
    } else {
        None
    }
}

/// The error a FEN string gives, if any.
pub open spec fn fen_error(b: Seq<u8>) -> Option<FenError> {
    let parts = fen_fields(b);
    if fen_error_before_ep(b) is Some {
        fen_error_before_ep(b)
    } else if parts[3] != dash() && !(parts[3].len() == 2 && file_of(parts[3][0]) is Some && rank_of(parts[3][1])
        is Some) {
        Some(FenError::InvalidEnPassantSquare)
    } else {
        None
    }
}

/// The pieces a valid FEN string places.
pub open spec fn fen_pieces(b: Seq<u8>) -> Seq<Option<Piece>> {
    placement(split_slashes(fen_fields(b)[0]))
}

/// The en passant square of a valid FEN string.
pub open spec fn fen_en_passant(b: Seq<u8>) -> Option<Square64> {
    let f = fen_fields(b)[3];
    if f == dash() {
        None
    } else {
        Some(square_of(file_of(f[0]).unwrap() + 8 * rank_of(f[1]).unwrap()))
    }
}

/// The castle permission bits of a valid FEN string.
pub open spec fn fen_castle_bits(b: Seq<u8>) -> u8 {
    let f = fen_fields(b)[2];
    if f == dash() {
        0
    } else {
        castle_bits(f, f.len() as int)
    }
}

/// Reads the 8 ranks of the placement into the 64 squares.
fn read_placement(ranks: &Vec<Vec<u8>>) -> (r: Option<[Option<Piece>; 64]>)
    requires
        ranks@.len() == 8,
    ensures
        match r {
            Some(a) => (forall|k: int| 0 <= k < 8 ==> #[trigger] scan_rank(views(ranks@)[k]) is Some) && a@
                == placement(views(ranks@)),
            None => exists|k: int| 0 <= k < 8 && #[trigger] scan_rank(views(ranks@)[k]) is None,
        },
{
    let ghost rk = views(ranks@);
    let mut pieces: [Option<Piece>; 64] = [None; 64];
    let mut rank_num: usize = 0;
    while rank_num < 8
        invariant
            0 <= rank_num <= 8,
            ranks@.len() == 8,
            rk == views(ranks@),
            forall|k: int| 0 <= k < rank_num ==> (#[trigger] scan_rank(rk[k]) matches Some(x) && x.len() == 8),
            forall|s: int|
                0 <= s < 64 && 7 - s / 8 < rank_num ==> #[trigger] pieces@[s] == scan_rank(rk[7 - s / 8]).unwrap()[s
                    % 8],
        decreases 8 - rank_num,
    {
        let row = match read_rank(&ranks[rank_num]) {
            Some(row) => row,
            None => {
                proof {
                    assert(scan_rank(rk[rank_num as int]) is None);
                }
                return None;
            },
        };
        proof {
            lemma_scan_len(rk[rank_num as int], 0, 0, Seq::new(8, |j: int| None));
        }
        let base = (7 - rank_num) * 8;
        let mut f: usize = 0;
        while f < 8
            invariant
                0 <= f <= 8,
                rank_num < 8,
                base == (7 - rank_num) * 8,
                scan_rank(rk[rank_num as int]) == Some(row@),
                forall|k: int| 0 <= k < rank_num ==> (#[trigger] scan_rank(rk[k]) matches Some(x) && x.len() == 8),
                forall|s: int|
                    0 <= s < 64 && (7 - s / 8 < rank_num || (7 - s / 8 == rank_num && s % 8 < f))
                        ==> #[trigger] pieces@[s] == scan_rank(rk[7 - s / 8]).unwrap()[s % 8],
            decreases 8 - f,
        {
            pieces[base + f] = row[f];
            f = f + 1;
        }
        rank_num = rank_num + 1;
    }
    proof {
        assert(pieces@ =~= placement(rk));
    }
    Some(pieces)
}

/// Reads the castle permissions (not a dash).
fn read_castle(f: &Vec<u8>) -> (r: Option<CastlePerms>)
    ensures
        match r {
            Some(cp) => (forall|j: int| 0 <= j < f@.len() ==> #[trigger] perm_byte(f@[j]) is Some) && cp.bits()
                == castle_bits(f@, f@.len() as int),
            None => exists|j: int| 0 <= j < f@.len() && #[trigger] perm_byte(f@[j]) is None,
        },
{
    let mut perms = CastlePerms::none();
    let mut j: usize = 0;
    while j < f.len()
        invariant
            0 <= j <= f@.len(),
            perms.bits() == castle_bits(f@, j as int),
            forall|k: int| 0 <= k < j ==> #[trigger] perm_byte(f@[k]) is Some,
        decreases f@.len() - j,
    {
        let c = f[j];
        match CastlePerm::from_char(c as char) {
            Some(perm) => {
                perms.set(perm);
            },
            None => {
                proof {
                    assert(crate::types::perm_char(CastlePerm::WhiteKingside) != c as char);
                    assert(crate::types::perm_char(CastlePerm::WhiteQueenside) != c as char);
                    assert(crate::types::perm_char(CastlePerm::BlackKingside) != c as char);
                    assert(crate::types::perm_char(CastlePerm::BlackQueenside) != c as char);
                    assert(perm_byte(f@[j as int]) is None);
                }
                return None;
            },
        }
        j = j + 1;
    }
    Some(perms)
}

/// The bits of a set of castle permissions read from characters are among the
/// four permission bits.
proof fn lemma_castle_bits_small(f: Seq<u8>, n: int)
    ensures
        castle_bits(f, n) < 16,
    decreases n,
{
    if n > 0 {
        lemma_castle_bits_small(f, n - 1);
        let x = castle_bits(f, n - 1);
        let y = perm_byte(f[n - 1]).unwrap_or(0);
        assert(x | y < 16) by (bit_vector)
            requires
                x < 16,
                y < 16,
        ;
    }
}

/// Reads the en passant square from a field of two bytes.
fn read_en_passant(f: &Vec<u8>) -> (r: Result<Square64, FenError>)
    requires
        f@.len() == 2,
    ensures
        match r {
            Ok(sq) => file_of(f@[0]) is Some && rank_of(f@[1]) is Some && sq == square_of(
                file_of(f@[0]).unwrap() + 8 * rank_of(f@[1]).unwrap(),
            ) && sq.is_valid(),
            Err(e) => e == FenError::InvalidEnPassantSquare && (file_of(f@[0]) is None || rank_of(f@[1]) is None),
        },
{
    let fx = File::from_char(f[0] as char);
    proof {
        lemma_file_of(f@[0], fx);
    }
    let file = match fx {
        Some(x) => x,
        None => {
            return Err(FenError::InvalidEnPassantSquare);
        },
    };
    let rx = Rank::from_char(f[1] as char);
    proof {
        lemma_rank_of(f@[1], rx);
    }
    let rank = match rx {
        Some(x) => x,
        None => {
            return Err(FenError::InvalidEnPassantSquare);
        },
    };
    let square = Square64::from_file_rank(file, rank);
    proof {
        crate::types::lemma_square_of(square.idx(), square);
    }
    Ok(square)
}

impl Board {
    /// Reads a position from a FEN string. The half-move and full-move counters
    /// are not read: both counters start at zero. The check flag is set from the
    /// position.
    #[verifier::rlimit(60)]
    pub fn from_fen(fen: &str) -> (r: Result<Board, FenError>)
        ensures
            match r {
                Err(e) => fen_error(fen.spec_bytes()) == Some(e),
                Ok(board) => {
                    let b = fen.spec_bytes();
                    &&& fen_error(b) is None
                    &&& board.pieces@ == fen_pieces(b)
                    &&& board.color == color_byte(fen_fields(b)[1][0]).unwrap()
                    &&& board.castle_perms.bits() == fen_castle_bits(b)
                    &&& board.en_passant == fen_en_passant(b)
                    &&& board.fifty_move == 0
                    &&& board.ply == 0
                    &&& board.history@.len() == 0
                    &&& board.bitboards_wf()
                    &&& board.fields_wf()
                    &&& board.position_key == board.spec_key()
                    &&& (forall|c: Color| tally(board.pieces@, crate::board::w_material(c), 64) <= i16::MAX)
                        ==> board.counts_wf()
                    &&& forall|c: Color|
                        match last_king(board.pieces@, c, 64) {
                            Some(k) => (#[trigger] board.king_square[c.idx()]).idx() == k,
                            None => board.king_square[c.idx()] == Square64::A1,
                        }
                    &&& board.in_check == board.attacked(
                        board.king_square[board.color.idx()].idx(),
                        crate::types::opposite(board.color),
                    )
                },
            },
    {
        let mut board = Board::new();
        let bytes = fen.as_bytes();
        let ghost b = fen.spec_bytes();
        let parts = split_fields(bytes);
        if parts.len() != 6 {
            return Err(FenError::WrongFieldCount);
        }
        proof {
            assert(parts@[0]@ == fen_fields(b)[0]);
            assert(parts@[1]@ == fen_fields(b)[1]);
            assert(parts@[2]@ == fen_fields(b)[2]);
            assert(parts@[3]@ == fen_fields(b)[3]);
            CastlePerms::lemma_with_bits(0, board.castle_perms);
            lemma_fields_nonempty(b, 0, Seq::empty(), Seq::empty());
            assert(fen_fields(b)[3].len() > 0);
        }
        let ranks = split_slash(&parts[0]);
        if ranks.len() != 8 {
            return Err(FenError::WrongRankCount);
        }
        board.pieces = match read_placement(&ranks) {
            Some(pieces) => pieces,
            None => {
                return Err(FenError::WrongFileCount);
            },
        };

        // the side to move
        if count_chars(&parts[1]) != 1 {
            return Err(FenError::InvalidColor);
        }
        board.color = match Color::from_char(parts[1][0] as char) {
            Some(c) => c,
            None => {
                return Err(FenError::InvalidColor);
            },
        };

        // the castle permissions
        if count_chars(&parts[2]) > 4 {
            return Err(FenError::InvalidCastlePerms);
        }
        let is_dash2 = parts[2].len() == 1 && parts[2][0] == 45;
        proof {
            assert(is_dash2 == (parts@[2]@ == dash())) by {
                if parts@[2]@.len() == 1 && parts@[2]@[0] == 45 {
                    assert(parts@[2]@ =~= dash());
                }
            }
        }
        if !is_dash2 {
            board.castle_perms = match read_castle(&parts[2]) {
                Some(cp) => cp,
                None => {
                    return Err(FenError::InvalidCastlePerms);
                },
            };
            proof {
                lemma_castle_bits_small(parts@[2]@, parts@[2]@.len() as int);
            }
        }

        // the en passant square
        let is_dash3 = parts[3].len() == 1 && parts[3][0] == 45;
        proof {
            assert(is_dash3 == (parts@[3]@ == dash())) by {
                if parts@[3]@.len() == 1 && parts@[3]@[0] == 45 {
                    assert(parts@[3]@ =~= dash());
                }
            }
        }
        if !is_dash3 {
            if parts[3].len() != 2 {
                return Err(FenError::InvalidEnPassantSquare);
            }
            board.en_passant = match read_en_passant(&parts[3]) {
                Ok(sq) => Some(sq),
                Err(e) => {
                    return Err(e);
                },
            };
        }
        proof {
            assert(fen_error(b) is None);
        }
        board.position_key = board.generate_position_key();
        board.update_redundant_data();
        proof {
            assert forall|c: Color| #[trigger] board.king_square[c.idx()].is_valid() by {
                crate::types::lemma_square_index(board.king_square[c.idx()], board.king_square[c.idx()]);
                lemma_last_king_bound(board.pieces@, c, 64);
            }
            assert(board.king_square[Color::White.idx()].is_valid());
            assert(board.king_square[Color::Black.idx()].is_valid());
        }
        board.in_check = board.in_check();
        Ok(board)
    }
}

/// A character that is no file letter has no file, and a file letter has its file.
proof fn lemma_file_of(c: u8, x: Option<File>)
    requires
        x matches Some(f) ==> file_char(f) == c as char,
        x is None ==> forall|f: File| file_char(f) != c as char,
    ensures
        x matches Some(f) ==> file_of(c) == Some(f.idx()),
        x is None ==> file_of(c) is None,
{
    if x is None {
        assert(file_char(File::A) != c as char);
        assert(file_char(File::B) != c as char);
        assert(file_char(File::C) != c as char);
        assert(file_char(File::D) != c as char);
        assert(file_char(File::E) != c as char);
        assert(file_char(File::F) != c as char);
        assert(file_char(File::G) != c as char);
        assert(file_char(File::H) != c as char);
    }
}

/// A character that is no rank digit has no rank, and a rank digit has its rank.
proof fn lemma_rank_of(c: u8, x: Option<Rank>)
    requires
        x matches Some(r) ==> rank_char(r) == c as char,
        x is None ==> forall|r: Rank| rank_char(r) != c as char,
    ensures
        x matches Some(r) ==> rank_of(c) == Some(r.idx()),
        x is None ==> rank_of(c) is None,
{
    if x is None {
        assert(rank_char(Rank::R1) != c as char);
        assert(rank_char(Rank::R2) != c as char);
        assert(rank_char(Rank::R3) != c as char);
        assert(rank_char(Rank::R4) != c as char);
        assert(rank_char(Rank::R5) != c as char);
        assert(rank_char(Rank::R6) != c as char);
        assert(rank_char(Rank::R7) != c as char);
        assert(rank_char(Rank::R8) != c as char);
    }
}

/// The last king square is a square.
proof fn lemma_last_king_bound(p: Seq<Option<Piece>>, c: Color, n: int)
    ensures
        last_king(p, c, n) matches Some(k) ==> 0 <= k < n,
    decreases n,
{
    if n > 0 {
        lemma_last_king_bound(p, c, n - 1);
    }
}

/// Splitting at whitespace gives non-empty fields.
proof fn lemma_fields_nonempty(b: Seq<u8>, i: int, cur: Seq<u8>, acc: Seq<Seq<u8>>)
    requires
        forall|k: int| 0 <= k < acc.len() ==> #[trigger] acc[k].len() > 0,
    ensures
        forall|k: int| 0 <= k < split_ws_from(b, i, cur, acc).len() ==> #[trigger] split_ws_from(b, i, cur, acc)[k].len() > 0,
    decreases b.len() - i,
{
    if cur.len() > 0 {
        assert forall|k: int| 0 <= k < acc.push(cur).len() implies #[trigger] acc.push(cur)[k].len() > 0 by {
            if k < acc.len() {
                assert(acc.push(cur)[k] == acc[k]);
            }
        }
    }
    if i < b.len() {
        if is_ascii_ws(b[i]) {
            let acc2 = if cur.len() > 0 {
                acc.push(cur)
            } else {
                acc
            };
            lemma_fields_nonempty(b, i + 1, Seq::empty(), acc2);
            assert(split_ws_from(b, i, cur, acc) == split_ws_from(b, i + 1, Seq::empty(), acc2));
        } else {
            lemma_fields_nonempty(b, i + 1, cur.push(b[i]), acc);
            assert(split_ws_from(b, i, cur, acc) == split_ws_from(b, i + 1, cur.push(b[i]), acc));
        }
    } else {
        assert(split_ws_from(b, i, cur, acc) == (if cur.len() > 0 { acc.push(cur) } else { acc }));
    }
}

// ---------------------------------------------------------------------------
// Writing a FEN string
// ---------------------------------------------------------------------------

/// The digit for a count of empty squares.
pub open spec fn digit_char(n: int) -> char {
    (48 + n) as char
}

/// The count `empty` of empty squares written out, if any.
pub open spec fn empty_run(empty: int) -> Seq<char> {
    if empty > 0 {
        seq![digit_char(empty)]
    } else {
        Seq::empty()
    }
}

/// The rest of rank `r` from file `f` on, `empty` empty squares preceding.
pub open spec fn row_from(p: Seq<Option<Piece>>, r: int, f: int, empty: int) -> Seq<char>
    decreases 8 - f,
{
    if f >= 8 {
        empty_run(empty)
    } else {
        match p[8 * r + f] {
            Some(q) => empty_run(empty) + seq![crate::types::piece_char(q)] + row_from(p, r, f + 1, 0),
            None => row_from(p, r, f + 1, empty + 1),
        }
    }
}

/// The placement of ranks `r` down to 1, separated by slashes.
pub open spec fn ranks_from(p: Seq<Option<Piece>>, r: int) -> Seq<char>
    decreases r + 1,
{
    if r <= 0 {
        row_from(p, 0, 0, 0)
    } else {
        row_from(p, r, 0, 0) + seq!['/'] + ranks_from(p, r - 1)
    }
}

/// The castle permissions field.
pub open spec fn castle_field(cp: CastlePerms) -> Seq<char> {
    if cp.bits() == 0 {
        seq!['-']
    } else {
        (if cp.has(CastlePerm::WhiteKingside) { seq!['K'] } else { Seq::empty() }) + (if cp.has(
            CastlePerm::WhiteQueenside,
        ) {
            seq!['Q']
        } else {
            Seq::empty()
        }) + (if cp.has(CastlePerm::BlackKingside) { seq!['k'] } else { Seq::empty() }) + (if cp.has(
            CastlePerm::BlackQueenside,
        ) {
            seq!['q']
        } else {
            Seq::empty()
        })
    }
}

/// The en passant field.
pub open spec fn en_passant_field(ep: Option<Square64>) -> Seq<char> {
    match ep {
        Some(sq) => seq![(97 + sq.idx() % 8) as char, (49 + sq.idx() / 8) as char],
        None => seq!['-'],
    }
}

/// The FEN string of a position; both counters are written as zero.
pub open spec fn fen_string(p: Position) -> Seq<char> {
    ranks_from(p.pieces, 7) + seq![' ', crate::types::color_char(p.color), ' '] + castle_field(p.castle_perms)
        + seq![' '] + en_passant_field(p.en_passant) + seq![' ', '0', ' ', '0']
}

/// Appends the characters of `t`.
fn push_all(s: &mut String, t: &[char])
    ensures
        final(s)@ == old(s)@ + t@,
{
    let mut i: usize = 0;
    while i < t.len()
        invariant
            0 <= i <= t@.len(),
            s@ == old(s)@ + t@.subrange(0, i as int),
        decreases t@.len() - i,
    {
        push_char(s, t[i]);
        proof {
            assert(t@.subrange(0, i + 1) =~= t@.subrange(0, i as int).push(t@[i as int]));
        }
        i = i + 1;
    }
    proof {
        assert(t@.subrange(0, t@.len() as int) =~= t@);
    }
}

/// Appends the digit for a count of empty squares (1 to 8).
fn push_digit(s: &mut String, empty: u32)
    requires
        1 <= empty <= 8,
    ensures
        final(s)@ == old(s)@ + empty_run(empty as int),
{
    let c = match empty {
        1 => '1',
        2 => '2',
        3 => '3',
        4 => '4',
        5 => '5',
        6 => '6',
        7 => '7',
        _ => '8',
    };
    push_char(s, c);
    proof {
        assert(old(s)@.push(c) =~= old(s)@ + seq![c]);
    }
}

impl Board {
    /// The FEN string of the position, with both counters written as zero.
    #[verifier::rlimit(40)]
    pub fn as_fen(&self) -> (r: String)
        requires
            self.en_passant matches Some(sq) ==> sq.is_valid(),
        ensures
            r@ == fen_string(self@),
    {
        let mut fen = String::new();
        let ghost p = self.pieces@;
        proof {
            assert(fen@ + ranks_from(p, 7) =~= ranks_from(p, 7));
        }
        let mut rank: usize = 8;
        while rank > 0
            invariant
                0 <= rank <= 8,
                p == self.pieces@,
                p.len() == 64,
                rank >= 1 ==> fen@ + ranks_from(p, rank - 1) == ranks_from(p, 7),
                rank == 0 ==> fen@ == ranks_from(p, 7),
            decreases rank,
        {
            rank = rank - 1;
            let ghost before = fen@;
            let mut empty: u32 = 0;
            let mut file: usize = 0;
            while file < 8
                invariant
                    0 <= file <= 8,
                    rank < 8,
                    empty <= file,
                    p == self.pieces@,
                    p.len() == 64,
                    fen@ + row_from(p, rank as int, file as int, empty as int) == before + row_from(
                        p,
                        rank as int,
                        0,
                        0,
                    ),
                decreases 8 - file,
            {
                match self.pieces[rank * 8 + file] {
                    Some(piece) => {
                        let ghost f0 = fen@;
                        if empty > 0 {
                            push_digit(&mut fen, empty);
                            empty = 0;
                        } else {
                            proof {
                                assert(f0 + empty_run(0) =~= f0);
                            }
                        }
                        let ghost f1 = fen@;
                        push_char(&mut fen, piece.to_char());
                        proof {
                            assert(fen@ =~= f1 + seq![crate::types::piece_char(piece)]);
                        }
                    },
                    None => {
                        empty = empty + 1;
                    },
                }
                file = file + 1;
            }
            if empty > 0 {
                push_digit(&mut fen, empty);
            } else {
                proof {
                    assert(fen@ + empty_run(0) =~= fen@);
                }
            }
            proof {
                assert(fen@ == before + row_from(p, rank as int, 0, 0));
            }
            if rank != 0 {
                push_char(&mut fen, '/');
                proof {
                    assert(fen@ =~= before + row_from(p, rank as int, 0, 0) + seq!['/']);
                    assert(ranks_from(p, rank as int) == row_from(p, rank as int, 0, 0) + seq!['/'] + ranks_from(p, rank - 1));
                    assert(fen@ + ranks_from(p, rank - 1) =~= before + ranks_from(p, rank as int));
                }
            } else {
                proof {
                    assert(ranks_from(p, 0) == row_from(p, 0, 0, 0));
                }
            }
        }

        push_all(&mut fen, &[' ', self.color.to_char(), ' ']);

        let cp = self.castle_perms;
        if cp.as_u8() == 0 {
            push_char(&mut fen, '-');
        } else {
            let ghost f0 = fen@;
            if cp.get(CastlePerm::WhiteKingside) {
                push_char(&mut fen, CastlePerm::WhiteKingside.to_char());
            }
            let ghost f1 = fen@;
            if cp.get(CastlePerm::WhiteQueenside) {
                push_char(&mut fen, CastlePerm::WhiteQueenside.to_char());
            }
            let ghost f2 = fen@;
            if cp.get(CastlePerm::BlackKingside) {
                push_char(&mut fen, CastlePerm::BlackKingside.to_char());
            }
            let ghost f3 = fen@;
            if cp.get(CastlePerm::BlackQueenside) {
                push_char(&mut fen, CastlePerm::BlackQueenside.to_char());
            }
            proof {
                assert(fen@ =~= f0 + castle_field(cp));
            }
        }

        push_char(&mut fen, ' ');

        match self.en_passant {
            Some(sq) => {
                let f = sq.file().unwrap();
                let r = sq.rank().unwrap();
                push_char(&mut fen, f.to_char());
                push_char(&mut fen, r.to_char());
            },
            None => {
                push_char(&mut fen, '-');
            },
        }

        push_all(&mut fen, &[' ', '0', ' ', '0']);
        proof {
            assert(fen@ =~= fen_string(self@));
        }
        fen
    }
}

} // verus!
