//! Writing moves as text: the Smith notation of the UCI protocol (start square,
//! end square, promotion piece) and a standard algebraic notation.

use crate::board::Board;
use crate::board::Position;
use crate::board::makemove::{lemma_material_of_pieces, lemma_take_undoes_make, lemma_wf_of_view, make_legal, make_spec, move_applicable, undo_material_ok};
use crate::board::movegen::{MoveList, lemma_move_fields, move_is, move_list_items, pseudo_legal};
use crate::chess_move::{ChessMove, capture_bit, end_of, flags_of, promoted_of, start_of};
use crate::search::{after_line, board_can_make, legal_line, lemma_line_step};
use crate::text::push_char;
use crate::types::{Color, Piece, PieceType, law_piece_type_letter, piece_from_char, piece_of, piece_type_char, type_of};
use vstd::prelude::*;

verus! {

/// The letter of a file (0 for `a`).
pub open spec fn file_letter(f: int) -> char {
    (97 + f) as char
}

/// The digit of a rank (0 for `1`).
pub open spec fn rank_digit(r: int) -> char {
    (49 + r) as char
}

/// The name of a square, such as `e4`.
pub open spec fn square_text(i: int) -> Seq<char> {
    seq![file_letter(i % 8), rank_digit(i / 8)]
}

/// The upper-case letter of a piece type.
pub open spec fn upper_char(t: PieceType) -> char {
    match t {
        PieceType::Pawn => 'P',
        PieceType::Knight => 'N',
        PieceType::Bishop => 'B',
        PieceType::Rook => 'R',
        PieceType::Queen => 'Q',
        PieceType::King => 'K',
    }
}

/// A move in Smith notation: its start and end squares, and the lower-case
/// letter of the piece it promotes to.
pub open spec fn smith_text(m: ChessMove) -> Seq<char> {
    square_text(start_of(m@)) + square_text(end_of(m@)) + match promoted_of(m@) {
        Some(t) => seq![piece_type_char(t)],
        None => Seq::<char>::empty(),
    }
}

fn push_square(w: &mut String, i: usize)
    requires
        i < 64,
    ensures
        final(w)@ == old(w)@ + square_text(i as int),
{
    let f = (i % 8) as u8;
    let r = (i / 8) as u8;
    push_char(w, (97 + f) as char);
    push_char(w, (49 + r) as char);
    proof {
        assert(final(w)@ =~= old(w)@ + square_text(i as int));
    }
}

fn upper(t: PieceType) -> (r: char)
    ensures
        r == upper_char(t),
{
    match t {
        PieceType::Pawn => 'P',
        PieceType::Knight => 'N',
        PieceType::Bishop => 'B',
        PieceType::Rook => 'R',
        PieceType::Queen => 'Q',
        PieceType::King => 'K',
    }
}

pub struct SmithNotation;

impl SmithNotation {
    /// Appends the move in Smith notation.
    pub fn write(w: &mut String, cmove: ChessMove)
        ensures
            final(w)@ == old(w)@ + smith_text(cmove),
    {
        push_square(w, cmove.start().index());
        push_square(w, cmove.end().index());
        if let Some(pt) = cmove.promoted() {
            push_char(w, pt.to_char());
        }
        proof {
            assert(final(w)@ =~= old(w)@ + smith_text(cmove));
        }
    }
}

/// Another pseudo-legal move of a piece like the moving one.
pub open spec fn clash(p: Position, m: ChessMove, mp: Piece, x: ChessMove) -> bool {
    &&& pseudo_legal(p, start_of(x@), end_of(x@), flags_of(x@))
    &&& x != m
    &&& p.pieces[start_of(x@)] == Some(mp)
}

/// Another move of a piece like the moving one starts on the same file.
pub open spec fn file_clash(p: Position, m: ChessMove, mp: Piece) -> bool {
    exists|x: ChessMove| #[trigger] clash(p, m, mp, x) && start_of(x@) % 8 == start_of(m@) % 8
}

/// Another move of a piece like the moving one starts on the same rank.
pub open spec fn rank_clash(p: Position, m: ChessMove, mp: Piece) -> bool {
    exists|x: ChessMove| #[trigger] clash(p, m, mp, x) && start_of(x@) / 8 == start_of(m@) / 8
}

/// The position has no pseudo-legal move.
pub open spec fn no_moves(p: Position) -> bool {
    forall|s: int, e: int, f: u16| !#[trigger] pseudo_legal(p, s, e, f)
}

/// A move in algebraic notation: the letter of the moving piece (none for a
/// pawn), the start file where no other move of a like piece starts on it, else
/// the start rank where none starts on that, else the start square; `x` for a
/// capture; the end square; the letter of a promotion piece; and `+` for a check,
/// `#` for a check after which the other side has no pseudo-legal move.
pub open spec fn algebraic_text(p: Position, m: ChessMove) -> Seq<char> {
    algebraic_prefix(p, m) + check_text(make_spec(p, m))
}

/// A move in algebraic notation, without the check mark.
pub open spec fn algebraic_prefix(p: Position, m: ChessMove) -> Seq<char> {
    let s = start_of(m@);
    let mp = p.pieces[s].unwrap();
    let letter = if type_of(mp) != PieceType::Pawn {
        seq![upper_char(type_of(mp))]
    } else {
        Seq::<char>::empty()
    };
    let from = if !file_clash(p, m, mp) {
        seq![file_letter(s % 8)]
    } else if !rank_clash(p, m, mp) {
        seq![rank_digit(s / 8)]
    } else {
        square_text(s)
    };
    let cap = if capture_bit(m@) {
        seq!['x']
    } else {
        Seq::<char>::empty()
    };
    let promo = match promoted_of(m@) {
        Some(t) => seq![upper_char(t)],
        None => Seq::<char>::empty(),
    };
    letter + from + cap + square_text(end_of(m@)) + promo
}

/// The mark of a position after a move: `+` when the side to move is in check,
/// `#` when it also has no pseudo-legal move.
#[verifier::opaque]
pub open spec fn check_text(q: Position) -> Seq<char> {
    if q.in_check {
        if no_moves(q) {
            seq!['#']
        } else {
            seq!['+']
        }
    } else {
        Seq::<char>::empty()
    }
}

/// Makes the move, appends the check mark of the position after it, and takes
/// the move back.
fn push_check_mark(w: &mut String, cmove: ChessMove, board: &mut Board)
    requires
        old(board).wf(),
        board_can_make(old(board), cmove),
        make_legal(old(board)@, cmove),
        old(board).fifty_move < usize::MAX,
        old(board).ply < usize::MAX,
    ensures
        final(board).wf(),
        final(board)@ == old(board)@,
        final(board).material[0] == old(board).material[0],
        final(board).material[1] == old(board).material[1],
        final(w)@ == old(w)@ + check_text(make_spec(old(board)@, cmove)),
{
    let ghost w0 = w@;
    let ghost b0 = *board;
    let made = board.make_move(cmove);
    proof {
        assert(made);
    }
    let ghost b1 = *board;
    if board.in_check {
        let after = all_moves(board);
        if after.len() == 0 {
            push_char(w, '#');
            proof {
                assert forall|s: int, e: int, f: u16| !#[trigger] pseudo_legal(board@, s, e, f) by {
                    if pseudo_legal(board@, s, e, f) {
                        let j = choose|j: int|
                            0 <= j < move_list_items(after).len() && #[trigger] move_is(
                                move_list_items(after)[j],
                                s,
                                e,
                                f,
                            );
                    }
                }
            }
        } else {
            push_char(w, '+');
            proof {
                let x = move_list_items(after)[0];
                assert(pseudo_legal(board@, start_of(x@), end_of(x@), flags_of(x@)));
            }
        }
    }
    proof {
        reveal(check_text);
        assert(w@ =~= w0 + check_text(b1@));
        lemma_material_of_pieces(&b1, board);
        assert(undo_material_ok(board));
        lemma_take_undoes_make(b0@, cmove);
    }
    board.take_move();
    proof {
        lemma_wf_of_view(&b0, board);
        lemma_material_of_pieces(&b0, board);
    }
}

/// The moves of a complete list of the pseudo-legal moves of `p`.
pub open spec fn lists_moves(a: Seq<ChessMove>, p: Position) -> bool {
    &&& forall|k: int|
        0 <= k < a.len() ==> #[trigger] pseudo_legal(p, start_of(a[k]@), end_of(a[k]@), flags_of(a[k]@))
    &&& forall|s: int, e: int, f: u16| pseudo_legal(p, s, e, f) ==> exists|k: int|
        0 <= k < a.len() && #[trigger] move_is(a[k], s, e, f)
}

/// All pseudo-legal moves of the board.
fn all_moves(board: &Board) -> (r: MoveList)
    requires
        board.wf(),
    ensures
        lists_moves(move_list_items(r), board@),
{
    let mut list = MoveList::new();
    board.generate_all_moves(&mut list);
    proof {
        let a = move_list_items(list);
        assert(a.subrange(0, 0) =~= Seq::<ChessMove>::empty());
        assert forall|k: int| 0 <= k < a.len() implies #[trigger] pseudo_legal(
            board@,
            start_of(a[k]@),
            end_of(a[k]@),
            flags_of(a[k]@),
        ) by {}
    }
    list
}

/// Whether another listed move of a piece like the moving one starts on the same
/// file and on the same rank.
fn clashes(list: &MoveList, board: &Board, cmove: ChessMove, mp: Piece) -> (r: (bool, bool))
    requires
        lists_moves(move_list_items(*list), board@),
        start_of(cmove@) < 64,
    ensures
        r.0 == file_clash(board@, cmove, mp),
        r.1 == rank_clash(board@, cmove, mp),
{
    let ghost a = move_list_items(*list);
    let ghost p = board@;
    let s = cmove.start().index();
    let n = list.len();
    let mut same_file = false;
    let mut same_rank = false;
    let mut k: usize = 0;
    while k < n
        invariant
            k <= n,
            n == a.len(),
            a == move_list_items(*list),
            p == board@,
            s == start_of(cmove@),
            lists_moves(a, p),
            same_file == exists|j: int|
                0 <= j < k && clash(p, cmove, mp, #[trigger] a[j]) && start_of(a[j]@) % 8 == s % 8,
            same_rank == exists|j: int|
                0 <= j < k && clash(p, cmove, mp, #[trigger] a[j]) && start_of(a[j]@) / 8 == s / 8,
        decreases n - k,
    {
        let x = list.get(k);
        let xs = x.start().index();
        let like = x != cmove && match board.pieces[xs] {
            Some(q) => q == mp,
            None => false,
        };
        proof {
            assert(pseudo_legal(p, start_of(a[k as int]@), end_of(a[k as int]@), flags_of(a[k as int]@)));
        }
        if like && xs % 8 == s % 8 {
            same_file = true;
        }
        if like && xs / 8 == s / 8 {
            same_rank = true;
        }
        k = k + 1;
    }
    proof {
        if file_clash(p, cmove, mp) {
            let x = choose|x: ChessMove| #[trigger] clash(p, cmove, mp, x) && start_of(x@) % 8 == start_of(cmove@) % 8;
            let j = choose|j: int| 0 <= j < a.len() && #[trigger] move_is(a[j], start_of(x@), end_of(x@), flags_of(x@));
            lemma_move_fields(a[j], x);
            assert(clash(p, cmove, mp, a[j]));
        }
        if rank_clash(p, cmove, mp) {
            let x = choose|x: ChessMove| #[trigger] clash(p, cmove, mp, x) && start_of(x@) / 8 == start_of(cmove@) / 8;
            let j = choose|j: int| 0 <= j < a.len() && #[trigger] move_is(a[j], start_of(x@), end_of(x@), flags_of(x@));
            lemma_move_fields(a[j], x);
            assert(clash(p, cmove, mp, a[j]));
        }
    }
    (same_file, same_rank)
}

/// Appends the move in algebraic notation without the check mark, given the
/// moving piece and whether another piece of its kind could move to the same
/// square from the same file or the same rank.
#[verifier::rlimit(100)]
#[verifier::spinoff_prover]
fn push_prefix(w: &mut String, cmove: ChessMove, board: &Board, moving_piece: Piece, same_file: bool, same_rank: bool)
    requires
        start_of(cmove@) < 64,
        board.pieces@.len() == 64,
        board.pieces@[start_of(cmove@)] == Some(moving_piece),
        same_file == file_clash(board@, cmove, moving_piece),
        same_rank == rank_clash(board@, cmove, moving_piece),
    ensures
        final(w)@ == old(w)@ + algebraic_prefix(board@, cmove),
{
    let ghost w0 = w@;
    let ghost p = board@;
    let ghost st = start_of(cmove@);
    let ghost letter = if type_of(moving_piece) != PieceType::Pawn {
        seq![upper_char(type_of(moving_piece))]
    } else {
        Seq::<char>::empty()
    };
    let ghost from = if !same_file {
        seq![file_letter(st % 8)]
    } else if !same_rank {
        seq![rank_digit(st / 8)]
    } else {
        square_text(st)
    };
    let ghost cap = if capture_bit(cmove@) {
        seq!['x']
    } else {
        Seq::<char>::empty()
    };
    let ghost promo = match promoted_of(cmove@) {
        Some(t) => seq![upper_char(t)],
        None => Seq::<char>::empty(),
    };
    assert(algebraic_prefix(p, cmove) == letter + from + cap + square_text(end_of(cmove@)) + promo);
    let s = cmove.start().index();
    if moving_piece.piece_type() != PieceType::Pawn {
        push_char(w, upper(moving_piece.piece_type()));
    }
    assert(w@ =~= w0 + letter);
    if !same_file {
        push_char(w, (97 + (s % 8) as u8) as char);
    } else if !same_rank {
        push_char(w, (49 + (s / 8) as u8) as char);
    } else {
        push_square(w, s);
    }
    assert(w@ =~= w0 + letter + from);
    if cmove.is_capture() {
        push_char(w, 'x');
    }
    assert(w@ =~= w0 + letter + from + cap);
    push_square(w, cmove.end().index());
    assert(w@ =~= w0 + letter + from + cap + square_text(end_of(cmove@)));
    if let Some(promoted) = cmove.promoted() {
        push_char(w, upper(promoted));
    }
    assert(w@ =~= w0 + (letter + from + cap + square_text(end_of(cmove@)) + promo));
}

pub struct AlgebraicNotation;

impl AlgebraicNotation {
    /// Appends the move in algebraic notation. The move is made to see whether it
    /// gives check, and taken back: the board is left as it was.
    #[verifier::rlimit(100)]
    #[verifier::spinoff_prover]
    pub fn write(w: &mut String, cmove: ChessMove, board: &mut Board)
        requires
            old(board).wf(),
            board_can_make(old(board), cmove),
            make_legal(old(board)@, cmove),
            old(board).pieces@[start_of(cmove@)] is Some,
            old(board).fifty_move < usize::MAX,
            old(board).ply < usize::MAX,
        ensures
            final(board).wf(),
            final(board)@ == old(board)@,
            final(board).material[0] == old(board).material[0],
            final(board).material[1] == old(board).material[1],
            final(w)@ == old(w)@ + algebraic_text(old(board)@, cmove),
    {
        let ghost p = board@;
        let ghost w0 = w@;
        let s = cmove.start().index();
        let moving_piece = match board.pieces[s] {
            Some(q) => q,
            None => {
                return;
            },
        };
        let list = all_moves(board);
        let (same_file, same_rank) = clashes(&list, board, cmove, moving_piece);
        push_prefix(w, cmove, board, moving_piece, same_file, same_rank);
        push_check_mark(w, cmove, board);
        proof {
            assert(w@ =~= w0 + algebraic_text(p, cmove));
        }
    }
}

/// The moves of `line` are written as the first strings of `moves` in Smith
/// notation.
pub open spec fn written_as(line: Seq<ChessMove>, moves: Seq<String>) -> bool {
    forall|k: int| 0 <= k < line.len() ==> smith_text(#[trigger] line[k]) == moves[k]@
}

/// A move in Smith notation is its start and end squares, and for a promotion
/// a fifth letter: the FEN letter of the black piece it promotes to (so `n`,
/// `b`, `r` or `q`).
pub proof fn law_smith_promotion_letter(m: ChessMove)
    ensures
        promoted_of(m@) is None ==> smith_text(m).len() == 4,
        promoted_of(m@) matches Some(t) ==> smith_text(m).len() == 5 && piece_from_char(smith_text(m)[4]) == Some(
            piece_of(t, Color::Black),
        ),
{
    if let Some(t) = promoted_of(m@) {
        law_piece_type_letter(t);
    }
}

/// The letter algebraic notation writes for a piece type is the FEN letter of
/// the white piece of that type.
pub proof fn law_algebraic_piece_letter(t: PieceType)
    ensures
        upper_char(t) == crate::types::piece_char(piece_of(t, Color::White)),
{
}

/// A move the board can make, legal, with the given Smith notation.
pub open spec fn smith_match(b: &Board, x: ChessMove, text: Seq<char>) -> bool {
    &&& pseudo_legal(b@, start_of(x@), end_of(x@), flags_of(x@))
    &&& board_can_make(b, x)
    &&& make_legal(b@, x)
    &&& smith_text(x) == text
}

impl Board {
    /// Whether the move can be made, is legal, and is written as `wanted` in
    /// Smith notation. The board is left as it was.
    fn plays_as(&mut self, m: ChessMove, wanted: &String) -> (r: bool)
        requires
            old(self).wf(),
            old(self).fifty_move < usize::MAX,
            old(self).ply < usize::MAX,
        ensures
            final(self).wf(),
            final(self)@ == old(self)@,
            final(self).material[0] == old(self).material[0],
            final(self).material[1] == old(self).material[1],
            r == (board_can_make(old(self), m) && make_legal(old(self)@, m) && smith_text(m) == wanted@),
    {
        if !self.can_make(m) {
            return false;
        }
        let ghost b0 = *self;
        if !self.make_move(m) {
            proof {
                lemma_material_of_pieces(&b0, self);
            }
            return false;
        }
        let ghost b1 = *self;
        proof {
            lemma_material_of_pieces(&b1, self);
            lemma_take_undoes_make(b0@, m);
        }
        self.take_move();
        proof {
            lemma_wf_of_view(&b0, self);
            lemma_material_of_pieces(&b0, self);
        }
        let mut text = String::new();
        SmithNotation::write(&mut text, m);
        proof {
            assert(text@ =~= Seq::<char>::empty() + smith_text(m));
        }
        text == *wanted
    }

    /// Finds the legal move written as `move_str` in Smith notation (as UCI sends
    /// moves). The board is left as it was.
    pub fn find_move(&mut self, move_str: &str) -> (r: Option<ChessMove>)
        requires
            old(self).wf(),
            old(self).fifty_move < usize::MAX,
            old(self).ply < usize::MAX,
        ensures
            final(self).wf(),
            final(self)@ == old(self)@,
            final(self).material[0] == old(self).material[0],
            final(self).material[1] == old(self).material[1],
            r matches Some(m) ==> smith_match(old(self), m, move_str@),
            r is None ==> forall|x: ChessMove| !#[trigger] smith_match(old(self), x, move_str@),
    {
        let wanted = move_str.to_owned();
        let list = all_moves(self);
        let ghost a = move_list_items(list);
        let ghost b0 = *self;
        let n = list.len();
        let mut k: usize = 0;
        while k < n
            invariant
                k <= n,
                n == a.len(),
                a == move_list_items(list),
                lists_moves(a, b0@),
                b0 == *old(self),
                b0.fifty_move < usize::MAX,
                b0.ply < usize::MAX,
                self.wf(),
                self@ == b0@,
                self.material[0] == b0.material[0],
                self.material[1] == b0.material[1],
                wanted@ == move_str@,
                forall|j: int| 0 <= j < k ==> !#[trigger] smith_match(&b0, a[j], move_str@),
            decreases n - k,
        {
            let m = list.get(k);
            let hit = self.plays_as(m, &wanted);
            proof {
                assert(pseudo_legal(b0@, start_of(a[k as int]@), end_of(a[k as int]@), flags_of(a[k as int]@)));
            }
            if hit {
                return Some(m);
            }
            k = k + 1;
        }
        proof {
            assert forall|x: ChessMove| !#[trigger] smith_match(&b0, x, move_str@) by {
                if smith_match(&b0, x, move_str@) {
                    let j = choose|j: int| 0 <= j < a.len() && #[trigger] move_is(a[j], start_of(x@), end_of(x@), flags_of(x@));
                    lemma_move_fields(a[j], x);
                }
            }
        }
        None
    }

    /// Plays the move written as `mv` in Smith notation, if it is a legal move of
    /// the position; returns it, or `None` (the board left as it was).
    fn play_written(&mut self, mv: &String) -> (r: Option<ChessMove>)
        requires
            old(self).wf(),
            old(self).fifty_move < usize::MAX,
            old(self).ply < usize::MAX,
        ensures
            final(self).wf(),
            r matches Some(m) ==> {
                &&& smith_text(m) == mv@
                &&& move_applicable(old(self)@, m)
                &&& make_legal(old(self)@, m)
                &&& final(self)@ == make_spec(old(self)@, m)
                &&& final(self).ply == old(self).ply + 1
                &&& final(self).fifty_move <= old(self).fifty_move + 1
            },
            r is None ==> {
                &&& final(self)@ == old(self)@
                &&& final(self).material[0] == old(self).material[0]
                &&& final(self).material[1] == old(self).material[1]
                &&& forall|x: ChessMove| !#[trigger] smith_match(final(self), x, mv@)
            },
    {
        let found = self.find_move(mv.as_str());
        match found {
            Some(m) => {
                self.make_move(m);
                Some(m)
            },
            None => {
                proof {
                    assert(self.material[self.color.idx()] == old(self).material[old(self).color.idx()]);
                    assert forall|x: ChessMove| !#[trigger] smith_match(self, x, mv@) by {
                        assert(!smith_match(old(self), x, mv@));
                    }
                }
                None
            },
        }
    }

    /// Plays the moves, written in Smith notation, one after the other. Returns
    /// the position in the list of the first move that is not a legal move of the
    /// position reached, where playing stops (the moves before it stay made), or
    /// `None` when all were played.
    #[verifier::rlimit(100)]
    #[verifier::spinoff_prover]
    pub fn play_moves(&mut self, moves: &Vec<String>) -> (r: Option<usize>)
        requires
            old(self).wf(),
            old(self).fifty_move + moves@.len() < usize::MAX,
            old(self).ply + moves@.len() < usize::MAX,
        ensures
            final(self).wf(),
            r matches Some(k) ==> k < moves@.len() && forall|x: ChessMove|
                !#[trigger] smith_match(final(self), x, moves@[k as int]@),
            exists|line: Seq<ChessMove>|
                {
                    &&& line.len() == (match r {
                        Some(k) => k as int,
                        None => moves@.len() as int,
                    })
                    &&& legal_line(old(self)@, line)
                    &&& final(self)@ == after_line(old(self)@, line)
                    &&& written_as(line, moves@)
                },
    {
        let ghost p0 = self@;
        let ghost mut line: Seq<ChessMove> = Seq::empty();
        proof {
            assert(legal_line(p0, line)) by {
                reveal(legal_line);
            }
            assert(after_line(p0, line) == p0) by {
                reveal(after_line);
            }
        }
        let mut i: usize = 0;
        while i < moves.len()
            invariant
                i <= moves@.len(),
                self.wf(),
                self.fifty_move <= old(self).fifty_move + i,
                self.ply == old(self).ply + i,
                old(self).fifty_move + moves@.len() < usize::MAX,
                old(self).ply + moves@.len() < usize::MAX,
                p0 == old(self)@,
                line.len() == i,
                legal_line(p0, line),
                self@ == after_line(p0, line),
                written_as(line, moves@),
            decreases moves@.len() - i,
        {
            let ghost q = self@;
            let found = self.play_written(&moves[i]);
            let m = match found {
                Some(m) => m,
                None => {
                    return Some(i);
                },
            };
            proof {
                lemma_line_step(p0, line, m, q);
                let next = line.push(m);
                assert(written_as(next, moves@)) by {
                    assert forall|k: int| 0 <= k < next.len() implies smith_text(#[trigger] next[k]) == moves@[k]@ by {
                        if k < line.len() {
                            assert(next[k] == line[k]);
                        }
                    }
                }
                line = next;
            }
            i = i + 1;
        }
        None
    }
}

} // verus!
