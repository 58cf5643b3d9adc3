//! Pseudo-legal move generation: every move of the side to move that follows the
//! movement rules of its piece, without looking at whether it leaves the own king
//! in check (making the move answers that).

use crate::board::{Board, Position, attacked_in, occupied, pawn_attacks};
use crate::chess_move::{ChessMove, ChessMoveBuilder, end_of, flags_of, is_promotion_piece, promotion_flags, start_of};
use crate::mattis_bitboard::BitBoard;
use crate::tables::{bb_fn, bishop_attacks, king_pattern, king_step, knight_pattern, knight_step, rook_attacks};
use crate::types::{CastlePerm, CastlePerms, Color, Piece, PieceType, Square64, color_of, opposite, piece_of, type_of};
use smallvec::SmallVec;
use vstd::prelude::*;

pub use crate::tables::{magic_bishop_moves, magic_rook_moves};

verus! {

// ---------------------------------------------------------------------------
// Move lists
// ---------------------------------------------------------------------------

/// A list of moves that lives on the stack while it holds at most 128 moves.
#[verifier::external_body]
pub struct MoveList {
    list: SmallVec<[ChessMove; 128]>,
}

/// The moves a move list holds, in order.
pub uninterp spec fn move_list_items(l: MoveList) -> Seq<ChessMove>;

/// A list short enough that generating moves into it cannot overflow its
/// capacity.
pub open spec fn move_list_room(l: MoveList) -> bool {
    move_list_items(l).len() <= 0x100_0000
}

impl MoveList {
    /// `SmallVec::new`: an empty list.
    #[verifier::external_body]
    pub fn new() -> (r: MoveList)
        ensures
            move_list_items(r) == Seq::<ChessMove>::empty(),
    {
        MoveList { list: SmallVec::new() }
    }

    /// `SmallVec::push`: appends a move. `push` panics only when the capacity it
    /// grows to does not fit in memory, which the bound on the length rules out;
    /// a failed allocation aborts the process and is not stated here.
    #[verifier::external_body]
    pub fn push(&mut self, m: ChessMove)
        requires
            move_list_items(*old(self)).len() < usize::MAX / 8,
        ensures
            move_list_items(*final(self)) == move_list_items(*old(self)).push(m),
    {
        self.list.push(m);
    }

    /// `SmallVec::len`: the number of moves held.
    #[verifier::external_body]
    pub fn len(&self) -> (r: usize)
        ensures
            r == move_list_items(*self).len(),
    {
        self.list.len()
    }

    /// Indexing a `SmallVec`: the move at position `i`.
    #[verifier::external_body]
    pub fn get(&self, i: usize) -> (r: ChessMove)
        requires
            i < move_list_items(*self).len(),
        ensures
            r == move_list_items(*self)[i as int],
    {
        self.list[i]
    }

    /// `SmallVec::swap_remove`: removes the move at position `i` and returns it;
    /// the last move takes its place. It panics when `i` is out of range.
    #[verifier::external_body]
    pub fn swap_remove(&mut self, i: usize) -> (r: ChessMove)
        requires
            i < move_list_items(*old(self)).len(),
        ensures
            r == move_list_items(*old(self))[i as int],
            move_list_items(*final(self)) == move_list_items(*old(self)).update(
                i as int,
                move_list_items(*old(self)).last(),
            ).drop_last(),
    {
        self.list.swap_remove(i)
    }

    /// `contains` of the slice of a `SmallVec`: whether the list holds the move.
    #[verifier::external_body]
    pub fn contains(&self, m: &ChessMove) -> (r: bool)
        ensures
            r == move_list_items(*self).contains(*m),
    {
        self.list.contains(m)
    }
}

// ---------------------------------------------------------------------------
// Moves by their fields
// ---------------------------------------------------------------------------

/// Whether the move has these start square, end square and flags.
pub open spec fn move_is(m: ChessMove, s: int, e: int, f: u16) -> bool {
    start_of(m@) == s && end_of(m@) == e && flags_of(m@) == f
}

/// Whether the moves of `a` from position `from` on include one with these fields.
pub open spec fn has_move(a: Seq<ChessMove>, from: int, s: int, e: int, f: u16) -> bool {
    exists|k: int| from <= k < a.len() && #[trigger] move_is(a[k], s, e, f)
}

/// The moves of `a` from position `from` on are all different.
pub open spec fn distinct_from(a: Seq<ChessMove>, from: int) -> bool {
    forall|k1: int, k2: int| from <= k1 < k2 < a.len() ==> a[k1] != a[k2]
}

/// `b` is `a` with moves appended.
pub open spec fn extends(b: Seq<ChessMove>, a: Seq<ChessMove>) -> bool {
    b.len() >= a.len() && b.subrange(0, a.len() as int) == a
}

proof fn lemma_fields_bv(x: u16, y: u16)
    by (bit_vector)
    ensures
        (x & 0x3F == y & 0x3F && (x & 0xFC0) >> 6 == (y & 0xFC0) >> 6 && x & 0xF000 == y & 0xF000) ==> x == y,
{
}

/// A move is determined by its start square, end square and flags.
pub proof fn lemma_move_fields(a: ChessMove, b: ChessMove)
    ensures
        (start_of(a@) == start_of(b@) && end_of(a@) == end_of(b@) && flags_of(a@) == flags_of(b@)) ==> a == b,
{
    lemma_fields_bv(a@, b@);
    if a@ == b@ {
        ChessMove::lemma_view_eq(a, b);
    }
}

proof fn lemma_base_bv(s: u16, e: u16)
    by (bit_vector)
    requires
        s < 64,
        e < 64,
    ensures
        (((0u16 & !0x3Fu16) | (s & 0x3F)) & !0xFC0u16) | ((e & 0x3F) << 6u16) < 0x1000,
        0u16 | 0x4000u16 == 0x4000u16,
        forall|b: u16| b < 0x1000 ==> #[trigger] (b | 0x4000u16) > 0x3FFF,
        forall|b: u16| b < 0x1000 ==> #[trigger] (b & 0xF000u16) == 0,
        (0u16 | 0x8000u16) == 0x8000u16,
        (0u16 | 0x9000u16) == 0x9000u16,
        (0u16 | 0xA000u16) == 0xA000u16,
        (0u16 | 0xB000u16) == 0xB000u16,
        (0x4000u16 | 0x8000u16) == 0xC000u16,
        (0x4000u16 | 0x9000u16) == 0xD000u16,
        (0x4000u16 | 0xA000u16) == 0xE000u16,
        (0x4000u16 | 0xB000u16) == 0xF000u16,
{
}

proof fn lemma_low_bits_bv(x: u16, y: u16)
    by (bit_vector)
    ensures
        x & 0xFFF == y & 0xFFF ==> x & 0x3F == y & 0x3F && (x & 0xFC0) >> 6 == (y & 0xFC0) >> 6,
{
}

/// Setting flags keeps the squares of a move.
proof fn lemma_low_bits(x: u16, y: u16)
    ensures
        x & 0xFFF == y & 0xFFF ==> start_of(x) == start_of(y) && end_of(x) == end_of(y),
{
    lemma_low_bits_bv(x, y);
}

/// The builder of the move from `start` to `end`, before any flag is set.
fn base_move(start: Square64, end: Square64) -> (b: ChessMoveBuilder)
    requires
        start.is_valid(),
        end.is_valid(),
    ensures
        b@ < 0x1000,
        start_of(b@) == start.idx(),
        end_of(b@) == end.idx(),
        flags_of(b@) == 0,
{
    let b = ChessMove::build().start(start).end(end);
    proof {
        lemma_base_bv(start.idx() as u16, end.idx() as u16);
    }
    b
}

/// The quiet move, or the capture when `capture` holds, from `start` to `end`.
fn simple_move(start: Square64, end: Square64, capture: bool) -> (m: ChessMove)
    requires
        start.is_valid(),
        end.is_valid(),
        start != end,
    ensures
        move_is(m, start.idx(), end.idx(), if capture { 0x4000u16 } else { 0u16 }),
{
    let b = base_move(start, end);
    proof {
        lemma_base_bv(start.idx() as u16, end.idx() as u16);
        crate::types::lemma_square_index(start, end);
    }
    if capture {
        let c = b.capture();
        proof {
            lemma_low_bits(c@, b@);
        }
        c.finish()
    } else {
        b.finish()
    }
}

/// The flags of a move to `t`: a capture when `t` is occupied.
pub open spec fn cap_flag(p: Seq<Option<Piece>>, t: int) -> u16 {
    if p[t].is_some() {
        0x4000
    } else {
        0
    }
}

/// Whether `m` goes from `s` to a square of `targets`, as a capture exactly when
/// that square is occupied (and only to occupied squares with `captures_only`).
pub open spec fn target_move(p: Seq<Option<Piece>>, s: int, targets: BitBoard, captures_only: bool, m: ChessMove) -> bool {
    let e = end_of(m@);
    &&& start_of(m@) == s
    &&& targets.has(e)
    &&& flags_of(m@) == cap_flag(p, e)
    &&& (captures_only ==> p[e].is_some())
}

impl Board {
    /// Appends, for each square of `targets` in increasing order, the move from
    /// `start` to it, a capture when the square is occupied; with `captures_only`,
    /// the captures alone.
    fn push_targets(&self, list: &mut MoveList, start: Square64, targets: BitBoard, captures_only: bool)
        requires
            start.is_valid(),
            !targets.has(start.idx()),
            move_list_items(*old(list)).len() + 64 < 0x1000_0000,
        ensures
            extends(move_list_items(*final(list)), move_list_items(*old(list))),
            move_list_items(*final(list)).len() <= move_list_items(*old(list)).len() + 64,
            forall|k: int|
                move_list_items(*old(list)).len() <= k < move_list_items(*final(list)).len() ==> target_move(
                    self.pieces@,
                    start.idx(),
                    targets,
                    captures_only,
                    #[trigger] move_list_items(*final(list))[k],
                ),
            forall|t: int|
                0 <= t < 64 && targets.has(t) && (captures_only ==> self.pieces@[t].is_some()) ==> has_move(
                    move_list_items(*final(list)),
                    move_list_items(*old(list)).len() as int,
                    start.idx(),
                    t,
                    cap_flag(self.pieces@, t),
                ),
            forall|k1: int, k2: int|
                move_list_items(*old(list)).len() <= k1 < k2 < move_list_items(*final(list)).len() ==> end_of(
                    move_list_items(*final(list))[k1]@,
                ) < end_of(move_list_items(*final(list))[k2]@),
    {
        let ghost a0 = move_list_items(*list);
        let ends = targets.iter_bit_indices();
        proof {
            assert(ends@.len() <= 64) by {
                lemma_sorted_squares_len(ends@);
            }
        }
        proof {
            assert(a0.subrange(0, a0.len() as int) =~= a0);
        }
        let mut i: usize = 0;
        while i < ends.len()
            invariant
                0 <= i <= ends@.len() <= 64,
                start.is_valid(),
                !targets.has(start.idx()),
                a0.len() + 64 < 0x1000_0000,
                forall|k: int| 0 <= k < ends@.len() ==> (#[trigger] ends@[k]).is_valid(),
                forall|k: int| 0 <= k < ends@.len() ==> targets.has(#[trigger] ends@[k].idx()),
                forall|k1: int, k2: int| 0 <= k1 < k2 < ends@.len() ==> ends@[k1].idx() < ends@[k2].idx(),
                extends(move_list_items(*list), a0),
                move_list_items(*list).len() <= a0.len() + i,
                forall|k: int|
                    a0.len() <= k < move_list_items(*list).len() ==> target_move(
                        self.pieces@,
                        start.idx(),
                        targets,
                        captures_only,
                        #[trigger] move_list_items(*list)[k],
                    ),
                forall|k: int|
                    a0.len() <= k < move_list_items(*list).len() ==> exists|j: int|
                        0 <= j < i && end_of(#[trigger] move_list_items(*list)[k]@) == ends@[j].idx(),
                forall|j: int|
                    0 <= j < i && (captures_only ==> self.pieces@[ends@[j].idx()].is_some()) ==> has_move(
                        move_list_items(*list),
                        a0.len() as int,
                        start.idx(),
                        #[trigger] ends@[j].idx(),
                        cap_flag(self.pieces@, ends@[j].idx()),
                    ),
                forall|k1: int, k2: int|
                    a0.len() <= k1 < k2 < move_list_items(*list).len() ==> end_of(move_list_items(*list)[k1]@)
                        < end_of(move_list_items(*list)[k2]@),
            decreases ends@.len() - i,
        {
            let end = ends[i];
            let capture = self.pieces[end.index()];
            if capture.is_some() || !captures_only {
                let m = simple_move(start, end, capture.is_some());
                let ghost before = move_list_items(*list);
                list.push(m);
                proof {
                    let after = move_list_items(*list);
                    assert(after[before.len() as int] == m);
                    assert(after.subrange(0, a0.len() as int) =~= before.subrange(0, a0.len() as int));
                    assert forall|k: int| a0.len() <= k < after.len() implies exists|j: int|
                        0 <= j < i + 1 && end_of(#[trigger] after[k]@) == ends@[j].idx() by {
                        if k == before.len() {
                            assert(end_of(after[k]@) == ends@[i as int].idx());
                        } else {
                            assert(after[k] == before[k]);
                        }
                    }
                    assert forall|k1: int, k2: int|
                        a0.len() <= k1 < k2 < after.len() implies end_of(after[k1]@) < end_of(after[k2]@) by {
                        if k2 == before.len() {
                            assert(after[k1] == before[k1]);
                            let j = choose|j: int| 0 <= j < i && end_of(before[k1]@) == ends@[j].idx();
                        } else {
                            assert(after[k1] == before[k1]);
                            assert(after[k2] == before[k2]);
                        }
                    }
                    assert forall|j: int|
                        0 <= j < i + 1 && (captures_only ==> self.pieces@[ends@[j].idx()].is_some()) implies has_move(
                            after,
                            a0.len() as int,
                            start.idx(),
                            #[trigger] ends@[j].idx(),
                            cap_flag(self.pieces@, ends@[j].idx()),
                        ) by {
                        if j == i {
                            assert(move_is(after[before.len() as int], start.idx(), ends@[j].idx(), cap_flag(self.pieces@, ends@[j].idx())));
                        } else {
                            let k = choose|k: int| a0.len() <= k < before.len() && #[trigger] move_is(before[k], start.idx(), ends@[j].idx(), cap_flag(self.pieces@, ends@[j].idx()));
                            assert(after[k] == before[k]);
                        }
                    }
                }
            }
            i = i + 1;
        }
    }
}

/// A strictly increasing sequence of squares holds at most 64 of them.
proof fn lemma_sorted_squares_len(s: Seq<Square64>)
    requires
        forall|k: int| 0 <= k < s.len() ==> (#[trigger] s[k]).is_valid(),
        forall|k1: int, k2: int| 0 <= k1 < k2 < s.len() ==> s[k1].idx() < s[k2].idx(),
    ensures
        s.len() <= 64,
{
    if s.len() > 64 {
        assert forall|k: int| 0 <= k < s.len() implies #[trigger] s[k].idx() >= k by {
            lemma_sorted_index_bound(s, k);
        }
        crate::types::lemma_square_index(s[64], s[64]);
        assert(s[64].idx() >= 64);
    }
}

proof fn lemma_sorted_index_bound(s: Seq<Square64>, k: int)
    requires
        0 <= k < s.len(),
        forall|k1: int, k2: int| 0 <= k1 < k2 < s.len() ==> s[k1].idx() < s[k2].idx(),
    ensures
        s[k].idx() >= k,
    decreases k,
{
    if k > 0 {
        lemma_sorted_index_bound(s, k - 1);
        crate::types::lemma_square_index(s[k], s[k]);
        crate::types::lemma_square_index(s[k - 1], s[k - 1]);
    } else {
        crate::types::lemma_square_index(s[k], s[k]);
    }
}

/// Whether a piece of color `c` stands on `t`.
pub open spec fn own(p: Seq<Option<Piece>>, t: int, c: Color) -> bool {
    p[t] matches Some(q) && color_of(q) == c
}

/// The moves of `a` from position `from` on differ in their start or end square.
pub open spec fn pairs_distinct(a: Seq<ChessMove>, from: int) -> bool {
    forall|k1: int, k2: int|
        from <= k1 < k2 < a.len() ==> start_of(a[k1]@) != start_of(a[k2]@) || end_of(a[k1]@) != end_of(a[k2]@)
}

/// A knight move of color `c`.
pub open spec fn knight_move(p: Seq<Option<Piece>>, c: Color, s: int, e: int, f: u16) -> bool {
    &&& 0 <= s < 64
    &&& 0 <= e < 64
    &&& p[s] == Some(piece_of(PieceType::Knight, c))
    &&& knight_step(s, e)
    &&& !own(p, e, c)
    &&& f == cap_flag(p, e)
}

impl Board {
    /// Appends the knight moves of the side to move (only captures with
    /// `captures_only`).
    fn generate_knight_moves(&self, list: &mut MoveList, captures_only: bool)
        requires
            self.bitboards_wf(),
            move_list_items(*old(list)).len() <= 0x200_0000,
        ensures
            extends(move_list_items(*final(list)), move_list_items(*old(list))),
            move_list_items(*final(list)).len() <= move_list_items(*old(list)).len() + 4096,
            forall|k: int|
                move_list_items(*old(list)).len() <= k < move_list_items(*final(list)).len() ==> {
                    let m = #[trigger] move_list_items(*final(list))[k];
                    &&& knight_move(self.pieces@, self.color, start_of(m@), end_of(m@), flags_of(m@))
                    &&& (captures_only ==> self.pieces@[end_of(m@)].is_some())
                },
            forall|s: int, e: int|
                knight_move(self.pieces@, self.color, s, e, cap_flag(self.pieces@, e)) && (captures_only
                    ==> self.pieces@[e].is_some()) ==> has_move(
                    move_list_items(*final(list)),
                    move_list_items(*old(list)).len() as int,
                    s,
                    e,
                    cap_flag(self.pieces@, e),
                ),
            pairs_distinct(move_list_items(*final(list)), move_list_items(*old(list)).len() as int),
    {
        let ghost a0 = move_list_items(*list);
        let ghost c = self.color;
        let knight = Piece::new(PieceType::Knight, self.color);
        let knights = self.bitboards[knight.index()];
        let own_pieces = self.bb_all_per_color[self.color.index()];
        let starts = knights.iter_bit_indices();
        proof {
            lemma_sorted_squares_len(starts@);
            assert(a0.subrange(0, a0.len() as int) =~= a0);
        }
        let mut i: usize = 0;
        while i < starts.len()
            invariant
                0 <= i <= starts@.len() <= 64,
                self.bitboards_wf(),
                c == self.color,
                knight == piece_of(PieceType::Knight, c),
                knights == self.bitboards[knight.idx()],
                own_pieces == self.bb_all_per_color[c.idx()],
                a0.len() <= 0x200_0000,
                forall|k: int| 0 <= k < starts@.len() ==> (#[trigger] starts@[k]).is_valid(),
                forall|k: int| 0 <= k < starts@.len() ==> knights.has(#[trigger] starts@[k].idx()),
                forall|k1: int, k2: int| 0 <= k1 < k2 < starts@.len() ==> starts@[k1].idx() < starts@[k2].idx(),
                forall|j: int| 0 <= j < 64 && knights.has(j) ==> exists|k: int| 0 <= k < starts@.len() && #[trigger] starts@[k].idx() == j,
                extends(move_list_items(*list), a0),
                move_list_items(*list).len() <= a0.len() + 64 * i,
                forall|k: int|
                    a0.len() <= k < move_list_items(*list).len() ==> {
                        let m = #[trigger] move_list_items(*list)[k];
                        &&& knight_move(self.pieces@, c, start_of(m@), end_of(m@), flags_of(m@))
                        &&& (captures_only ==> self.pieces@[end_of(m@)].is_some())
                        &&& exists|j: int| 0 <= j < i && start_of(m@) == starts@[j].idx()
                    },
                forall|j: int, e: int|
                    0 <= j < i && #[trigger] knight_move(self.pieces@, c, starts@[j].idx(), e, cap_flag(self.pieces@, e))
                        && (captures_only ==> self.pieces@[e].is_some()) ==> has_move(
                        move_list_items(*list),
                        a0.len() as int,
                        starts@[j].idx(),
                        e,
                        cap_flag(self.pieces@, e),
                    ),
                pairs_distinct(move_list_items(*list), a0.len() as int),
            decreases starts@.len() - i,
        {
            let start = starts[i];
            let targets = knight_pattern(start).without(own_pieces);
            let ghost before = move_list_items(*list);
            proof {
                crate::tables::lemma_sq_coords(start.idx());
            }
            self.push_targets(list, start, targets, captures_only);
            proof {
                let after = move_list_items(*list);
                let s = start.idx();
                assert forall|k: int| 0 <= k < before.len() implies after[k] == before[k] by {
                    assert(after.subrange(0, before.len() as int)[k] == after[k]);
                }
                assert(after.subrange(0, a0.len() as int) =~= a0) by {
                    assert forall|k: int| 0 <= k < a0.len() implies after[k] == a0[k] by {
                        assert(before.subrange(0, a0.len() as int)[k] == before[k]);
                    }
                }
                assert forall|k: int| a0.len() <= k < after.len() implies {
                    let m = #[trigger] after[k];
                    &&& knight_move(self.pieces@, c, start_of(m@), end_of(m@), flags_of(m@))
                    &&& (captures_only ==> self.pieces@[end_of(m@)].is_some())
                    &&& exists|j: int| 0 <= j < i + 1 && start_of(m@) == starts@[j].idx()
                } by {
                    if k >= before.len() {
                        let m = after[k];
                        assert(target_move(self.pieces@, s, targets, captures_only, m));
                        assert(start_of(m@) == starts@[i as int].idx());
                    } else {
                        assert(after[k] == before[k]);
                    }
                }
                assert forall|j: int, e: int|
                    0 <= j < i + 1 && #[trigger] knight_move(self.pieces@, c, starts@[j].idx(), e, cap_flag(self.pieces@, e))
                        && (captures_only ==> self.pieces@[e].is_some()) implies has_move(
                        after,
                        a0.len() as int,
                        starts@[j].idx(),
                        e,
                        cap_flag(self.pieces@, e),
                    ) by {
                    if j == i {
                        assert(targets.has(e));
                        assert(has_move(after, before.len() as int, s, e, cap_flag(self.pieces@, e)));
                        let k = choose|k: int| before.len() <= k < after.len() && #[trigger] move_is(after[k], s, e, cap_flag(self.pieces@, e));
                    } else {
                        let k = choose|k: int| a0.len() <= k < before.len() && #[trigger] move_is(before[k], starts@[j].idx(), e, cap_flag(self.pieces@, e));
                        assert(after[k] == before[k]);
                    }
                }
                assert forall|k1: int, k2: int| a0.len() <= k1 < k2 < after.len() implies start_of(after[k1]@) != start_of(after[k2]@)
                    || end_of(after[k1]@) != end_of(after[k2]@) by {
                    if k2 >= before.len() && k1 < before.len() {
                        assert(after[k1] == before[k1]);
                        let m1 = before[k1];
                        let j = choose|j: int| 0 <= j < i && start_of(m1@) == starts@[j].idx();
                        assert(target_move(self.pieces@, s, targets, captures_only, after[k2]));
                    } else if k2 < before.len() {
                        assert(after[k1] == before[k1]);
                        assert(after[k2] == before[k2]);
                    }
                }
            }
            i = i + 1;
        }
        proof {
            assert forall|s: int, e: int|
                knight_move(self.pieces@, c, s, e, cap_flag(self.pieces@, e)) && (captures_only ==> self.pieces@[e].is_some())
                    implies has_move(move_list_items(*list), a0.len() as int, s, e, cap_flag(self.pieces@, e)) by {
                assert(knights.has(s));
                let j = choose|j: int| 0 <= j < starts@.len() && #[trigger] starts@[j].idx() == s;
            }
        }
    }
}

/// A king move of color `c`, whose king stands on `ks`.
pub open spec fn king_move(p: Seq<Option<Piece>>, c: Color, ks: int, s: int, e: int, f: u16) -> bool {
    &&& s == ks
    &&& 0 <= e < 64
    &&& king_step(s, e)
    &&& !own(p, e, c)
    &&& f == cap_flag(p, e)
}

/// A move of a rook or queen (`diagonal` false) or of a bishop or queen
/// (`diagonal` true) of color `c`.
pub open spec fn slider_move(p: Seq<Option<Piece>>, c: Color, diagonal: bool, s: int, e: int, f: u16) -> bool {
    let kind = if diagonal {
        PieceType::Bishop
    } else {
        PieceType::Rook
    };
    &&& 0 <= s < 64
    &&& 0 <= e < 64
    &&& (p[s] == Some(piece_of(kind, c)) || p[s] == Some(piece_of(PieceType::Queen, c)))
    &&& (if diagonal {
        bishop_attacks(s, occupied(p), e)
    } else {
        rook_attacks(s, occupied(p), e)
    })
    &&& !own(p, e, c)
    &&& f == cap_flag(p, e)
}

impl Board {
    /// Appends the king moves of the side to move (only captures with
    /// `captures_only`).
    fn generate_king_moves(&self, list: &mut MoveList, captures_only: bool)
        requires
            self.bitboards_wf(),
            self.fields_wf(),
            move_list_items(*old(list)).len() <= 0x200_0000,
        ensures
            extends(move_list_items(*final(list)), move_list_items(*old(list))),
            move_list_items(*final(list)).len() <= move_list_items(*old(list)).len() + 64,
            forall|k: int|
                move_list_items(*old(list)).len() <= k < move_list_items(*final(list)).len() ==> {
                    let m = #[trigger] move_list_items(*final(list))[k];
                    &&& king_move(self.pieces@, self.color, self.king_square[self.color.idx()].idx(), start_of(m@), end_of(m@), flags_of(m@))
                    &&& (captures_only ==> self.pieces@[end_of(m@)].is_some())
                },
            forall|s: int, e: int|
                king_move(self.pieces@, self.color, self.king_square[self.color.idx()].idx(), s, e, cap_flag(self.pieces@, e)) && (captures_only
                    ==> self.pieces@[e].is_some()) ==> has_move(
                    move_list_items(*final(list)),
                    move_list_items(*old(list)).len() as int,
                    s,
                    e,
                    cap_flag(self.pieces@, e),
                ),
            pairs_distinct(move_list_items(*final(list)), move_list_items(*old(list)).len() as int),
    {
        let start = self.king_square[self.color.index()];
        let targets = king_pattern(start).without(self.bb_all_per_color[self.color.index()]);
        let ghost a0 = move_list_items(*list);
        self.push_targets(list, start, targets, captures_only);
        proof {
            let after = move_list_items(*list);
            let s = start.idx();
            assert forall|k: int| a0.len() <= k < after.len() implies {
                let m = #[trigger] after[k];
                &&& king_move(self.pieces@, self.color, s, start_of(m@), end_of(m@), flags_of(m@))
                &&& (captures_only ==> self.pieces@[end_of(m@)].is_some())
            } by {
                assert(target_move(self.pieces@, s, targets, captures_only, after[k]));
            }
            assert forall|s1: int, e: int|
                king_move(self.pieces@, self.color, s, s1, e, cap_flag(self.pieces@, e)) && (captures_only ==> self.pieces@[e].is_some())
                    implies has_move(after, a0.len() as int, s1, e, cap_flag(self.pieces@, e)) by {
                assert(targets.has(e));
            }
            assert forall|k1: int, k2: int| a0.len() <= k1 < k2 < after.len() implies start_of(after[k1]@) != start_of(after[k2]@)
                || end_of(after[k1]@) != end_of(after[k2]@) by {
            }
        }
    }
}

impl Board {
    /// Appends the moves of the rooks and queens (`diagonal` false) or of the
    /// bishops and queens (`diagonal` true) of the side to move: the captures
    /// first, then the quiet moves (left out with `captures_only`).
    fn generate_slider_moves(&self, list: &mut MoveList, captures_only: bool, diagonal: bool)
        requires
            self.bitboards_wf(),
            move_list_items(*old(list)).len() <= 0x200_0000,
        ensures
            extends(move_list_items(*final(list)), move_list_items(*old(list))),
            move_list_items(*final(list)).len() <= move_list_items(*old(list)).len() + 8192,
            forall|k: int|
                move_list_items(*old(list)).len() <= k < move_list_items(*final(list)).len() ==> {
                    let m = #[trigger] move_list_items(*final(list))[k];
                    &&& slider_move(self.pieces@, self.color, diagonal, start_of(m@), end_of(m@), flags_of(m@))
                    &&& (captures_only ==> self.pieces@[end_of(m@)].is_some())
                },
            forall|s: int, e: int|
                slider_move(self.pieces@, self.color, diagonal, s, e, cap_flag(self.pieces@, e)) && (captures_only
                    ==> self.pieces@[e].is_some()) ==> has_move(
                    move_list_items(*final(list)),
                    move_list_items(*old(list)).len() as int,
                    s,
                    e,
                    cap_flag(self.pieces@, e),
                ),
            pairs_distinct(move_list_items(*final(list)), move_list_items(*old(list)).len() as int),
    {
        let ghost a0 = move_list_items(*list);
        let ghost c = self.color;
        let kind = if diagonal {
            PieceType::Bishop
        } else {
            PieceType::Rook
        };
        let slider_piece = Piece::new(kind, self.color);
        let queen_piece = Piece::new(PieceType::Queen, self.color);
        let knights = self.bitboards[slider_piece.index()].union(self.bitboards[queen_piece.index()]);
        let opponents = self.bb_all_per_color[self.color.flipped().index()];
        let starts = knights.iter_bit_indices();
        proof {
            assert(bb_fn(self.bb_all) =~= occupied(self.pieces@));
            crate::types::lemma_flip_involution(c);
        }
        proof {
            lemma_sorted_squares_len(starts@);
            assert(a0.subrange(0, a0.len() as int) =~= a0);
        }
        let mut i: usize = 0;
        while i < starts.len()
            invariant
                0 <= i <= starts@.len() <= 64,
                self.bitboards_wf(),
                c == self.color,
                slider_piece == piece_of(kind, c),
                queen_piece == piece_of(PieceType::Queen, c),
                kind == (if diagonal { PieceType::Bishop } else { PieceType::Rook }),
                forall|j: int| 0 <= j < 64 ==> knights.has(j) == (self.bitboards[slider_piece.idx()].has(j) || self.bitboards[queen_piece.idx()].has(j)),
                opponents == self.bb_all_per_color[opposite(c).idx()],
                bb_fn(self.bb_all) == occupied(self.pieces@),
                a0.len() <= 0x200_0000,
                forall|k: int| 0 <= k < starts@.len() ==> (#[trigger] starts@[k]).is_valid(),
                forall|k: int| 0 <= k < starts@.len() ==> knights.has(#[trigger] starts@[k].idx()),
                forall|k1: int, k2: int| 0 <= k1 < k2 < starts@.len() ==> starts@[k1].idx() < starts@[k2].idx(),
                forall|j: int| 0 <= j < 64 && knights.has(j) ==> exists|k: int| 0 <= k < starts@.len() && #[trigger] starts@[k].idx() == j,
                extends(move_list_items(*list), a0),
                move_list_items(*list).len() <= a0.len() + 128 * i,
                forall|k: int|
                    a0.len() <= k < move_list_items(*list).len() ==> {
                        let m = #[trigger] move_list_items(*list)[k];
                        &&& slider_move(self.pieces@, c, diagonal, start_of(m@), end_of(m@), flags_of(m@))
                        &&& (captures_only ==> self.pieces@[end_of(m@)].is_some())
                        &&& exists|j: int| 0 <= j < i && start_of(m@) == starts@[j].idx()
                    },
                forall|j: int, e: int|
                    0 <= j < i && #[trigger] slider_move(self.pieces@, c, diagonal, starts@[j].idx(), e, cap_flag(self.pieces@, e))
                        && (captures_only ==> self.pieces@[e].is_some()) ==> has_move(
                        move_list_items(*list),
                        a0.len() as int,
                        starts@[j].idx(),
                        e,
                        cap_flag(self.pieces@, e),
                    ),
                pairs_distinct(move_list_items(*list), a0.len() as int),
            decreases starts@.len() - i,
        {
            let start = starts[i];
            let attack_pattern = if diagonal {
                magic_bishop_moves(start, self.bb_all)
            } else {
                magic_rook_moves(start, self.bb_all)
            };
            let quiet_moves = attack_pattern.without(self.bb_all);
            let captures = attack_pattern.intersection(opponents);
            let ghost before = move_list_items(*list);
            proof {
                crate::tables::lemma_sq_coords(start.idx());
                crate::tables::lemma_no_self_attack(start.idx(), occupied(self.pieces@));
            }
            self.push_targets(list, start, captures, false);
            let ghost mid = move_list_items(*list);
            if !captures_only {
                self.push_targets(list, start, quiet_moves, false);
            }
            proof {
                let after = move_list_items(*list);
                let s = start.idx();
                assert forall|k: int| 0 <= k < before.len() implies mid[k] == before[k] by {
                    assert(mid.subrange(0, before.len() as int)[k] == mid[k]);
                }
                assert forall|k: int| 0 <= k < mid.len() implies after[k] == mid[k] by {
                    assert(after.subrange(0, mid.len() as int)[k] == after[k]);
                }
                assert(after.subrange(0, a0.len() as int) =~= a0) by {
                    assert forall|k: int| 0 <= k < a0.len() implies after[k] == a0[k] by {
                        assert(before.subrange(0, a0.len() as int)[k] == before[k]);
                    }
                }
                assert forall|k: int| a0.len() <= k < after.len() implies {
                    let m = #[trigger] after[k];
                    &&& slider_move(self.pieces@, c, diagonal, start_of(m@), end_of(m@), flags_of(m@))
                    &&& (captures_only ==> self.pieces@[end_of(m@)].is_some())
                    &&& exists|j: int| 0 <= j < i + 1 && start_of(m@) == starts@[j].idx()
                } by {
                    if k >= mid.len() {
                        let m = after[k];
                        assert(target_move(self.pieces@, s, quiet_moves, false, m));
                        assert(start_of(m@) == starts@[i as int].idx());
                    } else if k >= before.len() {
                        assert(after[k] == mid[k]);
                        let m = after[k];
                        assert(target_move(self.pieces@, s, captures, false, m));
                        assert(start_of(m@) == starts@[i as int].idx());
                    } else {
                        assert(after[k] == before[k]);
                    }
                }
                assert forall|j: int, e: int|
                    0 <= j < i + 1 && #[trigger] slider_move(self.pieces@, c, diagonal, starts@[j].idx(), e, cap_flag(self.pieces@, e))
                        && (captures_only ==> self.pieces@[e].is_some()) implies has_move(
                        after,
                        a0.len() as int,
                        starts@[j].idx(),
                        e,
                        cap_flag(self.pieces@, e),
                    ) by {
                    if j == i {
                        if self.pieces@[e].is_some() {
                            assert(captures.has(e));
                            assert(has_move(mid, before.len() as int, s, e, cap_flag(self.pieces@, e)));
                            let k = choose|k: int| before.len() <= k < mid.len() && #[trigger] move_is(mid[k], s, e, cap_flag(self.pieces@, e));
                            assert(after[k] == mid[k]);
                        } else {
                            assert(quiet_moves.has(e));
                            assert(has_move(after, mid.len() as int, s, e, cap_flag(self.pieces@, e)));
                            let k = choose|k: int| mid.len() <= k < after.len() && #[trigger] move_is(after[k], s, e, cap_flag(self.pieces@, e));
                        }
                    } else {
                        let k = choose|k: int| a0.len() <= k < before.len() && #[trigger] move_is(before[k], starts@[j].idx(), e, cap_flag(self.pieces@, e));
                        assert(after[k] == before[k]);
                    }
                }
                assert forall|k1: int, k2: int| a0.len() <= k1 < k2 < after.len() implies start_of(after[k1]@) != start_of(after[k2]@)
                    || end_of(after[k1]@) != end_of(after[k2]@) by {
                    if k2 >= before.len() && k1 < before.len() {
                        assert(after[k1] == before[k1]);
                        let m1 = before[k1];
                        let j = choose|j: int| 0 <= j < i && start_of(m1@) == starts@[j].idx();
                        if k2 >= mid.len() {
                            assert(target_move(self.pieces@, s, quiet_moves, false, after[k2]));
                        } else {
                            assert(after[k2] == mid[k2]);
                            assert(target_move(self.pieces@, s, captures, false, after[k2]));
                        }
                    } else if k1 >= before.len() && k1 < mid.len() && k2 >= mid.len() {
                        assert(after[k1] == mid[k1]);
                        assert(target_move(self.pieces@, s, captures, false, after[k1]));
                        assert(target_move(self.pieces@, s, quiet_moves, false, after[k2]));
                    } else if k1 >= before.len() && k2 < mid.len() {
                        assert(after[k1] == mid[k1]);
                        assert(after[k2] == mid[k2]);
                    } else if k2 < before.len() {
                        assert(after[k1] == before[k1]);
                        assert(after[k2] == before[k2]);
                    }
                }
            }
            i = i + 1;
        }
        proof {
            assert forall|s: int, e: int|
                slider_move(self.pieces@, c, diagonal, s, e, cap_flag(self.pieces@, e)) && (captures_only ==> self.pieces@[e].is_some())
                    implies has_move(move_list_items(*list), a0.len() as int, s, e, cap_flag(self.pieces@, e)) by {
                assert(knights.has(s));
                let j = choose|j: int| 0 <= j < starts@.len() && #[trigger] starts@[j].idx() == s;
            }
        }
    }
}

// ---------------------------------------------------------------------------
// Pawns
// ---------------------------------------------------------------------------

/// The rank a pawn of color `c` promotes on.
pub open spec fn promo_rank(c: Color) -> int {
    if c == Color::White {
        7
    } else {
        0
    }
}

/// The flags of the four promotions (knight, bishop, rook, queen) of a quiet
/// move (`base` 0) or a capture (`base` 0x4000).
pub open spec fn promo_flag(f: u16, base: u16) -> bool {
    if base == 0x4000 {
        f == 0xC000 || f == 0xD000 || f == 0xE000 || f == 0xF000
    } else {
        f == 0x8000 || f == 0x9000 || f == 0xA000 || f == 0xB000
    }
}

/// The flags of a pawn move with flags `base` to `e`: one of the promotions when
/// `e` is on the promotion rank of `c`, `base` otherwise.
pub open spec fn pawn_flag(f: u16, base: u16, e: int, c: Color) -> bool {
    if e / 8 == promo_rank(c) {
        promo_flag(f, base)
    } else {
        f == base
    }
}

/// The moves of `a` from position `from` on differ in start square, end square
/// or flags.
pub open spec fn fields_distinct(a: Seq<ChessMove>, from: int) -> bool {
    forall|k1: int, k2: int|
        from <= k1 < k2 < a.len() ==> !(start_of(a[k1]@) == start_of(a[k2]@) && end_of(a[k1]@) == end_of(
            a[k2]@,
        ) && flags_of(a[k1]@) == flags_of(a[k2]@))
}

/// Appends the four promotions of the move built by `builder`, to a knight, a
/// bishop, a rook and a queen of color `color`.
fn insert_promotions(list: &mut MoveList, builder: ChessMoveBuilder, color: Color)
    requires
        flags_of(builder@) == 0 || flags_of(builder@) == 0x4000,
        builder@ < 0x1000 || builder@ > 0x3FFF,
        start_of(builder@) != end_of(builder@),
        move_list_items(*old(list)).len() + 4 < usize::MAX / 8,
    ensures
        move_list_items(*final(list)).len() == move_list_items(*old(list)).len() + 4,
        extends(move_list_items(*final(list)), move_list_items(*old(list))),
        forall|k: int|
            move_list_items(*old(list)).len() <= k < move_list_items(*final(list)).len() ==> {
                let m = #[trigger] move_list_items(*final(list))[k];
                &&& start_of(m@) == start_of(builder@)
                &&& end_of(m@) == end_of(builder@)
                &&& promo_flag(flags_of(m@), flags_of(builder@))
            },
        forall|f: u16|
            promo_flag(f, flags_of(builder@)) ==> has_move(
                move_list_items(*final(list)),
                move_list_items(*old(list)).len() as int,
                start_of(builder@),
                end_of(builder@),
                f,
            ),
        fields_distinct(move_list_items(*final(list)), move_list_items(*old(list)).len() as int),
{
    let ghost a0 = move_list_items(*list);
    let pieces = match color {
        Color::White => [Piece::WhiteKnight, Piece::WhiteBishop, Piece::WhiteRook, Piece::WhiteQueen],
        Color::Black => [Piece::BlackKnight, Piece::BlackBishop, Piece::BlackRook, Piece::BlackQueen],
    };
    let ghost fb = flags_of(builder@);
    proof {
        lemma_base_bv(0, 0);
        lemma_promo_bv(builder@);
    }
    let mut i: usize = 0;
    while i < 4
        invariant
            0 <= i <= 4,
            fb == flags_of(builder@),
            fb == 0 || fb == 0x4000,
            builder@ < 0x1000 || builder@ > 0x3FFF,
            start_of(builder@) != end_of(builder@),
            a0.len() + 4 < usize::MAX / 8,
            pieces@.len() == 4,
            forall|j: int| 0 <= j < 4 ==> is_promotion_piece(#[trigger] pieces@[j]),
            forall|j: int| 0 <= j < 4 ==> #[trigger] promotion_flags(type_of(pieces@[j])) == [0x8000u16, 0x9000u16, 0xA000u16, 0xB000u16]@[j],
            move_list_items(*list).len() == a0.len() + i,
            move_list_items(*list).subrange(0, a0.len() as int) == a0,
            forall|k: int|
                a0.len() <= k < move_list_items(*list).len() ==> {
                    let m = #[trigger] move_list_items(*list)[k];
                    &&& start_of(m@) == start_of(builder@)
                    &&& end_of(m@) == end_of(builder@)
                    &&& flags_of(m@) == fb | [0x8000u16, 0x9000u16, 0xA000u16, 0xB000u16]@[k - a0.len()]
                },
        decreases 4 - i,
    {
        let b = builder.promote(pieces[i]);
        proof {
            lemma_low_bits(b@, builder@);
            lemma_promo_bv(builder@);
        }
        let m = b.finish();
        let ghost before = move_list_items(*list);
        list.push(m);
        proof {
            let after = move_list_items(*list);
            assert(after.subrange(0, a0.len() as int) =~= before.subrange(0, a0.len() as int));
            assert forall|k: int| a0.len() <= k < after.len() implies {
                let m = #[trigger] after[k];
                &&& start_of(m@) == start_of(builder@)
                &&& end_of(m@) == end_of(builder@)
                &&& flags_of(m@) == fb | [0x8000u16, 0x9000u16, 0xA000u16, 0xB000u16]@[k - a0.len()]
            } by {
                if k < before.len() {
                    assert(after[k] == before[k]);
                }
            }
        }
        i = i + 1;
    }
    proof {
        let a = move_list_items(*list);
        lemma_base_bv(0, 0);
        let fl = [0x8000u16, 0x9000u16, 0xA000u16, 0xB000u16]@;
        assert(fl[0] == 0x8000u16 && fl[1] == 0x9000u16 && fl[2] == 0xA000u16 && fl[3] == 0xB000u16);
        assert forall|f: u16| promo_flag(f, fb) implies has_move(a, a0.len() as int, start_of(builder@), end_of(builder@), f) by {
            let j: int = if fb == 0 {
                if f == 0x8000 { 0 } else if f == 0x9000 { 1 } else if f == 0xA000 { 2 } else { 3 }
            } else {
                if f == 0xC000 { 0 } else if f == 0xD000 { 1 } else if f == 0xE000 { 2 } else { 3 }
            };
            assert(move_is(a[a0.len() + j], start_of(builder@), end_of(builder@), f));
        }
        assert(a.subrange(0, a0.len() as int) =~= a0);
    }
}

proof fn lemma_promo_bv(b: u16)
    by (bit_vector)
    ensures
        (b & 0xF000 == 0 || b & 0xF000 == 0x4000) ==> ((b | 0x8000) & 0xF000 != 0x6000 && (b | 0x8000) & 0xF000 != 0x7000),
        (b & 0xF000 == 0 || b & 0xF000 == 0x4000) ==> ((b | 0x9000) & 0xF000 != 0x6000 && (b | 0x9000) & 0xF000 != 0x7000),
        (b & 0xF000 == 0 || b & 0xF000 == 0x4000) ==> ((b | 0xA000) & 0xF000 != 0x6000 && (b | 0xA000) & 0xF000 != 0x7000),
        (b & 0xF000 == 0 || b & 0xF000 == 0x4000) ==> ((b | 0xB000) & 0xF000 != 0x6000 && (b | 0xB000) & 0xF000 != 0x7000),
        ((b & 0xF000) | 0x8000) != 0x6000,
{
}

/// Appends, for each square `e` of `ends` in increasing order, the pawn move of
/// color `color` from `e - offset` to `e` with flags `flag`, or its four
/// promotions when `e` is on the promotion rank.
fn push_pawn_targets(list: &mut MoveList, ends: BitBoard, offset: i32, flag: u16, color: Color)
    requires
        -16 <= offset <= 16,
        offset != 0,
        forall|j: int| 0 <= j < 64 && ends.has(j) ==> 0 <= j - offset < 64,
        flag == 0 || flag == 0x1000 || flag == 0x4000,
        flag == 0x1000 ==> forall|j: int| 0 <= j < 64 && ends.has(j) ==> j / 8 != promo_rank(color),
        move_list_items(*old(list)).len() + 256 < 0x1000_0000,
    ensures
        extends(move_list_items(*final(list)), move_list_items(*old(list))),
        move_list_items(*final(list)).len() <= move_list_items(*old(list)).len() + 256,
        forall|k: int|
            move_list_items(*old(list)).len() <= k < move_list_items(*final(list)).len() ==> {
                let m = #[trigger] move_list_items(*final(list))[k];
                &&& ends.has(end_of(m@))
                &&& start_of(m@) == end_of(m@) - offset
                &&& pawn_flag(flags_of(m@), flag, end_of(m@), color)
            },
        forall|e: int, f: u16|
            0 <= e < 64 && ends.has(e) && #[trigger] pawn_flag(f, flag, e, color) ==> has_move(
                move_list_items(*final(list)),
                move_list_items(*old(list)).len() as int,
                e - offset,
                e,
                f,
            ),
        fields_distinct(move_list_items(*final(list)), move_list_items(*old(list)).len() as int),
{
    let ghost a0 = move_list_items(*list);
    let targets = ends.iter_bit_indices();
    proof {
        lemma_sorted_squares_len(targets@);
        assert(a0.subrange(0, a0.len() as int) =~= a0);
    }
    let promotion_rank: usize = match color {
        Color::White => 7,
        Color::Black => 0,
    };
    let mut i: usize = 0;
    while i < targets.len()
        invariant
            0 <= i <= targets@.len() <= 64,
            -16 <= offset <= 16,
            offset != 0,
            forall|j: int| 0 <= j < 64 && ends.has(j) ==> 0 <= j - offset < 64,
            flag == 0 || flag == 0x1000 || flag == 0x4000,
            flag == 0x1000 ==> forall|j: int| 0 <= j < 64 && ends.has(j) ==> j / 8 != promo_rank(color),
            promotion_rank == promo_rank(color),
            a0.len() + 256 < 0x1000_0000,
            forall|k: int| 0 <= k < targets@.len() ==> (#[trigger] targets@[k]).is_valid(),
            forall|k: int| 0 <= k < targets@.len() ==> ends.has(#[trigger] targets@[k].idx()),
            forall|k1: int, k2: int| 0 <= k1 < k2 < targets@.len() ==> targets@[k1].idx() < targets@[k2].idx(),
            forall|j: int| 0 <= j < 64 && ends.has(j) ==> exists|k: int| 0 <= k < targets@.len() && #[trigger] targets@[k].idx() == j,
            extends(move_list_items(*list), a0),
            move_list_items(*list).len() <= a0.len() + 4 * i,
            forall|k: int|
                a0.len() <= k < move_list_items(*list).len() ==> {
                    let m = #[trigger] move_list_items(*list)[k];
                    &&& ends.has(end_of(m@))
                    &&& start_of(m@) == end_of(m@) - offset
                    &&& pawn_flag(flags_of(m@), flag, end_of(m@), color)
                    &&& exists|j: int| 0 <= j < i && end_of(m@) == targets@[j].idx()
                },
            forall|j: int, f: u16|
                0 <= j < i && #[trigger] pawn_flag(f, flag, targets@[j].idx(), color) ==> has_move(
                    move_list_items(*list),
                    a0.len() as int,
                    targets@[j].idx() - offset,
                    targets@[j].idx(),
                    f,
                ),
            fields_distinct(move_list_items(*list), a0.len() as int),
        decreases targets@.len() - i,
    {
        let end = targets[i];
        let start = Square64::from_primitive((end.index() as i32 - offset) as usize);
        let ghost e = end.idx();
        proof {
            crate::types::lemma_square_index(start, end);
            lemma_base_bv(0, 0);
        }
        let base = base_move(start, end);
        let b = if flag == 0x4000 {
            let c = base.capture();
            proof {
                lemma_low_bits(c@, base@);
                lemma_base_bv(0, 0);
            }
            c
        } else if flag == 0x1000 {
            let d = base.double_pawn_push();
            proof {
                lemma_low_bits(d@, base@);
            }
            d
        } else {
            base
        };
        let ghost before = move_list_items(*list);
        let promotes = end.index() / 8 == promotion_rank;
        if promotes {
            insert_promotions(list, b, color);
        } else {
            list.push(b.finish());
        }
        proof {
            let after = move_list_items(*list);
            assert forall|k: int| 0 <= k < before.len() implies after[k] == before[k] by {
                assert(after.subrange(0, before.len() as int)[k] == after[k]);
            }
            assert(after.subrange(0, a0.len() as int) =~= a0) by {
                assert forall|k: int| 0 <= k < a0.len() implies after[k] == a0[k] by {
                    assert(before.subrange(0, a0.len() as int)[k] == before[k]);
                }
            }
            assert forall|k: int| a0.len() <= k < after.len() implies {
                let m = #[trigger] after[k];
                &&& ends.has(end_of(m@))
                &&& start_of(m@) == end_of(m@) - offset
                &&& pawn_flag(flags_of(m@), flag, end_of(m@), color)
                &&& exists|j: int| 0 <= j < i + 1 && end_of(m@) == targets@[j].idx()
            } by {
                if k < before.len() {
                    assert(after[k] == before[k]);
                } else {
                    assert(end_of(after[k]@) == targets@[i as int].idx());
                }
            }
            assert forall|j: int, f: u16|
                0 <= j < i + 1 && #[trigger] pawn_flag(f, flag, targets@[j].idx(), color) implies has_move(
                    after,
                    a0.len() as int,
                    targets@[j].idx() - offset,
                    targets@[j].idx(),
                    f,
                ) by {
                if j == i {
                    if promotes {
                        assert(has_move(after, before.len() as int, start_of(b@), end_of(b@), f));
                        let k = choose|k: int| before.len() <= k < after.len() && #[trigger] move_is(after[k], start_of(b@), end_of(b@), f);
                    } else {
                        assert(move_is(after[before.len() as int], targets@[j].idx() - offset, targets@[j].idx(), f));
                    }
                } else {
                    let k = choose|k: int| a0.len() <= k < before.len() && #[trigger] move_is(before[k], targets@[j].idx() - offset, targets@[j].idx(), f);
                    assert(after[k] == before[k]);
                }
            }
            assert forall|k1: int, k2: int| a0.len() <= k1 < k2 < after.len() implies !(start_of(after[k1]@) == start_of(after[k2]@)
                && end_of(after[k1]@) == end_of(after[k2]@) && flags_of(after[k1]@) == flags_of(after[k2]@)) by {
                if k2 < before.len() {
                    assert(after[k1] == before[k1]);
                    assert(after[k2] == before[k2]);
                } else if k1 < before.len() {
                    assert(after[k1] == before[k1]);
                    let j = choose|j: int| 0 <= j < i && end_of(before[k1]@) == targets@[j].idx();
                    assert(end_of(after[k2]@) == targets@[i as int].idx());
                }
            }
        }
        i = i + 1;
    }
    proof {
        let a = move_list_items(*list);
        assert forall|e: int, f: u16| 0 <= e < 64 && ends.has(e) && #[trigger] pawn_flag(f, flag, e, color) implies has_move(
            a,
            a0.len() as int,
            e - offset,
            e,
            f,
        ) by {
            let j = choose|j: int| 0 <= j < targets@.len() && #[trigger] targets@[j].idx() == e;
            assert(pawn_flag(f, flag, targets@[j].idx(), color));
        }
    }
}

/// The direction a pawn of color `c` moves in.
pub open spec fn pawn_dir(c: Color) -> int {
    if c == Color::White {
        8
    } else {
        -8
    }
}

/// A single pawn push of color `c` (one of the four promotions on the last rank).
pub open spec fn pawn_push_move(p: Seq<Option<Piece>>, c: Color, s: int, e: int, f: u16) -> bool {
    &&& 0 <= s < 64
    &&& 0 <= e < 64
    &&& p[s] == Some(piece_of(PieceType::Pawn, c))
    &&& e == s + pawn_dir(c)
    &&& p[e].is_none()
    &&& pawn_flag(f, 0, e, c)
}

/// A double pawn push of color `c` to its fourth rank.
pub open spec fn pawn_double_move(p: Seq<Option<Piece>>, c: Color, s: int, e: int, f: u16) -> bool {
    &&& 0 <= s < 64
    &&& 0 <= e < 64
    &&& p[s] == Some(piece_of(PieceType::Pawn, c))
    &&& e == s + 2 * pawn_dir(c)
    &&& p[s + pawn_dir(c)].is_none()
    &&& p[e].is_none()
    &&& e / 8 == (if c == Color::White { 3int } else { 4int })
    &&& f == 0x1000
}

/// A pawn capture of color `c` (one of the four promotions on the last rank).
pub open spec fn pawn_capture_move(p: Seq<Option<Piece>>, c: Color, s: int, e: int, f: u16) -> bool {
    &&& 0 <= s < 64
    &&& 0 <= e < 64
    &&& p[s] == Some(piece_of(PieceType::Pawn, c))
    &&& pawn_attacks(c, s, e)
    &&& own(p, e, opposite(c))
    &&& pawn_flag(f, 0x4000, e, c)
}

/// An en passant capture of color `c` onto the en passant square `ep`.
pub open spec fn en_passant_move(p: Seq<Option<Piece>>, c: Color, ep: Option<Square64>, s: int, e: int, f: u16) -> bool {
    &&& ep matches Some(sq) && e == sq.idx()
    &&& 0 <= s < 64
    &&& 0 <= e < 64
    &&& p[s] == Some(piece_of(PieceType::Pawn, c))
    &&& pawn_attacks(c, s, e)
    &&& f == 0x5000
}

impl Board {
    /// Appends the single and double pawn pushes of the side to move.
    fn generate_pawn_pushes(&self, list: &mut MoveList)
        requires
            self.bitboards_wf(),
            move_list_items(*old(list)).len() <= 0x200_0000,
        ensures
            extends(move_list_items(*final(list)), move_list_items(*old(list))),
            move_list_items(*final(list)).len() <= move_list_items(*old(list)).len() + 512,
            forall|k: int|
                move_list_items(*old(list)).len() <= k < move_list_items(*final(list)).len() ==> {
                    let m = #[trigger] move_list_items(*final(list))[k];
                    pawn_push_move(self.pieces@, self.color, start_of(m@), end_of(m@), flags_of(m@))
                        || pawn_double_move(self.pieces@, self.color, start_of(m@), end_of(m@), flags_of(m@))
                },
            forall|s: int, e: int, f: u16|
                pawn_push_move(self.pieces@, self.color, s, e, f) || pawn_double_move(self.pieces@, self.color, s, e, f)
                    ==> has_move(move_list_items(*final(list)), move_list_items(*old(list)).len() as int, s, e, f),
            fields_distinct(move_list_items(*final(list)), move_list_items(*old(list)).len() as int),
    {
        let ghost a0 = move_list_items(*list);
        let ghost c = self.color;
        let ghost p = self.pieces@;
        let pawn = Piece::new(PieceType::Pawn, self.color);
        let pawns = self.bitboards[pawn.index()];
        let (single, double, offset) = match self.color {
            Color::White => {
                let single = pawns.shifted_north().without(self.bb_all);
                let double = single.shifted_north().without(self.bb_all).intersection(
                    crate::tables::rank_bitboard(crate::types::Rank::R4),
                );
                (single, double, 8i32)
            },
            Color::Black => {
                let single = pawns.shifted_south().without(self.bb_all);
                let double = single.shifted_south().without(self.bb_all).intersection(
                    crate::tables::rank_bitboard(crate::types::Rank::R5),
                );
                (single, double, -8i32)
            },
        };
        proof {
            assert(offset == pawn_dir(c));
        }
        push_pawn_targets(list, single, offset, 0, self.color);
        let ghost a1 = move_list_items(*list);
        push_pawn_targets(list, double, 2 * offset, 0x1000, self.color);
        proof {
            let a2 = move_list_items(*list);
            lemma_extends(a0, a1, a2);
            assert forall|k: int| a0.len() <= k < a2.len() implies {
                let m = #[trigger] a2[k];
                pawn_push_move(p, c, start_of(m@), end_of(m@), flags_of(m@))
                    || pawn_double_move(p, c, start_of(m@), end_of(m@), flags_of(m@))
            } by {
                if k < a1.len() {
                    assert(a2[k] == a1[k]);
                    let m = a1[k];
                    assert(single.has(end_of(m@)));
                    assert(pawn_push_move(p, c, start_of(m@), end_of(m@), flags_of(m@)));
                } else {
                    let m = a2[k];
                    assert(double.has(end_of(m@)));
                    assert(pawn_double_move(p, c, start_of(m@), end_of(m@), flags_of(m@)));
                }
            }
            assert forall|s: int, e: int, f: u16|
                pawn_push_move(p, c, s, e, f) || pawn_double_move(p, c, s, e, f) implies has_move(a2, a0.len() as int, s, e, f) by {
                if pawn_push_move(p, c, s, e, f) {
                    assert(single.has(e));
                    assert(pawn_flag(f, 0, e, c));
                    assert(has_move(a1, a0.len() as int, e - offset, e, f));
                    lemma_has_move_extends(a1, a2, a0.len() as int, s, e, f);
                } else {
                    assert(single.has(s + pawn_dir(c)));
                    assert(double.has(e));
                    assert(pawn_flag(f, 0x1000, e, c));
                    assert(has_move(a2, a1.len() as int, e - 2 * offset, e, f));
                    let k = choose|k: int| a1.len() <= k < a2.len() && #[trigger] move_is(a2[k], e - 2 * offset, e, f);
                }
            }
            assert forall|k1: int, k2: int| a0.len() <= k1 < k2 < a2.len() implies !(start_of(a2[k1]@) == start_of(a2[k2]@)
                && end_of(a2[k1]@) == end_of(a2[k2]@) && flags_of(a2[k1]@) == flags_of(a2[k2]@)) by {
                if k2 < a1.len() {
                    assert(a2[k1] == a1[k1]);
                    assert(a2[k2] == a1[k2]);
                } else if k1 < a1.len() {
                    assert(a2[k1] == a1[k1]);
                    assert(pawn_flag(flags_of(a2[k1]@), 0, end_of(a2[k1]@), c));
                    assert(flags_of(a2[k2]@) == 0x1000);
                }
            }
        }
    }

    /// Appends the pawn captures (other than en passant) of the side to move.
    fn generate_pawn_attacks(&self, list: &mut MoveList)
        requires
            self.bitboards_wf(),
            move_list_items(*old(list)).len() <= 0x200_0000,
        ensures
            extends(move_list_items(*final(list)), move_list_items(*old(list))),
            move_list_items(*final(list)).len() <= move_list_items(*old(list)).len() + 512,
            forall|k: int|
                move_list_items(*old(list)).len() <= k < move_list_items(*final(list)).len() ==> {
                    let m = #[trigger] move_list_items(*final(list))[k];
                    pawn_capture_move(self.pieces@, self.color, start_of(m@), end_of(m@), flags_of(m@))
                },
            forall|s: int, e: int, f: u16|
                pawn_capture_move(self.pieces@, self.color, s, e, f) ==> has_move(
                    move_list_items(*final(list)),
                    move_list_items(*old(list)).len() as int,
                    s,
                    e,
                    f,
                ),
            fields_distinct(move_list_items(*final(list)), move_list_items(*old(list)).len() as int),
    {
        let ghost a0 = move_list_items(*list);
        let ghost c = self.color;
        let ghost p = self.pieces@;
        let pawn = Piece::new(PieceType::Pawn, self.color);
        let pawns = self.bitboards[pawn.index()];
        let opponents = self.bb_all_per_color[self.color.flipped().index()];
        proof {
            crate::types::lemma_flip_involution(c);
        }
        let (east, west, east_offset, west_offset) = match self.color {
            Color::White => (
                pawns.shifted_northeast().intersection(opponents),
                pawns.shifted_northwest().intersection(opponents),
                9i32,
                7i32,
            ),
            Color::Black => (
                pawns.shifted_southeast().intersection(opponents),
                pawns.shifted_southwest().intersection(opponents),
                -7i32,
                -9i32,
            ),
        };
        push_pawn_targets(list, east, east_offset, 0x4000, self.color);
        let ghost a1 = move_list_items(*list);
        push_pawn_targets(list, west, west_offset, 0x4000, self.color);
        proof {
            let a2 = move_list_items(*list);
            lemma_extends(a0, a1, a2);
            assert forall|k: int| a0.len() <= k < a2.len() implies {
                let m = #[trigger] a2[k];
                pawn_capture_move(p, c, start_of(m@), end_of(m@), flags_of(m@))
            } by {
                if k < a1.len() {
                    assert(a2[k] == a1[k]);
                    assert(east.has(end_of(a1[k]@)));
                } else {
                    assert(west.has(end_of(a2[k]@)));
                }
            }
            assert forall|s: int, e: int, f: u16| pawn_capture_move(p, c, s, e, f) implies has_move(a2, a0.len() as int, s, e, f) by {
                if e == s + east_offset {
                    assert(east.has(e));
                    assert(pawn_flag(f, 0x4000, e, c));
                    lemma_has_move_extends(a1, a2, a0.len() as int, s, e, f);
                } else {
                    assert(west.has(e));
                    assert(pawn_flag(f, 0x4000, e, c));
                    let k = choose|k: int| a1.len() <= k < a2.len() && #[trigger] move_is(a2[k], e - west_offset, e, f);
                }
            }
            assert forall|k1: int, k2: int| a0.len() <= k1 < k2 < a2.len() implies !(start_of(a2[k1]@) == start_of(a2[k2]@)
                && end_of(a2[k1]@) == end_of(a2[k2]@) && flags_of(a2[k1]@) == flags_of(a2[k2]@)) by {
                if k2 < a1.len() {
                    assert(a2[k1] == a1[k1]);
                    assert(a2[k2] == a1[k2]);
                } else if k1 < a1.len() {
                    assert(a2[k1] == a1[k1]);
                }
            }
        }
    }

    /// Appends the en passant captures of the side to move.
    fn generate_en_passant(&self, list: &mut MoveList)
        requires
            self.bitboards_wf(),
            self.fields_wf(),
            move_list_items(*old(list)).len() <= 0x200_0000,
        ensures
            extends(move_list_items(*final(list)), move_list_items(*old(list))),
            move_list_items(*final(list)).len() <= move_list_items(*old(list)).len() + 2,
            forall|k: int|
                move_list_items(*old(list)).len() <= k < move_list_items(*final(list)).len() ==> {
                    let m = #[trigger] move_list_items(*final(list))[k];
                    en_passant_move(self.pieces@, self.color, self.en_passant, start_of(m@), end_of(m@), flags_of(m@))
                },
            forall|s: int, e: int, f: u16|
                en_passant_move(self.pieces@, self.color, self.en_passant, s, e, f) ==> has_move(
                    move_list_items(*final(list)),
                    move_list_items(*old(list)).len() as int,
                    s,
                    e,
                    f,
                ),
            fields_distinct(move_list_items(*final(list)), move_list_items(*old(list)).len() as int),
    {
        let ghost a0 = move_list_items(*list);
        let ghost c = self.color;
        let ghost p = self.pieces@;
        proof {
            assert(a0.subrange(0, a0.len() as int) =~= a0);
        }
        let en_pas_sq = match self.en_passant {
            Some(sq) => sq,
            None => {
                return;
            },
        };
        let ghost ep = en_pas_sq.idx();
        let attacker = Piece::new(PieceType::Pawn, self.color);
        let mut bb_en_pas = BitBoard::empty();
        bb_en_pas.set_to(en_pas_sq, true);
        let (attacker_east, attacker_west) = match self.color {
            Color::White => (bb_en_pas.shifted_southeast(), bb_en_pas.shifted_southwest()),
            Color::Black => (bb_en_pas.shifted_northeast(), bb_en_pas.shifted_northwest()),
        };
        let mut west_hits = attacker_west.intersection(self.bitboards[attacker.index()]);
        let mut east_hits = attacker_east.intersection(self.bitboards[attacker.index()]);
        let ghost west0 = west_hits;
        let ghost east0 = east_hits;
        let ghost ws = if c == Color::White { ep - 9 } else { ep + 7 };
        let ghost es = if c == Color::White { ep - 7 } else { ep + 9 };
        proof {
            assert forall|j: int| 0 <= j < 64 && j != ws implies !west0.has(j) by {}
            assert forall|j: int| 0 <= j < 64 && j != es implies !east0.has(j) by {}
            crate::bits::lemma_zero_iff_no_bits(west0@);
            crate::bits::lemma_zero_iff_no_bits(east0@);
        }
        match west_hits.pop() {
            Some(start) => {
                let b = base_move(start, en_pas_sq);
                proof {
                    lemma_base_bv(0, 0);
                    crate::types::lemma_square_index(start, en_pas_sq);
                }
                let b2 = b.en_passant();
                proof {
                    lemma_low_bits(b2@, b@);
                }
                list.push(b2.finish());
            },
            None => {},
        }
        let ghost a1 = move_list_items(*list);
        match east_hits.pop() {
            Some(start) => {
                let b = base_move(start, en_pas_sq);
                proof {
                    lemma_base_bv(0, 0);
                    crate::types::lemma_square_index(start, en_pas_sq);
                }
                let b2 = b.en_passant();
                proof {
                    lemma_low_bits(b2@, b@);
                }
                list.push(b2.finish());
            },
            None => {},
        }
        proof {
            let a2 = move_list_items(*list);
            assert(a1.subrange(0, a0.len() as int) =~= a0);
            assert(a2.subrange(0, a0.len() as int) =~= a0);
            assert forall|k: int| a0.len() <= k < a2.len() implies {
                let m = #[trigger] a2[k];
                en_passant_move(p, c, self.en_passant, start_of(m@), end_of(m@), flags_of(m@))
            } by {
                if k < a1.len() {
                    assert(a2[k] == a1[k]);
                }
            }
            assert forall|s: int, e: int, f: u16| en_passant_move(p, c, self.en_passant, s, e, f) implies has_move(a2, a0.len() as int, s, e, f) by {
                if s == ws {
                    assert(west0.has(s));
                    assert(west0@ != 0);
                    assert(move_is(a2[a0.len() as int], s, e, f));
                } else {
                    assert(east0.has(s));
                    assert(east0@ != 0);
                    assert(move_is(a2[a1.len() as int], s, e, f));
                }
            }
        }
    }
}

/// Appending keeps what was there.
proof fn lemma_extends(a: Seq<ChessMove>, b: Seq<ChessMove>, c: Seq<ChessMove>)
    requires
        extends(b, a),
        extends(c, b),
    ensures
        extends(c, a),
        forall|k: int| 0 <= k < b.len() ==> c[k] == b[k],
        forall|k: int| 0 <= k < a.len() ==> c[k] == a[k],
{
    assert forall|k: int| 0 <= k < b.len() implies c[k] == b[k] by {
        assert(c.subrange(0, b.len() as int)[k] == c[k]);
    }
    assert forall|k: int| 0 <= k < a.len() implies b[k] == a[k] by {
        assert(b.subrange(0, a.len() as int)[k] == b[k]);
    }
    assert(c.subrange(0, a.len() as int) =~= a);
}

/// A move found among the moves appended to `a` is still there after more moves
/// are appended.
proof fn lemma_has_move_extends(a: Seq<ChessMove>, b: Seq<ChessMove>, from: int, s: int, e: int, f: u16)
    requires
        0 <= from,
        extends(b, a),
        has_move(a, from, s, e, f),
    ensures
        has_move(b, from, s, e, f),
{
    let k = choose|k: int| from <= k < a.len() && #[trigger] move_is(a[k], s, e, f);
    assert(b.subrange(0, a.len() as int)[k] == b[k]);
    assert(move_is(b[k], s, e, f));
}

/// A castle of color `c` allowed by the permissions `cp`: the squares between
/// king and rook are empty, and the king's square and the square it passes are
/// not attacked.
pub open spec fn castle_move(p: Seq<Option<Piece>>, c: Color, cp: CastlePerms, s: int, e: int, f: u16) -> bool {
    ||| c == Color::White && cp.has(CastlePerm::WhiteKingside) && p[5].is_none() && p[6].is_none() && !attacked_in(
        p,
        4,
        Color::Black,
    ) && !attacked_in(p, 5, Color::Black) && s == 4 && e == 6 && f == 0x2000
    ||| c == Color::White && cp.has(CastlePerm::WhiteQueenside) && p[3].is_none() && p[2].is_none()
        && p[1].is_none() && !attacked_in(p, 4, Color::Black) && !attacked_in(p, 3, Color::Black) && s == 4 && e
        == 2 && f == 0x3000
    ||| c == Color::Black && cp.has(CastlePerm::BlackKingside) && p[61].is_none() && p[62].is_none()
        && !attacked_in(p, 60, Color::White) && !attacked_in(p, 61, Color::White) && s == 60 && e == 62 && f
        == 0x2000
    ||| c == Color::Black && cp.has(CastlePerm::BlackQueenside) && p[59].is_none() && p[58].is_none()
        && p[57].is_none() && !attacked_in(p, 60, Color::White) && !attacked_in(p, 59, Color::White) && s == 60
        && e == 58 && f == 0x3000
}

/// The castle from `start` to `end`, kingside or queenside.
fn castle_of(start: Square64, end: Square64, kingside: bool) -> (m: ChessMove)
    requires
        start.is_valid(),
        end.is_valid(),
        start != end,
    ensures
        move_is(m, start.idx(), end.idx(), if kingside { 0x2000u16 } else { 0x3000u16 }),
{
    let b = base_move(start, end);
    let c = b.castle(kingside);
    proof {
        lemma_low_bits(c@, b@);
        lemma_base_bv(0, 0);
        crate::types::lemma_square_index(start, end);
    }
    c.finish()
}

impl Board {
    /// Appends the castles of the side to move.
    fn generate_castling_moves(&self, list: &mut MoveList)
        requires
            self.bitboards_wf(),
            move_list_items(*old(list)).len() <= 0x200_0000,
        ensures
            extends(move_list_items(*final(list)), move_list_items(*old(list))),
            move_list_items(*final(list)).len() <= move_list_items(*old(list)).len() + 4,
            forall|k: int|
                move_list_items(*old(list)).len() <= k < move_list_items(*final(list)).len() ==> {
                    let m = #[trigger] move_list_items(*final(list))[k];
                    castle_move(self.pieces@, self.color, self.castle_perms, start_of(m@), end_of(m@), flags_of(m@))
                },
            forall|s: int, e: int, f: u16|
                castle_move(self.pieces@, self.color, self.castle_perms, s, e, f) ==> has_move(
                    move_list_items(*final(list)),
                    move_list_items(*old(list)).len() as int,
                    s,
                    e,
                    f,
                ),
            fields_distinct(move_list_items(*final(list)), move_list_items(*old(list)).len() as int),
    {
        let ghost a0 = move_list_items(*list);
        let ghost p = self.pieces@;
        let ghost c = self.color;
        let ghost cp = self.castle_perms;
        if self.color == Color::White && self.castle_perms.get(CastlePerm::WhiteKingside) && self.pieces[5].is_none()
            && self.pieces[6].is_none() && !self.is_square_attacked(Square64::E1, Color::Black)
            && !self.is_square_attacked(Square64::F1, Color::Black) {
            list.push(castle_of(Square64::E1, Square64::G1, true));
        }
        let ghost a1 = move_list_items(*list);
        if self.color == Color::White && self.castle_perms.get(CastlePerm::WhiteQueenside) && self.pieces[3].is_none()
            && self.pieces[2].is_none() && self.pieces[1].is_none() && !self.is_square_attacked(
            Square64::E1,
            Color::Black,
        ) && !self.is_square_attacked(Square64::D1, Color::Black) {
            list.push(castle_of(Square64::E1, Square64::C1, false));
        }
        let ghost a2 = move_list_items(*list);
        if self.color == Color::Black && self.castle_perms.get(CastlePerm::BlackKingside) && self.pieces[61].is_none()
            && self.pieces[62].is_none() && !self.is_square_attacked(Square64::E8, Color::White)
            && !self.is_square_attacked(Square64::F8, Color::White) {
            list.push(castle_of(Square64::E8, Square64::G8, true));
        }
        let ghost a3 = move_list_items(*list);
        if self.color == Color::Black && self.castle_perms.get(CastlePerm::BlackQueenside) && self.pieces[59].is_none()
            && self.pieces[58].is_none() && self.pieces[57].is_none() && !self.is_square_attacked(
            Square64::E8,
            Color::White,
        ) && !self.is_square_attacked(Square64::D8, Color::White) {
            list.push(castle_of(Square64::E8, Square64::C8, false));
        }
        proof {
            let a4 = move_list_items(*list);
            assert(a4.subrange(0, a0.len() as int) =~= a0);
            assert forall|k: int| a0.len() <= k < a4.len() implies {
                let m = #[trigger] a4[k];
                castle_move(p, c, cp, start_of(m@), end_of(m@), flags_of(m@))
            } by {
                if k < a1.len() {
                    assert(a4[k] == a1[k]);
                } else if k < a2.len() {
                    assert(a4[k] == a2[k]);
                } else if k < a3.len() {
                    assert(a4[k] == a3[k]);
                }
            }
            assert forall|s: int, e: int, f: u16| castle_move(p, c, cp, s, e, f) implies has_move(a4, a0.len() as int, s, e, f) by {
                if c == Color::White && e == 6 {
                    assert(move_is(a4[a0.len() as int], s, e, f));
                } else if c == Color::White {
                    assert(move_is(a4[a1.len() as int], s, e, f));
                } else if e == 62 {
                    assert(move_is(a4[a2.len() as int], s, e, f));
                } else {
                    assert(move_is(a4[a3.len() as int], s, e, f));
                }
            }
        }
    }
}

/// A pseudo-legal move of the side to move of `p`: a pawn capture, an en passant
/// capture, a single or double pawn push, a knight move, a bishop, rook or queen
/// move, a king move or a castle.
pub open spec fn pseudo_legal(p: Position, s: int, e: int, f: u16) -> bool {
    let pc = p.pieces;
    let c = p.color;
    ||| pawn_capture_move(pc, c, s, e, f)
    ||| en_passant_move(pc, c, p.en_passant, s, e, f)
    ||| pawn_push_move(pc, c, s, e, f)
    ||| pawn_double_move(pc, c, s, e, f)
    ||| knight_move(pc, c, s, e, f)
    ||| slider_move(pc, c, true, s, e, f)
    ||| slider_move(pc, c, false, s, e, f)
    ||| king_move(pc, c, p.king_square[c.idx()].idx(), s, e, f)
    ||| castle_move(pc, c, p.castle_perms, s, e, f)
}

/// A pseudo-legal capture of the side to move of `p`.
pub open spec fn pseudo_legal_capture(p: Position, s: int, e: int, f: u16) -> bool {
    let pc = p.pieces;
    let c = p.color;
    ||| pawn_capture_move(pc, c, s, e, f)
    ||| en_passant_move(pc, c, p.en_passant, s, e, f)
    ||| knight_move(pc, c, s, e, f) && pc[e].is_some()
    ||| slider_move(pc, c, true, s, e, f) && pc[e].is_some()
    ||| slider_move(pc, c, false, s, e, f) && pc[e].is_some()
    ||| king_move(pc, c, p.king_square[c.idx()].idx(), s, e, f) && pc[e].is_some()
}

/// No square is reached both along a diagonal and along a rank or file.
proof fn lemma_bishop_rook_disjoint(s: int, occ: spec_fn(int) -> bool, e: int)
    ensures
        !(bishop_attacks(s, occ, e) && rook_attacks(s, occ, e)),
{
}

impl Board {
    /// Appends all pseudo-legal moves of the side to move: pawn captures, en
    /// passant captures, pawn pushes, knight, bishop and queen, rook and queen, and
    /// king moves, and castles.
    #[verifier::rlimit(80)]
    pub fn generate_all_moves(&self, list: &mut MoveList)
        requires
            self.bitboards_wf(),
            self.fields_wf(),
            move_list_room(*old(list)),
        ensures
            extends(move_list_items(*final(list)), move_list_items(*old(list))),
            move_list_items(*final(list)).len() <= move_list_items(*old(list)).len() + 30000,
            forall|k: int|
                move_list_items(*old(list)).len() <= k < move_list_items(*final(list)).len() ==> {
                    let m = #[trigger] move_list_items(*final(list))[k];
                    pseudo_legal(self@, start_of(m@), end_of(m@), flags_of(m@))
                },
            forall|s: int, e: int, f: u16|
                pseudo_legal(self@, s, e, f) ==> has_move(
                    move_list_items(*final(list)),
                    move_list_items(*old(list)).len() as int,
                    s,
                    e,
                    f,
                ),
            self.kings_wf() ==> distinct_from(move_list_items(*final(list)), move_list_items(*old(list)).len() as int),
    {
        let ghost p = self@;
        let ghost a0 = move_list_items(*list);
        self.generate_pawn_attacks(list);
        let ghost a1 = move_list_items(*list);
        self.generate_en_passant(list);
        let ghost a2 = move_list_items(*list);
        self.generate_pawn_pushes(list);
        let ghost a3 = move_list_items(*list);
        self.generate_knight_moves(list, false);
        let ghost a4 = move_list_items(*list);
        self.generate_slider_moves(list, false, true);
        let ghost a5 = move_list_items(*list);
        self.generate_slider_moves(list, false, false);
        let ghost a6 = move_list_items(*list);
        self.generate_king_moves(list, false);
        let ghost a7 = move_list_items(*list);
        self.generate_castling_moves(list);
        proof {
            let a8 = move_list_items(*list);
            lemma_extends(a6, a7, a8);
            lemma_extends(a5, a6, a8);
            lemma_extends(a4, a5, a8);
            lemma_extends(a3, a4, a8);
            lemma_extends(a2, a3, a8);
            lemma_extends(a1, a2, a8);
            lemma_extends(a0, a1, a8);
            assert(a8.subrange(0, a8.len() as int) =~= a8);
            assert forall|k: int| a0.len() <= k < a8.len() implies {
                let m = #[trigger] a8[k];
                pseudo_legal(p, start_of(m@), end_of(m@), flags_of(m@))
            } by {
                if k < a1.len() {
                    assert(a8[k] == a1[k]);
                } else if k < a2.len() {
                    assert(a8[k] == a2[k]);
                } else if k < a3.len() {
                    assert(a8[k] == a3[k]);
                } else if k < a4.len() {
                    assert(a8[k] == a4[k]);
                } else if k < a5.len() {
                    assert(a8[k] == a5[k]);
                } else if k < a6.len() {
                    assert(a8[k] == a6[k]);
                } else if k < a7.len() {
                    assert(a8[k] == a7[k]);
                }
            }
            assert forall|s: int, e: int, f: u16| pseudo_legal(p, s, e, f) implies has_move(a8, a0.len() as int, s, e, f) by {
                let pc = p.pieces;
                let c = p.color;
                if pawn_capture_move(pc, c, s, e, f) {
                    lemma_has_move_extends(a1, a8, a0.len() as int, s, e, f);
                } else if en_passant_move(pc, c, p.en_passant, s, e, f) {
                    lemma_has_move_from(a2, a8, a1.len() as int, a0.len() as int, s, e, f);
                } else if pawn_push_move(pc, c, s, e, f) || pawn_double_move(pc, c, s, e, f) {
                    lemma_has_move_from(a3, a8, a2.len() as int, a0.len() as int, s, e, f);
                } else if knight_move(pc, c, s, e, f) {
                    lemma_has_move_from(a4, a8, a3.len() as int, a0.len() as int, s, e, f);
                } else if slider_move(pc, c, true, s, e, f) {
                    lemma_has_move_from(a5, a8, a4.len() as int, a0.len() as int, s, e, f);
                } else if slider_move(pc, c, false, s, e, f) {
                    lemma_has_move_from(a6, a8, a5.len() as int, a0.len() as int, s, e, f);
                } else if king_move(pc, c, p.king_square[c.idx()].idx(), s, e, f) {
                    lemma_has_move_from(a7, a8, a6.len() as int, a0.len() as int, s, e, f);
                } else {
                    lemma_has_move_from(a8, a8, a7.len() as int, a0.len() as int, s, e, f);
                }
            }
            if self.kings_wf() {
                assert forall|k1: int, k2: int| a0.len() <= k1 < k2 < a8.len() implies a8[k1] != a8[k2] by {
                    let m1 = a8[k1];
                    let m2 = a8[k2];
                    if m1 == m2 {
                        let s = start_of(m1@);
                        let e = end_of(m1@);
                        let f = flags_of(m1@);
                        lemma_bishop_rook_disjoint(s, occupied(p.pieces), e);
                        lemma_segment(a1, a8, a0.len() as int, k1, k2);
                        lemma_segment(a2, a8, a1.len() as int, k1, k2);
                        lemma_segment(a3, a8, a2.len() as int, k1, k2);
                        lemma_segment(a4, a8, a3.len() as int, k1, k2);
                        lemma_segment(a5, a8, a4.len() as int, k1, k2);
                        lemma_segment(a6, a8, a5.len() as int, k1, k2);
                        lemma_segment(a7, a8, a6.len() as int, k1, k2);
                        lemma_segment(a8, a8, a7.len() as int, k1, k2);
                        assert(false);
                    }
                }
            }
        }
    }
}

impl Board {
    /// Appends the pseudo-legal captures of the side to move: pawn captures, en
    /// passant captures, and the captures of the knights, bishops and queens, rooks
    /// and queens, and the king.
    #[verifier::rlimit(80)]
    pub fn generate_capture_moves(&self, list: &mut MoveList)
        requires
            self.bitboards_wf(),
            self.fields_wf(),
            move_list_room(*old(list)),
        ensures
            extends(move_list_items(*final(list)), move_list_items(*old(list))),
            move_list_items(*final(list)).len() <= move_list_items(*old(list)).len() + 30000,
            forall|k: int|
                move_list_items(*old(list)).len() <= k < move_list_items(*final(list)).len() ==> {
                    let m = #[trigger] move_list_items(*final(list))[k];
                    pseudo_legal_capture(self@, start_of(m@), end_of(m@), flags_of(m@))
                },
            forall|s: int, e: int, f: u16|
                pseudo_legal_capture(self@, s, e, f) ==> has_move(
                    move_list_items(*final(list)),
                    move_list_items(*old(list)).len() as int,
                    s,
                    e,
                    f,
                ),
            self.kings_wf() ==> distinct_from(move_list_items(*final(list)), move_list_items(*old(list)).len() as int),
    {
        let ghost p = self@;
        let ghost a0 = move_list_items(*list);
        self.generate_pawn_attacks(list);
        let ghost a1 = move_list_items(*list);
        self.generate_en_passant(list);
        let ghost a2 = move_list_items(*list);
        let ghost a3 = move_list_items(*list);
        self.generate_knight_moves(list, true);
        let ghost a4 = move_list_items(*list);
        self.generate_slider_moves(list, true, true);
        let ghost a5 = move_list_items(*list);
        self.generate_slider_moves(list, true, false);
        let ghost a6 = move_list_items(*list);
        self.generate_king_moves(list, true);
                proof {
            let a8 = move_list_items(*list);
            assert(a8.subrange(0, a8.len() as int) =~= a8);
            assert(a3 == a2);
            lemma_extends(a5, a6, a8);
            lemma_extends(a4, a5, a8);
            lemma_extends(a3, a4, a8);
            lemma_extends(a1, a2, a8);
            lemma_extends(a0, a1, a8);
            assert(a8.subrange(0, a8.len() as int) =~= a8);
            assert forall|k: int| a0.len() <= k < a8.len() implies {
                let m = #[trigger] a8[k];
                pseudo_legal_capture(p, start_of(m@), end_of(m@), flags_of(m@))
            } by {
                if k < a1.len() {
                    assert(a8[k] == a1[k]);
                } else if k < a2.len() {
                    assert(a8[k] == a2[k]);
                } else if k < a3.len() {
                    assert(a8[k] == a3[k]);
                } else if k < a4.len() {
                    assert(a8[k] == a4[k]);
                } else if k < a5.len() {
                    assert(a8[k] == a5[k]);
                } else if k < a6.len() {
                    assert(a8[k] == a6[k]);
                }
            }
            assert forall|s: int, e: int, f: u16| pseudo_legal_capture(p, s, e, f) implies has_move(a8, a0.len() as int, s, e, f) by {
                let pc = p.pieces;
                let c = p.color;
                if pawn_capture_move(pc, c, s, e, f) {
                    lemma_has_move_extends(a1, a8, a0.len() as int, s, e, f);
                } else if en_passant_move(pc, c, p.en_passant, s, e, f) {
                    lemma_has_move_from(a2, a8, a1.len() as int, a0.len() as int, s, e, f);
                } else if knight_move(pc, c, s, e, f) {
                    lemma_has_move_from(a4, a8, a3.len() as int, a0.len() as int, s, e, f);
                } else if slider_move(pc, c, true, s, e, f) {
                    lemma_has_move_from(a5, a8, a4.len() as int, a0.len() as int, s, e, f);
                } else if slider_move(pc, c, false, s, e, f) {
                    lemma_has_move_from(a6, a8, a5.len() as int, a0.len() as int, s, e, f);
                } else {
                    lemma_has_move_from(a8, a8, a6.len() as int, a0.len() as int, s, e, f);
                }
            }
            if self.kings_wf() {
                assert forall|k1: int, k2: int| a0.len() <= k1 < k2 < a8.len() implies a8[k1] != a8[k2] by {
                    let m1 = a8[k1];
                    let m2 = a8[k2];
                    if m1 == m2 {
                        let s = start_of(m1@);
                        let e = end_of(m1@);
                        let f = flags_of(m1@);
                        lemma_bishop_rook_disjoint(s, occupied(p.pieces), e);
                        lemma_segment(a1, a8, a0.len() as int, k1, k2);
                        lemma_segment(a2, a8, a1.len() as int, k1, k2);
                        lemma_segment(a4, a8, a3.len() as int, k1, k2);
                        lemma_segment(a5, a8, a4.len() as int, k1, k2);
                        lemma_segment(a6, a8, a5.len() as int, k1, k2);
                        lemma_segment(a8, a8, a6.len() as int, k1, k2);
                        assert(false);
                    }
                }
            }
        }
    }
}

/// A move appended after position `mid` of `a` is also appended after `from`.
proof fn lemma_has_move_from(a: Seq<ChessMove>, b: Seq<ChessMove>, mid: int, from: int, s: int, e: int, f: u16)
    requires
        0 <= from <= mid,
        extends(b, a),
        has_move(a, mid, s, e, f),
    ensures
        has_move(b, from, s, e, f),
{
    let k = choose|k: int| mid <= k < a.len() && #[trigger] move_is(a[k], s, e, f);
    assert(b.subrange(0, a.len() as int)[k] == b[k]);
    assert(move_is(b[k], s, e, f));
}

/// Two positions inside one appended segment `[from, a.len())` of `b` hold moves
/// that are distinct when the segment's moves are.
proof fn lemma_segment(a: Seq<ChessMove>, b: Seq<ChessMove>, from: int, k1: int, k2: int)
    requires
        extends(b, a),
        0 <= from,
    ensures
        from <= k1 < k2 < a.len() && (fields_distinct(a, from) || pairs_distinct(a, from)) ==> b[k1] != b[k2],
{
    if from <= k1 < k2 < a.len() {
        assert(b.subrange(0, a.len() as int)[k1] == b[k1]);
        assert(b.subrange(0, a.len() as int)[k2] == b[k2]);
    }
}

/// A pseudo-legal double pawn push leaves the en passant square on the rank
/// behind the pawn, and no other move leaves one.
pub proof fn lemma_en_passant_rank_after(p: Position, m: ChessMove)
    requires
        pseudo_legal(p, start_of(m@), end_of(m@), flags_of(m@)),
    ensures
        crate::board::en_passant_rank_ok(crate::board::makemove::make_spec(p, m)),
{
    let s = start_of(m@);
    let c = p.color;
    if flags_of(m@) == 0x1000 {
        let t = crate::board::makemove::ep_target(c, s);
        crate::types::lemma_square_of(t, Square64::A1);
        lemma_base_bv(0, 0);
    }
}

} // verus!
