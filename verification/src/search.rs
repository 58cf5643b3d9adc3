//! Alpha-beta search with iterative deepening, a quiescence search, null move
//! pruning, a transposition table and move ordering by the principal variation
//! move, MVV/LVA, killer moves and the history heuristic.

use crate::board::{Board, Position, tally, w_material};
use crate::board::makemove::{lemma_material_of_pieces, lemma_take_null_undoes_make_null, lemma_take_undoes_make, lemma_wf_of_view, make_legal, make_spec, move_applicable, promotion_gain, undo_applicable, undo_material_ok};
use crate::eval::{eval_spec, evaluation};
use crate::board::repeats;
use crate::hashtable::{HEKind, Probe, probe_answer};
use crate::board::movegen::{MoveList, has_move, lemma_move_fields, move_is, move_list_items, pseudo_legal, pseudo_legal_capture};
use crate::chess_move::{ChessMove, end_of, flags_of, start_of};
use crate::types::{Color, Piece, PieceType, type_of};
use crate::time_man::{duration_nanos, elapsed_nanos, nanos_of};
use std::sync::Arc;
use std::sync::atomic::AtomicBool;
use std::sync::atomic::Ordering;
use std::time::{Duration, Instant};
use vstd::prelude::*;

verus! {

// ---------------------------------------------------------------------------
// Scores
// ---------------------------------------------------------------------------

/// The largest score; scores lie between `-EVAL_MAX` and `EVAL_MAX`.
pub const EVAL_MAX: i16 = 32767;

/// The score of a draw.
pub const EVAL_DRAW: i16 = 0;

/// The score of being mated at the given ply, seen from the side that mates:
/// mates that come sooner score higher.
pub open spec fn mate_score(ply: u8) -> i16 {
    (EVAL_MAX - ply) as i16
}

pub fn mate_in(ply: u8) -> (r: i16)
    ensures
        r == mate_score(ply),
        EVAL_MAX - 255 <= r <= EVAL_MAX,
{
    EVAL_MAX - ply as i16
}

/// Whether a score is a mate score (of either side).
pub open spec fn is_mate_score(s: i16) -> bool {
    s >= EVAL_MAX - 255 || s <= -(EVAL_MAX - 255)
}

pub fn is_mate(s: i16) -> (r: bool)
    ensures
        r == is_mate_score(s),
{
    s >= EVAL_MAX - 255 || s <= -(EVAL_MAX - 255)
}

// ---------------------------------------------------------------------------
// Move ordering
// ---------------------------------------------------------------------------

/// Whether `make_move` can be asked to make the move: it has the shape a move
/// needs on this board and leaves room in the material for a promotion.
pub open spec fn board_can_make(b: &Board, m: ChessMove) -> bool {
    move_applicable(b@, m) && b.material[b.color.idx()] + promotion_gain(m) <= i16::MAX
}

/// The deepest ply the search goes to.
pub const MAX_PLY: usize = 1024;

/// A move the search plays in the position: one that move generation gives
/// (pseudo-legal), that `make_move` can be asked to make, and that is legal.
pub open spec fn search_plays(b: &Board, m: ChessMove) -> bool {
    &&& pseudo_legal(b@, start_of(m@), end_of(m@), flags_of(m@))
    &&& board_can_make(b, m)
    &&& make_legal(b@, m)
}

/// Whether the side to move has a move the search plays.
pub open spec fn has_legal_move(b: &Board) -> bool {
    exists|m: ChessMove| search_plays(b, m)
}

/// The score of a position without a legal move: being mated at this ply when
/// in check, else a draw (stalemate).
pub open spec fn no_move_score(b: &Board) -> i16 {
    if b.in_check {
        (-mate_score(b.ply as u8)) as i16
    } else {
        EVAL_DRAW
    }
}

/// Whether the search tries null move pruning at the node: allowed, not in
/// check, below the root, with more than one big piece of the side to move, and
/// at least four plies deep.
pub open spec fn null_move_tried(b: &Board, depth: u16, allow: bool) -> bool {
    &&& allow
    &&& !b.in_check
    &&& b.ply != 0
    &&& b.count_big_pieces[b.color.idx()] > 1
    &&& depth >= 4
}

/// A fail-hard result: `beta` on a cutoff, else `alpha` or a score between
/// `alpha` and `beta`.
pub open spec fn fail_hard(alpha: i16, beta: i16, r: i16) -> bool {
    r == beta || r == alpha || (alpha < r && r < beta)
}

/// What a search loop knows of its move list: the moves left `cur` come from
/// the generated list `orig`, whose moves are pseudo-legal in the position of
/// `b`; and while no move has been played (`none_played`), no move taken out so
/// far is one the search plays.
#[verifier::opaque]
pub open spec fn list_tracked(b: &Board, orig: Seq<ChessMove>, cur: Seq<ChessMove>, none_played: bool) -> bool {
    &&& forall|x: ChessMove| cur.contains(x) ==> orig.contains(x)
    &&& forall|x: ChessMove| orig.contains(x) ==> pseudo_legal(b@, start_of(x@), end_of(x@), flags_of(x@))
    &&& none_played ==> forall|x: ChessMove| orig.contains(x) && !cur.contains(x) ==> !search_plays(b, x)
}

/// The generated list `orig` holds every pseudo-legal move of the position.
#[verifier::opaque]
pub open spec fn list_complete(b: &Board, orig: Seq<ChessMove>) -> bool {
    forall|s: int, e: int, f: u16| pseudo_legal(b@, s, e, f) ==> has_move(orig, 0, s, e, f)
}

/// The tracking holds of a freshly generated list.
proof fn lemma_track_start(b: &Board, orig: Seq<ChessMove>)
    requires
        forall|k: int|
            0 <= k < orig.len() ==> {
                let m = #[trigger] orig[k];
                pseudo_legal(b@, start_of(m@), end_of(m@), flags_of(m@))
            },
    ensures
        list_tracked(b, orig, orig, true),
{
    reveal(list_tracked);
    assert forall|x: ChessMove| orig.contains(x) implies pseudo_legal(b@, start_of(x@), end_of(x@), flags_of(x@)) by {
        let k = choose|k: int| 0 <= k < orig.len() && orig[k] == x;
        assert(orig[k] == x);
    }
}

/// Taking move `m` (at `i`) out of the list and playing it or not keeps the
/// tracking; a move played is one the search plays.
proof fn lemma_track_step(
    b: &Board,
    orig: Seq<ChessMove>,
    cur: Seq<ChessMove>,
    i: int,
    m: ChessMove,
    none_played: bool,
    played: bool,
)
    requires
        list_tracked(b, orig, cur, none_played),
        0 <= i < cur.len(),
        cur[i] == m,
        played <==> (board_can_make(b, m) && make_legal(b@, m)),
    ensures
        list_tracked(b, orig, cur.update(i, cur.last()).drop_last(), none_played && !played),
        played ==> has_legal_move(b),
{
    reveal(list_tracked);
    let rest = cur.update(i, cur.last()).drop_last();
    assert(cur.contains(m));
    assert forall|x: ChessMove| rest.contains(x) implies orig.contains(x) by {
        lemma_taken_within(cur, i, x);
    }
    assert forall|x: ChessMove| cur.contains(x) && !rest.contains(x) implies x == m by {
        lemma_taken_keeps(cur, i, x);
    }
    if played {
        assert(search_plays(b, m));
    }
}

/// With every move taken out and none played, the side to move has no move the
/// search plays.
proof fn lemma_track_end(b: &Board, orig: Seq<ChessMove>, cur: Seq<ChessMove>)
    requires
        list_tracked(b, orig, cur, true),
        list_complete(b, orig),
        cur.len() == 0,
    ensures
        !has_legal_move(b),
{
    reveal(list_tracked);
    reveal(list_complete);
    assert forall|x: ChessMove| !search_plays(b, x) by {
        if search_plays(b, x) {
            assert(has_move(orig, 0, start_of(x@), end_of(x@), flags_of(x@)));
            let k = choose|k: int| 0 <= k < orig.len() && #[trigger] move_is(orig[k], start_of(x@), end_of(x@), flags_of(x@));
            lemma_move_fields(orig[k], x);
            assert(orig.contains(x));
            assert(!cur.contains(x));
        }
    }
}

/// What taking a move out of a list leaves: every other move stays.
proof fn lemma_taken_keeps(cur: Seq<ChessMove>, i: int, x: ChessMove)
    requires
        0 <= i < cur.len(),
        cur.contains(x),
    ensures
        cur.update(i, cur.last()).drop_last().contains(x) || x == cur[i],
{
    let rest = cur.update(i, cur.last()).drop_last();
    let j = choose|j: int| 0 <= j < cur.len() && cur[j] == x;
    if j != i {
        if j < cur.len() - 1 {
            assert(rest[j] == x);
        } else {
            assert(rest[i] == x);
        }
    }
}

/// Taking a move out of a list adds no move.
proof fn lemma_taken_within(cur: Seq<ChessMove>, i: int, x: ChessMove)
    requires
        0 <= i < cur.len(),
        cur.update(i, cur.last()).drop_last().contains(x),
    ensures
        cur.contains(x),
{
    let rest = cur.update(i, cur.last()).drop_last();
    let k = choose|k: int| 0 <= k < rest.len() && rest[k] == x;
    if k == i {
        assert(cur[cur.len() - 1] == x);
    } else {
        assert(cur[k] == x);
    }
}


pub struct SearchTables {
    pub transposition_table: crate::hashtable::TranspositionTable,
    /// Two quiet moves per ply that caused a beta cutoff.
    pub search_killers: Vec<[ChessMove; 2]>,
    /// Per piece and end square, how much quiet moves raised alpha.
    pub search_history: [[u32; 64]; 12],
}

impl SearchTables {
    /// The tables are usable by a search: the transposition table is well formed
    /// and holds no score out of range, and there is a killer slot for every ply.
    pub open spec fn wf(&self) -> bool {
        &&& self.transposition_table.wf()
        &&& self.transposition_table.scores_within(EVAL_MAX)
        &&& self.search_killers@.len() >= MAX_PLY
    }
}

/// The order value of a piece type for MVV/LVA: pawn 1 up to king 6.
pub open spec fn type_rank(t: PieceType) -> int {
    t.idx() + 1
}

/// Most valuable victim, least valuable attacker.
pub open spec fn mvv_lva_spec(attacker: PieceType, victim: PieceType) -> int {
    type_rank(victim) * 8 - type_rank(attacker)
}

fn mvv_lva(attacker: PieceType, victim: PieceType) -> (r: i32)
    ensures
        r == mvv_lva_spec(attacker, victim),
        -6 <= r <= 48,
{
    let scores: [i32; 6] = [1, 2, 3, 4, 5, 6];
    let v = scores[victim.index()];
    let a = scores[attacker.index()];
    v * 8 - a
}

/// The piece type a move captures, read from the board.
pub open spec fn captured_type(b: &Board, m: ChessMove) -> Option<PieceType> {
    if flags_of(m@) == 0x5000 {
        Some(PieceType::Pawn)
    } else {
        match b.pieces@[end_of(m@)] {
            Some(q) => Some(type_of(q)),
            None => None,
        }
    }
}

/// The order value of a move: the principal variation move first, then captures
/// by MVV/LVA, then the killer moves of the ply, then the rest by their history
/// (a move from an empty square, which no generated move is, orders last).
pub open spec fn move_score(m: ChessMove, pv_move: Option<ChessMove>, t: &SearchTables, b: &Board) -> int {
    if pv_move == Some(m) {
        2_000_000
    } else if b.pieces@[start_of(m@)] is None {
        0
    } else if captured_type(b, m) is Some {
        1_000_000 + mvv_lva_spec(type_of(b.pieces@[start_of(m@)].unwrap()), captured_type(b, m).unwrap())
    } else if t.search_killers@[b.ply as int][0] == m {
        900_000
    } else if t.search_killers@[b.ply as int][1] == m {
        800_000
    } else {
        t.search_history[b.pieces@[start_of(m@)].unwrap().idx()][end_of(m@)] as i32 as int
    }
}

fn score_move(m: ChessMove, pv_move: Option<ChessMove>, tables: &SearchTables, board: &Board) -> (r: i32)
    requires
        board.ply < tables.search_killers@.len(),
    ensures
        r == move_score(m, pv_move, tables, board),
{
    let is_ep = m.is_en_passant();
    proof {
        crate::chess_move::lemma_flag_bits(m@);
    }
    let captured = if is_ep {
        Some(PieceType::Pawn)
    } else {
        match board.pieces[m.end().index()] {
            Some(q) => Some(q.piece_type()),
            None => None,
        }
    };
    let is_pv = match pv_move {
        Some(p) => p == m,
        None => false,
    };
    if is_pv {
        return 2_000_000;
    }
    let mover = match board.pieces[m.start().index()] {
        Some(q) => q,
        None => {
            return 0;
        },
    };
    if let Some(victim) = captured {
        1_000_000 + mvv_lva(mover.piece_type(), victim)
    } else if tables.search_killers[board.ply][0] == m {
        900_000
    } else if tables.search_killers[board.ply][1] == m {
        800_000
    } else {
        tables.search_history[mover.index()][m.end().index()] as i32
    }
}

/// The move `m` at position `i` of `a` has the highest order value of the list,
/// and no move before it has as high a one; `b` is `a` with it swapped out.
pub closed spec fn taken_at(
    a: Seq<ChessMove>,
    b: Seq<ChessMove>,
    i: int,
    m: ChessMove,
    pv_move: Option<ChessMove>,
    t: &SearchTables,
    board: &Board,
) -> bool {
    &&& 0 <= i < a.len()
    &&& a[i] == m
    &&& forall|j: int| 0 <= j < a.len() ==> move_score(#[trigger] a[j], pv_move, t, board) <= move_score(m, pv_move, t, board)
    &&& forall|j: int| 0 <= j < i ==> move_score(#[trigger] a[j], pv_move, t, board) < move_score(m, pv_move, t, board)
    &&& b == a.update(i, a.last()).drop_last()
}

/// Takes the move with the highest order value out of the list (the first of
/// them where several share it); the last move takes its place.
fn take_next_move(list: &mut MoveList, pv_move: Option<ChessMove>, tables: &SearchTables, board: &Board) -> (r:
    Option<ChessMove>)
    requires
        board.ply < tables.search_killers@.len(),
    ensures
        move_list_items(*old(list)).len() == 0 <==> r is None,
        r is None ==> move_list_items(*final(list)) == move_list_items(*old(list)),
        r is Some ==> move_list_items(*final(list)).len() == move_list_items(*old(list)).len() - 1,
        r matches Some(m) ==> exists|i: int|
            #![trigger move_list_items(*old(list))[i]]
            taken_at(move_list_items(*old(list)), move_list_items(*final(list)), i, m, pv_move, tables, board),
{
    let n = list.len();
    if n == 0 {
        return None;
    }
    let ghost a = move_list_items(*list);
    let mut best: usize = 0;
    let mut best_score = score_move(list.get(0), pv_move, tables, board);
    let mut i: usize = 1;
    while i < n
        invariant
            1 <= i <= n,
            n == a.len(),
            a == move_list_items(*list),
            best < i,
            best_score == move_score(a[best as int], pv_move, tables, board),
            forall|j: int| 0 <= j < i ==> move_score(a[j], pv_move, tables, board) <= best_score,
            forall|j: int| 0 <= j < best ==> move_score(a[j], pv_move, tables, board) < best_score,
            board.ply < tables.search_killers@.len(),
        decreases n - i,
    {
        let m = list.get(i);
        let s = score_move(m, pv_move, tables, board);
        if s > best_score {
            best = i;
            best_score = s;
        }
        i = i + 1;
    }
    let m = list.swap_remove(best);
    Some(m)
}

// ---------------------------------------------------------------------------
// Limits and statistics
// ---------------------------------------------------------------------------

#[verifier::external_type_specification]
#[verifier::external_body]
pub struct ExInstant(Instant);

/// `Instant::now`: the current time.
#[verifier::external_body]
pub(crate) fn now() -> (r: Instant) {
    Instant::now()
}

pub struct SearchParams {
    pub max_time: Option<Duration>,
    pub max_nodes: Option<u64>,
    pub max_depth: Option<u16>,
    /// Set from outside to stop the search.
    pub stop: Arc<AtomicBool>,
}

pub struct SearchStats {
    /// When the search started.
    pub start_time: Instant,
    /// The depth of the current iteration.
    pub depth: u16,
    /// The score of the last completed iteration, in centipawns.
    pub score: i16,
    /// The number of nodes visited.
    pub nodes: u64,
    /// The number of leaves visited.
    pub leaves: u64,
    /// The number of beta cutoffs.
    pub fh: u64,
    /// The number of beta cutoffs at the first legal move.
    pub fhf: u64,
    /// The best move of the last completed iteration.
    pub bestmove: ChessMove,
    /// The principal variation of the last completed iteration.
    pub pv: Vec<ChessMove>,
    /// Whether the search should stop as soon as it can.
    pub stop: bool,
}

impl SearchStats {
    /// Fresh statistics, starting now.
    pub fn new() -> (r: SearchStats)
        ensures
            r.depth == 0,
            r.score == EVAL_DRAW,
            r.nodes == 0,
            r.leaves == 0,
            r.fh == 0,
            r.fhf == 0,
            r.bestmove == ChessMove::nomove(),
            r.pv@.len() == 0,
            !r.stop,
    {
        SearchStats {
            start_time: now(),
            depth: 0,
            score: EVAL_DRAW,
            nodes: 0,
            leaves: 0,
            fh: 0,
            fhf: 0,
            bestmove: ChessMove::default(),
            pv: Vec::new(),
            stop: false,
        }
    }

    /// A copy of the statistics.
    pub fn copy(&self) -> (r: SearchStats)
        ensures
            r.depth == self.depth,
            r.score == self.score,
            r.nodes == self.nodes,
            r.leaves == self.leaves,
            r.fh == self.fh,
            r.fhf == self.fhf,
            r.bestmove == self.bestmove,
            r.pv@ == self.pv@,
            r.stop == self.stop,
    {
        SearchStats {
            start_time: self.start_time,
            depth: self.depth,
            score: self.score,
            nodes: self.nodes,
            leaves: self.leaves,
            fh: self.fh,
            fhf: self.fhf,
            bestmove: self.bestmove,
            pv: self.pv.clone(),
            stop: self.stop,
        }
    }
}

/// The node or the depth limit is passed.
pub open spec fn limits_passed(params: &SearchParams, stats: &SearchStats) -> bool {
    ||| (params.max_nodes matches Some(n) && stats.nodes > n)
    ||| (params.max_depth matches Some(d) && stats.depth > d)
}

fn stop_requested(params: &SearchParams) -> (r: bool) {
    params.stop.load(Ordering::Acquire)
}

/// The stop decision, given the time passed since the start of the search in
/// nanoseconds (`elapsed`) and whether a stop was requested (`requested`): the
/// node or the depth limit is passed, a time limit is set and reached, or a stop
/// was requested.
pub fn stop_verdict(params: &SearchParams, stats: &SearchStats, elapsed: u128, requested: bool) -> (r: bool)
    ensures
        r == (limits_passed(params, stats) || (params.max_time matches Some(t) && elapsed >= nanos_of(t))
            || requested),
{
    if let Some(max_nodes) = params.max_nodes {
        if stats.nodes > max_nodes {
            return true;
        }
    }
    if let Some(max_time) = &params.max_time {
        if elapsed >= duration_nanos(max_time) {
            return true;
        }
    }
    if let Some(max_depth) = params.max_depth {
        if stats.depth > max_depth {
            return true;
        }
    }
    requested
}

/// Whether the search should stop: the node limit, the time limit or the depth
/// limit is passed, or a stop was requested. The clock and the request come from
/// outside and decide the rest (see `stop_verdict`).
pub fn should_search_stop(params: &SearchParams, stats: &SearchStats) -> (r: bool)
    ensures
        limits_passed(params, stats) ==> r,
{
    let elapsed = elapsed_nanos(&stats.start_time);
    let requested = stop_requested(params);
    stop_verdict(params, stats, elapsed, requested)
}

// ---------------------------------------------------------------------------
// Searching
// ---------------------------------------------------------------------------

/// A score kept out of `i16::MIN`: `-EVAL_MAX` in its place.
pub open spec fn bounded_spec(s: i16) -> i16 {
    if s < -EVAL_MAX {
        (-EVAL_MAX) as i16
    } else {
        s
    }
}

/// Whether the search scores the position as a draw at once: a repetition, or
/// the fifty move rule.
pub open spec fn is_draw_node(b: &Board) -> bool {
    repeats(b@) || b.fifty_move >= 100
}

/// The static evaluation of the board.
#[verifier::opaque]
pub open spec fn static_eval(b: &Board) -> i16 {
    eval_spec(b) as i16
}

/// What the quiescence search returns before it looks at any move: zero for a
/// draw; `beta` when not in check and the static evaluation reaches `beta`;
/// and at `MAX_PLY`, where no move is searched, `alpha` raised to the static
/// evaluation when not in check.
pub open spec fn quiet_outcome(b: &Board, alpha: i16, beta: i16, r: i16) -> bool {
    if is_draw_node(b) {
        r == EVAL_DRAW
    } else if !b.in_check && static_eval(b) >= beta {
        r == beta
    } else if b.ply >= MAX_PLY {
        r == (if !b.in_check && alpha < static_eval(b) {
            static_eval(b)
        } else {
            alpha
        })
    } else {
        true
    }
}

/// The static evaluation of a position, as any well-formed board showing it
/// gives it (they all agree: see `lemma_pos_eval`).
pub open spec fn pos_eval(p: Position) -> int {
    static_eval(&choose|b: Board| b.wf() && b@ == p) as int
}

/// Two well-formed boards showing the same position evaluate alike.
proof fn lemma_eval_view(a: &Board, b: &Board)
    requires
        a.wf(),
        b.wf(),
        a@ == b@,
    ensures
        static_eval(a) == static_eval(b),
{
    reveal(static_eval);
    assert(a.pieces@ == b.pieces@);
    assert(a.material[Color::White.idx()] == b.material[Color::White.idx()]);
    assert(a.material[Color::Black.idx()] == b.material[Color::Black.idx()]);
    assert(a.count_minor_pieces[Color::White.idx()] == b.count_minor_pieces[Color::White.idx()]);
    assert(a.count_minor_pieces[Color::Black.idx()] == b.count_minor_pieces[Color::Black.idx()]);
    assert forall|q: Piece| a.count_pieces[q.idx()] == b.count_pieces[q.idx()] by {
        assert(a.count_pieces[q.idx()] == crate::board::tally(a.pieces@, crate::board::w_piece(q), 64));
        assert(b.count_pieces[q.idx()] == crate::board::tally(b.pieces@, crate::board::w_piece(q), 64));
    }
    assert(a.count_pieces[Piece::WhiteQueen.idx()] == b.count_pieces[Piece::WhiteQueen.idx()]);
    assert(a.count_pieces[Piece::WhiteRook.idx()] == b.count_pieces[Piece::WhiteRook.idx()]);
    assert(a.count_pieces[Piece::WhiteKnight.idx()] == b.count_pieces[Piece::WhiteKnight.idx()]);
    assert(a.count_pieces[Piece::WhiteBishop.idx()] == b.count_pieces[Piece::WhiteBishop.idx()]);
    assert(a.count_pieces[Piece::WhitePawn.idx()] == b.count_pieces[Piece::WhitePawn.idx()]);
    assert(a.count_pieces[Piece::BlackQueen.idx()] == b.count_pieces[Piece::BlackQueen.idx()]);
    assert(a.count_pieces[Piece::BlackRook.idx()] == b.count_pieces[Piece::BlackRook.idx()]);
    assert(a.count_pieces[Piece::BlackKnight.idx()] == b.count_pieces[Piece::BlackKnight.idx()]);
    assert(a.count_pieces[Piece::BlackBishop.idx()] == b.count_pieces[Piece::BlackBishop.idx()]);
    assert(a.count_pieces[Piece::BlackPawn.idx()] == b.count_pieces[Piece::BlackPawn.idx()]);
}

/// The evaluation of a position is that of a well-formed board showing it.
pub proof fn lemma_pos_eval(b: &Board)
    requires
        b.wf(),
    ensures
        pos_eval(b@) == static_eval(b),
{
    let c = choose|x: Board| x.wf() && x@ == b@;
    assert(b.wf() && b@ == b@);
    lemma_eval_view(&c, b);
}

/// Whether a position is scored as a draw at once: a repetition or the fifty
/// move rule.
pub open spec fn draw_pos(p: Position) -> bool {
    repeats(p) || p.fifty_move >= 100
}

/// A move the quiescence search plays: a capture (any move when in check) that
/// `make_move` can be asked to make, with room in the material, and legal.
#[verifier::opaque]
pub open spec fn q_move(p: Position, m: ChessMove) -> bool {
    &&& (if p.in_check {
        pseudo_legal(p, start_of(m@), end_of(m@), flags_of(m@))
    } else {
        pseudo_legal_capture(p, start_of(m@), end_of(m@), flags_of(m@))
    })
    &&& move_applicable(p, m)
    &&& tally(p.pieces, w_material(p.color), 64) + promotion_gain(m) <= i16::MAX
    &&& make_legal(p, m)
}

/// The larger of two optional values.
pub open spec fn opt_max(a: Option<int>, b: Option<int>) -> Option<int> {
    match (a, b) {
        (None, _) => b,
        (_, None) => a,
        (Some(x), Some(y)) => Some(
            if x >= y {
                x
            } else {
                y
            },
        ),
    }
}

/// The value of a position to the quiescence search, seen from the side to
/// move: zero for a draw; the best of the static evaluation (not when in check)
/// and the negated values after the moves it plays; mate when in check without
/// such a move. At `MAX_PLY` no move is looked at, and a position in check gets
/// a value below every score.
pub open spec fn q_value(p: Position) -> int
    decreases MAX_PLY - p.ply, 1int, 0int,
{
    if draw_pos(p) {
        0
    } else if p.ply >= MAX_PLY {
        if p.in_check {
            -0x10000
        } else {
            pos_eval(p)
        }
    } else {
        match q_best(p, 0) {
            None => if p.in_check {
                -mate_score(p.ply as u8)
            } else {
                pos_eval(p)
            },
            Some(bv) => if p.in_check || bv > pos_eval(p) {
                bv
            } else {
                pos_eval(p)
            },
        }
    }
}

/// The best negated value after the moves with bits `v` and above that the
/// quiescence search plays; `None` when it plays none of them.
pub open spec fn q_best(p: Position, v: int) -> Option<int>
    decreases MAX_PLY - p.ply, 0int, 0x10000 - v,
{
    if v < 0 || v >= 0x10000 || p.ply >= MAX_PLY {
        None
    } else {
        let x = ChessMove::with_bits(v as u16);
        proof {
            lemma_q_after_ply(p, x);
        }
        let here = if q_move(p, x) {
            Some(-q_value(q_after(p, x)))
        } else {
            None
        };
        opt_max(here, q_best(p, v + 1))
    }
}

/// The negated quiescence value of the position after move `m` (below
/// `MAX_PLY`).
#[verifier::opaque]
pub open spec fn q_child(p: Position, m: ChessMove) -> int {
    -q_value(q_after(p, m))
}

/// The position after move `m`, as the quiescence values see it.
#[verifier::opaque]
pub open spec fn q_after(p: Position, m: ChessMove) -> Position {
    make_spec(p, m)
}

/// A move adds one to the ply.
pub proof fn lemma_q_after_ply(p: Position, m: ChessMove)
    ensures
        p.ply < MAX_PLY ==> q_after(p, m).ply == p.ply + 1,
{
    reveal(q_after);
}

/// A fail-hard result for the value `v` in the window from `alpha` to `beta`:
/// `beta` when `v` reaches it, `v` inside the window, else `alpha`.
pub open spec fn fail_hard_of(v: int, alpha: int, beta: int) -> int {
    if v >= beta {
        beta
    } else if v > alpha {
        v
    } else {
        alpha
    }
}

/// What the quiescence search returns in the window from `alpha` to `beta`:
/// zero for a draw, mate when in check without a move to play (below
/// `MAX_PLY`), else the fail-hard result for the quiescence value.
#[verifier::opaque]
pub open spec fn q_result(p: Position, alpha: i16, beta: i16) -> int {
    if draw_pos(p) {
        0
    } else if p.ply < MAX_PLY && p.in_check && q_best(p, 0) is None {
        -mate_score(p.ply as u8)
    } else {
        fail_hard_of(q_value(p), alpha as int, beta as int)
    }
}

/// In a proper window the result agrees with the value: it reaches `beta`
/// exactly when the value does, stays at `alpha` or below exactly when the
/// value does, and equals a value inside the window.
pub proof fn lemma_q_result_hard(p: Position, alpha: i16, beta: i16)
    requires
        alpha < beta,
    ensures
        (q_result(p, alpha, beta) >= beta) == (q_value(p) >= beta),
        (q_result(p, alpha, beta) <= alpha) == (q_value(p) <= alpha),
        alpha < q_value(p) < beta ==> q_result(p, alpha, beta) == q_value(p),
{
    reveal(q_result);
    lemma_q_value(p);
}

/// The result of the quiescence search by cases.
pub proof fn lemma_q_result(p: Position, alpha: i16, beta: i16)
    ensures
        q_result(p, alpha, beta) == (if draw_pos(p) {
            0
        } else if p.ply < MAX_PLY && p.in_check && q_best(p, 0) is None {
            -mate_score(p.ply as u8)
        } else {
            fail_hard_of(q_value(p), alpha as int, beta as int)
        }),
{
    reveal(q_result);
}

/// The score a parent sees after move `m`, the negated result of the child in
/// the negated window, agrees with the negated value of the child.
proof fn lemma_q_child_hard(p: Position, m: ChessMove, a: i16, beta: i16)
    requires
        p.ply < MAX_PLY,
        a < beta,
        -EVAL_MAX <= a,
        beta <= EVAL_MAX,
    ensures
        (-q_result(make_spec(p, m), (-beta) as i16, (-a) as i16) >= beta) == (q_child(p, m) >= beta),
        (-q_result(make_spec(p, m), (-beta) as i16, (-a) as i16) > a) == (q_child(p, m) > a),
        a < q_child(p, m) < beta ==> -q_result(make_spec(p, m), (-beta) as i16, (-a) as i16) == q_child(p, m),
{
    reveal(q_child);
    reveal(q_after);
    assert((-beta) as i16 == -beta);
    assert((-a) as i16 == -a);
    lemma_q_result_hard(make_spec(p, m), (-beta) as i16, (-a) as i16);
}

/// A generated move that can be made, with room in the material, and is legal,
/// is one the quiescence search plays.
proof fn lemma_q_move_intro(p: Position, m: ChessMove)
    requires
        q_generated(p, m),
        move_applicable(p, m),
        tally(p.pieces, w_material(p.color), 64) + promotion_gain(m) <= i16::MAX,
        make_legal(p, m),
    ensures
        q_move(p, m),
{
    reveal(q_generated);
    reveal(q_move);
}

/// `q_best` is the largest negated value of a move it covers, and it covers
/// every move played with bits `v` and above.
proof fn lemma_q_best(p: Position, v: int)
    requires
        0 <= v <= 0x10000,
    ensures
        forall|x: ChessMove|
            #![trigger q_move(p, x)]
            v <= x@ && q_move(p, x) && p.ply < MAX_PLY ==> (q_best(p, v) matches Some(bv) && q_child(p, x)
                <= bv),
        q_best(p, v) matches Some(bv) ==> exists|x: ChessMove|
            #![trigger q_move(p, x)]
            q_move(p, x) && q_child(p, x) == bv,
    decreases 0x10000 - v,
{
    if v < 0x10000 && p.ply < MAX_PLY {
        lemma_q_best(p, v + 1);
        let y = ChessMove::with_bits(v as u16);
        ChessMove::lemma_with_bits(y, v as u16);
        reveal(q_child);
        assert forall|x: ChessMove|
            #![trigger q_move(p, x)]
            v <= x@ && q_move(p, x) ==> (q_best(p, v) matches Some(bv) && q_child(p, x) <= bv) by {
            if v <= x@ && q_move(p, x) {
                ChessMove::lemma_with_bits(x, x@);
                if x@ == v {
                    assert(x == y);
                }
            }
        }
        if q_move(p, y) {
            assert(q_move(p, y));
        }
    }
}

/// The quiescence value away from a draw: at `MAX_PLY` the static evaluation
/// (below every score when in check); below it, at least the static evaluation
/// when not in check, and the best negated value when in check with a move.
proof fn lemma_q_value(p: Position)
    ensures
        draw_pos(p) ==> q_value(p) == 0,
        !draw_pos(p) && p.ply >= MAX_PLY ==> q_value(p) == (if p.in_check {
            -0x10000
        } else {
            pos_eval(p)
        }),
        !draw_pos(p) && p.ply < MAX_PLY && !p.in_check ==> q_value(p) >= pos_eval(p) && (q_best(p, 0) matches Some(bv)
            ==> q_value(p) == (if bv > pos_eval(p) {
            bv
        } else {
            pos_eval(p)
        })) && (q_best(p, 0) is None ==> q_value(p) == pos_eval(p)),
        !draw_pos(p) && p.ply < MAX_PLY && p.in_check ==> (q_best(p, 0) matches Some(bv) ==> q_value(p) == bv) && (q_best(
            p,
            0,
        ) is None ==> q_value(p) == -mate_score(p.ply as u8)),
{
}

/// The moves the quiescence search generates in a position: captures, or all
/// pseudo-legal moves when in check.
#[verifier::opaque]
pub open spec fn q_generated(p: Position, m: ChessMove) -> bool {
    if p.in_check {
        pseudo_legal(p, start_of(m@), end_of(m@), flags_of(m@))
    } else {
        pseudo_legal_capture(p, start_of(m@), end_of(m@), flags_of(m@))
    }
}

/// What the quiescence loop knows of its move list: the moves left come from
/// the generated list, whose moves are generated ones, and every move taken out
/// and played has a negated value of at most `a`.
#[verifier::opaque]
pub open spec fn q_tracked(p: Position, orig: Seq<ChessMove>, cur: Seq<ChessMove>, a: int) -> bool {
    &&& forall|x: ChessMove| cur.contains(x) ==> orig.contains(x)
    &&& forall|x: ChessMove| orig.contains(x) ==> q_generated(p, x)
    &&& forall|x: ChessMove|
        orig.contains(x) && !cur.contains(x) && q_move(p, x) ==> q_child(p, x) <= a
}

/// The generated list holds every move the quiescence search plays.
#[verifier::opaque]
pub open spec fn q_complete(p: Position, orig: Seq<ChessMove>) -> bool {
    forall|x: ChessMove| q_move(p, x) ==> orig.contains(x)
}

/// The bound `a` is the starting bound `a0` or the negated value after a move
/// the search plays.
#[verifier::opaque]
pub open spec fn q_attained(p: Position, a0: int, a: int) -> bool {
    a == a0 || exists|x: ChessMove| q_move(p, x) && q_child(p, x) == a
}

/// The tracking holds of a freshly generated list, which holds every move the
/// search plays.
proof fn lemma_q_start(p: Position, orig: Seq<ChessMove>, a0: int)
    requires
        forall|k: int|
            0 <= k < orig.len() ==> {
                let m = #[trigger] orig[k];
                if p.in_check {
                    pseudo_legal(p, start_of(m@), end_of(m@), flags_of(m@))
                } else {
                    pseudo_legal_capture(p, start_of(m@), end_of(m@), flags_of(m@))
                }
            },
        forall|s: int, e: int, f: u16|
            (if p.in_check {
                pseudo_legal(p, s, e, f)
            } else {
                pseudo_legal_capture(p, s, e, f)
            }) ==> has_move(orig, 0, s, e, f),
    ensures
        q_tracked(p, orig, orig, a0),
        q_complete(p, orig),
        q_attained(p, a0, a0),
{
    reveal(q_tracked);
    reveal(q_complete);
    reveal(q_attained);
    reveal(q_move);
    reveal(q_generated);
    assert forall|x: ChessMove| orig.contains(x) implies q_generated(p, x) by {
        let k = choose|k: int| 0 <= k < orig.len() && orig[k] == x;
        assert(orig[k] == x);
    }
    assert forall|x: ChessMove| q_move(p, x) implies orig.contains(x) by {
        assert(has_move(orig, 0, start_of(x@), end_of(x@), flags_of(x@)));
        let k = choose|k: int| 0 <= k < orig.len() && #[trigger] move_is(orig[k], start_of(x@), end_of(x@), flags_of(x@));
        lemma_move_fields(orig[k], x);
        assert(orig[k] == x);
    }
}

/// Taking move `m` (at `i`) out of the list and playing it or not: a move played
/// is one the search plays; below `beta` its score is its negated value when it
/// raises `a`, and the tracking and the attained bound carry over.
proof fn lemma_q_step(
    b: &Board,
    p: Position,
    orig: Seq<ChessMove>,
    cur: Seq<ChessMove>,
    i: int,
    m: ChessMove,
    a0: int,
    a: i16,
    beta: i16,
    played: bool,
    score: i16,
)
    requires
        q_tracked(p, orig, cur, a as int),
        q_attained(p, a0, a as int),
        p.ply < MAX_PLY,
        0 <= i < cur.len(),
        cur[i] == m,
        a < beta,
        -EVAL_MAX <= a,
        beta <= EVAL_MAX,
        b.wf(),
        b@ == p,
        played <==> (board_can_make(b, m) && make_legal(b@, m)),
        played ==> score == -q_result(make_spec(p, m), (-beta) as i16, (-a) as i16),
    ensures
        played ==> q_move(p, m),
        played && score >= beta ==> q_child(p, m) >= beta,
        !(played && score >= beta) ==> {
            let na: int = if played && score > a {
                score as int
            } else {
                a as int
            };
            &&& q_tracked(p, orig, cur.update(i, cur.last()).drop_last(), na)
            &&& q_attained(p, a0, na)
        },
{
    reveal(q_tracked);
    reveal(q_attained);
    assert(b.material[b.color.idx()] == tally(b.pieces@, w_material(b.color), 64));
    let rest = cur.update(i, cur.last()).drop_last();
    assert(cur.contains(m));
    assert(orig.contains(m));
    if played {
        lemma_q_move_intro(p, m);
        lemma_q_child_hard(p, m, a, beta);
    }
    if q_move(p, m) {
        reveal(q_move);
        assert(played);
    }
    if !(played && score >= beta) {
        let na: int = if played && score > a {
            score as int
        } else {
            a as int
        };
        assert forall|x: ChessMove| rest.contains(x) implies orig.contains(x) by {
            lemma_taken_within(cur, i, x);
        }
        assert forall|x: ChessMove|
            orig.contains(x) && !rest.contains(x) && q_move(p, x) implies q_child(p, x) <= na by {
            if cur.contains(x) {
                lemma_taken_keeps(cur, i, x);
                assert(x == m);
            }
        }
        if played && score > a {
            assert(q_move(p, m) && q_child(p, m) == na);
        }
    }
}

/// With every generated move taken out, the bound reached is the result of the
/// quiescence search.
proof fn lemma_q_end(p: Position, orig: Seq<ChessMove>, cur: Seq<ChessMove>, a0: int, a: i16, alpha: i16, beta: i16)
    requires
        q_tracked(p, orig, cur, a as int),
        q_complete(p, orig),
        q_attained(p, a0, a as int),
        cur.len() == 0,
        alpha < beta,
        a0 <= a < beta,
        !draw_pos(p),
        p.ply < MAX_PLY,
        p.in_check ==> a0 == alpha && q_best(p, 0) is Some,
        !p.in_check ==> pos_eval(p) < beta && a0 == (if alpha < pos_eval(p) {
            pos_eval(p)
        } else {
            alpha as int
        }),
    ensures
        a == q_result(p, alpha, beta),
{
    assert forall|x: ChessMove| q_move(p, x) implies q_child(p, x) <= a by {
        reveal(q_tracked);
        reveal(q_complete);
        assert(orig.contains(x));
        assert(!cur.contains(x));
    }
    lemma_q_best(p, 0);
    lemma_q_value(p);
    lemma_q_result(p, alpha, beta);
    let top: int = a as int;
    if top != a0 {
        reveal(q_attained);
        let y = choose|x: ChessMove| q_move(p, x) && q_child(p, x) == top;
        assert(q_move(p, y));
        assert(0 <= y@);
        assert(q_best(p, 0) matches Some(bv) && q_child(p, y) <= bv);
    }
    match q_best(p, 0) {
        Some(bv) => {
            let w = choose|x: ChessMove| q_move(p, x) && q_child(p, x) == bv;
            assert(q_child(p, w) <= a);
            assert(top == a0 || top == bv);
            if p.in_check {
                assert(q_value(p) == bv);
            } else {
                assert(q_value(p) == (if bv > pos_eval(p) {
                    bv
                } else {
                    pos_eval(p)
                }));
            }
        },
        None => {
            assert(top == a0);
            assert(q_value(p) == pos_eval(p));
        },
    }
}

/// A move the search plays whose negated value reaches `beta` makes the result
/// `beta`.
proof fn lemma_q_cut(p: Position, m: ChessMove, alpha: i16, beta: i16)
    requires
        q_move(p, m),
        q_child(p, m) >= beta,
        !draw_pos(p),
        p.ply < MAX_PLY,
    ensures
        q_result(p, alpha, beta) == beta,
{
    lemma_q_best(p, 0);
    lemma_q_value(p);
    lemma_q_result(p, alpha, beta);
    ChessMove::lemma_with_bits(m, m@);
    assert(q_move(p, m));
}

/// In check, the moves the quiescence search plays are those the search plays.
proof fn lemma_q_move_plays(b: &Board, x: ChessMove)
    requires
        b.wf(),
        b.in_check,
    ensures
        q_move(b@, x) == search_plays(b, x),
{
    reveal(q_move);
    assert(b.material[b.color.idx()] == tally(b.pieces@, w_material(b.color), 64));
}

/// Without a move the search plays, `q_best` has nothing.
proof fn lemma_q_none(p: Position)
    requires
        forall|x: ChessMove| !q_move(p, x),
    ensures
        q_best(p, 0) is None,
{
    lemma_q_best(p, 0);
}

/// The depth a node is searched to: one more when in check.
pub open spec fn extended_depth(b: &Board, depth: u16) -> u16 {
    if b.in_check {
        (depth + 1) as u16
    } else {
        depth
    }
}

/// Whether the transposition table answers the node with a cutoff.
#[verifier::opaque]
pub open spec fn table_cuts(t: &SearchTables, b: &Board, alpha: i16, beta: i16, depth: u16) -> bool {
    probe_answer(t.transposition_table.lookup(b.position_key), alpha, beta, extended_depth(b, depth)) is CutOff
}

/// A score kept out of `i16::MIN`, so that it can be negated.
fn bounded(s: i16) -> (r: i16)
    ensures
        r == bounded_spec(s),
        -EVAL_MAX <= r <= EVAL_MAX,
        s >= -EVAL_MAX ==> r == s,
{
    if s < -EVAL_MAX {
        -EVAL_MAX
    } else {
        s
    }
}

/// Makes the move if it can be made and is legal, searches the position after it
/// with `quiescence` and takes the move back; returns the score for the side to
/// move, or `None` where the move was not made.
fn play_quiescence(m: ChessMove, alpha: i16, beta: i16, board: &mut Board, stats: &mut SearchStats, tables: &mut SearchTables) -> (r: Option<i16>)
    requires
        old(board).wf(),
        old(board).fifty_move < 100,
        old(board).ply < MAX_PLY,
        old(tables).wf(),
        -EVAL_MAX <= alpha <= EVAL_MAX,
        -EVAL_MAX <= beta <= EVAL_MAX,
    ensures
        final(stats).depth == old(stats).depth,
        final(board).wf(),
        final(board)@ == old(board)@,
        final(board).material[0] == old(board).material[0],
        final(board).material[1] == old(board).material[1],
        final(tables).wf(),
        final(tables).search_killers@ == old(tables).search_killers@,
        r matches Some(s) ==> -EVAL_MAX <= s <= EVAL_MAX,
        r is Some <==> (board_can_make(old(board), m) && make_legal(old(board)@, m)),
        final(stats).stop == old(stats).stop,
        r matches Some(s) ==> (!old(stats).stop && alpha < beta ==> s == -q_result(
            make_spec(old(board)@, m),
            (-beta) as i16,
            (-alpha) as i16,
        )),
    decreases MAX_PLY - old(board).ply, 0int,
{
    if !board.can_make(m) {
        return None;
    }
    let ghost b0 = *board;
    if !board.make_move(m) {
        return None;
    }
    let ghost b1 = *board;
    let score = quiescence(-beta, -alpha, board, stats, tables);
    proof {
        lemma_material_of_pieces(&b1, board);
        assert(board.pieces@ == b1.pieces@);
        assert(undo_material_ok(board));
        lemma_take_undoes_make(b0@, m);
    }
    board.take_move();
    proof {
        lemma_wf_of_view(&b0, board);
        lemma_material_of_pieces(&b0, board);
    }
    Some(-score)
}

/// Searches captures only (all moves when in check) until the position is quiet,
/// so that the static evaluation is not taken in the middle of an exchange. The
/// board is left as it was. At `MAX_PLY` no move is searched.
#[verifier::rlimit(100)]
#[verifier::spinoff_prover]
pub fn quiescence(alpha: i16, beta: i16, board: &mut Board, stats: &mut SearchStats, tables: &mut SearchTables) -> (r:
    i16)
    requires
        old(board).wf(),
        old(board).fifty_move < usize::MAX,
        old(board).ply <= MAX_PLY,
        old(tables).wf(),
        -EVAL_MAX <= alpha <= EVAL_MAX,
        -EVAL_MAX <= beta <= EVAL_MAX,
    ensures
        final(stats).depth == old(stats).depth,
        final(board).wf(),
        final(board)@ == old(board)@,
        final(board).material[0] == old(board).material[0],
        final(board).material[1] == old(board).material[1],
        final(tables).wf(),
        final(tables).search_killers@ == old(tables).search_killers@,
        -EVAL_MAX <= r <= EVAL_MAX,
        final(stats).stop == old(stats).stop,
        quiet_outcome(old(board), alpha, beta, r),
        !old(stats).stop && alpha < beta ==> r == q_result(old(board)@, alpha, beta),
        is_draw_node(old(board)) || (!old(board).in_check && static_eval(old(board)) >= beta) || old(board).ply
            >= MAX_PLY ==> final(stats).nodes == vstd::wrapping::u64_specs::wrapping_add(old(stats).nodes, 1),
        !old(stats).stop && !is_draw_node(old(board)) && old(board).ply < MAX_PLY && !old(board).in_check ==> (
        r == beta || (r >= alpha && r >= static_eval(old(board)))),
        !old(stats).stop && !is_draw_node(old(board)) && old(board).ply < MAX_PLY && old(board).in_check
            && !has_legal_move(old(board)) ==> r == no_move_score(old(board)),
        !old(stats).stop && !is_draw_node(old(board)) && old(board).ply < MAX_PLY && old(board).in_check
            && has_legal_move(old(board)) ==> fail_hard(alpha, beta, r),
    decreases MAX_PLY - old(board).ply, 1int,
{
    let ghost alpha_in = alpha;
    let mut a = alpha;
    stats.nodes = stats.nodes.wrapping_add(1);

    if board.is_repetition() || board.fifty_move >= 100 {
        proof {
            lemma_q_result(old(board)@, alpha_in, beta);
        }
        return EVAL_DRAW;
    }

    let standing_pat = evaluation(board);
    assert(standing_pat == static_eval(old(board))) by {
        reveal(static_eval);
    }
    let in_check = board.in_check;
    let ghost pp = old(board)@;
    let ghost vq = !old(stats).stop && alpha_in < beta;
    proof {
        lemma_pos_eval(old(board));
        lemma_q_value(pp);
        lemma_q_result(pp, alpha_in, beta);
    }

    if !in_check {
        if standing_pat >= beta {
            return beta;
        } else if a < standing_pat {
            a = standing_pat;
        }
    }

    // the search goes no deeper than MAX_PLY: there no move is searched
    if board.ply >= MAX_PLY {
        return a;
    }

    let mut moves = MoveList::new();
    if in_check {
        board.generate_all_moves(&mut moves);
    } else {
        board.generate_capture_moves(&mut moves);
    }

    let ghost b0 = *board;
    let ghost k0 = tables.search_killers@;
    let ghost floor = if alpha_in >= standing_pat { alpha_in } else { standing_pat };
    let ghost orig = move_list_items(moves);
    let ghost a0: int = a as int;
    proof {
        assert(move_list_items(moves).len() == 0 + move_list_items(moves).len());
        if in_check {
            lemma_track_start(old(board), orig);
            assert(list_complete(old(board), orig)) by {
                reveal(list_complete);
            }
        }
        lemma_q_start(pp, orig, a0);
    }
    let mut legal_moves: usize = 0;
    loop
        invariant
            vq ==> q_tracked(pp, orig, move_list_items(moves), a as int),
            q_complete(pp, orig),
            vq ==> q_attained(pp, a0, a as int),
            vq ==> a0 <= a < beta,
            in_check ==> a0 == alpha_in,
            !in_check ==> pos_eval(pp) < beta && a0 == (if alpha_in < pos_eval(pp) {
                pos_eval(pp)
            } else {
                alpha_in as int
            }),
            pp == old(board)@,
            alpha_in == alpha,
            vq == (!old(stats).stop && alpha_in < beta),
            in_check ==> list_tracked(old(board), orig, move_list_items(moves), legal_moves == 0),
            in_check ==> list_complete(old(board), orig),
            legal_moves > 0 ==> in_check ==> has_legal_move(old(board)),
            in_check ==> (a == alpha_in || (alpha_in < a && a < beta)),
            stats.stop == old(stats).stop,
            !is_draw_node(old(board)),
            old(board).ply < MAX_PLY,
            in_check || standing_pat < beta,
            !in_check ==> a >= floor,
            in_check == old(board).in_check,
            standing_pat == static_eval(old(board)),
            floor >= alpha_in,
            floor >= standing_pat,
            board.wf(),
            board@ == b0@,
            board.material[0] == b0.material[0],
            board.material[1] == b0.material[1],
            b0.wf(),
            b0.fifty_move < 100,
            b0.ply < MAX_PLY,
            tables.wf(),
            tables.search_killers@ == k0,
            -EVAL_MAX <= a <= EVAL_MAX,
            -EVAL_MAX <= beta <= EVAL_MAX,
            legal_moves + move_list_items(moves).len() <= 30000,
            board.ply < MAX_PLY,
            board.fifty_move < 100,
            b0@ == old(board)@,
            b0.material[0] == old(board).material[0],
            b0.material[1] == old(board).material[1],
            b0.ply == old(board).ply,
            stats.depth == old(stats).depth,
            k0 == old(tables).search_killers@,
        ensures
            move_list_items(moves).len() == 0,
        decreases move_list_items(moves).len(),
    {
        let ghost cur = move_list_items(moves);
        let next = take_next_move(&mut moves, None, tables, board);
        if next.is_none() {
            break;
        }
        let m = next.unwrap();
        let ghost i = choose|i: int| taken_at(cur, move_list_items(moves), i, m, None, tables, board);
        proof {
            assert(taken_at(cur, move_list_items(moves), i, m, None, tables, board));
            assert(board.material[board.color.idx()] == old(board).material[old(board).color.idx()]);
        }
        let played = play_quiescence(m, a, beta, board, stats, tables);
        proof {
            if in_check {
                lemma_track_step(old(board), orig, cur, i, m, legal_moves == 0, played is Some);
            }
            if vq {
                let sc: i16 = match played {
                    Some(x) => x,
                    None => 0,
                };
                lemma_q_step(board, pp, orig, cur, i, m, a0, a, beta, played is Some, sc);
            }
        }
        if let Some(score) = played {
            legal_moves = legal_moves + 1;
            if stats.stop {
                return EVAL_DRAW;
            }
            if score >= beta {
                proof {
                    if vq {
                        lemma_q_cut(pp, m, alpha_in, beta);
                    }
                }
                return beta;
            }
            if score > a {
                a = score;
            }
        }
    }

    proof {
        if legal_moves == 0 && in_check {
            lemma_track_end(old(board), orig, move_list_items(moves));
            assert forall|x: ChessMove| !q_move(pp, x) by {
                lemma_q_move_plays(old(board), x);
            }
            lemma_q_none(pp);
        }
        if legal_moves > 0 && in_check {
            let x = choose|x: ChessMove| search_plays(old(board), x);
            lemma_q_move_plays(old(board), x);
            lemma_q_best(pp, 0);
        }
    }
    if legal_moves == 0 && in_check {
        return -mate_in(board.ply as u8);
    }
    proof {
        if vq {
            lemma_q_end(pp, orig, move_list_items(moves), a0, a, alpha_in, beta);
        }
    }
    a
}

/// The room the fifty move counter needs: it grows by at most one per ply, and
/// the search goes no deeper than `MAX_PLY`.
pub open spec fn counter_room(b: &Board) -> bool {
    b.fifty_move + MAX_PLY < usize::MAX + b.ply
}

/// Makes the move if it can be made and is legal, searches the position after it
/// with `alpha_beta` one ply less deep and takes the move back; returns the score
/// for the side to move, or `None` where the move was not made.
fn play_alpha_beta(
    m: ChessMove,
    alpha: i16,
    beta: i16,
    depth: u16,
    board: &mut Board,
    params: &SearchParams,
    stats: &mut SearchStats,
    tables: &mut SearchTables,
) -> (r: Option<i16>)
    requires
        old(board).wf(),
        counter_room(old(board)),
        old(board).ply < MAX_PLY,
        old(tables).wf(),
        -EVAL_MAX <= alpha <= EVAL_MAX,
        -EVAL_MAX <= beta <= EVAL_MAX,
        1 <= depth,
    ensures
        final(stats).depth == old(stats).depth,
        final(board).wf(),
        final(board)@ == old(board)@,
        final(board).material[0] == old(board).material[0],
        final(board).material[1] == old(board).material[1],
        final(tables).wf(),
        final(tables).search_killers@.len() == old(tables).search_killers@.len(),
        r matches Some(s) ==> -EVAL_MAX <= s <= EVAL_MAX,
        r is Some <==> (board_can_make(old(board), m) && make_legal(old(board)@, m)),
    decreases MAX_PLY - old(board).ply, 0int,
{
    if !board.can_make(m) {
        return None;
    }
    let ghost b0 = *board;
    if !board.make_move(m) {
        return None;
    }
    let ghost b1 = *board;
    let score = alpha_beta(-beta, -alpha, depth - 1, board, params, stats, tables, true);
    proof {
        lemma_material_of_pieces(&b1, board);
        assert(board.pieces@ == b1.pieces@);
        assert(undo_material_ok(board));
        lemma_take_undoes_make(b0@, m);
    }
    board.take_move();
    proof {
        lemma_wf_of_view(&b0, board);
        lemma_material_of_pieces(&b0, board);
    }
    Some(-score)
}

/// Passes the move, searches the position after it with `alpha_beta` in the null
/// window just above `beta` and takes the pass back; returns the score for the
/// side to move.
fn play_null_move(
    beta: i16,
    depth: u16,
    board: &mut Board,
    params: &SearchParams,
    stats: &mut SearchStats,
    tables: &mut SearchTables,
) -> (r: i16)
    requires
        old(board).wf(),
        !old(board).in_check,
        counter_room(old(board)),
        old(board).ply < MAX_PLY,
        old(tables).wf(),
        -EVAL_MAX <= beta <= EVAL_MAX,
        depth < u16::MAX,
    ensures
        final(stats).depth == old(stats).depth,
        final(board).wf(),
        final(board)@ == old(board)@,
        final(board).material[0] == old(board).material[0],
        final(board).material[1] == old(board).material[1],
        final(tables).wf(),
        final(tables).search_killers@.len() == old(tables).search_killers@.len(),
        -EVAL_MAX <= r <= EVAL_MAX,
        old(stats).stop ==> r == EVAL_DRAW && final(stats).stop,
    decreases MAX_PLY - old(board).ply, 0int,
{
    let ghost b0 = *board;
    board.make_null_move();
    let upper = if beta > -EVAL_MAX {
        -beta + 1
    } else {
        EVAL_MAX
    };
    let score = alpha_beta(-beta, upper, depth, board, params, stats, tables, false);
    proof {
        lemma_material_of_pieces(&b0, board);
        lemma_take_null_undoes_make_null(b0@);
    }
    board.take_null_move();
    proof {
        lemma_wf_of_view(&b0, board);
        lemma_material_of_pieces(&b0, board);
    }
    -score
}

/// The principal search: a fail-hard alpha-beta search of `depth` plies in the
/// window from `alpha` to `beta`, extended by a ply when in check, with
/// transposition table cutoffs, null move pruning, and killer and history updates.
/// Repetitions and positions under the fifty move rule below the root score as
/// draws; with no legal move the position is mate or stalemate. The board is left
/// as it was. At `MAX_PLY`, unless the table cuts the node off, the static
/// evaluation is returned.
#[verifier::rlimit(80)]
#[verifier::spinoff_prover]
pub fn alpha_beta(
    alpha: i16,
    beta: i16,
    depth: u16,
    board: &mut Board,
    params: &SearchParams,
    stats: &mut SearchStats,
    tables: &mut SearchTables,
    allow_null_move: bool,
) -> (r: i16)
    requires
        old(board).wf(),
        counter_room(old(board)),
        old(board).ply <= MAX_PLY,
        old(tables).wf(),
        -EVAL_MAX <= alpha <= EVAL_MAX,
        -EVAL_MAX <= beta <= EVAL_MAX,
        depth < u16::MAX,
    ensures
        final(stats).depth == old(stats).depth,
        final(board).wf(),
        final(board)@ == old(board)@,
        final(board).material[0] == old(board).material[0],
        final(board).material[1] == old(board).material[1],
        final(tables).wf(),
        final(tables).search_killers@.len() == old(tables).search_killers@.len(),
        -EVAL_MAX <= r <= EVAL_MAX,
        old(stats).stop ==> r == EVAL_DRAW && final(stats).stop,
        !old(stats).stop && depth == 0 ==> quiet_outcome(old(board), alpha, beta, r),
        !final(stats).stop && depth == 0 && alpha < beta ==> r == q_result(old(board)@, alpha, beta),
        !old(stats).stop && depth > 0 && old(board).ply >= 1 && is_draw_node(old(board)) ==> r == EVAL_DRAW,
        !old(stats).stop && depth > 0 && !(old(board).ply >= 1 && is_draw_node(old(board))) && old(board).ply
            >= MAX_PLY && !table_cuts(old(tables), old(board), alpha, beta, depth) ==> r == bounded_spec(
            static_eval(old(board)),
        ),
        !old(stats).stop && depth > 0 && !(old(board).ply >= 1 && is_draw_node(old(board))) && old(board).ply
            < MAX_PLY && !table_cuts(old(tables), old(board), alpha, beta, depth) && !null_move_tried(
            old(board),
            depth,
            allow_null_move,
        ) && !has_legal_move(old(board)) ==> r == no_move_score(old(board)),
        !old(stats).stop && depth > 0 && !(old(board).ply >= 1 && is_draw_node(old(board))) && old(board).ply
            < MAX_PLY && !table_cuts(old(tables), old(board), alpha, beta, depth) && has_legal_move(old(board))
            ==> fail_hard(alpha, beta, r) || (r == EVAL_DRAW && final(stats).stop),
        !old(stats).stop && depth > 0 && !(old(board).ply >= 1 && is_draw_node(old(board))) ==> (probe_answer(
            old(tables).transposition_table.lookup(old(board).position_key),
            alpha,
            beta,
            extended_depth(old(board), depth),
        ) matches Probe::CutOff(_, s) ==> r == s),
    decreases MAX_PLY - old(board).ply, 1int,
{
    let mut a = alpha;
    let mut d = depth;
    if stats.stop {
        return EVAL_DRAW;
    }

    // check now and then whether the search should stop
    if stats.nodes & 0x7FF == 0x400 {
        stats.stop = should_search_stop(params, stats);
    }

    if d == 0 {
        stats.leaves = stats.leaves.wrapping_add(1);
        return quiescence(a, beta, board, stats, tables);
    }

    stats.nodes = stats.nodes.wrapping_add(1);

    // a repetition or the fifty move rule below the root is a draw
    if board.ply >= 1 && (board.is_repetition() || board.fifty_move >= 100) {
        return EVAL_DRAW;
    }

    // search one ply deeper when in check
    if board.in_check {
        d = d + 1;
    }

    let probe = tables.transposition_table.probe(board.position_key, a, beta, d);
    proof {
        tables.transposition_table.lemma_lookup_within(board.position_key, EVAL_MAX);
        assert(d == extended_depth(old(board), depth));
    }
    let pv_move = match probe {
        Probe::NoHit => None,
        Probe::PV(m, _) => Some(m),
        Probe::CutOff(_, score) => {
            proof {
                reveal(table_cuts);
            }
            return score;
        },
    };
    assert(!table_cuts(old(tables), old(board), alpha, beta, depth)) by {
        reveal(table_cuts);
    }

    // the search goes no deeper than MAX_PLY: there the static evaluation counts
    if board.ply >= MAX_PLY {
        let e = evaluation(board);
        assert(e == static_eval(old(board))) by {
            reveal(static_eval);
        }
        return bounded(e);
    }

    // null move pruning: if passing still fails high, so would a move
    if allow_null_move && !board.in_check && board.ply != 0 && board.count_big_pieces[board.color.index()] > 1
        && d >= 4 {
        let score = play_null_move(beta, d - 4, board, params, stats, tables);
        if stats.stop {
            return EVAL_DRAW;
        }
        if score >= beta && !is_mate(score) {
            return beta;
        }
    }

    let mut moves = MoveList::new();
    board.generate_all_moves(&mut moves);

    let mut best_move = ChessMove::default();
    let mut best_score: i16 = -EVAL_MAX;
    let mut legal_moves: usize = 0;
    let mut alpha_changed = false;
    let ghost b0 = *board;
    let ghost klen = tables.search_killers@.len();
    let ghost orig = move_list_items(moves);
    proof {
        assert(move_list_items(moves).len() == 0 + move_list_items(moves).len());
        lemma_track_start(old(board), orig);
        assert(list_complete(old(board), orig)) by {
            reveal(list_complete);
        }
    }

    loop
        invariant
            list_tracked(old(board), orig, move_list_items(moves), legal_moves == 0),
            list_complete(old(board), orig),
            legal_moves > 0 ==> has_legal_move(old(board)),
            a == alpha || (alpha < a && a < beta),
            board.wf(),
            board@ == b0@,
            board.material[0] == b0.material[0],
            board.material[1] == b0.material[1],
            b0@ == old(board)@,
            b0.material[0] == old(board).material[0],
            b0.material[1] == old(board).material[1],
            b0.ply == old(board).ply,
            stats.depth == old(stats).depth,
            depth > 0,
            board.ply < MAX_PLY,
            counter_room(board),
            tables.wf(),
            tables.search_killers@.len() == klen,
            klen == old(tables).search_killers@.len(),
            !old(stats).stop,
            depth > 0,
            !(old(board).ply >= 1 && is_draw_node(old(board))),
            old(board).ply < MAX_PLY,
            !table_cuts(old(tables), old(board), alpha, beta, depth),
            -EVAL_MAX <= a <= EVAL_MAX,
            -EVAL_MAX <= beta <= EVAL_MAX,
            -EVAL_MAX <= best_score <= EVAL_MAX,
            1 <= d,
            legal_moves + move_list_items(moves).len() <= 30000,
        ensures
            move_list_items(moves).len() == 0,
        decreases move_list_items(moves).len(),
    {
        let ghost cur = move_list_items(moves);
        let next = take_next_move(&mut moves, pv_move, tables, board);
        if next.is_none() {
            break;
        }
        let m = next.unwrap();
        let ghost i = choose|i: int| taken_at(cur, move_list_items(moves), i, m, pv_move, tables, board);
        proof {
            assert(taken_at(cur, move_list_items(moves), i, m, pv_move, tables, board));
            assert(board.material[board.color.idx()] == old(board).material[old(board).color.idx()]);
        }
        let played = play_alpha_beta(m, a, beta, d, board, params, stats, tables);
        proof {
            lemma_track_step(old(board), orig, cur, i, m, legal_moves == 0, played is Some);
        }
        if let Some(score) = played {
            legal_moves = legal_moves + 1;

            // a result from a stopped search means nothing
            if stats.stop {
                proof {
                    reveal(table_cuts);
                }
                return EVAL_DRAW;
            }

            if score >= beta {
                stats.fh = stats.fh.wrapping_add(1);
                if legal_moves == 1 {
                    stats.fhf = stats.fhf.wrapping_add(1);
                }
                // a quiet move that cut off is a killer move of its ply
                if !m.is_capture() {
                    let ply = board.ply;
                    let mut killers = tables.search_killers[ply];
                    killers[1] = killers[0];
                    killers[0] = m;
                    tables.search_killers.set(ply, killers);
                }
                tables.transposition_table.store(board.position_key, beta, m, d, HEKind::Beta);
                proof {
                    reveal(table_cuts);
                }
                return beta;
            }

            if score > a {
                a = score;
                alpha_changed = true;
                // a quiet move that raised a gains in the history
                if !m.is_capture() {
                    if let Some(piece) = board.pieces[m.start().index()] {
                        let pi = piece.index();
                        let ei = m.end().index();
                        let mut row = tables.search_history[pi];
                        row[ei] = row[ei].wrapping_add(d as u32);
                        tables.search_history[pi] = row;
                    }
                }
            }

            if score > best_score {
                best_move = m;
                best_score = score;
            }
        }
    }

    proof {
        reveal(table_cuts);
    }
    // no legal move: mate or stalemate
    proof {
        if legal_moves == 0 {
            lemma_track_end(old(board), orig, move_list_items(moves));
        }
    }
    if legal_moves == 0 {
        if board.in_check {
            return -mate_in(board.ply as u8);
        }
        return EVAL_DRAW;
    }

    let kind = if alpha_changed {
        HEKind::Exact
    } else {
        HEKind::Alpha
    };
    let score = if alpha_changed {
        best_score
    } else {
        a
    };
    tables.transposition_table.store(board.position_key, score, best_move, d, kind);

    a
}

// ---------------------------------------------------------------------------
// The principal variation
// ---------------------------------------------------------------------------

/// The position after playing the moves of `line` one after the other.
#[verifier::opaque]
pub open spec fn after_line(p: crate::board::Position, line: Seq<ChessMove>) -> crate::board::Position
    decreases line.len(),
{
    if line.len() == 0 {
        p
    } else {
        make_spec(after_line(p, line.drop_last()), line.last())
    }
}

/// Every move of `line` can be made, and is legal, in the position it is played
/// in.
#[verifier::opaque]
pub open spec fn legal_line(p: crate::board::Position, line: Seq<ChessMove>) -> bool
    decreases line.len(),
{
    if line.len() == 0 {
        true
    } else {
        let q = after_line(p, line.drop_last());
        &&& legal_line(p, line.drop_last())
        &&& move_applicable(q, line.last())
        &&& make_legal(q, line.last())
    }
}

/// No entry of `counts` before position `i` is for `key`.
pub open spec fn key_absent_before(counts: Seq<(u64, u32)>, key: u64, i: int) -> bool {
    forall|j: int| 0 <= j < i ==> (#[trigger] counts[j]).0 != key
}

/// One more occurrence of `key`: the count of its first entry goes up by one
/// (staying at `u32::MAX` once there), or an entry with count one is appended
/// when there is none. The result is the new count.
pub open spec fn counted(old_counts: Seq<(u64, u32)>, new_counts: Seq<(u64, u32)>, key: u64, r: u32) -> bool {
    ||| exists|i: int|
        0 <= i < old_counts.len() && (#[trigger] old_counts[i]).0 == key && key_absent_before(old_counts, key, i) && r
            == (if old_counts[i].1 == u32::MAX {
            u32::MAX
        } else {
            (old_counts[i].1 + 1) as u32
        }) && new_counts == old_counts.update(i, (key, r))
    ||| key_absent_before(old_counts, key, old_counts.len() as int) && r == 1 && new_counts == old_counts.push((key, 1))
}

/// How often a key occurs in the list of counted keys.
fn count_key(counts: &mut Vec<(u64, u32)>, key: u64) -> (r: u32)
    ensures
        r >= 1,
        counted(old(counts)@, final(counts)@, key, r),
{
    let mut i: usize = 0;
    while i < counts.len()
        invariant
            i <= counts@.len(),
            counts@ == old(counts)@,
            key_absent_before(counts@, key, i as int),
        decreases counts@.len() - i,
    {
        let (k, n) = counts[i];
        if k == key {
            let n1 = n.saturating_add(1);
            counts.set(i, (k, n1));
            proof {
                assert(old(counts)@[i as int].0 == key);
            }
            return n1;
        }
        i = i + 1;
    }
    counts.push((key, 1));
    1
}

/// The line of best moves the transposition table holds from the position: the
/// stored move of each position reached, until the table holds none, holds the
/// no-move, holds a move that cannot be made, or a position is reached for the
/// third time. The board is left as it was.
#[verifier::rlimit(60)]
#[verifier::spinoff_prover]
pub fn pv_line(tptable: &crate::hashtable::TranspositionTable, board: &mut Board) -> (r: Vec<ChessMove>)
    requires
        old(board).wf(),
        tptable.wf(),
        old(board).ply <= MAX_PLY,
        counter_room(old(board)),
    ensures
        final(board).wf(),
        final(board)@ == old(board)@,
        final(board).material[0] == old(board).material[0],
        final(board).material[1] == old(board).material[1],
        legal_line(old(board)@, r@),
        r@.len() <= MAX_PLY,
{
    let mut pos_key_counts: Vec<(u64, u32)> = Vec::new();
    let mut pvline: Vec<ChessMove> = Vec::new();
    let ghost b0 = *board;
    let ghost mut states: Seq<Board> = seq![*board];
    proof {
        reveal(after_line);
        reveal(legal_line);
        assert(pvline@.take(0) =~= Seq::<ChessMove>::empty());
    }

    while board.ply < MAX_PLY
        invariant
            b0 == *old(board),
            b0.wf(),
            board.wf(),
            board.ply == b0.ply + pvline@.len(),
            board.ply <= MAX_PLY,
            counter_room(board),
            tptable.wf(),
            states.len() == pvline@.len() + 1,
            states[0] == b0,
            states.last()@ == board@,
            states.last().material[0] == board.material[0],
            states.last().material[1] == board.material[1],
            forall|k: int| 0 <= k < states.len() ==> (#[trigger] states[k]).wf(),
            forall|k: int| 0 <= k < states.len() ==> (#[trigger] states[k])@ == after_line(b0@, pvline@.take(k)),
            forall|k: int|
                1 <= k < states.len() ==> undo_applicable((#[trigger] states[k])@) && undo_material_ok(&states[k]),
            legal_line(b0@, pvline@),
        decreases MAX_PLY - board.ply,
    {
        let found = tptable.get(board.position_key);
        if found.is_none() {
            break;
        }
        let cmove = found.unwrap();
        if cmove.is_nomove() {
            break;
        }

        // a position seen three times is a repetition: the line would go on forever
        let seen = count_key(&mut pos_key_counts, board.position_key);
        if seen >= 3 {
            break;
        }

        if !board.can_make(cmove) {
            break;
        }
        let ghost before = *board;
        let ghost old_pv = pvline@;
        proof {
            let last = states.len() - 1;
            assert(states[last]@ == after_line(b0@, old_pv.take(last)));
            assert(old_pv.take(last) =~= old_pv);
            assert(before@ == after_line(b0@, old_pv));
        }
        if !board.make_move(cmove) {
            break;
        }
        pvline.push(cmove);
        proof {
            let old_line = old_pv;
            lemma_line_step(b0@, old_line, cmove, before@);
            assert(pvline@ =~= old_line.push(cmove));
            assert forall|k: int| 0 <= k < states.len() implies #[trigger] pvline@.take(k) =~= old_line.take(k) by {}
            assert(pvline@.take(pvline@.len() as int) =~= pvline@);
            let ghost old_states = states;
            states = states.push(*board);
            assert forall|k: int| 0 <= k < states.len() implies (#[trigger] states[k])@ == after_line(b0@, pvline@.take(k)) by {
                if k < old_states.len() {
                    assert(states[k] == old_states[k]);
                    assert(pvline@.take(k) =~= old_line.take(k));
                }
            }
        }
    }

    let n = pvline.len();
    let mut i: usize = n;
    while i > 0
        invariant
            i <= n,
            n == pvline@.len(),
            states.len() == n + 1,
            b0 == *old(board),
            b0.wf(),
            board.wf(),
            board@ == states[i as int]@,
            board.material[0] == states[i as int].material[0],
            board.material[1] == states[i as int].material[1],
            states[0] == b0,
            forall|k: int| 0 <= k < states.len() ==> (#[trigger] states[k]).wf(),
            forall|k: int| 0 <= k < states.len() ==> (#[trigger] states[k])@ == after_line(b0@, pvline@.take(k)),
            forall|k: int|
                1 <= k < states.len() ==> undo_applicable((#[trigger] states[k])@) && undo_material_ok(&states[k]),
            legal_line(b0@, pvline@),
            b0.ply + n <= MAX_PLY,
        decreases i,
    {
        proof {
            let prev = states[i - 1];
            let cur = states[i as int];
            lemma_material_of_pieces(&cur, board);
            assert(undo_material_ok(board));
            lemma_legal_line_prefix(b0@, pvline@, i as int);
            let line = pvline@.take(i as int);
            assert(line.drop_last() =~= pvline@.take(i - 1));
            assert(line.last() == pvline@[i - 1]);
            lemma_line_last(b0@, line);
            lemma_after_line_ply(b0@, pvline@.take(i - 1));
            lemma_take_undoes_make(prev@, pvline@[i - 1]);
        }
        board.take_move();
        i = i - 1;
        proof {
            lemma_wf_of_view(&states[i as int], board);
            lemma_material_of_pieces(&states[i as int], board);
        }
    }
    proof {
        assert(pvline@.take(0) =~= Seq::<ChessMove>::empty());
        reveal(after_line);
    }
    pvline
}

/// A prefix of a legal line is a legal line.
proof fn lemma_legal_line_prefix(p: crate::board::Position, line: Seq<ChessMove>, k: int)
    requires
        legal_line(p, line),
        0 <= k <= line.len(),
    ensures
        legal_line(p, line.take(k)),
    decreases line.len(),
{
    reveal(legal_line);
    if k < line.len() {
        assert(line.take(k) =~= line.drop_last().take(k));
        lemma_legal_line_prefix(p, line.drop_last(), k);
    } else {
        assert(line.take(k) =~= line);
    }
}

/// Playing one more move of a legal line.
pub(crate) proof fn lemma_line_step(p: crate::board::Position, line: Seq<ChessMove>, m: ChessMove, q: crate::board::Position)
    requires
        q == after_line(p, line),
        legal_line(p, line),
        move_applicable(q, m),
        make_legal(q, m),
    ensures
        after_line(p, line.push(m)) == make_spec(q, m),
        legal_line(p, line.push(m)),
{
    reveal(after_line);
    reveal(legal_line);
    assert(line.push(m).drop_last() =~= line);
}

/// The last move of a nonempty legal line is made in the position the moves
/// before it lead to.
proof fn lemma_line_last(p: crate::board::Position, line: Seq<ChessMove>)
    requires
        legal_line(p, line),
        line.len() > 0,
    ensures
        after_line(p, line) == make_spec(after_line(p, line.drop_last()), line.last()),
        move_applicable(after_line(p, line.drop_last()), line.last()),
{
    reveal(after_line);
    reveal(legal_line);
}

/// Making a move adds one to the ply and keeps the two king squares.
proof fn lemma_make_spec_ply(p: crate::board::Position, m: ChessMove)
    requires
        p.king_square.len() == 2,
    ensures
        make_spec(p, m).ply == (p.ply + 1) as usize,
        make_spec(p, m).king_square.len() == p.king_square.len(),
{
}

/// Each move of a line adds one to the ply.
proof fn lemma_after_line_ply(p: crate::board::Position, line: Seq<ChessMove>)
    requires
        p.ply + line.len() <= MAX_PLY,
        p.king_square.len() == 2,
    ensures
        after_line(p, line).ply == p.ply + line.len(),
        after_line(p, line).king_square.len() == 2,
    decreases line.len(),
{
    reveal(after_line);
    if line.len() > 0 {
        lemma_after_line_ply(p, line.drop_last());
        lemma_make_spec_ply(after_line(p, line.drop_last()), line.last());
    }
}

// ---------------------------------------------------------------------------
// Iterative deepening
// ---------------------------------------------------------------------------

/// One iteration of iterative deepening: searches one ply deeper than the last
/// iteration and returns the statistics of the completed iteration, with its
/// score, principal variation and best move; `None` when the search should stop
/// (before it begins, or during it). From the root of a position without a
/// legal move the score is that of mate or stalemate.
pub fn deepen(board: &mut Board, params: &SearchParams, stats: &mut SearchStats, tables: &mut SearchTables) -> (r:
    Option<SearchStats>)
    requires
        old(board).wf(),
        counter_room(old(board)),
        old(board).ply <= MAX_PLY,
        old(tables).wf(),
    ensures
        final(board).wf(),
        final(board)@ == old(board)@,
        final(board).material[0] == old(board).material[0],
        final(board).material[1] == old(board).material[1],
        final(tables).wf(),
        final(tables).search_killers@.len() == old(tables).search_killers@.len(),
        r is Some ==> final(stats).depth == old(stats).depth + 1,
        old(stats).depth >= u16::MAX - 1 ==> r is None,
        old(stats).stop ==> r is None,
        (params.max_nodes matches Some(n) && old(stats).nodes > n) ==> r is None,
        (params.max_depth matches Some(dd) && old(stats).depth + 1 > dd) ==> r is None,
        r is None ==> (old(stats).depth >= u16::MAX - 1 || final(stats).stop || *final(tables) == *old(tables)),
        r matches Some(st) ==> (old(board).ply == 0 && !table_cuts(
            old(tables),
            old(board),
            (-EVAL_MAX) as i16,
            EVAL_MAX,
            (old(stats).depth + 1) as u16,
        ) && !has_legal_move(old(board)) ==> st.score == no_move_score(old(board))),
        r matches Some(st) ==> {
            &&& st.depth == final(stats).depth
            &&& st.score == final(stats).score
            &&& st.pv@ == final(stats).pv@
            &&& st.bestmove == final(stats).bestmove
            &&& legal_line(old(board)@, st.pv@)
            &&& -EVAL_MAX <= st.score <= EVAL_MAX
            &&& st.bestmove == (if st.pv@.len() > 0 {
                st.pv@[0]
            } else {
                ChessMove::nomove()
            })
        },
{
    if stats.depth >= u16::MAX - 1 {
        return None;
    }
    stats.depth = stats.depth + 1;

    if should_search_stop(params, stats) {
        return None;
    }

    let score = alpha_beta(-EVAL_MAX, EVAL_MAX, stats.depth, board, params, stats, tables, true);

    if stats.stop {
        return None;
    }

    stats.score = score;
    stats.pv = pv_line(&tables.transposition_table, board);
    stats.bestmove = if stats.pv.len() > 0 {
        stats.pv[0]
    } else {
        ChessMove::default()
    };
    Some(stats.copy())
}

/// Searches deeper and deeper until the search should stop, and returns the
/// statistics of each completed iteration, one ply deeper each.
pub fn iterative_deepening(board: &mut Board, params: SearchParams, tables: &mut SearchTables) -> (r: Vec<
    SearchStats,
>)
    requires
        old(board).wf(),
        counter_room(old(board)),
        old(board).ply <= MAX_PLY,
        old(tables).wf(),
    ensures
        final(board).wf(),
        final(board)@ == old(board)@,
        final(tables).wf(),
        forall|k: int| 0 <= k < r@.len() ==> (#[trigger] r@[k]).depth == k + 1,
        forall|k: int| 0 <= k < r@.len() ==> legal_line(old(board)@, (#[trigger] r@[k]).pv@),
        forall|k: int| 0 <= k < r@.len() ==> -EVAL_MAX <= (#[trigger] r@[k]).score <= EVAL_MAX,
        params.max_depth matches Some(dd) ==> r@.len() <= dd,
{
    let mut stats = SearchStats::new();
    let mut all: Vec<SearchStats> = Vec::new();
    let ghost b0 = *board;
    loop
        invariant_except_break
            stats.depth == all@.len(),
        invariant
            board.wf(),
            board@ == b0@,
            b0 == *old(board),
            counter_room(board),
            board.ply <= MAX_PLY,
            tables.wf(),
            all@.len() <= u16::MAX,
            forall|k: int| 0 <= k < all@.len() ==> (#[trigger] all@[k]).depth == k + 1,
            forall|k: int| 0 <= k < all@.len() ==> legal_line(b0@, (#[trigger] all@[k]).pv@),
            forall|k: int| 0 <= k < all@.len() ==> -EVAL_MAX <= (#[trigger] all@[k]).score <= EVAL_MAX,
            params.max_depth matches Some(dd) ==> all@.len() <= dd,
        decreases u16::MAX - stats.depth,
    {
        let step = deepen(board, &params, &mut stats, tables);
        match step {
            Some(st) => {
                all.push(st);
            },
            None => {
                break;
            },
        }
    }
    all
}

impl SearchTables {
    /// Tables around a transposition table of `size_mb` megabytes, with empty
    /// killer slots for every ply and a zero history.
    pub fn new(size_mb: usize) -> (r: SearchTables)
        requires
            1 <= size_mb <= usize::MAX / 2097152,
        ensures
            r.wf(),
            r.search_killers@.len() == MAX_PLY,
            r.transposition_table.age() == 0,
            forall|i: int| 0 <= i < MAX_PLY ==> (#[trigger] r.search_killers@[i])@ == seq![ChessMove::nomove(), ChessMove::nomove()],
    {
        let transposition_table = crate::hashtable::TranspositionTable::new(size_mb);
        let mut search_killers: Vec<[ChessMove; 2]> = Vec::new();
        let mut i: usize = 0;
        while i < MAX_PLY
            invariant
                i <= MAX_PLY,
                search_killers@.len() == i,
                forall|j: int| 0 <= j < i ==> (#[trigger] search_killers@[j])@ == seq![ChessMove::nomove(), ChessMove::nomove()],
            decreases MAX_PLY - i,
        {
            search_killers.push([ChessMove::default(), ChessMove::default()]);
            i = i + 1;
        }
        SearchTables { transposition_table, search_killers, search_history: [[0u32; 64]; 12] }
    }
}

} // verus!
