//! Counting the leaf positions of the move tree, a test of move generation and
//! of making and taking back moves.

use crate::board::{Board, Position, tally, w_material};
use crate::board::makemove::{
    lemma_material_of_pieces, lemma_take_undoes_make, lemma_wf_of_view, make_legal, make_spec, move_applicable,
    promotion_gain, undo_material_ok,
};
use crate::board::en_passant_rank_ok;
use crate::board::movegen::{MoveList, has_move, lemma_en_passant_rank_after, lemma_move_fields, move_is, move_list_items, pseudo_legal};
use crate::chess_move::{ChessMove, end_of, flags_of, start_of};
use crate::board::fen::{fen_fields, split_fields, split_on, split_on_from, views};
use crate::uci::{parse_u32, parse_u32_spec};
use vstd::prelude::*;

verus! {

/// A move that `perft` plays in the position: pseudo-legal, of the shape
/// `make_move` needs, with room in the material for a promotion, and legal.
pub open spec fn perft_plays(p: Position, x: ChessMove) -> bool {
    &&& pseudo_legal(p, start_of(x@), end_of(x@), flags_of(x@))
    &&& move_applicable(p, x)
    &&& tally(p.pieces, w_material(p.color), 64) + promotion_gain(x) <= i16::MAX
    &&& make_legal(p, x)
}

/// The number of leaf positions `depth` plies below the position: one at depth
/// zero, else the sum over the moves played of the count below each.
pub open spec fn perft_count(p: Position, depth: nat) -> int
    decreases depth, 0x10001int,
{
    if depth == 0 {
        1
    } else {
        moves_sum(p, depth, 0)
    }
}

/// The counts below the moves with bits `v` and above (each 16-bit value is
/// one move).
pub open spec fn moves_sum(p: Position, depth: nat, v: int) -> int
    decreases depth, 0x10000 - v,
{
    if depth == 0 || v < 0 || v >= 0x10000 {
        0
    } else {
        let x = ChessMove::with_bits(v as u16);
        (if perft_plays(p, x) {
            perft_count(make_spec(p, x), (depth - 1) as nat)
        } else {
            0
        }) + moves_sum(p, depth, v + 1)
    }
}

/// What a move adds to the count.
pub open spec fn move_value(p: Position, depth: nat, x: ChessMove) -> int {
    if perft_plays(p, x) {
        perft_count(make_spec(p, x), (depth - 1) as nat)
    } else {
        0
    }
}

/// The values of the moves of a list.
pub open spec fn list_sum(p: Position, depth: nat, a: Seq<ChessMove>) -> int
    decreases a.len(),
{
    if a.len() == 0 {
        0
    } else {
        list_sum(p, depth, a.drop_last()) + move_value(p, depth, a.last())
    }
}

/// The values of the moves with bits `v` and above that the list holds.
pub open spec fn held_sum(p: Position, depth: nat, a: Seq<ChessMove>, v: int) -> int
    decreases 0x10000 - v,
{
    if v < 0 || v >= 0x10000 {
        0
    } else {
        let x = ChessMove::with_bits(v as u16);
        (if a.contains(x) {
            move_value(p, depth, x)
        } else {
            0
        }) + held_sum(p, depth, a, v + 1)
    }
}

proof fn lemma_held_push(p: Position, depth: nat, b: Seq<ChessMove>, x: ChessMove, v: int)
    requires
        !b.contains(x),
        0 <= v <= 0x10000,
    ensures
        held_sum(p, depth, b.push(x), v) == held_sum(p, depth, b, v) + (if v <= x@ {
            move_value(p, depth, x)
        } else {
            0
        }),
    decreases 0x10000 - v,
{
    if v < 0x10000 {
        lemma_held_push(p, depth, b, x, v + 1);
        let y = ChessMove::with_bits(v as u16);
        ChessMove::lemma_with_bits(x, v as u16);
        ChessMove::lemma_with_bits(y, v as u16);
        assert(b.push(x).contains(y) == (b.contains(y) || y == x)) by {
            if b.push(x).contains(y) {
                let k = choose|k: int| 0 <= k < b.push(x).len() && b.push(x)[k] == y;
                if k < b.len() {
                    assert(b[k] == y);
                }
            }
            if b.contains(y) {
                let k = choose|k: int| 0 <= k < b.len() && b[k] == y;
                assert(b.push(x)[k] == y);
            }
            if y == x {
                assert(b.push(x)[b.len() as int] == y);
            }
        }
        if y == x {
            assert(v == x@);
        } else {
            ChessMove::lemma_with_bits(x, x@);
            assert(v != x@);
        }
    }
}

proof fn lemma_list_held(p: Position, depth: nat, a: Seq<ChessMove>)
    requires
        forall|k1: int, k2: int| 0 <= k1 < k2 < a.len() ==> a[k1] != a[k2],
    ensures
        list_sum(p, depth, a) == held_sum(p, depth, a, 0),
    decreases a.len(),
{
    if a.len() == 0 {
        lemma_held_empty(p, depth, a, 0);
    } else {
        let b = a.drop_last();
        let x = a.last();
        lemma_list_held(p, depth, b);
        assert(!b.contains(x)) by {
            if b.contains(x) {
                let k = choose|k: int| 0 <= k < b.len() && b[k] == x;
                assert(a[k] == a[a.len() - 1]);
            }
        }
        assert(b.push(x) =~= a);
        lemma_held_push(p, depth, b, x, 0);
    }
}

proof fn lemma_held_empty(p: Position, depth: nat, a: Seq<ChessMove>, v: int)
    requires
        a.len() == 0,
        0 <= v <= 0x10000,
    ensures
        held_sum(p, depth, a, v) == 0,
    decreases 0x10000 - v,
{
    if v < 0x10000 {
        lemma_held_empty(p, depth, a, v + 1);
    }
}

proof fn lemma_held_full(p: Position, depth: nat, a: Seq<ChessMove>, v: int)
    requires
        depth > 0,
        0 <= v <= 0x10000,
        forall|x: ChessMove| #[trigger] perft_plays(p, x) ==> a.contains(x),
    ensures
        held_sum(p, depth, a, v) == moves_sum(p, depth, v),
    decreases 0x10000 - v,
{
    if v < 0x10000 {
        lemma_held_full(p, depth, a, v + 1);
        let x = ChessMove::with_bits(v as u16);
        if perft_plays(p, x) {
            assert(a.contains(x));
        }
    }
}

/// The pieces of a line of the perft test suite, separated by semicolons: the
/// FEN string first, then one piece per depth.
pub open spec fn suite_parts(b: Seq<u8>) -> Seq<Seq<u8>> {
    split_on_from(b, 59, 0, Seq::empty(), Seq::empty())
}

/// The expected leaf count a piece of a suite line gives: its second word read
/// as a number (the first names the depth).
pub open spec fn suite_count(part: Seq<u8>) -> Option<u32> {
    if fen_fields(part).len() >= 2 {
        parse_u32_spec(fen_fields(part)[1])
    } else {
        None
    }
}

/// Reads a line of the perft test suite: the FEN string, and the expected leaf
/// count for each depth from one on; `None` when a depth's piece has no count
/// that reads as a number.
pub fn parse_perft_line(line: &[u8]) -> (r: Option<(Vec<u8>, Vec<u32>)>)
    ensures
        r is Some <==> forall|k: int| 1 <= k < suite_parts(line@).len() ==> #[trigger] suite_count(
            suite_parts(line@)[k],
        ) is Some,
        r matches Some((fen, counts)) ==> {
            &&& fen@ == suite_parts(line@)[0]
            &&& counts@.len() == suite_parts(line@).len() - 1
            &&& forall|k: int|
                0 <= k < counts@.len() ==> suite_count(suite_parts(line@)[k + 1]) == Some(#[trigger] counts@[k])
        },
{
    let parts = split_on(line, 59);
    let ghost ps = suite_parts(line@);
    proof {
        lemma_split_len(line@, 59, 0, Seq::empty(), Seq::empty());
    }
    let mut counts: Vec<u32> = Vec::new();
    let mut k: usize = 1;
    while k < parts.len()
        invariant
            views(parts@) == ps,
            ps == suite_parts(line@),
            ps.len() >= 1,
            1 <= k <= parts@.len(),
            counts@.len() == k - 1,
            forall|j: int| 1 <= j < k ==> #[trigger] suite_count(ps[j]) is Some,
            forall|j: int| 0 <= j < counts@.len() ==> suite_count(ps[j + 1]) == Some(#[trigger] counts@[j]),
        decreases parts@.len() - k,
    {
        let words = split_fields(&parts[k]);
        proof {
            assert(ps[k as int] == parts@[k as int]@);
        }
        if words.len() < 2 {
            proof {
                assert(views(words@).len() == words@.len());
                assert(suite_count(ps[k as int]) is None);
            }
            return None;
        }
        proof {
            assert(words@[1]@ == fen_fields(parts@[k as int]@)[1]);
        }
        match parse_u32(&words[1]) {
            Some(v) => {
                counts.push(v);
            },
            None => {
                proof {
                    assert(suite_count(ps[k as int]) is None);
                }
                return None;
            },
        }
        k = k + 1;
    }
    let fen = copy_bytes(&parts[0]);
    proof {
        assert(ps[0] == parts@[0]@);
    }
    Some((fen, counts))
}

/// Splitting gives at least one piece more than found so far.
proof fn lemma_split_len(b: Seq<u8>, sep: u8, i: int, cur: Seq<u8>, acc: Seq<Seq<u8>>)
    ensures
        split_on_from(b, sep, i, cur, acc).len() >= acc.len() + 1,
    decreases b.len() - i,
{
    if i < b.len() {
        if b[i] == sep {
            lemma_split_len(b, sep, i + 1, Seq::empty(), acc.push(cur));
        } else {
            lemma_split_len(b, sep, i + 1, cur.push(b[i]), acc);
        }
    }
}

/// A copy of the bytes.
fn copy_bytes(b: &Vec<u8>) -> (r: Vec<u8>)
    ensures
        r@ == b@,
{
    let mut r: Vec<u8> = Vec::new();
    let mut i: usize = 0;
    while i < b.len()
        invariant
            i <= b@.len(),
            r@ == b@.take(i as int),
        decreases b@.len() - i,
    {
        proof {
            assert(b@.take(i + 1) =~= b@.take(i as int).push(b@[i as int]));
        }
        r.push(b[i]);
        i = i + 1;
    }
    proof {
        assert(b@.take(b@.len() as int) =~= b@);
    }
    r
}

proof fn lemma_wrap_sum(l: int, c: int, s: u32, x: u32)
    requires
        s == l % 0x1_0000_0000,
        x == c % 0x1_0000_0000,
    ensures
        vstd::wrapping::u32_specs::wrapping_add(s, x) == (l + c) % 0x1_0000_0000,
{
    vstd::arithmetic::div_mod::lemma_add_mod_noop(l, c, 0x1_0000_0000);
    if s + x > u32::MAX {
        vstd::arithmetic::div_mod::lemma_small_mod((s + x - 0x1_0000_0000) as nat, 0x1_0000_0000);
        vstd::arithmetic::div_mod::lemma_mod_add_multiples_vanish(s + x - 0x1_0000_0000, 0x1_0000_0000);
    } else {
        vstd::arithmetic::div_mod::lemma_small_mod((s + x) as nat, 0x1_0000_0000);
    }
}

/// Makes all legal moves up to the given depth and returns the total number of
/// reached leaf positions. The board is left as it was.
///
/// With `check_integrity` the board structure is checked for correctness in each
/// position.
pub fn perft(board: &mut Board, depth: usize, check_integrity: bool) -> (r: u32)
    requires
        old(board).wf(),
        old(board).ply + depth < usize::MAX,
        old(board).fifty_move + depth < usize::MAX,
        check_integrity ==> en_passant_rank_ok(old(board)@),
    ensures
        final(board).wf(),
        final(board)@ == old(board)@,
        final(board).material[0] == old(board).material[0],
        final(board).material[1] == old(board).material[1],
        r == perft_count(old(board)@, depth as nat) % 0x1_0000_0000,
    decreases depth,
{
    if check_integrity {
        let ok = board.check_board_integrity();
        proof {
            assert(ok);
        }
    }

    // at depth 0 we are already at a leaf position
    if depth == 0 {
        proof {
            vstd::arithmetic::div_mod::lemma_small_mod(1, 0x1_0000_0000);
        }
        return 1;
    }

    let mut movelist = MoveList::new();
    board.generate_all_moves(&mut movelist);
    let mut sum: u32 = 0;
    let ghost b0 = *board;
    let ghost all = move_list_items(movelist);
    proof {
        assert(move_list_items(movelist).len() == 0 + move_list_items(movelist).len());
        assert(all.take(0) =~= Seq::<ChessMove>::empty());
        vstd::arithmetic::div_mod::lemma_small_mod(0, 0x1_0000_0000);
    }
    let n = movelist.len();
    let mut i: usize = 0;
    while i < n
        invariant
            0 <= i <= n,
            n == all.len(),
            all == move_list_items(movelist),
            board.wf(),
            board@ == b0@,
            board.material[0] == b0.material[0],
            board.material[1] == b0.material[1],
            b0.wf(),
            b0.ply + depth < usize::MAX,
            b0.fifty_move + depth < usize::MAX,
            check_integrity ==> en_passant_rank_ok(b0@),
            depth >= 1,
            forall|k: int|
                0 <= k < all.len() ==> {
                    let m = #[trigger] all[k];
                    pseudo_legal(b0@, start_of(m@), end_of(m@), flags_of(m@))
                },
            sum == list_sum(b0@, depth as nat, all.take(i as int)) % 0x1_0000_0000,
        decreases n - i,
    {
        let m = movelist.get(i);
        proof {
            assert(all.take(i + 1).drop_last() =~= all.take(i as int));
            assert(all.take(i + 1).last() == m);
            assert(b0.material[b0.color.idx()] == tally(b0.pieces@, w_material(b0.color), 64));
            assert(board.material[board.color.idx()] == b0.material[b0.color.idx()]);
        }
        // skip moves that cannot be made, or that would leave the own king in check
        if board.can_make(m) && board.make_move(m) {
            let ghost b1 = *board;
            proof {
                lemma_en_passant_rank_after(b0@, m);
                assert(perft_plays(b0@, m));
            }
            let leaves = perft(board, depth - 1, check_integrity);
            proof {
                lemma_wrap_sum(
                    list_sum(b0@, depth as nat, all.take(i as int)),
                    move_value(b0@, depth as nat, m),
                    sum,
                    leaves,
                );
            }
            sum = sum.wrapping_add(leaves);
            proof {
                lemma_material_of_pieces(&b1, board);
                assert(board.pieces@ == b1.pieces@);
                assert(undo_material_ok(board));
                lemma_take_undoes_make(b0@, m);
            }
            board.take_move();
            proof {
                lemma_wf_of_view(&b0, board);
                lemma_material_of_pieces(&b0, board);
            }
        } else {
            proof {
                assert(!perft_plays(b0@, m));
                assert(move_value(b0@, depth as nat, m) == 0);
            }
        }
        i = i + 1;
    }

    proof {
        assert(all.take(n as int) =~= all);
        lemma_list_held(b0@, depth as nat, all);
        assert forall|x: ChessMove| #[trigger] perft_plays(b0@, x) implies all.contains(x) by {
            assert(has_move(all, 0, start_of(x@), end_of(x@), flags_of(x@)));
            let k = choose|k: int| 0 <= k < all.len() && #[trigger] move_is(all[k], start_of(x@), end_of(x@), flags_of(x@));
            lemma_move_fields(all[k], x);
        }
        lemma_held_full(b0@, depth as nat, all, 0);
    }

    if check_integrity {
        let ok = board.check_board_integrity();
        proof {
            assert(ok);
        }
    }

    sum
}

} // verus!
