//! The move ordering heuristics of the search as types of their own: two killer
//! moves per ply, and a history score per piece and end square.

use crate::chess_move::ChessMove;
use crate::types::{Piece, Square64};
use vstd::prelude::*;

verus! {

/// Two quiet moves per ply that caused a beta cutoff, the newest first.
pub struct SearchKillers(Vec<[ChessMove; 2]>);

impl SearchKillers {
    /// The killer slots of each ply, in order.
    pub closed spec fn slots(&self) -> Seq<[ChessMove; 2]> {
        self.0@
    }

    /// Killer slots for `size` plies, all holding the no-move.
    pub fn new(size: usize) -> (r: SearchKillers)
        ensures
            r.slots().len() == size,
            forall|i: int| 0 <= i < size ==> (#[trigger] r.slots()[i])@ == seq![ChessMove::nomove(), ChessMove::nomove()],
    {
        let mut v: Vec<[ChessMove; 2]> = Vec::new();
        let mut i: usize = 0;
        while i < size
            invariant
                i <= size,
                v@.len() == i,
                forall|j: int| 0 <= j < i ==> (#[trigger] v@[j])@ == seq![ChessMove::nomove(), ChessMove::nomove()],
            decreases size - i,
        {
            v.push([ChessMove::default(), ChessMove::default()]);
            i = i + 1;
        }
        SearchKillers(v)
    }

    /// The newest killer move of the ply.
    pub fn slot1(&self, ply: usize) -> (r: ChessMove)
        requires
            ply < self.slots().len(),
        ensures
            r == self.slots()[ply as int][0],
    {
        self.0[ply][0]
    }

    /// The older killer move of the ply.
    pub fn slot2(&self, ply: usize) -> (r: ChessMove)
        requires
            ply < self.slots().len(),
        ensures
            r == self.slots()[ply as int][1],
    {
        self.0[ply][1]
    }

    /// Records a killer move of the ply: it takes the first slot, and the move
    /// that was there moves to the second.
    pub fn store(&mut self, ply: usize, m: ChessMove)
        requires
            ply < old(self).slots().len(),
        ensures
            final(self).slots().len() == old(self).slots().len(),
            final(self).slots()[ply as int][0] == m,
            final(self).slots()[ply as int][1] == old(self).slots()[ply as int][0],
            forall|i: int| 0 <= i < old(self).slots().len() && i != ply ==> #[trigger] final(self).slots()[i] == old(self).slots()[i],
    {
        let mut k = self.0[ply];
        k[1] = k[0];
        k[0] = m;
        self.0.set(ply, k);
    }
}

impl Default for SearchKillers {
    /// Killer slots for 1024 plies.
    fn default() -> (r: SearchKillers)
        ensures
            r.slots().len() == 1024,
    {
        SearchKillers::new(1024)
    }
}

/// Per piece and end square, how much quiet moves raised alpha.
pub struct SearchHistory([[u64; 64]; 12]);

impl SearchHistory {
    /// The score of a piece and a square.
    pub closed spec fn score(&self, piece: Piece, square: int) -> u64 {
        self.0[piece.idx()][square]
    }

    /// The score of the piece on the square.
    pub fn entry(&self, piece: Piece, square: Square64) -> (r: u64)
        requires
            square.is_valid(),
        ensures
            r == self.score(piece, square.idx()),
    {
        self.0[piece.index()][square.index()]
    }

    /// Adds to the score of the piece on the square (wrapping at 2^64). In place
    /// of a mutable reference to the entry, the amount to add is passed.
    pub fn add(&mut self, piece: Piece, square: Square64, amount: u64)
        requires
            square.is_valid(),
        ensures
            final(self).score(piece, square.idx()) == old(self).score(piece, square.idx()).wrapping_add(amount),
            forall|p: Piece, s: int|
                (p != piece || s != square.idx()) && 0 <= s < 64 ==> #[trigger] final(self).score(p, s) == old(
                    self,
                ).score(p, s),
    {
        let pi = piece.index();
        let si = square.index();
        let mut row = self.0[pi];
        row[si] = row[si].wrapping_add(amount);
        self.0[pi] = row;
        proof {
            assert forall|p: Piece, s: int|
                (p != piece || s != square.idx()) && 0 <= s < 64 implies #[trigger] self.score(p, s) == old(self).score(p, s) by {
                if p != piece {
                    crate::types::lemma_piece_index(p, piece);
                }
            }
        }
    }
}

impl Default for SearchHistory {
    /// All scores zero.
    fn default() -> (r: SearchHistory)
        ensures
            forall|p: Piece, s: int| 0 <= s < 64 ==> #[trigger] r.score(p, s) == 0,
    {
        SearchHistory([[0u64; 64]; 12])
    }
}

} // verus!
