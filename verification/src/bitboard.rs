//! A set of squares stored as the bits of a 64-bit word, indexed by `Square64`;
//! the `Invalid` square is never part of a set.

use crate::bits::{bit_set, lemma_lowest_bit_basic, count_ones, lemma_bit_ops, lemma_bits_ext, lemma_file_masks, lemma_lowest_bit, lemma_shift, lemma_single_bit, lemma_zero_iff_no_bits, lowest_bit, popcount};
use crate::types::Square64;
use vstd::prelude::*;

verus! {

#[derive(Debug, PartialEq, Eq, Structural, Clone, Copy, Hash)]
pub struct BitBoard(u64);

impl View for BitBoard {
    type V = u64;

    closed spec fn view(&self) -> u64 {
        self.0
    }
}

impl BitBoard {
    /// Whether the square with index `i` is in the set.
    pub open spec fn has(self, i: int) -> bool {
        bit_set(self@, i)
    }

    /// Two bitboards with the same bits are the same bitboard.
    pub proof fn lemma_view_eq(a: BitBoard, b: BitBoard)
        requires
            a@ == b@,
        ensures
            a == b,
    {
    }

    /// Two bitboards holding the same squares are the same bitboard.
    pub proof fn lemma_ext(a: BitBoard, b: BitBoard)
        requires
            forall|j: int| 0 <= j < 64 ==> a.has(j) == b.has(j),
        ensures
            a == b,
    {
        assert forall|j: int| 0 <= j < 64 implies bit_set(a@, j) == bit_set(b@, j) by {
            assert(a.has(j) == b.has(j));
        }
        lemma_bits_ext(a@, b@);
    }

    /// The empty set.
    pub fn empty() -> (r: BitBoard)
        ensures
            r@ == 0,
            forall|j: int| !r.has(j),
    {
        proof {
            assert forall|j: int| !bit_set(0, j) by {
                if 0 <= j < 64 {
                    lemma_bit_ops(0, 0, j);
                }
            }
        }
        BitBoard(0)
    }

    /// The set of all 64 squares.
    pub fn full() -> (r: BitBoard)
        ensures
            r@ == 0xffff_ffff_ffff_ffffu64,
            forall|j: int| 0 <= j < 64 ==> r.has(j),
    {
        proof {
            assert forall|j: int| 0 <= j < 64 implies bit_set(0xffff_ffff_ffff_ffffu64, j) by {
                lemma_bit_ops(0, 0, j);
            }
        }
        BitBoard(0xffff_ffff_ffff_ffff)
    }

    pub fn from_u64(v: u64) -> (r: BitBoard)
        ensures
            r@ == v,
    {
        BitBoard(v)
    }

    pub fn to_u64(self) -> (r: u64)
        ensures
            r == self@,
    {
        self.0
    }

    pub fn is_empty(self) -> (r: bool)
        ensures
            r == (self@ == 0),
            r == (forall|j: int| 0 <= j < 64 ==> !self.has(j)),
    {
        proof {
            if self@ == 0 {
                assert forall|j: int| 0 <= j < 64 implies !self.has(j) by {
                    lemma_bit_ops(self@, self@, j);
                }
            } else {
                lemma_lowest_bit_basic(self@);
                assert(self.has(lowest_bit(self@)));
            }
        }
        self.0 == 0
    }

    pub fn is_full(self) -> (r: bool)
        ensures
            r == (self@ == 0xffff_ffff_ffff_ffffu64),
            r == (forall|j: int| 0 <= j < 64 ==> self.has(j)),
    {
        proof {
            lemma_bit_ops(self@, self@, 0);
            if self@ == 0xffff_ffff_ffff_ffffu64 {
                assert forall|j: int| 0 <= j < 64 implies self.has(j) by {
                    lemma_bit_ops(self@, self@, j);
                }
            } else {
                lemma_lowest_bit_basic(!self@);
                let t = lowest_bit(!self@);
                lemma_bit_ops(self@, self@, t);
                assert(!self.has(t));
            }
        }
        self.0 == 0xffff_ffff_ffff_ffff
    }

    pub fn intersection(self, other: BitBoard) -> (r: BitBoard)
        ensures
            r@ == self@ & other@,
            forall|j: int| 0 <= j < 64 ==> r.has(j) == (self.has(j) && other.has(j)),
    {
        proof {
            assert forall|j: int| 0 <= j < 64 implies bit_set(self@ & other@, j) == (self.has(j) && other.has(j)) by {
                lemma_bit_ops(self@, other@, j);
            }
        }
        BitBoard(self.0 & other.0)
    }

    pub fn union(self, other: BitBoard) -> (r: BitBoard)
        ensures
            r@ == self@ | other@,
            forall|j: int| 0 <= j < 64 ==> r.has(j) == (self.has(j) || other.has(j)),
    {
        proof {
            assert forall|j: int| 0 <= j < 64 implies bit_set(self@ | other@, j) == (self.has(j) || other.has(j)) by {
                lemma_bit_ops(self@, other@, j);
            }
        }
        BitBoard(self.0 | other.0)
    }

    pub fn complement(self) -> (r: BitBoard)
        ensures
            r@ == !self@,
            forall|j: int| 0 <= j < 64 ==> r.has(j) == !self.has(j),
    {
        proof {
            assert forall|j: int| 0 <= j < 64 implies bit_set(!self@, j) == !self.has(j) by {
                lemma_bit_ops(self@, self@, j);
            }
        }
        BitBoard(!self.0)
    }

    pub fn without(self, other: BitBoard) -> (r: BitBoard)
        ensures
            r@ == self@ & !other@,
            forall|j: int| 0 <= j < 64 ==> r.has(j) == (self.has(j) && !other.has(j)),
    {
        proof {
            assert forall|j: int| 0 <= j < 64 implies bit_set(self@ & !other@, j) == (self.has(j) && !other.has(j)) by {
                lemma_bit_ops(self@, other@, j);
            }
        }
        BitBoard(self.0 & !other.0)
    }


    /// Adds a square to the set; `Invalid` leaves the set as it is.
    pub fn set(&mut self, idx: Square64)
        ensures
            idx.is_valid() ==> final(self)@ == old(self)@ | (1u64 << (idx.idx() as u64)),
            !idx.is_valid() ==> final(self)@ == old(self)@,
            forall|j: int| 0 <= j < 64 ==> final(self).has(j) == (j == idx.idx() || old(self).has(j)),
    {
        let i = idx.index() as u64;
        if i < 64 {
            self.0 = self.0 | (1u64 << i);
            proof {
                assert forall|j: int| 0 <= j < 64 implies self.has(j) == (j == idx.idx() || old(self).has(j)) by {
                    lemma_single_bit(old(self)@, i as int, j);
                }
            }
        }
    }

    /// Adds the square if `value` holds and removes it otherwise.
    pub fn set_to(&mut self, idx: Square64, value: bool)
        ensures
            forall|j: int| 0 <= j < 64 ==> final(self).has(j) == (if j == idx.idx() { value } else { old(self).has(j) }),
    {
        if value {
            self.set(idx);
        } else {
            self.clear(idx);
        }
    }

    /// Removes a square from the set; `Invalid` leaves the set as it is.
    pub fn clear(&mut self, idx: Square64)
        ensures
            idx.is_valid() ==> final(self)@ == old(self)@ & !(1u64 << (idx.idx() as u64)),
            !idx.is_valid() ==> final(self)@ == old(self)@,
            forall|j: int| 0 <= j < 64 ==> final(self).has(j) == (j != idx.idx() && old(self).has(j)),
    {
        let i = idx.index() as u64;
        if i < 64 {
            self.0 = self.0 & !(1u64 << i);
            proof {
                assert forall|j: int| 0 <= j < 64 implies self.has(j) == (j != idx.idx() && old(self).has(j)) by {
                    lemma_single_bit(old(self)@, i as int, j);
                }
            }
        }
    }

    /// Whether the square is in the set; `Invalid` never is.
    pub fn get(&self, idx: Square64) -> (r: bool)
        ensures
            r == self.has(idx.idx()),
    {
        let i = idx.index() as u64;
        if i < 64 {
            proof {
                lemma_single_bit(self@, i as int, i as int);
            }
            (self.0 & (1u64 << i)) > 0
        } else {
            false
        }
    }


    /// Clears the least significant set bit.
    pub fn silent_pop(&mut self)
        requires
            old(self)@ != 0,
        ensures
            final(self)@ == old(self)@ & ((old(self)@ - 1) as u64),
            forall|j: int| 0 <= j < 64 ==> final(self).has(j) == (j != lowest_bit(old(self)@) && old(self).has(j)),
    {
        proof {
            lemma_lowest_bit(self@);
        }
        self.0 = self.0 & (self.0 - 1);
    }


    /// Clears the least significant set bit and returns its square,
    /// or returns `Invalid` (and changes nothing) if the set is empty.
    pub fn pop(&mut self) -> (r: Square64)
        ensures
            old(self)@ == 0 ==> r == Square64::Invalid && final(self)@ == 0,
            old(self)@ != 0 ==> {
                &&& r.idx() == lowest_bit(old(self)@)
                &&& old(self).has(r.idx())
                &&& forall|j: int| 0 <= j < r.idx() ==> !old(self).has(j)
                &&& final(self)@ == old(self)@ & ((old(self)@ - 1) as u64)
                &&& forall|j: int| 0 <= j < 64 ==> final(self).has(j) == (j != r.idx() && old(self).has(j))
            },
    {
        if self.0 == 0 {
            return Square64::Invalid;
        }
        proof {
            lemma_lowest_bit(self@);
        }
        let sq = self.0.trailing_zeros();
        self.0 = self.0 & (self.0 - 1);
        Square64::from_primitive(sq as usize)
    }

    /// The squares of the set in increasing order.
    pub fn iter_bit_indices(self) -> (r: Vec<Square64>)
        ensures
            forall|k: int| 0 <= k < r@.len() ==> (#[trigger] r@[k]).is_valid(),
            forall|k: int| 0 <= k < r@.len() ==> self.has(#[trigger] r@[k].idx()),
            forall|k1: int, k2: int| 0 <= k1 < k2 < r@.len() ==> r@[k1].idx() < r@[k2].idx(),
            forall|j: int| 0 <= j < 64 && self.has(j) ==> exists|k: int| 0 <= k < r@.len() && #[trigger] r@[k].idx() == j,
    {
        let mut b = self;
        let mut out: Vec<Square64> = Vec::new();
        while b.0 != 0
            invariant
                forall|k: int| 0 <= k < out@.len() ==> self.has(#[trigger] out@[k].idx()),
                forall|k1: int, k2: int| 0 <= k1 < k2 < out@.len() ==> out@[k1].idx() < out@[k2].idx(),
                forall|k: int, j: int| 0 <= k < out@.len() && 0 <= j < 64 && b.has(j) ==> out@[k].idx() < j,
                forall|j: int| 0 <= j < 64 && b.has(j) ==> self.has(j),
                forall|j: int| 0 <= j < 64 && self.has(j) ==> b.has(j) || exists|k: int| 0 <= k < out@.len() && #[trigger] out@[k].idx() == j,
            decreases popcount(b@),
        {
                proof {
                lemma_lowest_bit(b@);
                lemma_popcount_pop(b@);
            }
            let sq = b.pop();
            let ghost old_out = out@;
            out.push(sq);
            proof {
                assert(out@[old_out.len() as int] == sq);
                assert forall|j: int| 0 <= j < 64 && self.has(j) implies b.has(j) || exists|k: int| 0 <= k < out@.len() && #[trigger] out@[k].idx() == j by {
                    if !b.has(j) {
                        if j == sq.idx() {
                            assert(out@[old_out.len() as int].idx() == j);
                        } else {
                            let k = choose|k: int| 0 <= k < old_out.len() && #[trigger] old_out[k].idx() == j;
                            assert(out@[k].idx() == j);
                        }
                    }
                }
            }
        }
        proof {
            lemma_zero_iff_no_bits(b@);
            assert forall|k: int| 0 <= k < out@.len() implies (#[trigger] out@[k]).is_valid() by {
                assert(self.has(out@[k].idx()));
                assert(Square64::Invalid.idx() == 64);
            }
        }
        out
    }


    /// The number of squares in the set.
    pub fn bit_count(self) -> (r: u32)
        ensures
            r == popcount(self@),
    {
        count_ones(self.0)
    }


    /// The set moved one step north; squares that would leave the board are dropped.
    pub fn shifted_north(self) -> (r: BitBoard)
        ensures
            r@ == self@ << 8u64,
            forall|j: int| 0 <= j < 64 ==> r.has(j) == (j >= 8 && self.has(j - 8)),
    {
        proof {
            assert forall|j: int| 0 <= j < 64 implies bit_set(self@ << 8u64, j) == (j >= 8 && self.has(j - 8)) by {
                lemma_shift(self@, 8, j);
            }
        }
        BitBoard(self.0 << 8u64)
    }

    /// The set moved one step south; squares that would leave the board are dropped.
    pub fn shifted_south(self) -> (r: BitBoard)
        ensures
            r@ == self@ >> 8u64,
            forall|j: int| 0 <= j < 64 ==> r.has(j) == (j + 8 < 64 && self.has(j + 8)),
    {
        proof {
            assert forall|j: int| 0 <= j < 64 implies bit_set(self@ >> 8u64, j) == (j + 8 < 64 && self.has(j + 8)) by {
                lemma_shift(self@, 8, j);
            }
        }
        BitBoard(self.0 >> 8u64)
    }

    /// The set moved one step east; squares that would leave the board are dropped.
    pub fn shifted_east(self) -> (r: BitBoard)
        ensures
            r@ == (self@ << 1u64) & 0xfefe_fefe_fefe_fefeu64,
            forall|j: int| 0 <= j < 64 ==> r.has(j) == (j % 8 != 0 && self.has(j - 1)),
    {
        proof {
            assert forall|j: int| 0 <= j < 64 implies bit_set((self@ << 1u64) & 0xfefe_fefe_fefe_fefeu64, j) == (j % 8 != 0 && self.has(j - 1)) by {
                lemma_shift(self@, 1, j);
                lemma_bit_ops(self@ << 1u64, 0xfefe_fefe_fefe_fefeu64, j);
                lemma_file_masks(j);
            }
        }
        BitBoard((self.0 << 1u64) & 0xfefe_fefe_fefe_fefe)
    }

    /// The set moved one step west; squares that would leave the board are dropped.
    pub fn shifted_west(self) -> (r: BitBoard)
        ensures
            r@ == (self@ >> 1u64) & 0x7f7f_7f7f_7f7f_7f7fu64,
            forall|j: int| 0 <= j < 64 ==> r.has(j) == (j % 8 != 7 && self.has(j + 1)),
    {
        proof {
            assert forall|j: int| 0 <= j < 64 implies bit_set((self@ >> 1u64) & 0x7f7f_7f7f_7f7f_7f7fu64, j) == (j % 8 != 7 && self.has(j + 1)) by {
                lemma_shift(self@, 1, j);
                lemma_bit_ops(self@ >> 1u64, 0x7f7f_7f7f_7f7f_7f7fu64, j);
                lemma_file_masks(j);
            }
        }
        BitBoard((self.0 >> 1u64) & 0x7f7f_7f7f_7f7f_7f7f)
    }

    /// The set moved one step northeast; squares that would leave the board are dropped.
    pub fn shifted_northeast(self) -> (r: BitBoard)
        ensures
            r@ == (self@ << 9u64) & 0xfefe_fefe_fefe_fefeu64,
            forall|j: int| 0 <= j < 64 ==> r.has(j) == (j % 8 != 0 && j >= 9 && self.has(j - 9)),
    {
        proof {
            assert forall|j: int| 0 <= j < 64 implies bit_set((self@ << 9u64) & 0xfefe_fefe_fefe_fefeu64, j) == (j % 8 != 0 && j >= 9 && self.has(j - 9)) by {
                lemma_shift(self@, 9, j);
                lemma_bit_ops(self@ << 9u64, 0xfefe_fefe_fefe_fefeu64, j);
                lemma_file_masks(j);
            }
        }
        BitBoard((self.0 << 9u64) & 0xfefe_fefe_fefe_fefe)
    }

    /// The set moved one step southeast; squares that would leave the board are dropped.
    pub fn shifted_southeast(self) -> (r: BitBoard)
        ensures
            r@ == (self@ >> 7u64) & 0xfefe_fefe_fefe_fefeu64,
            forall|j: int| 0 <= j < 64 ==> r.has(j) == (j % 8 != 0 && j + 7 < 64 && self.has(j + 7)),
    {
        proof {
            assert forall|j: int| 0 <= j < 64 implies bit_set((self@ >> 7u64) & 0xfefe_fefe_fefe_fefeu64, j) == (j % 8 != 0 && j + 7 < 64 && self.has(j + 7)) by {
                lemma_shift(self@, 7, j);
                lemma_bit_ops(self@ >> 7u64, 0xfefe_fefe_fefe_fefeu64, j);
                lemma_file_masks(j);
            }
        }
        BitBoard((self.0 >> 7u64) & 0xfefe_fefe_fefe_fefe)
    }

    /// The set moved one step southwest; squares that would leave the board are dropped.
    pub fn shifted_southwest(self) -> (r: BitBoard)
        ensures
            r@ == (self@ >> 9u64) & 0x7f7f_7f7f_7f7f_7f7fu64,
            forall|j: int| 0 <= j < 64 ==> r.has(j) == (j % 8 != 7 && j + 9 < 64 && self.has(j + 9)),
    {
        proof {
            assert forall|j: int| 0 <= j < 64 implies bit_set((self@ >> 9u64) & 0x7f7f_7f7f_7f7f_7f7fu64, j) == (j % 8 != 7 && j + 9 < 64 && self.has(j + 9)) by {
                lemma_shift(self@, 9, j);
                lemma_bit_ops(self@ >> 9u64, 0x7f7f_7f7f_7f7f_7f7fu64, j);
                lemma_file_masks(j);
            }
        }
        BitBoard((self.0 >> 9u64) & 0x7f7f_7f7f_7f7f_7f7f)
    }

    /// The set moved one step northwest; squares that would leave the board are dropped.
    pub fn shifted_northwest(self) -> (r: BitBoard)
        ensures
            r@ == (self@ << 7u64) & 0x7f7f_7f7f_7f7f_7f7fu64,
            forall|j: int| 0 <= j < 64 ==> r.has(j) == (j % 8 != 7 && j >= 7 && self.has(j - 7)),
    {
        proof {
            assert forall|j: int| 0 <= j < 64 implies bit_set((self@ << 7u64) & 0x7f7f_7f7f_7f7f_7f7fu64, j) == (j % 8 != 7 && j >= 7 && self.has(j - 7)) by {
                lemma_shift(self@, 7, j);
                lemma_bit_ops(self@ << 7u64, 0x7f7f_7f7f_7f7f_7f7fu64, j);
                lemma_file_masks(j);
            }
        }
        BitBoard((self.0 << 7u64) & 0x7f7f_7f7f_7f7f_7f7f)
    }
}

/// Removing the lowest set bit lowers the number of set bits by one.
pub proof fn lemma_popcount_pop(x: u64)
    requires
        x != 0,
    ensures
        popcount(x & ((x - 1) as u64)) < popcount(x),
{
    crate::bits::lemma_popcount_clear_lowest(x);
}

} // verus!
