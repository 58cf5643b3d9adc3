//! The board drawn as text: eight rows of squares, from the eighth rank down,
//! with the state of the position beside them.

use crate::board::fen::{castle_field, en_passant_field};
use crate::board::{Board, Position};
use crate::text::push_char;
use crate::types::{CastlePerm, CastlePerms, Piece, color_char, piece_char};
use crate::uci::{dec_text, push_decimal};
use vstd::prelude::*;
use vstd::string::StringExecFns;

verus! {

/// A square of the drawing: the letter of its piece or a dot, and a space.
pub open spec fn cell(p: Seq<Option<Piece>>, s: int) -> Seq<char> {
    match p[s] {
        Some(q) => seq![piece_char(q), ' '],
        None => seq!['.', ' '],
    }
}

/// The squares of rank `r` from file `f` on.
pub open spec fn cells_from(p: Seq<Option<Piece>>, r: int, f: int) -> Seq<char>
    decreases 8 - f,
{
    if f >= 8 {
        Seq::empty()
    } else {
        cell(p, 8 * r + f) + cells_from(p, r, f + 1)
    }
}

/// A lower-case hexadecimal digit.
pub open spec fn hex_char(d: int) -> char {
    if d < 10 {
        (48 + d) as char
    } else {
        (87 + d) as char
    }
}

/// The hexadecimal digits of a natural number.
pub open spec fn hex_digits(n: nat) -> Seq<char>
    decreases n,
{
    if n < 16 {
        seq![hex_char(n as int)]
    } else {
        hex_digits(n / 16).push(hex_char((n % 16) as int))
    }
}

/// A key as `0x` and at least six hexadecimal digits (padded with zeros).
pub open spec fn key_text(k: u64) -> Seq<char> {
    let d = hex_digits(k as nat);
    let pad = if d.len() < 6 {
        6 - d.len()
    } else {
        0
    };
    seq!['0', 'x'] + Seq::new(pad as nat, |i: int| '0') + d
}

/// What is written beside rank `r`.
pub open spec fn note(p: Position, r: int) -> Seq<char> {
    if r == 6 {
        " * active color: "@ + seq![color_char(p.color)]
    } else if r == 5 {
        " * en passant: "@ + en_passant_field(p.en_passant)
    } else if r == 4 {
        " * ply: "@ + dec_text(p.ply as nat)
    } else if r == 3 {
        " * fifty-move: "@ + dec_text(p.fifty_move as nat)
    } else if r == 2 {
        " * castle permitions: "@ + castle_field(p.castle_perms)
    } else if r == 1 {
        " * tpos key: "@ + key_text(p.position_key)
    } else {
        Seq::empty()
    }
}

/// The lines of the drawing from rank `r` down.
pub open spec fn lines_from(p: Position, r: int) -> Seq<char>
    decreases r + 1,
{
    if r < 0 {
        Seq::empty()
    } else {
        cells_from(p.pieces, r, 0) + note(p, r) + seq!['\n'] + lines_from(p, r - 1)
    }
}

fn push_hex(w: &mut String, n: u64)
    ensures
        final(w)@ == old(w)@ + hex_digits(n as nat),
    decreases n,
{
    if n >= 16 {
        push_hex(w, n / 16);
    }
    let d = (n % 16) as u8;
    let c = if d < 10 {
        (48 + d) as char
    } else {
        (87 + d) as char
    };
    push_char(w, c);
    proof {
        assert(final(w)@ =~= old(w)@ + hex_digits(n as nat));
    }
}

fn hex_len(n: u64) -> (r: u64)
    ensures
        r == hex_digits(n as nat).len(),
        r <= n as int + 1,
    decreases n,
{
    if n >= 16 {
        hex_len(n / 16) + 1
    } else {
        1
    }
}

fn push_castle(w: &mut String, cp: CastlePerms)
    ensures
        final(w)@ == old(w)@ + castle_field(cp),
{
    let ghost f0 = w@;
    if cp.as_u8() == 0 {
        push_char(w, '-');
    } else {
        if cp.get(CastlePerm::WhiteKingside) {
            push_char(w, CastlePerm::WhiteKingside.to_char());
        }
        if cp.get(CastlePerm::WhiteQueenside) {
            push_char(w, CastlePerm::WhiteQueenside.to_char());
        }
        if cp.get(CastlePerm::BlackKingside) {
            push_char(w, CastlePerm::BlackKingside.to_char());
        }
        if cp.get(CastlePerm::BlackQueenside) {
            push_char(w, CastlePerm::BlackQueenside.to_char());
        }
    }
    proof {
        assert(w@ =~= f0 + castle_field(cp));
    }
}

impl Board {
    /// What is written beside rank `r`.
    fn push_note(&self, w: &mut String, r: usize)
        requires
            r < 8,
            self.en_passant matches Some(sq) ==> sq.is_valid(),
        ensures
            final(w)@ == old(w)@ + note(self@, r as int),
    {
        let ghost w0 = w@;
        if r == 6 {
            w.append(" * active color: ");
            push_char(w, self.color.to_char());
        } else if r == 5 {
            w.append(" * en passant: ");
            match self.en_passant {
                Some(sq) => {
                    push_char(w, sq.file().unwrap().to_char());
                    push_char(w, sq.rank().unwrap().to_char());
                },
                None => {
                    push_char(w, '-');
                },
            }
        } else if r == 4 {
            w.append(" * ply: ");
            push_decimal(w, self.ply as u64);
        } else if r == 3 {
            w.append(" * fifty-move: ");
            push_decimal(w, self.fifty_move as u64);
        } else if r == 2 {
            w.append(" * castle permitions: ");
            push_castle(w, self.castle_perms);
        } else if r == 1 {
            w.append(" * tpos key: ");
            push_char(w, '0');
            push_char(w, 'x');
            let n = hex_len(self.position_key);
            let mut k = n;
            let ghost w1 = w@;
            while k < 6
                invariant
                    n <= k <= 6 || (n >= 6 && k == n),
                    w@ == w1 + Seq::new((k - n) as nat, |i: int| '0'),
                decreases 6 - k,
            {
                push_char(w, '0');
                k = k + 1;
                proof {
                    assert(w@ =~= w1 + Seq::new((k - n) as nat, |i: int| '0'));
                }
            }
            push_hex(w, self.position_key);
        }
        proof {
            assert(w@ =~= w0 + note(self@, r as int));
        }
    }

    /// The board drawn as text (what the alternate form of `{:#}` writes):
    /// eight rows of pieces (letters) and empty squares (dots), from the eighth
    /// rank down, with the side to move, the en passant square, the ply, the
    /// fifty move counter, the castling permissions and the position key beside
    /// the seventh to the second row.
    pub fn diagram(&self) -> (r: String)
        requires
            self.en_passant matches Some(sq) ==> sq.is_valid(),
        ensures
            r@ == lines_from(self@, 7),
    {
        let mut w = String::new();
        let mut rank: usize = 8;
        proof {
            assert(w@ + lines_from(self@, 7) =~= lines_from(self@, 7));
        }
        while rank > 0
            invariant
                rank <= 8,
                self.en_passant matches Some(sq) ==> sq.is_valid(),
                w@ + lines_from(self@, rank - 1) == lines_from(self@, 7),
            decreases rank,
        {
            rank = rank - 1;
            let ghost before = w@;
            let mut file: usize = 0;
            while file < 8
                invariant
                    file <= 8,
                    rank < 8,
                    w@ + cells_from(self@.pieces, rank as int, file as int) == before + cells_from(
                        self@.pieces,
                        rank as int,
                        0,
                    ),
                decreases 8 - file,
            {
                let ghost w0 = w@;
                match self.pieces[rank * 8 + file] {
                    Some(piece) => {
                        push_char(&mut w, piece.to_char());
                    },
                    None => {
                        push_char(&mut w, '.');
                    },
                }
                push_char(&mut w, ' ');
                proof {
                    assert(w@ =~= w0 + cell(self@.pieces, 8 * rank + file));
                    assert(w@ + cells_from(self@.pieces, rank as int, file + 1) =~= w0 + cells_from(
                        self@.pieces,
                        rank as int,
                        file as int,
                    ));
                }
                file = file + 1;
            }
            self.push_note(&mut w, rank);
            push_char(&mut w, '\n');
            proof {
                assert(w@ + lines_from(self@, rank - 1) =~= before + lines_from(self@, rank as int));
            }
        }
        w
    }
}

} // verus!
