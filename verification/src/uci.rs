//! The messages of the Universal Chess Interface: reading the commands of a GUI
//! (bytes of one line) and the values they carry.

use crate::board::fen::{fen_fields, is_ascii_ws, split_fields, views};
use crate::text::{ascii_chars, is_ascii_bytes, push_char, string_from_bytes};
use vstd::string::StringExecFns;
use vstd::prelude::*;
use vstd::string::StringSliceAdditionalSpecFns;

verus! {

// ---------------------------------------------------------------------------
// Words
// ---------------------------------------------------------------------------

pub const W_UCI: [u8; 3] = [117, 99, 105];
pub const W_DEBUG: [u8; 5] = [100, 101, 98, 117, 103];
pub const W_ISREADY: [u8; 7] = [105, 115, 114, 101, 97, 100, 121];
pub const W_UCINEWGAME: [u8; 10] = [117, 99, 105, 110, 101, 119, 103, 97, 109, 101];
pub const W_POSITION: [u8; 8] = [112, 111, 115, 105, 116, 105, 111, 110];
pub const W_GO: [u8; 2] = [103, 111];
pub const W_STOP: [u8; 4] = [115, 116, 111, 112];
pub const W_PONDERHIT: [u8; 9] = [112, 111, 110, 100, 101, 114, 104, 105, 116];
pub const W_QUIT: [u8; 4] = [113, 117, 105, 116];
pub const W_ON: [u8; 2] = [111, 110];
pub const W_OFF: [u8; 3] = [111, 102, 102];
pub const W_STARTPOS: [u8; 8] = [115, 116, 97, 114, 116, 112, 111, 115];
pub const W_FEN: [u8; 3] = [102, 101, 110];
pub const W_MOVES: [u8; 5] = [109, 111, 118, 101, 115];
pub const W_PONDER: [u8; 6] = [112, 111, 110, 100, 101, 114];
pub const W_INFINITE: [u8; 8] = [105, 110, 102, 105, 110, 105, 116, 101];
pub const W_WTIME: [u8; 5] = [119, 116, 105, 109, 101];
pub const W_BTIME: [u8; 5] = [98, 116, 105, 109, 101];
pub const W_WINC: [u8; 4] = [119, 105, 110, 99];
pub const W_BINC: [u8; 4] = [98, 105, 110, 99];
pub const W_MOVESTOGO: [u8; 9] = [109, 111, 118, 101, 115, 116, 111, 103, 111];
pub const W_DEPTH: [u8; 5] = [100, 101, 112, 116, 104];
pub const W_NODES: [u8; 5] = [110, 111, 100, 101, 115];
pub const W_MATE: [u8; 4] = [109, 97, 116, 101];
pub const W_MOVETIME: [u8; 8] = [109, 111, 118, 101, 116, 105, 109, 101];
pub const W_SEARCHMOVES: [u8; 11] = [115, 101, 97, 114, 99, 104, 109, 111, 118, 101, 115];

/// Whether the bytes are the word.
fn is_word(t: &[u8], w: &[u8]) -> (r: bool)
    ensures
        r == (t@ == w@),
{
    if t.len() != w.len() {
        return false;
    }
    let mut i: usize = 0;
    while i < t.len()
        invariant
            i <= t@.len(),
            t@.len() == w@.len(),
            forall|k: int| 0 <= k < i ==> t@[k] == w@[k],
        decreases t@.len() - i,
    {
        if t[i] != w[i] {
            return false;
        }
        i = i + 1;
    }
    proof {
        assert(t@ =~= w@);
    }
    true
}

// ---------------------------------------------------------------------------
// Numbers
// ---------------------------------------------------------------------------

pub open spec fn is_digit_byte(c: u8) -> bool {
    48 <= c <= 57
}

/// The value of a string of decimal digits.
pub open spec fn digits_value(d: Seq<u8>) -> int
    decreases d.len(),
{
    if d.len() == 0 {
        0
    } else {
        digits_value(d.drop_last()) * 10 + (d.last() - 48)
    }
}

/// The digits of a number: after a `+` sign, if there is one.
pub open spec fn unsigned_digits(b: Seq<u8>) -> Seq<u8> {
    if b.len() > 0 && b[0] == 43 {
        b.drop_first()
    } else {
        b
    }
}

/// An unsigned 32-bit number as `str::parse` reads one: an optional `+` and at
/// least one decimal digit, with a value that fits.
pub open spec fn parse_u32_spec(b: Seq<u8>) -> Option<u32> {
    let d = unsigned_digits(b);
    if d.len() > 0 && (forall|i: int| 0 <= i < d.len() ==> #[trigger] is_digit_byte(d[i])) && digits_value(d)
        <= u32::MAX {
        Some(digits_value(d) as u32)
    } else {
        None
    }
}

proof fn lemma_digits_step(d: Seq<u8>, i: int, acc: int)
    requires
        0 <= i < d.len(),
        is_digit_byte(d[i]),
        acc == (if digits_value(d.take(i)) < 0x1_0000_0000 {
            digits_value(d.take(i))
        } else {
            0x1_0000_0000
        }),
        digits_value(d.take(i)) >= 0,
    ensures
        digits_value(d.take(i + 1)) == digits_value(d.take(i)) * 10 + (d[i] - 48),
        digits_value(d.take(i + 1)) >= 0,
        (if acc * 10 + (d[i] - 48) < 0x1_0000_0000 {
            acc * 10 + (d[i] - 48)
        } else {
            0x1_0000_0000
        }) == (if digits_value(d.take(i + 1)) < 0x1_0000_0000 {
            digits_value(d.take(i + 1))
        } else {
            0x1_0000_0000
        }),
{
    assert(d.take(i + 1).drop_last() =~= d.take(i));
    let v = digits_value(d.take(i));
    assert(v >= 0x1_0000_0000 ==> v * 10 >= 0x1_0000_0000) by (nonlinear_arith);
    assert(v >= 0 ==> v * 10 >= 0) by (nonlinear_arith);
}

/// Reads an unsigned 32-bit number.
pub fn parse_u32(b: &[u8]) -> (r: Option<u32>)
    ensures
        r == parse_u32_spec(b@),
{
    let start: usize = if b.len() > 0 && b[0] == 43 {
        1
    } else {
        0
    };
    let ghost d = unsigned_digits(b@);
    proof {
        assert(d =~= b@.skip(start as int));
    }
    if start >= b.len() {
        return None;
    }
    let mut acc: u64 = 0;
    let mut i: usize = start;
    proof {
        assert(d.take(0) =~= Seq::<u8>::empty());
    }
    while i < b.len()
        invariant
            start <= i <= b@.len(),
            d == unsigned_digits(b@),
            d =~= b@.skip(start as int),
            forall|k: int| 0 <= k < i - start ==> #[trigger] is_digit_byte(d[k]),
            digits_value(d.take(i - start)) >= 0,
            acc == (if digits_value(d.take(i - start)) < 0x1_0000_0000 {
                digits_value(d.take(i - start))
            } else {
                0x1_0000_0000
            }),
        decreases b@.len() - i,
    {
        let c = b[i];
        if c < 48 || c > 57 {
            proof {
                assert(d[i - start] == b@[i as int]);
                assert(!is_digit_byte(d[i - start]));
                assert(!(forall|k: int| 0 <= k < d.len() ==> #[trigger] is_digit_byte(d[k])));
                assert(d == unsigned_digits(b@));
            }
            return None;
        }
        proof {
            lemma_digits_step(d, i - start, acc as int);
        }
        let next = acc * 10 + (c - 48) as u64;
        acc = if next < 0x1_0000_0000 {
            next
        } else {
            0x1_0000_0000
        };
        i = i + 1;
    }
    proof {
        assert(d.take(d.len() as int) =~= d);
    }
    if acc <= 0xFFFF_FFFF {
        Some(acc as u32)
    } else {
        None
    }
}

// ---------------------------------------------------------------------------
// go
// ---------------------------------------------------------------------------

/// The values a `go` command carries, as plain values.
#[derive(Debug, Clone, Copy, PartialEq, Eq, Structural)]
pub struct GoFields {
    pub ponder: bool,
    pub wtime: Option<u32>,
    pub btime: Option<u32>,
    pub winc: Option<u32>,
    pub binc: Option<u32>,
    pub movestogo: Option<u32>,
    pub depth: Option<u32>,
    pub nodes: Option<u32>,
    pub mate: Option<u32>,
    pub movetime: Option<u32>,
    pub infinite: bool,
}

/// No values given.
pub open spec fn no_go_fields() -> GoFields {
    GoFields {
        ponder: false,
        wtime: None,
        btime: None,
        winc: None,
        binc: None,
        movestogo: None,
        depth: None,
        nodes: None,
        mate: None,
        movetime: None,
        infinite: false,
    }
}

#[derive(Debug, Clone)]
pub struct Go {
    pub searchmoves: Vec<String>,
    pub ponder: bool,
    pub wtime: Option<u32>,
    pub btime: Option<u32>,
    pub winc: Option<u32>,
    pub binc: Option<u32>,
    pub movestogo: Option<u32>,
    pub depth: Option<u32>,
    pub nodes: Option<u32>,
    pub mate: Option<u32>,
    pub movetime: Option<u32>,
    pub infinite: bool,
}

impl Go {
    pub open spec fn fields(&self) -> GoFields {
        GoFields {
            ponder: self.ponder,
            wtime: self.wtime,
            btime: self.btime,
            winc: self.winc,
            binc: self.binc,
            movestogo: self.movestogo,
            depth: self.depth,
            nodes: self.nodes,
            mate: self.mate,
            movetime: self.movetime,
            infinite: self.infinite,
        }
    }
}

impl Default for Go {
    fn default() -> (r: Go)
        ensures
            r.fields() == no_go_fields(),
            r.searchmoves@.len() == 0,
    {
        Go {
            searchmoves: Vec::new(),
            ponder: false,
            wtime: None,
            btime: None,
            winc: None,
            binc: None,
            movestogo: None,
            depth: None,
            nodes: None,
            mate: None,
            movetime: None,
            infinite: false,
        }
    }
}

/// Whether the word is a key of `go` followed by a number.
pub open spec fn is_value_key(w: Seq<u8>) -> bool {
    ||| w == W_WTIME@
    ||| w == W_BTIME@
    ||| w == W_WINC@
    ||| w == W_BINC@
    ||| w == W_MOVESTOGO@
    ||| w == W_DEPTH@
    ||| w == W_NODES@
    ||| w == W_MATE@
    ||| w == W_MOVETIME@
}

/// The values with the one of the key `w` set to `v`.
pub open spec fn with_value(g: GoFields, w: Seq<u8>, v: u32) -> GoFields {
    if w == W_WTIME@ {
        GoFields { wtime: Some(v), ..g }
    } else if w == W_BTIME@ {
        GoFields { btime: Some(v), ..g }
    } else if w == W_WINC@ {
        GoFields { winc: Some(v), ..g }
    } else if w == W_BINC@ {
        GoFields { binc: Some(v), ..g }
    } else if w == W_MOVESTOGO@ {
        GoFields { movestogo: Some(v), ..g }
    } else if w == W_DEPTH@ {
        GoFields { depth: Some(v), ..g }
    } else if w == W_NODES@ {
        GoFields { nodes: Some(v), ..g }
    } else if w == W_MATE@ {
        GoFields { mate: Some(v), ..g }
    } else {
        GoFields { movetime: Some(v), ..g }
    }
}

/// The outcome of reading the words of a `go` command.
pub enum GoScan {
    /// All words were read, giving these values.
    Done(GoFields),
    /// A word is unknown, or a key lacks its number or has a bad one.
    Failed,
    /// The words reach `searchmoves`, which is not supported.
    Unsupported,
}

/// Reads the words of a `go` command from word `i` on, with the values `g` read
/// so far. A later value of a key replaces an earlier one.
pub open spec fn go_scan(t: Seq<Seq<u8>>, i: int, g: GoFields) -> GoScan
    decreases t.len() - i,
{
    if i >= t.len() || i < 0 {
        GoScan::Done(g)
    } else if t[i] == W_PONDER@ {
        go_scan(t, i + 1, GoFields { ponder: true, ..g })
    } else if t[i] == W_INFINITE@ {
        go_scan(t, i + 1, GoFields { infinite: true, ..g })
    } else if is_value_key(t[i]) {
        if i + 1 >= t.len() {
            GoScan::Failed
        } else {
            match parse_u32_spec(t[i + 1]) {
                None => GoScan::Failed,
                Some(v) => go_scan(t, i + 2, with_value(g, t[i], v)),
            }
        }
    } else if t[i] == W_SEARCHMOVES@ {
        GoScan::Unsupported
    } else {
        GoScan::Failed
    }
}

/// A word that reads as a number is neither `infinite` nor `ponder`, nor is a
/// key that takes a value.
proof fn lemma_flag_words(w: Seq<u8>)
    ensures
        parse_u32_spec(w) is Some ==> w != W_INFINITE@ && w != W_PONDER@,
        is_value_key(w) ==> w != W_INFINITE@ && w != W_PONDER@,
{
    if w == W_INFINITE@ {
        assert(w[0] == 105);
        assert(!is_digit_byte(unsigned_digits(w)[0]));
    }
    if w == W_PONDER@ {
        assert(w[0] == 112);
        assert(!is_digit_byte(unsigned_digits(w)[0]));
    }
    if is_value_key(w) && (w == W_INFINITE@ || w == W_PONDER@) {
        assert(w.len() == W_INFINITE@.len() || w.len() == W_PONDER@.len());
        if w == W_INFINITE@ {
            assert(w[0] == 105 && w[1] == 110);
            assert(W_MOVETIME@[0] == 109);
        } else {
            assert(w[0] == 112);
        }
    }
}

/// Reading from word `i` on with the values `g` sets the flags `infinite` and
/// `ponder` exactly when they were set or their words occur from word `i` on.
proof fn lemma_go_scan_flags(t: Seq<Seq<u8>>, i: int, g: GoFields)
    requires
        0 <= i,
    ensures
        go_scan(t, i, g) matches GoScan::Done(h) ==> {
            &&& h.infinite == (g.infinite || exists|k: int| i <= k < t.len() && t[k] == W_INFINITE@)
            &&& h.ponder == (g.ponder || exists|k: int| i <= k < t.len() && t[k] == W_PONDER@)
        },
    decreases t.len() - i,
{
    if i < t.len() {
        lemma_flag_words(t[i]);
        if t[i] == W_PONDER@ {
            lemma_go_scan_flags(t, i + 1, GoFields { ponder: true, ..g });
        } else if t[i] == W_INFINITE@ {
            lemma_go_scan_flags(t, i + 1, GoFields { infinite: true, ..g });
        } else if is_value_key(t[i]) {
            if i + 1 < t.len() {
                lemma_flag_words(t[i + 1]);
                if let Some(v) = parse_u32_spec(t[i + 1]) {
                    lemma_go_scan_flags(t, i + 2, with_value(g, t[i], v));
                }
            }
        }
    }
}

/// The flags of a `go` command: `infinite` is set exactly when the word
/// `infinite` occurs among the words, and `ponder` exactly when the word
/// `ponder` does; neither word sets the other flag.
pub proof fn law_go_flags(t: Seq<Seq<u8>>)
    ensures
        go_scan(t, 0, no_go_fields()) matches GoScan::Done(g) ==> g.infinite == t.contains(W_INFINITE@) && g.ponder
            == t.contains(W_PONDER@),
{
    lemma_go_scan_flags(t, 0, no_go_fields());
}

/// Each key of a `go` command sets the field of its name, and only that one:
/// `wtime 1000` gives a `wtime` of 1000 and nothing else.
pub proof fn law_go_keys(num: Seq<u8>)
    ensures
        parse_u32_spec(num) matches Some(v) ==> go_scan(seq![W_WTIME@, num], 0, no_go_fields()) == GoScan::Done(
            GoFields { wtime: Some(v), ..no_go_fields() },
        ),
        parse_u32_spec(num) matches Some(v) ==> go_scan(seq![W_BTIME@, num], 0, no_go_fields()) == GoScan::Done(
            GoFields { btime: Some(v), ..no_go_fields() },
        ),
        parse_u32_spec(num) matches Some(v) ==> go_scan(seq![W_WINC@, num], 0, no_go_fields()) == GoScan::Done(
            GoFields { winc: Some(v), ..no_go_fields() },
        ),
        parse_u32_spec(num) matches Some(v) ==> go_scan(seq![W_BINC@, num], 0, no_go_fields()) == GoScan::Done(
            GoFields { binc: Some(v), ..no_go_fields() },
        ),
        parse_u32_spec(num) matches Some(v) ==> go_scan(seq![W_MOVESTOGO@, num], 0, no_go_fields()) == GoScan::Done(
            GoFields { movestogo: Some(v), ..no_go_fields() },
        ),
        parse_u32_spec(num) matches Some(v) ==> go_scan(seq![W_DEPTH@, num], 0, no_go_fields()) == GoScan::Done(
            GoFields { depth: Some(v), ..no_go_fields() },
        ),
        parse_u32_spec(num) matches Some(v) ==> go_scan(seq![W_NODES@, num], 0, no_go_fields()) == GoScan::Done(
            GoFields { nodes: Some(v), ..no_go_fields() },
        ),
        parse_u32_spec(num) matches Some(v) ==> go_scan(seq![W_MATE@, num], 0, no_go_fields()) == GoScan::Done(
            GoFields { mate: Some(v), ..no_go_fields() },
        ),
        parse_u32_spec(num) matches Some(v) ==> go_scan(seq![W_MOVETIME@, num], 0, no_go_fields()) == GoScan::Done(
            GoFields { movetime: Some(v), ..no_go_fields() },
        ),
{
    reveal_with_fuel(go_scan, 2);
    assert(parse_u32_spec(num) matches Some(v) ==> go_scan(seq![W_WTIME@, num], 0, no_go_fields()) == GoScan::Done(
        GoFields { wtime: Some(v), ..no_go_fields() },
    )) by {
        let t = seq![W_WTIME@, num];
        assert(t[0] == W_WTIME@);
        assert(t[1] == num);
        assert(t[0] != W_PONDER@ && t[0] != W_INFINITE@) by {
            assert(t[0].len() != W_PONDER@.len() || t[0][0] != W_PONDER@[0]);
            assert(t[0].len() != W_INFINITE@.len() || t[0][0] != W_INFINITE@[0]);
        }
    }
    assert(parse_u32_spec(num) matches Some(v) ==> go_scan(seq![W_BTIME@, num], 0, no_go_fields()) == GoScan::Done(
        GoFields { btime: Some(v), ..no_go_fields() },
    )) by {
        let t = seq![W_BTIME@, num];
        assert(t[0] == W_BTIME@);
        assert(t[1] == num);
        assert(t[0] != W_PONDER@ && t[0] != W_INFINITE@) by {
            assert(t[0].len() != W_PONDER@.len() || t[0][0] != W_PONDER@[0]);
            assert(t[0].len() != W_INFINITE@.len() || t[0][0] != W_INFINITE@[0]);
        }
    }
    assert(parse_u32_spec(num) matches Some(v) ==> go_scan(seq![W_WINC@, num], 0, no_go_fields()) == GoScan::Done(
        GoFields { winc: Some(v), ..no_go_fields() },
    )) by {
        let t = seq![W_WINC@, num];
        assert(t[0] == W_WINC@);
        assert(t[1] == num);
        assert(t[0] != W_PONDER@ && t[0] != W_INFINITE@) by {
            assert(t[0].len() != W_PONDER@.len() || t[0][0] != W_PONDER@[0]);
            assert(t[0].len() != W_INFINITE@.len() || t[0][0] != W_INFINITE@[0]);
        }
    }
    assert(parse_u32_spec(num) matches Some(v) ==> go_scan(seq![W_BINC@, num], 0, no_go_fields()) == GoScan::Done(
        GoFields { binc: Some(v), ..no_go_fields() },
    )) by {
        let t = seq![W_BINC@, num];
        assert(t[0] == W_BINC@);
        assert(t[1] == num);
        assert(t[0] != W_PONDER@ && t[0] != W_INFINITE@) by {
            assert(t[0].len() != W_PONDER@.len() || t[0][0] != W_PONDER@[0]);
            assert(t[0].len() != W_INFINITE@.len() || t[0][0] != W_INFINITE@[0]);
        }
    }
    assert(parse_u32_spec(num) matches Some(v) ==> go_scan(seq![W_MOVESTOGO@, num], 0, no_go_fields()) == GoScan::Done(
        GoFields { movestogo: Some(v), ..no_go_fields() },
    )) by {
        let t = seq![W_MOVESTOGO@, num];
        assert(t[0] == W_MOVESTOGO@);
        assert(t[1] == num);
        assert(t[0] != W_PONDER@ && t[0] != W_INFINITE@) by {
            assert(t[0].len() != W_PONDER@.len() || t[0][0] != W_PONDER@[0]);
            assert(t[0].len() != W_INFINITE@.len() || t[0][0] != W_INFINITE@[0]);
        }
    }
    assert(parse_u32_spec(num) matches Some(v) ==> go_scan(seq![W_DEPTH@, num], 0, no_go_fields()) == GoScan::Done(
        GoFields { depth: Some(v), ..no_go_fields() },
    )) by {
        let t = seq![W_DEPTH@, num];
        assert(t[0] == W_DEPTH@);
        assert(t[1] == num);
        assert(t[0] != W_PONDER@ && t[0] != W_INFINITE@) by {
            assert(t[0].len() != W_PONDER@.len() || t[0][0] != W_PONDER@[0]);
            assert(t[0].len() != W_INFINITE@.len() || t[0][0] != W_INFINITE@[0]);
        }
    }
    assert(parse_u32_spec(num) matches Some(v) ==> go_scan(seq![W_NODES@, num], 0, no_go_fields()) == GoScan::Done(
        GoFields { nodes: Some(v), ..no_go_fields() },
    )) by {
        let t = seq![W_NODES@, num];
        assert(t[0] == W_NODES@);
        assert(t[1] == num);
        assert(t[0] != W_PONDER@ && t[0] != W_INFINITE@) by {
            assert(t[0].len() != W_PONDER@.len() || t[0][0] != W_PONDER@[0]);
            assert(t[0].len() != W_INFINITE@.len() || t[0][0] != W_INFINITE@[0]);
        }
    }
    assert(parse_u32_spec(num) matches Some(v) ==> go_scan(seq![W_MATE@, num], 0, no_go_fields()) == GoScan::Done(
        GoFields { mate: Some(v), ..no_go_fields() },
    )) by {
        let t = seq![W_MATE@, num];
        assert(t[0] == W_MATE@);
        assert(t[1] == num);
        assert(t[0] != W_PONDER@ && t[0] != W_INFINITE@) by {
            assert(t[0].len() != W_PONDER@.len() || t[0][0] != W_PONDER@[0]);
            assert(t[0].len() != W_INFINITE@.len() || t[0][0] != W_INFINITE@[0]);
        }
    }
    assert(parse_u32_spec(num) matches Some(v) ==> go_scan(seq![W_MOVETIME@, num], 0, no_go_fields()) == GoScan::Done(
        GoFields { movetime: Some(v), ..no_go_fields() },
    )) by {
        let t = seq![W_MOVETIME@, num];
        assert(t[0] == W_MOVETIME@);
        assert(t[1] == num);
        assert(t[0] != W_PONDER@ && t[0] != W_INFINITE@) by {
            assert(t[0].len() != W_PONDER@.len() || t[0][0] != W_PONDER@[0]);
            assert(t[0].len() != W_INFINITE@.len() || t[0][0] != W_INFINITE@[0]);
        }
    }
}

impl Go {
    /// Reads the arguments of a `go` command: the words `ponder` and `infinite`,
    /// and the keys `wtime`, `btime`, `winc`, `binc`, `movestogo`, `depth`,
    /// `nodes`, `mate` and `movetime`, each followed by its number. Refused: an
    /// unknown word, a key without its number, a number that does not read.
    /// The words must not reach `searchmoves`, which is not supported.
    pub fn parse(text: &str) -> (r: Result<Go, ParseError>)
        requires
            !(go_scan(fen_fields(text.spec_bytes()), 0, no_go_fields()) is Unsupported),
        ensures
            match go_scan(fen_fields(text.spec_bytes()), 0, no_go_fields()) {
                GoScan::Done(g) => (r matches Ok(go) && go.fields() == g && go.searchmoves@.len() == 0),
                _ => r == Err::<Go, ParseError>(ParseError::UnknownGoSetting),
            },
            r matches Ok(go) ==> go.infinite == fen_fields(text.spec_bytes()).contains(W_INFINITE@) && go.ponder
                == fen_fields(text.spec_bytes()).contains(W_PONDER@),
    {
        proof {
            law_go_flags(fen_fields(text.spec_bytes()));
        }
        go_from_bytes(text.as_bytes())
    }
}

/// Reads the arguments of a `go` command from bytes.
fn go_from_bytes(text: &[u8]) -> (r: Result<Go, ParseError>)
    requires
        !(go_scan(fen_fields(text@), 0, no_go_fields()) is Unsupported),
    ensures
        match go_scan(fen_fields(text@), 0, no_go_fields()) {
            GoScan::Done(g) => (r matches Ok(go) && go.fields() == g && go.searchmoves@.len() == 0),
            _ => r == Err::<Go, ParseError>(ParseError::UnknownGoSetting),
        },
{
    {
        let toks = split_fields(text);
        let ghost t = views(toks@);
        let mut go = Go::default();
        let mut i: usize = 0;
        while i < toks.len()
            invariant
                t == views(toks@),
                t == fen_fields(text@),
                i <= toks@.len(),
                go_scan(t, i as int, go.fields()) == go_scan(t, 0, no_go_fields()),
                go.searchmoves@.len() == 0,
            decreases toks@.len() - i,
        {
            let p = &toks[i];
            proof {
                assert(t[i as int] == p@);
            }
            if is_word(p, &W_PONDER) {
                go.ponder = true;
                i = i + 1;
            } else if is_word(p, &W_INFINITE) {
                go.infinite = true;
                i = i + 1;
            } else if is_word(p, &W_WTIME) || is_word(p, &W_BTIME) || is_word(p, &W_WINC) || is_word(p, &W_BINC)
                || is_word(p, &W_MOVESTOGO) || is_word(p, &W_DEPTH) || is_word(p, &W_NODES) || is_word(
                p,
                &W_MATE,
            ) || is_word(p, &W_MOVETIME) {
                if i + 1 >= toks.len() {
                    return Err(ParseError::UnknownGoSetting);
                }
                proof {
                    assert(t[i + 1] == toks@[i + 1]@);
                }
                let v = match parse_u32(&toks[i + 1]) {
                    Some(v) => v,
                    None => {
                        return Err(ParseError::UnknownGoSetting);
                    },
                };
                if is_word(p, &W_WTIME) {
                    go.wtime = Some(v);
                } else if is_word(p, &W_BTIME) {
                    go.btime = Some(v);
                } else if is_word(p, &W_WINC) {
                    go.winc = Some(v);
                } else if is_word(p, &W_BINC) {
                    go.binc = Some(v);
                } else if is_word(p, &W_MOVESTOGO) {
                    go.movestogo = Some(v);
                } else if is_word(p, &W_DEPTH) {
                    go.depth = Some(v);
                } else if is_word(p, &W_NODES) {
                    go.nodes = Some(v);
                } else if is_word(p, &W_MATE) {
                    go.mate = Some(v);
                } else {
                    go.movetime = Some(v);
                }
                i = i + 2;
            } else {
                return Err(ParseError::UnknownGoSetting);
            }
        }
        Ok(go)
    }
}

// ---------------------------------------------------------------------------
// Splitting a line
// ---------------------------------------------------------------------------

/// The first whitespace at or after position `i`.
pub open spec fn first_ws_from(b: Seq<u8>, i: int) -> Option<int>
    decreases b.len() - i,
{
    if i >= b.len() || i < 0 {
        None
    } else if is_ascii_ws(b[i]) {
        Some(i)
    } else {
        first_ws_from(b, i + 1)
    }
}

/// The bytes without their leading whitespace.
pub open spec fn trim_start(b: Seq<u8>) -> Seq<u8>
    decreases b.len(),
{
    if b.len() > 0 && is_ascii_ws(b[0]) {
        trim_start(b.drop_first())
    } else {
        b
    }
}

/// The bytes without their trailing whitespace.
pub open spec fn trim_end(b: Seq<u8>) -> Seq<u8>
    decreases b.len(),
{
    if b.len() > 0 && is_ascii_ws(b.last()) {
        trim_end(b.drop_last())
    } else {
        b
    }
}

/// The word before the first whitespace, and the rest after it without its
/// leading whitespace; `None` without any whitespace.
pub open spec fn split_once_ws(b: Seq<u8>) -> Option<(Seq<u8>, Seq<u8>)> {
    match first_ws_from(b, 0) {
        None => None,
        Some(i) => Some((b.take(i), trim_start(b.skip(i + 1)))),
    }
}

/// The word a command line starts with (up to the first whitespace, or the
/// whole line without any), and the rest after it without its leading
/// whitespace; `None` for a line of whitespace only.
pub open spec fn split_command(b: Seq<u8>) -> Option<(Seq<u8>, Seq<u8>)> {
    if trim_start(b).len() == 0 {
        None
    } else {
        match split_once_ws(b) {
            None => Some((b, Seq::empty())),
            Some(split) => Some(split),
        }
    }
}

/// The first position at or after `i` where `pat` occurs in `b`.
pub open spec fn find_from(b: Seq<u8>, pat: Seq<u8>, i: int) -> Option<int>
    decreases b.len() - i,
{
    if i < 0 || i >= b.len() || i + pat.len() > b.len() {
        None
    } else if b.subrange(i, i + pat.len()) == pat {
        Some(i)
    } else {
        find_from(b, pat, i + 1)
    }
}

fn first_ws(b: &[u8]) -> (r: Option<usize>)
    ensures
        r matches Some(i) ==> (first_ws_from(b@, 0) == Some(i as int) && i < b.len()),
        r is None ==> first_ws_from(b@, 0) is None,
{
    let mut i: usize = 0;
    while i < b.len()
        invariant
            i <= b@.len(),
            first_ws_from(b@, 0) == first_ws_from(b@, i as int),
        decreases b@.len() - i,
    {
        let c = b[i];
        if c == 32 || c == 9 || c == 10 || c == 12 || c == 13 {
            return Some(i);
        }
        i = i + 1;
    }
    None
}

/// The bytes of `b` from `from` to `to`.
fn copy_range(b: &[u8], from: usize, to: usize) -> (r: Vec<u8>)
    requires
        from <= to <= b@.len(),
    ensures
        r@ == b@.subrange(from as int, to as int),
{
    let mut v: Vec<u8> = Vec::new();
    let mut i: usize = from;
    while i < to
        invariant
            from <= i <= to,
            to <= b@.len(),
            v@ == b@.subrange(from as int, i as int),
        decreases to - i,
    {
        v.push(b[i]);
        i = i + 1;
        proof {
            assert(v@ =~= b@.subrange(from as int, i as int));
        }
    }
    v
}

proof fn lemma_trim_start_skip(b: Seq<u8>, i: int)
    requires
        0 <= i < b.len(),
        is_ascii_ws(b[i]),
    ensures
        trim_start(b.skip(i)) == trim_start(b.skip(i + 1)),
{
    assert(b.skip(i).drop_first() =~= b.skip(i + 1));
}

proof fn lemma_trim_end_take(b: Seq<u8>, j: int)
    requires
        0 < j <= b.len(),
        is_ascii_ws(b[j - 1]),
    ensures
        trim_end(b.take(j)) == trim_end(b.take(j - 1)),
{
    assert(b.take(j).drop_last() =~= b.take(j - 1));
}

/// The bytes without leading and trailing whitespace.
fn trimmed(b: &[u8]) -> (r: Vec<u8>)
    ensures
        r@ == trim_end(trim_start(b@)),
{
    let mut i: usize = 0;
    proof {
        assert(b@.skip(0) =~= b@);
    }
    while i < b.len() && (b[i] == 32 || b[i] == 9 || b[i] == 10 || b[i] == 12 || b[i] == 13)
        invariant
            i <= b@.len(),
            trim_start(b@) == trim_start(b@.skip(i as int)),
        decreases b@.len() - i,
    {
        proof {
            lemma_trim_start_skip(b@, i as int);
        }
        i = i + 1;
    }
    proof {
        if i < b.len() {
            assert(!is_ascii_ws(b@.skip(i as int)[0]));
        } else {
            assert(b@.skip(i as int).len() == 0);
        }
    }
    let ghost s = b@.skip(i as int);
    let mut j: usize = b.len();
    proof {
        assert(s.take(s.len() as int) =~= s);
    }
    while j > i && (b[j - 1] == 32 || b[j - 1] == 9 || b[j - 1] == 10 || b[j - 1] == 12 || b[j - 1] == 13)
        invariant
            i <= j <= b@.len(),
            s == b@.skip(i as int),
            trim_end(s) == trim_end(s.take(j - i)),
        decreases j,
    {
        proof {
            lemma_trim_end_take(s, j - i);
        }
        j = j - 1;
    }
    proof {
        let t = s.take(j - i);
        if j > i {
            assert(t.last() == b@[j - 1]);
        }
        assert(t =~= b@.subrange(i as int, j as int));
    }
    copy_range(b, i, j)
}

/// The bytes after position `from`, without leading whitespace.
fn rest_after(b: &[u8], from: usize) -> (r: Vec<u8>)
    requires
        from <= b@.len(),
    ensures
        r@ == trim_start(b@.skip(from as int)),
{
    let mut i: usize = from;
    while i < b.len() && (b[i] == 32 || b[i] == 9 || b[i] == 10 || b[i] == 12 || b[i] == 13)
        invariant
            from <= i <= b@.len(),
            trim_start(b@.skip(from as int)) == trim_start(b@.skip(i as int)),
        decreases b@.len() - i,
    {
        proof {
            lemma_trim_start_skip(b@, i as int);
        }
        i = i + 1;
    }
    proof {
        if i < b.len() {
            assert(!is_ascii_ws(b@.skip(i as int)[0]));
        }
        assert(b@.skip(i as int) =~= b@.subrange(i as int, b@.len() as int));
    }
    copy_range(b, i, b.len())
}

/// The first position of the word `moves` in `b`.
fn find_moves(b: &[u8]) -> (r: Option<usize>)
    ensures
        r matches Some(j) ==> (find_from(b@, W_MOVES@, 0) == Some(j as int) && j + 5 <= b.len()),
        r is None ==> find_from(b@, W_MOVES@, 0) is None,
{
    let mut i: usize = 0;
    while i < b.len() && b.len() - i >= 5
        invariant
            i <= b@.len(),
            find_from(b@, W_MOVES@, 0) == find_from(b@, W_MOVES@, i as int),
        decreases b@.len() - i,
    {
        let part = copy_range(b, i, i + 5);
        if is_word(&part, &W_MOVES) {
            return Some(i);
        }
        i = i + 1;
    }
    None
}

// ---------------------------------------------------------------------------
// Messages of the GUI
// ---------------------------------------------------------------------------

/// Why a line of the GUI could not be read.
#[derive(Debug, Clone, Copy, PartialEq, Eq, Structural)]
pub enum ParseError {
    /// The line holds nothing but whitespace.
    EmptyText,
    /// The command is not one the engine knows.
    UnknownCommand,
    /// `debug` is not followed by `on` or `off`.
    DebugInvalid,
    /// The position is neither `startpos` nor `fen <fenstring>`.
    PositionInvalid,
    /// The arguments of `go` hold an unknown word or a bad number.
    UnknownGoSetting,
}

#[derive(Debug, Clone)]
pub enum Position {
    Startpos,
    Fen(String),
}

#[derive(Debug)]
pub enum GuiMessage {
    Uci,
    Debug(bool),
    Isready,
    Ucinewgame,
    Position { pos: Position, moves: Vec<String> },
    Go(Go),
    Stop,
    Ponderhit,
    Quit,
}

/// The position of a `position` command (`None` for the start position, else
/// the FEN text) and its moves; `None` when the kind of position is unknown or
/// missing.
pub open spec fn position_spec(rest: Seq<u8>) -> Option<(Option<Seq<u8>>, Seq<Seq<u8>>)> {
    match split_command(rest) {
        None => None,
        Some((kind, r)) => {
            let found = find_from(r, W_MOVES@, 0);
            let fen = match found {
                Some(j) => r.take(j),
                None => r,
            };
            let moves = match found {
                Some(j) => fen_fields(r.skip(j + 5)),
                None => Seq::empty(),
            };
            if kind == W_STARTPOS@ {
                Some((None, moves))
            } else if kind == W_FEN@ {
                Some((Some(trim_end(trim_start(fen))), moves))
            } else {
                None
            }
        },
    }
}

/// The strings are those of the words, as far as the words are ASCII.
pub open spec fn strings_of(v: Seq<String>, t: Seq<Seq<u8>>) -> bool {
    &&& v.len() == t.len()
    &&& forall|k: int| 0 <= k < t.len() && is_ascii_bytes(#[trigger] t[k]) ==> v[k]@ == ascii_chars(t[k])
}

/// The message is the position `p` with the moves `mv`.
pub open spec fn position_message(m: GuiMessage, p: Option<Seq<u8>>, mv: Seq<Seq<u8>>) -> bool {
    match m {
        GuiMessage::Position { pos, moves } => {
            &&& strings_of(moves@, mv)
            &&& match p {
                None => pos is Startpos,
                Some(f) => (pos matches Position::Fen(s) && (is_ascii_bytes(f) ==> s@ == ascii_chars(f))),
            }
        },
        _ => false,
    }
}

/// Whether reading the line reaches the unsupported `searchmoves` of `go`.
pub open spec fn reaches_searchmoves(b: Seq<u8>) -> bool {
    split_command(b) matches Some((cmd, rest)) && cmd == W_GO@ && go_scan(fen_fields(rest), 0, no_go_fields())
        is Unsupported
}

/// What reading the line gives: the command is the word before the first
/// whitespace, its arguments what follows.
pub open spec fn message_of(b: Seq<u8>, r: Result<GuiMessage, ParseError>) -> bool {
    match split_command(b) {
        None => r == Err::<GuiMessage, ParseError>(ParseError::EmptyText),
        Some((cmd, rest)) => if cmd == W_UCI@ {
            r matches Ok(GuiMessage::Uci)
        } else if cmd == W_ISREADY@ {
            r matches Ok(GuiMessage::Isready)
        } else if cmd == W_UCINEWGAME@ {
            r matches Ok(GuiMessage::Ucinewgame)
        } else if cmd == W_STOP@ {
            r matches Ok(GuiMessage::Stop)
        } else if cmd == W_PONDERHIT@ {
            r matches Ok(GuiMessage::Ponderhit)
        } else if cmd == W_QUIT@ {
            r matches Ok(GuiMessage::Quit)
        } else if cmd == W_GO@ {
            match go_scan(fen_fields(rest), 0, no_go_fields()) {
                GoScan::Done(g) => (r matches Ok(GuiMessage::Go(go)) && go.fields() == g),
                _ => r == Err::<GuiMessage, ParseError>(ParseError::UnknownGoSetting),
            }
        } else if cmd == W_DEBUG@ {
            let arg = trim_end(trim_start(rest));
            if arg == W_ON@ {
                r matches Ok(GuiMessage::Debug(true))
            } else if arg == W_OFF@ {
                r matches Ok(GuiMessage::Debug(false))
            } else {
                r == Err::<GuiMessage, ParseError>(ParseError::DebugInvalid)
            }
        } else if cmd == W_POSITION@ {
            match position_spec(rest) {
                None => r == Err::<GuiMessage, ParseError>(ParseError::PositionInvalid),
                Some((p, mv)) => (r matches Ok(m) && position_message(m, p, mv)),
            }
        } else {
            r == Err::<GuiMessage, ParseError>(ParseError::UnknownCommand)
        },
    }
}

/// Whether reading the words of a `go` command reaches `searchmoves` does not
/// depend on the values read so far.
proof fn lemma_go_scan_unsupported(t: Seq<Seq<u8>>, i: int, g1: GoFields, g2: GoFields)
    ensures
        (go_scan(t, i, g1) is Unsupported) == (go_scan(t, i, g2) is Unsupported),
    decreases t.len() - i,
{
    if 0 <= i < t.len() {
        if t[i] == W_PONDER@ {
            lemma_go_scan_unsupported(t, i + 1, GoFields { ponder: true, ..g1 }, GoFields { ponder: true, ..g2 });
        } else if t[i] == W_INFINITE@ {
            lemma_go_scan_unsupported(
                t,
                i + 1,
                GoFields { infinite: true, ..g1 },
                GoFields { infinite: true, ..g2 },
            );
        } else if is_value_key(t[i]) && i + 1 < t.len() {
            if let Some(v) = parse_u32_spec(t[i + 1]) {
                lemma_go_scan_unsupported(t, i + 2, with_value(g1, t[i], v), with_value(g2, t[i], v));
            }
        }
    }
}

/// Whether reading the words of a `go` command reaches the unsupported
/// `searchmoves`.
fn go_words_reach_searchmoves(toks: &Vec<Vec<u8>>) -> (r: bool)
    ensures
        r == (go_scan(views(toks@), 0, no_go_fields()) is Unsupported),
{
    let ghost t = views(toks@);
    let mut i: usize = 0;
    while i < toks.len()
        invariant
            t == views(toks@),
            i <= toks@.len(),
            (go_scan(t, i as int, no_go_fields()) is Unsupported) == (go_scan(t, 0, no_go_fields()) is Unsupported),
        decreases toks@.len() - i,
    {
        let p = &toks[i];
        proof {
            assert(t[i as int] == p@);
        }
        if is_word(p, &W_PONDER) {
            proof {
                lemma_go_scan_unsupported(t, i + 1, GoFields { ponder: true, ..no_go_fields() }, no_go_fields());
            }
            i = i + 1;
        } else if is_word(p, &W_INFINITE) {
            proof {
                lemma_go_scan_unsupported(t, i + 1, GoFields { infinite: true, ..no_go_fields() }, no_go_fields());
            }
            i = i + 1;
        } else if is_word(p, &W_WTIME) || is_word(p, &W_BTIME) || is_word(p, &W_WINC) || is_word(p, &W_BINC)
            || is_word(p, &W_MOVESTOGO) || is_word(p, &W_DEPTH) || is_word(p, &W_NODES) || is_word(p, &W_MATE)
            || is_word(p, &W_MOVETIME) {
            if i + 1 >= toks.len() {
                return false;
            }
            proof {
                assert(t[i + 1] == toks@[i + 1]@);
            }
            match parse_u32(&toks[i + 1]) {
                Some(v) => {
                    proof {
                        lemma_go_scan_unsupported(t, i + 2, with_value(no_go_fields(), t[i as int], v), no_go_fields());
                    }
                },
                None => {
                    return false;
                },
            }
            i = i + 2;
        } else if is_word(p, &W_SEARCHMOVES) {
            return true;
        } else {
            return false;
        }
    }
    false
}

/// Whether reading the line would reach the unsupported `searchmoves` of a
/// `go` command (which `GuiMessage::parse` must not be given).
pub fn line_reaches_searchmoves(text: &str) -> (r: bool)
    ensures
        r == reaches_searchmoves(text.spec_bytes()),
{
    let b = text.as_bytes();
    let lead = rest_after(b, 0);
    proof {
        assert(b@.skip(0) =~= b@);
    }
    if lead.len() == 0 {
        return false;
    }
    let (cmd, rest) = split_at_ws(b);
    if !is_word(&cmd, &W_GO) {
        return false;
    }
    let toks = split_fields(&rest);
    go_words_reach_searchmoves(&toks)
}

/// Strings of the words.
fn strings_from(t: &Vec<Vec<u8>>) -> (r: Vec<String>)
    ensures
        strings_of(r@, views(t@)),
{
    let mut v: Vec<String> = Vec::new();
    let mut i: usize = 0;
    while i < t.len()
        invariant
            i <= t@.len(),
            v@.len() == i,
            forall|k: int| 0 <= k < i && is_ascii_bytes(#[trigger] t@[k]@) ==> v@[k]@ == ascii_chars(t@[k]@),
        decreases t@.len() - i,
    {
        let s = string_from_bytes(&t[i]);
        v.push(s);
        i = i + 1;
    }
    v
}

/// The word up to the first whitespace (the whole text without any) and the
/// rest after it without its leading whitespace.
fn split_at_ws(b: &[u8]) -> (r: (Vec<u8>, Vec<u8>))
    ensures
        match split_once_ws(b@) {
            None => r.0@ == b@ && r.1@ == Seq::<u8>::empty(),
            Some((w, rest)) => r.0@ == w && r.1@ == rest,
        },
{
    match first_ws(b) {
        Some(i) => {
            let w = copy_range(b, 0, i);
            let rest = rest_after(b, i + 1);
            proof {
                assert(w@ =~= b@.take(i as int));
            }
            (w, rest)
        },
        None => {
            let w = copy_range(b, 0, b.len());
            proof {
                assert(w@ =~= b@);
            }
            (w, Vec::new())
        },
    }
}

/// Reads the arguments of a `position` command.
fn parse_position(text: &[u8]) -> (r: Result<(Position, Vec<String>), ParseError>)
    ensures
        match position_spec(text@) {
            None => r == Err::<(Position, Vec<String>), ParseError>(ParseError::PositionInvalid),
            Some((p, mv)) => (r matches Ok((pos, moves)) && position_message(
                GuiMessage::Position { pos, moves },
                p,
                mv,
            )),
        },
{
    let lead = rest_after(text, 0);
    proof {
        assert(text@.skip(0) =~= text@);
    }
    if lead.len() == 0 {
        return Err(ParseError::PositionInvalid);
    }
    let (kind, rest) = split_at_ws(text);
    let found = find_moves(&rest);
    let moves = match found {
        Some(j) => {
            let tail = copy_range(&rest, j + 5, rest.len());
            proof {
                assert(tail@ =~= rest@.skip(j + 5));
            }
            let toks = split_fields(&tail);
            strings_from(&toks)
        },
        None => Vec::new(),
    };
    if is_word(&kind, &W_STARTPOS) {
        Ok((Position::Startpos, moves))
    } else if is_word(&kind, &W_FEN) {
        let fen_part = match found {
            Some(j) => copy_range(&rest, 0, j),
            None => copy_range(&rest, 0, rest.len()),
        };
        proof {
            match found {
                Some(j) => assert(fen_part@ =~= rest@.take(j as int)),
                None => assert(fen_part@ =~= rest@),
            }
        }
        let fen = trimmed(&fen_part);
        Ok((Position::Fen(string_from_bytes(&fen)), moves))
    } else {
        Err(ParseError::PositionInvalid)
    }
}

impl GuiMessage {
    /// Reads a line sent by the GUI. The command is the word before the first
    /// whitespace (the whole line without any); a line of whitespace only is
    /// `EmptyText`, and unknown commands and bad arguments give their error. A
    /// `go` must not reach `searchmoves`, which is not supported.
    pub fn parse(text: &str) -> (r: Result<GuiMessage, ParseError>)
        requires
            !reaches_searchmoves(text.spec_bytes()),
        ensures
            message_of(text.spec_bytes(), r),
    {
        let b = text.as_bytes();
        let lead = rest_after(b, 0);
        proof {
            assert(b@.skip(0) =~= b@);
        }
        if lead.len() == 0 {
            return Err(ParseError::EmptyText);
        }
        let (cmd, rest) = split_at_ws(b);
        if is_word(&cmd, &W_UCI) {
            Ok(GuiMessage::Uci)
        } else if is_word(&cmd, &W_ISREADY) {
            Ok(GuiMessage::Isready)
        } else if is_word(&cmd, &W_UCINEWGAME) {
            Ok(GuiMessage::Ucinewgame)
        } else if is_word(&cmd, &W_STOP) {
            Ok(GuiMessage::Stop)
        } else if is_word(&cmd, &W_PONDERHIT) {
            Ok(GuiMessage::Ponderhit)
        } else if is_word(&cmd, &W_QUIT) {
            Ok(GuiMessage::Quit)
        } else if is_word(&cmd, &W_GO) {
            match go_from_bytes(&rest) {
                Ok(go) => Ok(GuiMessage::Go(go)),
                Err(e) => Err(e),
            }
        } else if is_word(&cmd, &W_DEBUG) {
            let arg = trimmed(&rest);
            if is_word(&arg, &W_ON) {
                Ok(GuiMessage::Debug(true))
            } else if is_word(&arg, &W_OFF) {
                Ok(GuiMessage::Debug(false))
            } else {
                Err(ParseError::DebugInvalid)
            }
        } else if is_word(&cmd, &W_POSITION) {
            match parse_position(&rest) {
                Ok((pos, moves)) => Ok(GuiMessage::Position { pos, moves }),
                Err(e) => Err(e),
            }
        } else {
            Err(ParseError::UnknownCommand)
        }
    }
}

// ---------------------------------------------------------------------------
// Messages of the engine
// ---------------------------------------------------------------------------

#[derive(Debug)]
pub enum Id {
    Name(String),
    Author(String),
}

#[derive(Debug)]
pub enum Score {
    Cp(i32),
    Mate(i32),
}

#[derive(Debug)]
pub struct Info {
    pub depth: Option<u32>,
    pub seldepth: Option<u32>,
    pub time: Option<u32>,
    pub nodes: Option<u32>,
    pub pv: Vec<String>,
    pub score: Option<Score>,
    pub currmove: Option<String>,
    pub currmovenumber: Option<String>,
    pub hashfull: Option<u32>,
    pub nps: Option<u32>,
    pub tbhits: Option<u32>,
    pub cpuload: Option<u32>,
    pub string: Option<String>,
    pub refutation: Vec<String>,
    pub currline: Vec<String>,
}

impl Default for Info {
    fn default() -> (r: Info)
        ensures
            r.depth is None && r.seldepth is None && r.time is None && r.nodes is None && r.pv@.len() == 0
                && r.score is None && r.currmove is None && r.currmovenumber is None && r.hashfull is None
                && r.nps is None && r.tbhits is None && r.cpuload is None && r.string is None,
    {
        Info {
            depth: None,
            seldepth: None,
            time: None,
            nodes: None,
            pv: Vec::new(),
            score: None,
            currmove: None,
            currmovenumber: None,
            hashfull: None,
            nps: None,
            tbhits: None,
            cpuload: None,
            string: None,
            refutation: Vec::new(),
            currline: Vec::new(),
        }
    }
}

#[derive(Debug)]
pub enum EngineMessage {
    Id(Id),
    Uciok,
    Readyok,
    Bestmove { move_: String, ponder: Option<String> },
    Info(Info),
}

/// The character of a decimal digit.
pub open spec fn decimal_digit(d: int) -> char {
    (48 + d) as char
}

/// The decimal digits of a natural number.
pub open spec fn dec_text(n: nat) -> Seq<char>
    decreases n,
{
    if n < 10 {
        seq![decimal_digit(n as int)]
    } else {
        dec_text(n / 10).push(decimal_digit((n % 10) as int))
    }
}

/// A number in decimal, with a minus sign when negative.
pub open spec fn int_text(n: int) -> Seq<char> {
    if n < 0 {
        seq!['-'] + dec_text((-n) as nat)
    } else {
        dec_text(n as nat)
    }
}

pub(crate) fn push_decimal(w: &mut String, n: u64)
    ensures
        final(w)@ == old(w)@ + dec_text(n as nat),
    decreases n,
{
    if n >= 10 {
        push_decimal(w, n / 10);
    }
    let d = (n % 10) as u8;
    push_char(w, (48 + d) as char);
    proof {
        if n >= 10 {
            assert(final(w)@ =~= old(w)@ + dec_text(n as nat));
        } else {
            assert(final(w)@ =~= old(w)@ + dec_text(n as nat));
        }
    }
}

fn push_int(w: &mut String, n: i32)
    ensures
        final(w)@ == old(w)@ + int_text(n as int),
{
    if n < 0 {
        push_char(w, '-');
        let m = (0 - (n as i64)) as u64;
        push_decimal(w, m);
        proof {
            assert(final(w)@ =~= old(w)@ + int_text(n as int));
        }
    } else {
        push_decimal(w, n as u64);
    }
}

/// A named number, if there is one: a space, the name, a space and the number.
pub open spec fn num_field(name: Seq<char>, v: Option<u32>) -> Seq<char> {
    match v {
        Some(x) => seq![' '] + name + seq![' '] + dec_text(x as nat),
        None => Seq::empty(),
    }
}

/// A named text, if there is one.
pub open spec fn str_field(name: Seq<char>, v: Option<String>) -> Seq<char> {
    match v {
        Some(x) => seq![' '] + name + seq![' '] + x@,
        None => Seq::empty(),
    }
}

/// A score in centipawns or in moves to mate.
pub open spec fn score_text(s: Score) -> Seq<char> {
    match s {
        Score::Cp(x) => "cp "@ + int_text(x as int),
        Score::Mate(x) => "mate "@ + int_text(x as int),
    }
}

/// The words, each after a space.
pub open spec fn words_text(v: Seq<String>) -> Seq<char>
    decreases v.len(),
{
    if v.len() == 0 {
        Seq::empty()
    } else {
        words_text(v.drop_last()) + seq![' '] + v.last()@
    }
}

/// An `info` line: the fields that are given, in a fixed order.
pub open spec fn info_text(i: Info) -> Seq<char> {
    "info"@ + num_field("depth"@, i.depth) + num_field("seldepth"@, i.seldepth) + num_field("time"@, i.time)
        + num_field("nodes"@, i.nodes) + match i.score {
        Some(s) => " score "@ + score_text(s),
        None => Seq::empty(),
    } + str_field("currmove"@, i.currmove) + str_field("currmovenumber"@, i.currmovenumber) + num_field(
        "hashfull"@,
        i.hashfull,
    ) + num_field("nps"@, i.nps) + num_field("tbhits"@, i.tbhits) + num_field("cpuload"@, i.cpuload) + (if i.pv@.len()
        > 0 {
        " pv"@ + words_text(i.pv@)
    } else {
        Seq::empty()
    }) + str_field("string"@, i.string)
}

/// No field but the numbers is given: no score, move, text or variation.
pub open spec fn info_others_absent(i: Info) -> bool {
    &&& i.score is None
    &&& i.currmove is None
    &&& i.currmovenumber is None
    &&& i.pv@.len() == 0
    &&& i.string is None
}

/// No number field is given.
pub open spec fn no_numbers(i: Info) -> bool {
    &&& i.depth is None
    &&& i.seldepth is None
    &&& i.time is None
    &&& i.nodes is None
    &&& i.hashfull is None
    &&& i.nps is None
    &&& i.tbhits is None
    &&& i.cpuload is None
}

/// Each number field of an `info` line carries the value of the field of that
/// name: with only that field given, the line is `info`, the field's name and
/// its value.
pub proof fn law_info_number_fields(i: Info)
    ensures
        info_others_absent(i) && no_numbers(Info { depth: None, ..i }) ==> (i.depth matches Some(n) ==> info_text(i)
            == "info"@ + seq![' '] + "depth"@ + seq![' '] + dec_text(n as nat)),
        info_others_absent(i) && no_numbers(Info { seldepth: None, ..i }) ==> (i.seldepth matches Some(n) ==> info_text(i)
            == "info"@ + seq![' '] + "seldepth"@ + seq![' '] + dec_text(n as nat)),
        info_others_absent(i) && no_numbers(Info { time: None, ..i }) ==> (i.time matches Some(n) ==> info_text(i)
            == "info"@ + seq![' '] + "time"@ + seq![' '] + dec_text(n as nat)),
        info_others_absent(i) && no_numbers(Info { nodes: None, ..i }) ==> (i.nodes matches Some(n) ==> info_text(i)
            == "info"@ + seq![' '] + "nodes"@ + seq![' '] + dec_text(n as nat)),
        info_others_absent(i) && no_numbers(Info { hashfull: None, ..i }) ==> (i.hashfull matches Some(n) ==> info_text(i)
            == "info"@ + seq![' '] + "hashfull"@ + seq![' '] + dec_text(n as nat)),
        info_others_absent(i) && no_numbers(Info { nps: None, ..i }) ==> (i.nps matches Some(n) ==> info_text(i)
            == "info"@ + seq![' '] + "nps"@ + seq![' '] + dec_text(n as nat)),
        info_others_absent(i) && no_numbers(Info { tbhits: None, ..i }) ==> (i.tbhits matches Some(n) ==> info_text(i)
            == "info"@ + seq![' '] + "tbhits"@ + seq![' '] + dec_text(n as nat)),
        info_others_absent(i) && no_numbers(Info { cpuload: None, ..i }) ==> (i.cpuload matches Some(n) ==> info_text(i)
            == "info"@ + seq![' '] + "cpuload"@ + seq![' '] + dec_text(n as nat)),
{
    if info_others_absent(i) && no_numbers(Info { depth: None, ..i }) {
        if let Some(n) = i.depth {
            assert(info_text(i) =~= "info"@ + seq![' '] + "depth"@ + seq![' '] + dec_text(n as nat));
        }
    }
    if info_others_absent(i) && no_numbers(Info { seldepth: None, ..i }) {
        if let Some(n) = i.seldepth {
            assert(info_text(i) =~= "info"@ + seq![' '] + "seldepth"@ + seq![' '] + dec_text(n as nat));
        }
    }
    if info_others_absent(i) && no_numbers(Info { time: None, ..i }) {
        if let Some(n) = i.time {
            assert(info_text(i) =~= "info"@ + seq![' '] + "time"@ + seq![' '] + dec_text(n as nat));
        }
    }
    if info_others_absent(i) && no_numbers(Info { nodes: None, ..i }) {
        if let Some(n) = i.nodes {
            assert(info_text(i) =~= "info"@ + seq![' '] + "nodes"@ + seq![' '] + dec_text(n as nat));
        }
    }
    if info_others_absent(i) && no_numbers(Info { hashfull: None, ..i }) {
        if let Some(n) = i.hashfull {
            assert(info_text(i) =~= "info"@ + seq![' '] + "hashfull"@ + seq![' '] + dec_text(n as nat));
        }
    }
    if info_others_absent(i) && no_numbers(Info { nps: None, ..i }) {
        if let Some(n) = i.nps {
            assert(info_text(i) =~= "info"@ + seq![' '] + "nps"@ + seq![' '] + dec_text(n as nat));
        }
    }
    if info_others_absent(i) && no_numbers(Info { tbhits: None, ..i }) {
        if let Some(n) = i.tbhits {
            assert(info_text(i) =~= "info"@ + seq![' '] + "tbhits"@ + seq![' '] + dec_text(n as nat));
        }
    }
    if info_others_absent(i) && no_numbers(Info { cpuload: None, ..i }) {
        if let Some(n) = i.cpuload {
            assert(info_text(i) =~= "info"@ + seq![' '] + "cpuload"@ + seq![' '] + dec_text(n as nat));
        }
    }
}

/// A message of the engine as the line it sends.
pub open spec fn message_text(m: EngineMessage) -> Seq<char> {
    match m {
        EngineMessage::Id(Id::Name(n)) => "id name "@ + n@,
        EngineMessage::Id(Id::Author(a)) => "id author "@ + a@,
        EngineMessage::Uciok => "uciok"@,
        EngineMessage::Readyok => "readyok"@,
        EngineMessage::Info(i) => info_text(i),
        EngineMessage::Bestmove { move_, ponder } => "bestmove "@ + move_@ + match ponder {
            Some(p) => " ponder "@ + p@,
            None => Seq::empty(),
        },
    }
}

fn push_num_field(w: &mut String, name: &str, v: Option<u32>)
    ensures
        final(w)@ == old(w)@ + num_field(name@, v),
{
    if let Some(x) = v {
        push_char(w, ' ');
        w.append(name);
        push_char(w, ' ');
        push_decimal(w, x as u64);
    }
    proof {
        assert(final(w)@ =~= old(w)@ + num_field(name@, v));
    }
}

fn push_str_field(w: &mut String, name: &str, v: &Option<String>)
    ensures
        final(w)@ == old(w)@ + str_field(name@, *v),
{
    if let Some(x) = v {
        push_char(w, ' ');
        w.append(name);
        push_char(w, ' ');
        w.append(x.as_str());
    }
    proof {
        assert(final(w)@ =~= old(w)@ + str_field(name@, *v));
    }
}

fn push_words(w: &mut String, v: &Vec<String>)
    ensures
        final(w)@ == old(w)@ + words_text(v@),
{
    let mut i: usize = 0;
    proof {
        assert(v@.take(0) =~= Seq::<String>::empty());
        assert(w@ =~= old(w)@ + words_text(v@.take(0)));
    }
    while i < v.len()
        invariant
            i <= v@.len(),
            w@ == old(w)@ + words_text(v@.take(i as int)),
        decreases v@.len() - i,
    {
        push_char(w, ' ');
        w.append(v[i].as_str());
        proof {
            assert(v@.take(i + 1).drop_last() =~= v@.take(i as int));
            assert(w@ =~= old(w)@ + words_text(v@.take(i + 1)));
        }
        i = i + 1;
    }
    proof {
        assert(v@.take(v@.len() as int) =~= v@);
    }
}

impl Info {
    /// The `info` line.
    pub fn text(&self) -> (r: String)
        ensures
            r@ == info_text(*self),
    {
        let mut w = String::new();
        w.append("info");
        push_num_field(&mut w, "depth", self.depth);
        push_num_field(&mut w, "seldepth", self.seldepth);
        push_num_field(&mut w, "time", self.time);
        push_num_field(&mut w, "nodes", self.nodes);
        let ghost w1 = w@;
        if let Some(s) = &self.score {
            w.append(" score ");
            match s {
                Score::Cp(x) => {
                    w.append("cp ");
                    push_int(&mut w, *x);
                },
                Score::Mate(x) => {
                    w.append("mate ");
                    push_int(&mut w, *x);
                },
            }
        }
        proof {
            assert(w@ =~= w1 + match self.score {
                Some(s) => " score "@ + score_text(s),
                None => Seq::<char>::empty(),
            });
        }
        push_str_field(&mut w, "currmove", &self.currmove);
        push_str_field(&mut w, "currmovenumber", &self.currmovenumber);
        push_num_field(&mut w, "hashfull", self.hashfull);
        push_num_field(&mut w, "nps", self.nps);
        push_num_field(&mut w, "tbhits", self.tbhits);
        push_num_field(&mut w, "cpuload", self.cpuload);
        let ghost w2 = w@;
        if self.pv.len() > 0 {
            w.append(" pv");
            push_words(&mut w, &self.pv);
        }
        proof {
            assert(w@ =~= w2 + (if self.pv@.len() > 0 {
                " pv"@ + words_text(self.pv@)
            } else {
                Seq::<char>::empty()
            }));
        }
        push_str_field(&mut w, "string", &self.string);
        proof {
            assert(w@ =~= info_text(*self));
        }
        w
    }
}

impl EngineMessage {
    /// The line the engine sends for the message.
    pub fn text(&self) -> (r: String)
        ensures
            r@ == message_text(*self),
    {
        let mut w = String::new();
        match self {
            EngineMessage::Id(Id::Name(n)) => {
                w.append("id name ");
                w.append(n.as_str());
            },
            EngineMessage::Id(Id::Author(a)) => {
                w.append("id author ");
                w.append(a.as_str());
            },
            EngineMessage::Uciok => {
                w.append("uciok");
            },
            EngineMessage::Readyok => {
                w.append("readyok");
            },
            EngineMessage::Info(i) => {
                w = i.text();
            },
            EngineMessage::Bestmove { move_, ponder } => {
                w.append("bestmove ");
                w.append(move_.as_str());
                if let Some(p) = ponder {
                    w.append(" ponder ");
                    w.append(p.as_str());
                }
            },
        }
        proof {
            assert(w@ =~= message_text(*self));
        }
        w
    }
}

} // verus!
