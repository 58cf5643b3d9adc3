//! The transposition table: a table of fixed size, indexed by the high bits of a
//! position key, that remembers for a position the best move found, its score,
//! the depth it was searched to and the kind of bound the score is.
//!
//! Each entry holds two words: the packed data and the data xor-ed with the
//! position key. An entry answers for a key only when the two words decode back
//! to that key.

use crate::chess_move::ChessMove;
use vstd::prelude::*;

verus! {

/// The kind of score stored with an entry.
#[derive(Debug, PartialEq, Eq, Structural, Clone, Copy)]
pub enum HEKind {
    /// The score is exact.
    Exact,
    /// The score is an upper bound: no move raised alpha.
    Alpha,
    /// The score is a lower bound: a move caused a beta cutoff.
    Beta,
}

impl Default for HEKind {
    fn default() -> (r: HEKind)
        ensures
            r == HEKind::Exact,
    {
        HEKind::Exact
    }
}

/// The answer of the table for a position.
#[derive(Debug, PartialEq, Eq, Structural, Clone, Copy)]
pub enum Probe {
    /// The table holds nothing for the position.
    NoHit,
    /// The table holds a move for the position, but its score cannot cut off
    /// the search here.
    PV(ChessMove, i16),
    /// The stored score is exact or lies outside the window: the search can
    /// return it.
    CutOff(ChessMove, i16),
}

/// The kind of score stored with an entry, under its other name.
pub type EntryType = HEKind;

/// The data stored for a position.
#[derive(Debug, PartialEq, Eq, Structural, Clone, Copy)]
pub struct Data {
    pub score: i16,
    pub m16: ChessMove,
    pub depth: u16,
    pub kind: HEKind,
    pub age: u8,
}

/// One slot of the table: the key word (key xor data) and the data word.
#[derive(Debug, PartialEq, Eq, Structural, Clone, Copy)]
pub struct Entry {
    key: u64,
    data: u64,
}

/// The size of an entry in bytes.
pub const ENTRY_BYTES: usize = 16;

pub open spec fn kind_code(k: HEKind) -> u8 {
    match k {
        HEKind::Exact => 0,
        HEKind::Alpha => 1,
        HEKind::Beta => 2,
    }
}

pub open spec fn kind_from_code(c: u8) -> HEKind {
    if c == 0 {
        HEKind::Exact
    } else if c == 1 {
        HEKind::Alpha
    } else {
        HEKind::Beta
    }
}

/// The data packed into one word: the score in bits 0 to 15, the move in bits
/// 16 to 31, the depth in bits 32 to 47, the kind in bits 48 to 55 and the age in
/// bits 56 to 63.
pub open spec fn pack(score: i16, m: u16, depth: u16, kind: u8, age: u8) -> u64 {
    (score as u16 as u64) | ((m as u64) << 16u64) | ((depth as u64) << 32u64) | ((kind as u64) << 48u64) | ((
    age as u64) << 56u64)
}

pub open spec fn encode(d: Data) -> u64 {
    pack(d.score, d.m16@, d.depth, kind_code(d.kind), d.age)
}

pub open spec fn decode(x: u64) -> Data {
    Data {
        score: (x & 0xFFFF) as u16 as i16,
        m16: ChessMove::with_bits((x >> 16u64) as u16),
        depth: ((x >> 32u64) & 0xFFFF) as u16,
        kind: kind_from_code(((x >> 48u64) & 0xFF) as u8),
        age: (x >> 56u64) as u8,
    }
}

proof fn lemma_pack_bv(score: i16, m: u16, depth: u16, kind: u8, age: u8, x: u64)
    by (bit_vector)
    requires
        x == pack(score, m, depth, kind, age),
    ensures
        (x & 0xFFFF) as u16 as i16 == score,
        (x >> 16u64) as u16 == m,
        ((x >> 32u64) & 0xFFFF) as u16 == depth,
        ((x >> 48u64) & 0xFF) as u8 == kind,
        (x >> 56u64) as u8 == age,
{
}

/// Decoding gives back the data that was encoded.
pub proof fn lemma_decode_encode(d: Data)
    ensures
        decode(encode(d)) == d,
{
    lemma_pack_bv(d.score, d.m16@, d.depth, kind_code(d.kind), d.age, encode(d));
    ChessMove::lemma_with_bits(d.m16, d.m16@);
}

proof fn lemma_zero_word()
    by (bit_vector)
    ensures
        (0u64 & 0xFFFF) as u16 as i16 == 0,
{
}

proof fn lemma_xor_bv(k: u64, d: u64)
    by (bit_vector)
    ensures
        (d ^ k) ^ d == k,
        ((d ^ k) ^ d == 0) == (k == 0),
{
}

proof fn lemma_table_bits_bv(k: u64, key: u64)
    by (bit_vector)
    requires
        k <= 44,
    ensures
        k < 44 ==> (1u64 << k) * 2 == 1u64 << ((k + 1) as u64),
        k < 44 ==> (1u64 << k) < 0x1000_0000_0000,
        (1u64 << k) * 65536 == 1u64 << ((k + 16) as u64),
        (1u64 << k) <= 0x1000_0000_0000,
        (1u64 << k) >= 1,
        (1u64 << 44u64) == 0x1000_0000_0000,
        (1u64 << 0u64) == 1,
        key >> ((48 - k) as u64) < 1u64 << ((k + 16) as u64),
{
}

pub struct TranspositionTable {
    data: Vec<Entry>,
    capacity: usize,
    shift: u32,
    current_age: u8,
}

impl TranspositionTable {
    /// The table is well formed: it has `2^(64 - shift)` entries, so that the high
    /// bits of any key index an entry.
    pub closed spec fn wf(&self) -> bool {
        &&& 4 <= self.shift <= 48
        &&& self.data@.len() == self.capacity
        &&& self.capacity == (1u64 << (64 - self.shift) as u64)
    }

    /// The key word and the data word of each entry.
    pub closed spec fn entries(&self) -> Seq<(u64, u64)> {
        self.data@.map_values(|e: Entry| (e.key, e.data))
    }

    /// The number of entries.
    pub closed spec fn size(&self) -> nat {
        self.capacity as nat
    }

    /// The age that new entries are stored with.
    pub closed spec fn age(&self) -> u8 {
        self.current_age
    }

    /// The entry that a key belongs to: the high bits of the key.
    pub closed spec fn slot(&self, key: u64) -> int {
        (key >> self.shift as u64) as int
    }

    /// The data the table holds for a key: that of the key's entry, if its key
    /// word decodes back to the key.
    pub open spec fn lookup(&self, key: u64) -> Option<Data> {
        let e = self.entries()[self.slot(key)];
        if e.0 ^ e.1 == key {
            Some(decode(e.1))
        } else {
            None
        }
    }

    /// Every entry holds a score between `-bound` and `bound`.
    pub open spec fn scores_within(&self, bound: i16) -> bool {
        forall|i: int|
            0 <= i < self.entries().len() ==> -bound <= #[trigger] decode(self.entries()[i].1).score <= bound
    }

    /// The data held for a key has a score within the bound of all entries.
    pub proof fn lemma_lookup_within(&self, key: u64, bound: i16)
        requires
            self.wf(),
            self.scores_within(bound),
        ensures
            self.lookup(key) matches Some(d) ==> -bound <= d.score <= bound,
    {
        self.lemma_slot(key);
    }

    /// Every key belongs to an entry of a well formed table.
    pub proof fn lemma_slot(&self, key: u64)
        requires
            self.wf(),
        ensures
            0 <= self.slot(key) < self.entries().len(),
            self.entries().len() == self.size(),
    {
        let k = (48 - self.shift) as u64;
        lemma_table_bits_bv(k, key);
        assert((64 - self.shift) as u64 == k + 16);
        assert(self.shift as u64 == 48 - k);
    }

    /// Creates a table of `size_mb` megabytes, rounded up to a power of two, with
    /// every entry empty.
    pub fn new(size_mb: usize) -> (r: TranspositionTable)
        requires
            1 <= size_mb <= usize::MAX / 2097152,
        ensures
            r.wf(),
            r.age() == 0,
            r.size() * ENTRY_BYTES >= size_mb * 1048576,
            r.size() * ENTRY_BYTES < 2 * size_mb * 1048576,
            exists|k: nat| #[trigger] vstd::arithmetic::power2::pow2(k) * 1048576 == r.size() * ENTRY_BYTES,
            forall|i: int| 0 <= i < r.size() ==> #[trigger] r.entries()[i] == (0u64, 0u64),
            forall|b: i16| b >= 0 ==> r.scores_within(b),
    {
        // the number of megabytes, rounded up to a power of two
        let mut p: u64 = 1;
        let mut k: u64 = 0;
        let ghost mut kn: nat = 0;
        proof {
            lemma_table_bits_bv(0, 0);
            vstd::arithmetic::power2::lemma2_to64();
        }
        while p < size_mb as u64
            invariant
                k <= 44,
                p == 1u64 << k,
                p == vstd::arithmetic::power2::pow2(kn),
                kn == k,
                1 <= p,
                p == 1 || p < 2 * size_mb,
                size_mb <= usize::MAX / 2097152,
            decreases 44 - k,
        {
            proof {
                lemma_table_bits_bv(k, 0);
                vstd::arithmetic::power2::lemma_pow2_unfold(kn + 1);
            }
            p = p * 2;
            k = k + 1;
            proof {
                kn = kn + 1;
            }
        }
        proof {
            lemma_table_bits_bv(k, 0);
        }
        let capacity = (p * 65536) as usize;
        let shift = (48 - k) as u32;
        let mut data: Vec<Entry> = Vec::with_capacity(capacity);
        let mut i: usize = 0;
        while i < capacity
            invariant
                i <= capacity,
                data@.len() == i,
                forall|j: int| 0 <= j < i ==> #[trigger] data@[j] == (Entry { key: 0, data: 0 }),
            decreases capacity - i,
        {
            data.push(Entry { key: 0, data: 0 });
            i = i + 1;
        }
        let r = TranspositionTable { data, capacity, shift, current_age: 0 };
        proof {
            assert((64 - shift) as u64 == k + 16);
            assert(vstd::arithmetic::power2::pow2(kn) * 1048576 == r.size() * ENTRY_BYTES);
            lemma_zero_word();
            assert(decode(0).score == 0);
        }
        r
    }

    /// The number of entries.
    pub fn len(&self) -> (r: usize)
        ensures
            r == self.size(),
    {
        self.capacity
    }

    /// Empties every entry.
    pub fn reset(&mut self)
        requires
            old(self).wf(),
        ensures
            final(self).wf(),
            final(self).size() == old(self).size(),
            final(self).age() == old(self).age(),
            forall|i: int| 0 <= i < final(self).size() ==> #[trigger] final(self).entries()[i] == (0u64, 0u64),
            forall|key: u64| final(self).slot(key) == old(self).slot(key),
            forall|b: i16| b >= 0 ==> final(self).scores_within(b),
    {
        proof {
            lemma_zero_word();
        }
        let n = self.data.len();
        let mut i: usize = 0;
        while i < n
            invariant
                i <= n,
                n == self.capacity,
                self.wf(),
                self.capacity == old(self).capacity,
                self.shift == old(self).shift,
                self.current_age == old(self).current_age,
                forall|j: int| 0 <= j < i ==> #[trigger] self.data@[j] == (Entry { key: 0, data: 0 }),
            decreases n - i,
        {
            self.data.set(i, Entry { key: 0, data: 0 });
            i = i + 1;
        }
    }

    fn index(&self, key: u64) -> (r: usize)
        requires
            self.wf(),
        ensures
            r == self.slot(key),
            r < self.size(),
    {
        proof {
            self.lemma_slot(key);
        }
        (key >> self.shift) as usize
    }

    /// Stores data for a position key, unless its entry holds data of the current
    /// age from a greater depth under another key: the entry is replaced when its
    /// key word is zero, its age is older than the table's, or its depth is at
    /// most `depth`. The data is stored with the table's age.
    pub fn store(&mut self, position_key: u64, score: i16, m: ChessMove, depth: u16, kind: HEKind)
        requires
            old(self).wf(),
        ensures
            final(self).wf(),
            final(self).size() == old(self).size(),
            final(self).age() == old(self).age(),
            forall|key: u64| final(self).slot(key) == old(self).slot(key),
            forall|b: i16| old(self).scores_within(b) && -b <= score <= b ==> final(self).scores_within(b),
            ({
                let s = old(self).slot(position_key);
                let e = old(self).entries()[s];
                let old_data = decode(e.1);
                let replace = e.0 == 0 || old_data.age < old(self).age() || old_data.depth <= depth;
                let d = Data { score, m16: m, depth, kind, age: old(self).age() };
                if replace {
                    final(self).entries() == old(self).entries().update(s, (encode(d) ^ position_key, encode(d)))
                } else {
                    final(self).entries() == old(self).entries()
                }
            }),
    {
        let current_table_age = self.current_age;
        let index = self.index(position_key);
        let entry = self.data[index];
        let entry_data = decode_data(entry.data);
        let replace = entry.key == 0 || entry_data.age < current_table_age || entry_data.depth <= depth;
        if !replace {
            proof {
                assert(self.entries() =~= old(self).entries());
            }
            return;
        }
        let new_data = Data { score, m16: m, depth, kind, age: current_table_age };
        let word = encode_data(new_data);
        proof {
            lemma_decode_encode(new_data);
        }
        self.data.set(index, Entry { key: word ^ position_key, data: word });
        proof {
            assert(self.entries() =~= old(self).entries().update(
                index as int,
                (encode(new_data) ^ position_key, encode(new_data)),
            ));
        }
    }

    /// The data stored for a key, if its entry answers for it.
    pub fn load(&self, key: u64) -> (r: Option<Data>)
        requires
            self.wf(),
        ensures
            r == self.lookup(key),
    {
        let index = self.index(key);
        let entry = self.data[index];
        proof {
            assert(self.entries()[index as int] == (entry.key, entry.data));
        }
        if entry.key ^ entry.data == key {
            Some(decode_data(entry.data))
        } else {
            None
        }
    }

    /// The move stored for a key, if its entry answers for it.
    pub fn get(&self, key: u64) -> (r: Option<ChessMove>)
        requires
            self.wf(),
        ensures
            r == (match self.lookup(key) {
                Some(d) => Some(d.m16),
                None => None,
            }),
    {
        match self.load(key) {
            Some(d) => Some(d.m16),
            None => None,
        }
    }

    /// The move stored for a key, if its entry answers for it (as `get`).
    pub fn load_move(&self, key: u64) -> (r: Option<ChessMove>)
        requires
            self.wf(),
        ensures
            r == (match self.lookup(key) {
                Some(d) => Some(d.m16),
                None => None,
            }),
    {
        self.get(key)
    }

    /// Asks the table about the position with key `position_key`, searched in the
    /// window from `alpha` to `beta` to the given depth.
    pub fn probe(&self, position_key: u64, alpha: i16, beta: i16, depth: u16) -> (r: Probe)
        requires
            self.wf(),
        ensures
            r == probe_answer(self.lookup(position_key), alpha, beta, depth),
    {
        let data = match self.load(position_key) {
            Some(d) => d,
            None => {
                return Probe::NoHit;
            },
        };
        let m = data.m16;
        let score = data.score;
        if data.depth < depth {
            return Probe::PV(m, score);
        }
        match data.kind {
            HEKind::Alpha => if score <= alpha {
                Probe::CutOff(m, alpha)
            } else {
                Probe::PV(m, score)
            },
            HEKind::Beta => if score >= beta {
                Probe::CutOff(m, beta)
            } else {
                Probe::PV(m, score)
            },
            HEKind::Exact => Probe::CutOff(m, score),
        }
    }

    /// Moves the table on to the next age (wrapping after 255).
    pub fn next_age(&mut self)
        requires
            old(self).wf(),
        ensures
            final(self).wf(),
            final(self).entries() == old(self).entries(),
            final(self).size() == old(self).size(),
            forall|key: u64| final(self).slot(key) == old(self).slot(key),
            forall|b: i16| old(self).scores_within(b) ==> final(self).scores_within(b),
            final(self).age() == old(self).age().wrapping_add(1),
    {
        self.current_age = self.current_age.wrapping_add(1);
    }
}

/// The answer to a probe, given what the table holds for the position.
pub open spec fn probe_answer(held: Option<Data>, alpha: i16, beta: i16, depth: u16) -> Probe {
    match held {
        None => Probe::NoHit,
        Some(d) => if d.depth < depth {
            Probe::PV(d.m16, d.score)
        } else {
            match d.kind {
                HEKind::Alpha => if d.score <= alpha {
                    Probe::CutOff(d.m16, alpha)
                } else {
                    Probe::PV(d.m16, d.score)
                },
                HEKind::Beta => if d.score >= beta {
                    Probe::CutOff(d.m16, beta)
                } else {
                    Probe::PV(d.m16, d.score)
                },
                HEKind::Exact => Probe::CutOff(d.m16, d.score),
            }
        },
    }
}

fn encode_data(d: Data) -> (r: u64)
    ensures
        r == encode(d),
{
    let kind: u8 = match d.kind {
        HEKind::Exact => 0,
        HEKind::Alpha => 1,
        HEKind::Beta => 2,
    };
    (d.score as u16 as u64) | ((d.m16.to_bits() as u64) << 16u64) | ((d.depth as u64) << 32u64) | ((kind as u64)
        << 48u64) | ((d.age as u64) << 56u64)
}

fn decode_data(x: u64) -> (r: Data)
    ensures
        r == decode(x),
{
    let code = ((x >> 48u64) & 0xFF) as u8;
    let kind = if code == 0 {
        HEKind::Exact
    } else if code == 1 {
        HEKind::Alpha
    } else {
        HEKind::Beta
    };
    Data {
        score: (x & 0xFFFF) as u16 as i16,
        m16: ChessMove::from_bits((x >> 16u64) as u16),
        depth: ((x >> 32u64) & 0xFFFF) as u16,
        kind,
        age: (x >> 56u64) as u8,
    }
}

/// What a store writes, a lookup of the same key reads back: after data is
/// stored for a key (the entry was replaced), the table holds exactly that data
/// for the key.
pub proof fn lemma_load_after_store(
    before: TranspositionTable,
    after: TranspositionTable,
    key: u64,
    d: Data,
)
    requires
        before.wf(),
        after.wf(),
        forall|k: u64| after.slot(k) == before.slot(k),
        after.entries() == before.entries().update(before.slot(key), (encode(d) ^ key, encode(d))),
    ensures
        after.lookup(key) == Some(d),
{
    before.lemma_slot(key);
    lemma_xor_bv(key, encode(d));
    lemma_decode_encode(d);
}

/// A store leaves the data held for every key of another entry as it was.
pub proof fn lemma_store_keeps_other_slots(
    before: TranspositionTable,
    after: TranspositionTable,
    key: u64,
    other: u64,
    d: Data,
)
    requires
        before.wf(),
        after.wf(),
        forall|k: u64| after.slot(k) == before.slot(k),
        after.entries() == before.entries().update(before.slot(key), (encode(d) ^ key, encode(d))),
        before.slot(other) != before.slot(key),
    ensures
        after.lookup(other) == before.lookup(other),
{
    before.lemma_slot(key);
    before.lemma_slot(other);
}

} // verus!
