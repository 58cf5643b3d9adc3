//! A plain table of moves indexed by the low 24 bits of a position key; each
//! entry keeps the next 40 bits of the key to recognise its position.

use crate::moves::Move16;
use vstd::prelude::*;

verus! {

#[derive(Debug, Clone, PartialEq, Eq)]
pub struct TpEntry {
    m: Move16,
    key: [u8; 5],
}

#[derive(Debug, Clone, PartialEq, Eq)]
pub struct TpTable {
    pub vec: Vec<TpEntry>,
}

/// The number of entries: one per value of the low 24 bits of a key.
pub const TP_LEN: usize = 0x100_0000;

/// The entry a key belongs to: its low 24 bits.
pub open spec fn tp_index(key: u64) -> int {
    (key & 0xFF_FFFF) as int
}

/// The five bytes of the key above its low 24 bits, lowest first.
pub open spec fn tp_tag(key: u64) -> Seq<u8> {
    seq![
        (key >> 24u64) as u8,
        (key >> 32u64) as u8,
        (key >> 40u64) as u8,
        (key >> 48u64) as u8,
        (key >> 56u64) as u8,
    ]
}

fn tag_bytes(key: u64) -> (r: [u8; 5])
    ensures
        r@ == tp_tag(key),
{
    let r = [(key >> 24u64) as u8, (key >> 32u64) as u8, (key >> 40u64) as u8, (key >> 48u64) as u8, (key >> 56u64) as u8];
    proof {
        assert(r@ =~= tp_tag(key));
    }
    r
}

proof fn lemma_index_bv(key: u64)
    by (bit_vector)
    ensures
        key & 0xFF_FFFF < 0x100_0000,
{
}

impl TpTable {
    /// The table holds one entry per index.
    pub open spec fn wf(&self) -> bool {
        self.vec@.len() == TP_LEN
    }

    /// The move the table holds for a key: that of its entry, where the entry's
    /// tag is that of the key.
    pub closed spec fn lookup(&self, key: u64) -> Option<Move16> {
        let e = self.vec@[tp_index(key)];
        if e.key@ == tp_tag(key) {
            Some(e.m)
        } else {
            None
        }
    }

    /// A table of 2^24 entries, each with the no-move and a zero tag.
    pub fn new() -> (r: TpTable)
        ensures
            r.wf(),
    {
        let mut vec: Vec<TpEntry> = Vec::with_capacity(TP_LEN);
        let mut i: usize = 0;
        while i < TP_LEN
            invariant
                i <= TP_LEN,
                vec@.len() == i,
            decreases TP_LEN - i,
        {
            assert(0u16 & 0xF000u16 == 0) by (bit_vector);
            vec.push(TpEntry { m: Move16::build().finish(), key: [0u8; 5] });
            i = i + 1;
        }
        TpTable { vec }
    }

    /// Stores the move for the key, replacing whatever its entry held.
    pub fn insert(&mut self, key: u64, m: Move16)
        requires
            old(self).wf(),
        ensures
            final(self).wf(),
            final(self).lookup(key) == Some(m),
            forall|other: u64| tp_index(other) != tp_index(key) ==> #[trigger] final(self).lookup(other) == old(self).lookup(other),
    {
        proof {
            lemma_index_bv(key);
        }
        let idx = (key & 0xFF_FFFF) as usize;
        let tag = tag_bytes(key);
        self.vec.set(idx, TpEntry { m, key: tag });
        proof {
            assert forall|other: u64| tp_index(other) != tp_index(key) implies #[trigger] self.lookup(other) == old(self).lookup(other) by {
                lemma_index_bv(other);
            }
        }
    }

    /// The move the table holds for the key, if its entry has the key's tag.
    pub fn get(&self, key: u64) -> (r: Option<Move16>)
        requires
            self.wf(),
        ensures
            r == self.lookup(key),
    {
        proof {
            lemma_index_bv(key);
        }
        let idx = (key & 0xFF_FFFF) as usize;
        let tag = tag_bytes(key);
        let entry = &self.vec[idx];
        let mut same = true;
        let mut i: usize = 0;
        while i < 5
            invariant
                i <= 5,
                same == (forall|j: int| 0 <= j < i ==> entry.key@[j] == tag@[j]),
            decreases 5 - i,
        {
            if entry.key[i] != tag[i] {
                same = false;
            }
            i = i + 1;
        }
        proof {
            if same {
                assert(entry.key@ =~= tag@);
            }
        }
        if same {
            Some(entry.m)
        } else {
            None
        }
    }
}

impl Default for TpTable {
    fn default() -> (r: TpTable)
        ensures
            r.wf(),
    {
        TpTable::new()
    }
}

} // verus!
