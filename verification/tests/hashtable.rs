use mattis::chess_move::ChessMove;
use mattis::hashtable::{Data, Entry, HEKind, Probe, TranspositionTable, ENTRY_BYTES};
use mattis::types::Square64;

#[test]
fn hashtable_size_of_entry() {
    assert_eq!(std::mem::size_of::<Data>(), 8);
    assert_eq!(std::mem::size_of::<Entry>(), 16);
    assert_eq!(ENTRY_BYTES, 16);
}

#[test]
fn hashtable_size_of_new_table() {
    for size_mb in [2, 8, 32, 128, 512] {
        let table = TranspositionTable::new(size_mb);
        let byte_size = size_mb * 1024 * 1024;
        assert_eq!(table.len() * std::mem::size_of::<Entry>(), byte_size);
        assert_eq!(table.len() * ENTRY_BYTES, byte_size);
    }
}

#[test]
fn size_is_rounded_up_to_a_power_of_two() {
    let table = TranspositionTable::new(3);
    assert_eq!(table.len() * ENTRY_BYTES, 4 * 1024 * 1024);
}

fn some_move() -> ChessMove {
    ChessMove::build().start(Square64::E2).end(Square64::E4).double_pawn_push().finish()
}

#[test]
fn hashtable_store_any_key() {
    for size_mb in [2, 4] {
        let mut table = TranspositionTable::new(size_mb);
        let mut key: u64 = 0x9E37_79B9_7F4A_7C15;
        for _ in 0..table.len() {
            key = key.wrapping_mul(6364136223846793005).wrapping_add(1442695040888963407);
            table.store(key, Default::default(), Default::default(), Default::default(), Default::default());
        }
    }
}

#[test]
fn store_then_get() {
    let mut table = TranspositionTable::new(2);
    let key: u64 = 0x1234_5678_9abc_def0;
    assert_eq!(table.get(key), None);
    table.store(key, -42, some_move(), 5, HEKind::Alpha);
    assert_eq!(table.get(key), Some(some_move()));
    let d = table.load(key).unwrap();
    assert_eq!(d.score, -42);
    assert_eq!(d.depth, 5);
    assert_eq!(d.kind, HEKind::Alpha);
    assert_eq!(d.age, 0);
    // a key of the same entry but another value is not answered
    assert_eq!(table.get(key ^ 1), None);
}

#[test]
fn deeper_entries_of_the_current_age_are_kept() {
    let mut table = TranspositionTable::new(2);
    let key: u64 = 0xfedc_ba98_7654_3210;
    let other = key ^ 0xff;
    table.store(key, 10, some_move(), 8, HEKind::Exact);
    table.store(other, 20, ChessMove::default(), 3, HEKind::Exact);
    assert_eq!(table.get(key), Some(some_move()));
    assert_eq!(table.get(other), None);
    table.next_age();
    table.store(other, 20, ChessMove::default(), 3, HEKind::Exact);
    assert_eq!(table.get(other), Some(ChessMove::default()));
    assert_eq!(table.load(other).unwrap().age, 1);
}

#[test]
fn probe_answers() {
    let mut table = TranspositionTable::new(2);
    let key: u64 = 0x0123_4567_89ab_cdef;
    assert_eq!(table.probe(key, -100, 100, 1), Probe::NoHit);
    table.store(key, 50, some_move(), 4, HEKind::Exact);
    assert_eq!(table.probe(key, -100, 100, 4), Probe::CutOff(some_move(), 50));
    assert_eq!(table.probe(key, -100, 100, 5), Probe::PV(some_move(), 50));
    table.store(key, 150, some_move(), 4, HEKind::Beta);
    assert_eq!(table.probe(key, -100, 100, 3), Probe::CutOff(some_move(), 100));
    table.store(key, -150, some_move(), 4, HEKind::Alpha);
    assert_eq!(table.probe(key, -100, 100, 3), Probe::CutOff(some_move(), -100));
    table.store(key, 0, some_move(), 4, HEKind::Alpha);
    assert_eq!(table.probe(key, -100, 100, 3), Probe::PV(some_move(), 0));
    table.reset();
    assert_eq!(table.probe(key, -100, 100, 1), Probe::NoHit);
}
