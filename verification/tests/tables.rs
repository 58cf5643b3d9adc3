use mattis::chess_move::ChessMove;
use mattis::heuristics::{SearchHistory, SearchKillers};
use mattis::magics::{bishop_magic_bit_count, bishop_magic_masks, find_magic, rook_magic_bit_count, rook_magic_masks};
use mattis::moves::Move16;
use mattis::tptable::TpTable;
use mattis::search::SearchStats;
use mattis::tables::not_rank_bitboards;
use mattis::time_man::Limits;
use mattis::types::{Piece, Square64};

#[test]
fn magic_masks() {
    let rook = rook_magic_masks();
    let bishop = bishop_magic_masks();
    // a rook in the corner sees six squares up its file and six along its rank
    assert_eq!(rook[Square64::A1.index()].bit_count(), 12);
    assert_eq!(rook[Square64::E4.index()].bit_count(), 10);
    assert!(!rook[Square64::A1.index()].get(Square64::A8));
    assert!(rook[Square64::A1.index()].get(Square64::A7));
    assert_eq!(bishop[Square64::D4.index()].bit_count(), 9);
    assert_eq!(bishop[Square64::A1.index()].bit_count(), 6);
    for s in 0..64 {
        assert_eq!(rook[s].bit_count(), rook_magic_bit_count()[s]);
        assert_eq!(bishop[s].bit_count(), bishop_magic_bit_count()[s]);
    }
}

#[test]
fn finds_magics() {
    assert!(find_magic(Square64::D4, 9, true).is_some());
    assert!(find_magic(Square64::A1, 6, true).is_some());
    assert!(find_magic(Square64::E4, 10, false).is_some());
}

#[test]
fn tp_table_insert_get() {
    let mut table = TpTable::new();
    let m = Move16::build().start(Square64::E2).end(Square64::E4).double_pawn_push().finish();
    let key: u64 = 0xDEAD_BEEF_1234_5678;
    assert_eq!(table.get(key), None);
    table.insert(key, m);
    assert_eq!(table.get(key), Some(m));
    // the same low 24 bits with other high bits: another position
    assert_eq!(table.get(key ^ (1 << 40)), None);
    let other = key ^ 1;
    table.insert(other, Move16::build().finish());
    assert_eq!(table.get(key), Some(m));
}

#[test]
fn killers_and_history() {
    let mut killers = SearchKillers::new(4);
    let a = ChessMove::build().start(Square64::G1).end(Square64::F3).finish();
    let b = ChessMove::build().start(Square64::B1).end(Square64::C3).finish();
    assert!(killers.slot1(2).is_nomove());
    killers.store(2, a);
    killers.store(2, b);
    assert_eq!(killers.slot1(2), b);
    assert_eq!(killers.slot2(2), a);
    assert!(killers.slot1(1).is_nomove());

    let mut history = SearchHistory::default();
    assert_eq!(history.entry(Piece::WhiteKnight, Square64::F3), 0);
    history.add(Piece::WhiteKnight, Square64::F3, 5);
    history.add(Piece::WhiteKnight, Square64::F3, 2);
    assert_eq!(history.entry(Piece::WhiteKnight, Square64::F3), 7);
    assert_eq!(history.entry(Piece::BlackKnight, Square64::F3), 0);
}

#[test]
fn time_manager_limits() {
    let mut limits = Limits::new();
    limits.nodes(Some(100));
    limits.depth(Some(5));
    limits.hard_time(None);
    let mut tm = limits.start_now();
    assert_eq!(tm.node_limit(), 100);
    assert_eq!(tm.depth_limit(), 5);

    let mut stats = SearchStats::new();
    assert!(!tm.stop(&stats, false));
    assert!(tm.enough_time_for_next_depth(&stats));
    stats.nodes = 101;
    // with the cache, an answer is only recomputed on multiples of 1024 nodes
    assert!(!tm.stop(&stats, true));
    assert!(tm.stop(&stats, false));
    assert!(!tm.enough_time_for_next_depth(&stats));

    let mut stats = SearchStats::new();
    stats.depth = 6;
    assert!(tm.stop(&stats, false));

    let stats = SearchStats::new();
    tm.force_stop();
    assert!(tm.stop(&stats, true));
    assert!(tm.stop(&stats, false));
    assert!(tm.raw_stop_flag().load(std::sync::atomic::Ordering::Relaxed));
}

#[test]
fn time_manager_decisions_on_given_clock() {
    assert!(mattis::time_man::enough_time(1, 100));
    assert!(!mattis::time_man::enough_time(10, 100));
    assert!(!mattis::time_man::enough_time(200, 100));
    assert!(!mattis::time_man::enough_time(u128::MAX, u128::MAX));

    let mut limits = Limits::new();
    limits.nodes(Some(100));
    let tm = limits.start_now();
    // no hard time limit: always time for the next depth
    assert!(tm.next_depth_decision(u128::MAX / 2));
    let stats = SearchStats::new();
    assert!(!tm.stop_decision(&stats, 1_000_000_000_000, false));
    assert!(tm.stop_decision(&stats, 0, true));

    let mut limits = Limits::new();
    limits.hard_time(Some(std::time::Duration::from_millis(1000)));
    let tm = limits.start_now();
    assert!(tm.stop_decision(&stats, 1_000_000_000, false));
    assert!(!tm.stop_decision(&stats, 999_999_999, false));
    // the soft limit equals the hard one: 90 ms used leave 910 ms
    assert!(tm.next_depth_decision(90_000_000));
    assert!(!tm.next_depth_decision(91_000_000));
}

#[test]
fn not_rank_masks() {
    let boards = not_rank_bitboards();
    assert_eq!(boards[0].to_u64(), 0xffff_ffff_ffff_ff00);
    assert_eq!(boards[7].to_u64(), 0x00ff_ffff_ffff_ffff);
    assert_eq!(boards[3].to_u64(), !0x0000_0000_ff00_0000u64);
}
