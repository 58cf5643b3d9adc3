use mattis::board::Board;
use mattis::notation::{AlgebraicNotation, SmithNotation};
use mattis::search::{
    alpha_beta, deepen, iterative_deepening, mate_in, pv_line, quiescence, should_search_stop, stop_verdict, SearchParams, SearchStats,
    SearchTables, EVAL_MAX,
};
use std::sync::atomic::AtomicBool;
use std::sync::Arc;

const START: &str = "rnbqkbnr/pppppppp/8/8/8/8/PPPPPPPP/RNBQKBNR w KQkq - 0 1";

fn params(depth: Option<u16>) -> SearchParams {
    SearchParams { max_time: None, max_nodes: None, max_depth: depth, stop: Arc::new(AtomicBool::new(false)) }
}

fn smith(m: mattis::chess_move::ChessMove) -> String {
    let mut s = String::new();
    SmithNotation::write(&mut s, m);
    s
}

#[test]
fn finds_mate_in_one() {
    let mut board = Board::from_fen("6k1/5ppp/8/8/8/8/8/R5K1 w - - 0 1").unwrap();
    let before = board.as_fen();
    let mut tables = SearchTables::new(2);
    let results = iterative_deepening(&mut board, params(Some(2)), &mut tables);
    assert_eq!(results.len(), 2);
    assert_eq!(results[0].depth, 1);
    assert_eq!(results[1].depth, 2);
    let last = &results[1];
    assert_eq!(smith(last.bestmove), "a1a8");
    assert_eq!(last.score, mate_in(1));
    assert_eq!(board.as_fen(), before);
}

#[test]
fn stalemate_scores_a_draw() {
    let mut board = Board::from_fen("7k/5Q2/6K1/8/8/8/8/8 b - - 0 1").unwrap();
    let mut tables = SearchTables::new(2);
    let mut stats = SearchStats::new();
    let score = alpha_beta(-EVAL_MAX, EVAL_MAX, 1, &mut board, &params(None), &mut stats, &mut tables, true);
    assert_eq!(score, 0);
}

#[test]
fn checkmated_side_scores_mate() {
    // black is mated by the rook on a8
    let mut board = Board::from_fen("R5k1/5ppp/8/8/8/8/8/6K1 b - - 0 1").unwrap();
    let mut tables = SearchTables::new(2);
    let mut stats = SearchStats::new();
    let score = alpha_beta(-EVAL_MAX, EVAL_MAX, 1, &mut board, &params(None), &mut stats, &mut tables, true);
    assert_eq!(score, -mate_in(0));
}

#[test]
fn quiet_start_position() {
    let mut board = Board::from_fen(START).unwrap();
    let mut tables = SearchTables::new(2);
    let mut stats = SearchStats::new();
    let score = quiescence(-EVAL_MAX, EVAL_MAX, &mut board, &mut stats, &mut tables);
    assert_eq!(score, 0);
    assert_eq!(stats.nodes, 1);
}

#[test]
fn wins_a_hanging_queen() {
    let mut board = Board::from_fen("4k3/8/8/3q4/8/8/8/3RK3 w - - 0 1").unwrap();
    let mut tables = SearchTables::new(2);
    let results = iterative_deepening(&mut board, params(Some(3)), &mut tables);
    let last = results.last().unwrap();
    assert_eq!(smith(last.bestmove), "d1d5");
    assert!(last.score > 300);
    // the principal variation is made of moves that can be played
    let line = pv_line(&tables.transposition_table, &mut board);
    assert!(!line.is_empty());
    assert_eq!(smith(line[0]), "d1d5");
}

#[test]
fn stop_on_node_limit() {
    let mut p = params(None);
    p.max_nodes = Some(10);
    let mut stats = SearchStats::new();
    assert!(!should_search_stop(&p, &stats));
    stats.nodes = 11;
    assert!(should_search_stop(&p, &stats));
    let q = params(Some(3));
    let mut stats = SearchStats::new();
    stats.depth = 4;
    assert!(should_search_stop(&q, &stats));
}

#[test]
fn algebraic_and_smith_notation() {
    let mut board = Board::from_fen(START).unwrap();
    let m = board.find_move("g1f3").unwrap();
    let mut s = String::new();
    AlgebraicNotation::write(&mut s, m, &mut board);
    // the other moves of the same knight start on its square: the square is written
    assert_eq!(s, "Ng1f3");
    let e4 = board.find_move("e2e4").unwrap();
    let mut s = String::new();
    AlgebraicNotation::write(&mut s, e4, &mut board);
    assert_eq!(s, "e2e4");
    assert_eq!(smith(e4), "e2e4");
    assert!(board.find_move("e2e5").is_none());
    assert_eq!(board.as_fen(), "rnbqkbnr/pppppppp/8/8/8/8/PPPPPPPP/RNBQKBNR w KQkq - 0 0");
}

#[test]
fn check_and_mate_marks() {
    let mut board = Board::from_fen("6k1/5ppp/8/8/8/8/8/R5K1 w - - 0 1").unwrap();
    let m = board.find_move("a1a8").unwrap();
    let mut s = String::new();
    AlgebraicNotation::write(&mut s, m, &mut board);
    // black has pseudo-legal moves left (the king may step into check), so it is `+`
    assert_eq!(s, "Ra1a8+");
}

#[test]
fn promotion_notation() {
    let mut board = Board::from_fen("8/P6k/8/8/8/8/8/K7 w - - 0 1").unwrap();
    let m = board.find_move("a7a8q").unwrap();
    assert_eq!(smith(m), "a7a8q");
    let mut s = String::new();
    AlgebraicNotation::write(&mut s, m, &mut board);
    assert_eq!(s, "a7a8Q");
}

#[test]
fn stop_verdict_on_given_clock_and_request() {
    let mut p = params(None);
    let mut stats = SearchStats::new();
    assert!(!stop_verdict(&p, &stats, 0, false));
    assert!(stop_verdict(&p, &stats, 0, true));
    // without a time limit the clock does not count
    assert!(!stop_verdict(&p, &stats, u128::MAX, false));
    p.max_time = Some(std::time::Duration::from_millis(5));
    assert!(stop_verdict(&p, &stats, 5_000_000, false));
    assert!(!stop_verdict(&p, &stats, 4_999_999, false));
    p.max_depth = Some(2);
    stats.depth = 3;
    assert!(stop_verdict(&p, &stats, 0, false));
}

#[test]
fn no_stop_requested_without_limits() {
    let p = params(None);
    let stats = SearchStats::new();
    assert!(!should_search_stop(&p, &stats));
    p.stop.store(true, std::sync::atomic::Ordering::SeqCst);
    assert!(should_search_stop(&p, &stats));
}

#[test]
fn stand_pat_cuts_off_at_beta() {
    let mut board = Board::from_fen(START).unwrap();
    let mut tables = SearchTables::new(2);
    let mut stats = SearchStats::new();
    let score = quiescence(-EVAL_MAX, -100, &mut board, &mut stats, &mut tables);
    assert_eq!(score, -100);
    assert_eq!(stats.nodes, 1);
}

#[test]
fn deepen_scores_positions_without_moves() {
    let mut board = Board::from_fen("R5k1/5ppp/8/8/8/8/8/6K1 b - - 0 1").unwrap();
    let mut tables = SearchTables::new(2);
    let mut stats = SearchStats::new();
    let st = deepen(&mut board, &params(None), &mut stats, &mut tables).unwrap();
    assert_eq!(st.depth, 1);
    assert_eq!(st.score, -mate_in(0));

    let mut board = Board::from_fen("7k/5Q2/6K1/8/8/8/8/8 b - - 0 1").unwrap();
    let mut tables = SearchTables::new(2);
    let mut stats = SearchStats::new();
    let st = deepen(&mut board, &params(None), &mut stats, &mut tables).unwrap();
    assert_eq!(st.score, 0);
}
