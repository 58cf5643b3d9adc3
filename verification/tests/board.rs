use mattis::board::movegen::MoveList;
use mattis::board::Board;
use mattis::board::fen::FenError;
use mattis::chess_move::ChessMove;
use mattis::eval::evaluation;
use mattis::perft::{parse_perft_line, perft};
use mattis::types::{Color, Square64};

const START: &str = "rnbqkbnr/pppppppp/8/8/8/8/PPPPPPPP/RNBQKBNR w KQkq - 0 1";

// the counters are not kept: a FEN written out ends in "0 0"
const START_OUT: &str = "rnbqkbnr/pppppppp/8/8/8/8/PPPPPPPP/RNBQKBNR w KQkq - 0 0";

#[test]
fn board_empty_board() {
    let board = Board::new();
    assert_eq!(board.generate_position_key(), board.position_key);
}

#[test]
fn convert_en_passant_move() {
    let fen = "rnbqkbnr/1ppppp1p/8/p4Pp1/8/8/PPPPP1PP/RNBQKBNR w KQkq g6 0 3";
    let board = Board::from_fen(fen).unwrap();

    let ep_move16 = ChessMove::build().start(Square64::F5).en_passant().end(Square64::G6).finish();

    let mut movelist = MoveList::new();
    board.generate_all_moves(&mut movelist);
    assert!(movelist.contains(&ep_move16));
}

#[test]
fn start_position_round_trip() {
    let board = Board::from_fen(START).unwrap();
    assert!(board.check_board_integrity());
    assert_eq!(board.as_fen(), START_OUT);
    assert_eq!(board.color, Color::White);
    assert_eq!(board.generate_position_key(), board.position_key);
}

#[test]
fn perft_start_position() {
    let mut board = Board::from_fen(START).unwrap();
    assert_eq!(perft(&mut board, 0, true), 1);
    assert_eq!(perft(&mut board, 1, true), 20);
    assert_eq!(perft(&mut board, 2, true), 400);
    assert_eq!(perft(&mut board, 3, false), 8902);
    assert_eq!(board.as_fen(), START_OUT);
}

#[test]
fn perft_kiwipete() {
    let fen = "r3k2r/p1ppqpb1/bn2pnp1/3PN3/1p2P3/2N2Q1p/PPPBBPPP/R3K2R w KQkq - 0 1";
    let mut board = Board::from_fen(fen).unwrap();
    assert_eq!(perft(&mut board, 1, true), 48);
    assert_eq!(perft(&mut board, 2, true), 2039);
}

#[test]
fn make_and_take_restore_the_board() {
    let mut board = Board::from_fen(START).unwrap();
    let before = board.as_fen();
    let key = board.position_key;
    let m = ChessMove::build().start(Square64::E2).end(Square64::E4).double_pawn_push().finish();
    assert!(board.can_make(m));
    assert!(board.make_move(m));
    assert_eq!(board.as_fen(), "rnbqkbnr/pppppppp/8/8/4P3/8/PPPP1PPP/RNBQKBNR b KQkq e3 0 0");
    assert_eq!(board.generate_position_key(), board.position_key);
    board.take_move();
    assert_eq!(board.as_fen(), before);
    assert_eq!(board.position_key, key);
}

#[test]
fn illegal_move_is_refused() {
    // the white king on e1 is pinned against nothing, but moving the knight on e2
    // would expose it to the rook on e8
    let mut board = Board::from_fen("4r1k1/8/8/8/8/8/4N3/4K3 w - - 0 1").unwrap();
    let before = board.as_fen();
    let m = ChessMove::build().start(Square64::E2).end(Square64::C3).finish();
    assert!(board.can_make(m));
    assert!(!board.make_move(m));
    assert_eq!(board.as_fen(), before);
}

#[test]
fn null_move_round_trip() {
    let mut board = Board::from_fen(START).unwrap();
    let key = board.position_key;
    board.make_null_move();
    assert_eq!(board.color, Color::Black);
    assert_ne!(board.position_key, key);
    board.take_null_move();
    assert_eq!(board.color, Color::White);
    assert_eq!(board.position_key, key);
}

#[test]
fn fen_errors() {
    assert!(Board::from_fen("").is_err());
    assert!(Board::from_fen("rnbqkbnr/pppppppp/8/8/8/8/PPPPPPPP w KQkq - 0 1").is_err());
    assert!(Board::from_fen("rnbqkbnr/pppppppp/8/8/8/8/PPPPPPPP/RNBQKBNR x KQkq - 0 1").is_err());
}

#[test]
fn evaluation_start_position_is_balanced() {
    let board = Board::from_fen(START).unwrap();
    assert_eq!(evaluation(&board), 0);
}

#[test]
fn evaluation_lone_kings_is_a_draw() {
    let board = Board::from_fen("4k3/8/8/8/8/8/8/4K3 w - - 0 1").unwrap();
    assert_eq!(evaluation(&board), 0);
}

#[test]
fn evaluation_extra_queen() {
    // white to move with an extra queen on d1: material 900 plus the queen's
    // square value (-5) and its open file bonus (10)
    let board = Board::from_fen("4k3/8/8/8/8/8/8/3QK3 w - - 0 1").unwrap();
    let black = Board::from_fen("4k3/8/8/8/8/8/8/3QK3 b - - 0 1").unwrap();
    assert_eq!(evaluation(&board), -evaluation(&black));
    assert!(evaluation(&board) > 800);
}

#[test]
fn diagram_of_start_position() {
    let board = Board::from_fen(START).unwrap();
    let text = board.diagram();
    let lines: Vec<&str> = text.lines().collect();
    assert_eq!(lines.len(), 8);
    assert_eq!(lines[0], "r n b q k b n r ");
    assert_eq!(lines[1], "p p p p p p p p  * active color: w");
    assert_eq!(lines[2], ". . . . . . . .  * en passant: -");
    assert_eq!(lines[3], ". . . . . . . .  * ply: 0");
    assert_eq!(lines[4], ". . . . . . . .  * fifty-move: 0");
    assert_eq!(lines[5], ". . . . . . . .  * castle permitions: KQkq");
    assert_eq!(lines[6], format!("P P P P P P P P  * tpos key: {:#08x}", board.position_key));
    assert_eq!(lines[7], "R N B Q K B N R ");
    let empty = Board::new();
    assert!(empty.diagram().contains(&format!("* tpos key: {:#08x}", empty.position_key)));
}

#[test]
fn fen_error_kinds() {
    assert_eq!(Board::from_fen("").err(), Some(FenError::WrongFieldCount));
    assert_eq!(Board::from_fen("8/8/8/8/8/8/8/8 w - -").err(), Some(FenError::WrongFieldCount));
    assert_eq!(Board::from_fen("8/8/8/8/8/8/8/8 w - - 0").err(), Some(FenError::WrongFieldCount));
    assert_eq!(Board::from_fen("8/8/8/8/8/8/8 w - - 0 1").err(), Some(FenError::WrongRankCount));
    assert_eq!(Board::from_fen("8/8/8/8/8/8/8/7 w - - 0 1").err(), Some(FenError::WrongFileCount));
    assert_eq!(Board::from_fen("8/8/8/8/8/8/8/8 x - - 0 1").err(), Some(FenError::InvalidColor));
    assert_eq!(Board::from_fen("8/8/8/8/8/8/8/8 w KQkqK - 0 1").err(), Some(FenError::InvalidCastlePerms));
    assert_eq!(Board::from_fen("8/8/8/8/8/8/8/8 w - e33 0 1").err(), Some(FenError::InvalidEnPassantSquare));
    assert_eq!(Board::from_fen("8/8/8/8/8/8/8/8 w - e 0 1").err(), Some(FenError::InvalidEnPassantSquare));
    assert_eq!(Board::from_fen("8/8/8/8/8/8/8/8 w - z3 0 1").err(), Some(FenError::InvalidEnPassantSquare));
    assert!(Board::from_fen("4k3/8/8/8/8/8/8/4K3 w - e3 0 1").is_ok());
}

#[test]
fn en_passant_may_not_uncover_a_check_on_the_own_king() {
    // b5xc6 en passant would leave the king on a5 to the rook on h5
    let mut board = Board::from_fen("8/8/8/KPp4r/8/8/8/4k3 w - c6 0 1").unwrap();
    assert!(board.find_move("b5c6").is_none());
    // Ka4, Ka6, Kb6 and b6 remain; Kb4 is attacked by the pawn on c5
    assert_eq!(perft(&mut board, 1, true), 4);
}

#[test]
fn playing_moves_in_smith_notation() {
    let mut board = Board::from_fen(START).unwrap();
    let moves = vec!["e2e4".to_string(), "e7e5".to_string(), "g1f3".to_string()];
    assert_eq!(board.play_moves(&moves), None);
    assert_eq!(board.as_fen(), "rnbqkbnr/pppp1ppp/8/4p3/4P3/5N2/PPPP1PPP/RNBQKB1R b KQkq - 0 0");

    let mut board = Board::from_fen(START).unwrap();
    let moves = vec!["e2e4".to_string(), "e2e4".to_string(), "d7d5".to_string()];
    assert_eq!(board.play_moves(&moves), Some(1));
    assert_eq!(board.as_fen(), "rnbqkbnr/pppppppp/8/8/4P3/8/PPPP1PPP/RNBQKBNR b KQkq e3 0 0");
}

#[test]
fn reading_perft_suite_lines() {
    let line = b"4k3/8/8/8/8/8/8/4K2R w K - 0 1 ;D1 15 ;D2 66 ;D3 1197";
    let (fen, counts) = parse_perft_line(line).unwrap();
    assert_eq!(fen, b"4k3/8/8/8/8/8/8/4K2R w K - 0 1 ".to_vec());
    assert_eq!(counts, vec![15, 66, 1197]);
    assert_eq!(parse_perft_line(b"8/8/8/8/8/8/8/8 w - - 0 1"), Some((b"8/8/8/8/8/8/8/8 w - - 0 1".to_vec(), vec![])));
    assert_eq!(parse_perft_line(b"x ;D1 15 ;D2"), None);
    assert_eq!(parse_perft_line(b"x ;D1 fifteen"), None);
}
