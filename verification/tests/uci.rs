use mattis::uci::{line_reaches_searchmoves, parse_u32, EngineMessage, Go, GuiMessage, Id, Info, ParseError, Position, Score};

#[test]
fn simple_commands() {
    assert!(matches!(GuiMessage::parse("uci\n"), Ok(GuiMessage::Uci)));
    assert!(matches!(GuiMessage::parse("isready\n"), Ok(GuiMessage::Isready)));
    assert!(matches!(GuiMessage::parse("ucinewgame\n"), Ok(GuiMessage::Ucinewgame)));
    assert!(matches!(GuiMessage::parse("stop\n"), Ok(GuiMessage::Stop)));
    assert!(matches!(GuiMessage::parse("ponderhit\n"), Ok(GuiMessage::Ponderhit)));
    assert!(matches!(GuiMessage::parse("quit\n"), Ok(GuiMessage::Quit)));
    assert!(matches!(GuiMessage::parse("debug on\n"), Ok(GuiMessage::Debug(true))));
    assert!(matches!(GuiMessage::parse("debug off\n"), Ok(GuiMessage::Debug(false))));
}

#[test]
fn refused_commands() {
    assert_eq!(GuiMessage::parse("").err(), Some(ParseError::EmptyText));
    assert_eq!(GuiMessage::parse(" \t\n").err(), Some(ParseError::EmptyText));
    assert_eq!(GuiMessage::parse("hello\n").err(), Some(ParseError::UnknownCommand));
    assert_eq!(GuiMessage::parse("debug maybe\n").err(), Some(ParseError::DebugInvalid));
    assert_eq!(GuiMessage::parse("position somewhere\n").err(), Some(ParseError::PositionInvalid));
    assert_eq!(GuiMessage::parse("position\n").err(), Some(ParseError::PositionInvalid));
    assert_eq!(GuiMessage::parse("go depth\n").err(), Some(ParseError::UnknownGoSetting));
    assert_eq!(GuiMessage::parse("go depth x\n").err(), Some(ParseError::UnknownGoSetting));
    assert_eq!(GuiMessage::parse("go sideways\n").err(), Some(ParseError::UnknownGoSetting));
    assert_eq!(Go::parse("depth").err(), Some(ParseError::UnknownGoSetting));
}

#[test]
fn commands_without_whitespace() {
    assert!(matches!(GuiMessage::parse("uci"), Ok(GuiMessage::Uci)));
    assert!(matches!(GuiMessage::parse("isready"), Ok(GuiMessage::Isready)));
    assert!(matches!(GuiMessage::parse("quit"), Ok(GuiMessage::Quit)));
    match GuiMessage::parse("position startpos") {
        Ok(GuiMessage::Position { pos: Position::Startpos, moves }) => assert!(moves.is_empty()),
        _ => panic!("position startpos was not read"),
    }
    match GuiMessage::parse("position startpos moves e2e4") {
        Ok(GuiMessage::Position { pos: Position::Startpos, moves }) => assert_eq!(moves, vec!["e2e4".to_string()]),
        _ => panic!("position startpos moves was not read"),
    }
}

#[test]
fn go_values() {
    let go = Go::parse("wtime 1000 btime 2000 winc 10 binc 20 movestogo 20 depth 7 nodes +500 infinite ponder").unwrap();
    assert_eq!(go.wtime, Some(1000));
    assert_eq!(go.btime, Some(2000));
    assert_eq!(go.winc, Some(10));
    assert_eq!(go.binc, Some(20));
    assert_eq!(go.movestogo, Some(20));
    assert_eq!(go.depth, Some(7));
    assert_eq!(go.nodes, Some(500));
    assert_eq!(go.mate, None);
    assert_eq!(go.movetime, None);
    assert!(go.infinite);
    assert!(go.ponder);
    assert!(go.searchmoves.is_empty());

    let go = Go::parse("").unwrap();
    assert_eq!(go.depth, None);
    assert!(!go.infinite);

    match GuiMessage::parse("go movetime 300 mate 2 depth 1 depth 9\n") {
        Ok(GuiMessage::Go(go)) => {
            assert_eq!(go.movetime, Some(300));
            assert_eq!(go.mate, Some(2));
            assert_eq!(go.depth, Some(9));
        }
        _ => panic!("go was not read"),
    }
}

#[test]
fn numbers() {
    assert_eq!(parse_u32(b"0"), Some(0));
    assert_eq!(parse_u32(b"+12"), Some(12));
    assert_eq!(parse_u32(b"4294967295"), Some(4294967295));
    assert_eq!(parse_u32(b"4294967296"), None);
    assert_eq!(parse_u32(b"-1"), None);
    assert_eq!(parse_u32(b"+"), None);
    assert_eq!(parse_u32(b""), None);
    assert_eq!(parse_u32(b"12a"), None);
}

#[test]
fn positions() {
    match GuiMessage::parse("position startpos moves e2e4 e7e5\n") {
        Ok(GuiMessage::Position { pos: Position::Startpos, moves }) => {
            assert_eq!(moves, vec!["e2e4".to_string(), "e7e5".to_string()]);
        }
        _ => panic!("position was not read"),
    }
    match GuiMessage::parse("position startpos\n") {
        Ok(GuiMessage::Position { pos: Position::Startpos, moves }) => assert!(moves.is_empty()),
        _ => panic!("position was not read"),
    }
    let fen = "rnbqkbnr/pppppppp/8/8/8/8/PPPPPPPP/RNBQKBNR w KQkq - 0 1";
    match GuiMessage::parse(&format!("position fen {fen} moves g1f3\n")) {
        Ok(GuiMessage::Position { pos: Position::Fen(f), moves }) => {
            assert_eq!(f, fen);
            assert_eq!(moves, vec!["g1f3".to_string()]);
        }
        _ => panic!("position was not read"),
    }
    match GuiMessage::parse(&format!("position fen {fen}\n")) {
        Ok(GuiMessage::Position { pos: Position::Fen(f), moves }) => {
            assert_eq!(f, fen);
            assert!(moves.is_empty());
        }
        _ => panic!("position was not read"),
    }
}

#[test]
fn engine_messages() {
    assert_eq!(EngineMessage::Uciok.text(), "uciok");
    assert_eq!(EngineMessage::Readyok.text(), "readyok");
    assert_eq!(EngineMessage::Id(Id::Name("Mattis".to_string())).text(), "id name Mattis");
    assert_eq!(EngineMessage::Id(Id::Author("A B".to_string())).text(), "id author A B");
    assert_eq!(
        EngineMessage::Bestmove { move_: "e2e4".to_string(), ponder: Some("e7e5".to_string()) }.text(),
        "bestmove e2e4 ponder e7e5"
    );
    assert_eq!(EngineMessage::Bestmove { move_: "e2e4".to_string(), ponder: None }.text(), "bestmove e2e4");
    let info = Info {
        depth: Some(5),
        nodes: Some(1234),
        score: Some(Score::Cp(-35)),
        pv: vec!["e2e4".to_string(), "e7e5".to_string()],
        ..Default::default()
    };
    assert_eq!(EngineMessage::Info(info).text(), "info depth 5 nodes 1234 score cp -35 pv e2e4 e7e5");
    let info = Info { score: Some(Score::Mate(3)), time: Some(0), ..Default::default() };
    assert_eq!(info.text(), "info time 0 score mate 3");
    assert_eq!(Info::default().text(), "info");
}

#[test]
fn lines_reaching_searchmoves() {
    assert!(line_reaches_searchmoves("go searchmoves e2e4\n"));
    assert!(line_reaches_searchmoves("go depth 5 ponder searchmoves e2e4"));
    assert!(!line_reaches_searchmoves("go depth 5\n"));
    // an earlier bad setting refuses the line before searchmoves is reached
    assert!(!line_reaches_searchmoves("go depth x searchmoves e2e4"));
    assert!(!line_reaches_searchmoves("position startpos moves searchmoves"));
    assert!(!line_reaches_searchmoves(""));
}
