use mattis::chess_move::ChessMove;
use mattis::moves::{Move16, Move32};
use mattis::types::{Color, Piece, PieceType, Square64};

#[test]
fn chess_move_type_size() {
    assert_eq!(std::mem::size_of::<ChessMove>(), 2);
}

#[test]
fn chess_move_m16_nomove() {
    let m = ChessMove::build().finish();

    assert!(m.is_nomove());
    assert!(!m.is_doube_pawn_push());
    assert!(!m.is_capture());
    assert!(!m.is_en_passant());
    assert!(!m.is_kingside_castle());
    assert!(!m.is_queenside_castle());
    assert!(!m.is_promotion());

    assert_eq!(m.start(), Square64::A1);
    assert_eq!(m.end(), Square64::A1);
    assert_eq!(m.promoted(), None);
}

#[test]
fn chess_move_m16_quiet_move() {
    for start in 0..64 {
        for end in 0..64 {
            if start == end {
                continue;
            }

            let start = Square64::from_primitive(start);
            let end = Square64::from_primitive(end);
            let m = ChessMove::build().start(start).end(end).finish();

            assert!(!m.is_nomove());
            assert!(!m.is_doube_pawn_push());
            assert!(!m.is_capture());
            assert!(!m.is_en_passant());
            assert!(!m.is_kingside_castle());
            assert!(!m.is_queenside_castle());
            assert!(!m.is_promotion());

            assert_eq!(m.start(), start);
            assert_eq!(m.end(), end);
            assert_eq!(m.promoted(), None);
        }
    }
}

#[test]
fn chess_move_m16_capture() {
    let m = ChessMove::build().start(Square64::A1).end(Square64::A2).capture().finish();

    assert_eq!(m.start(), Square64::A1);
    assert_eq!(m.end(), Square64::A2);
    assert!(m.is_capture());
    assert!(!m.is_en_passant());
}

#[test]
fn chess_move_m16_en_passant_capture() {
    let m = ChessMove::build().start(Square64::A4).end(Square64::B3).en_passant().finish();

    assert_eq!(m.start(), Square64::A4);
    assert_eq!(m.end(), Square64::B3);
    assert!(m.is_capture());
    assert!(m.is_en_passant());
}

#[test]
fn chess_move_m16_promotion() {
    const CASES: [Piece; 8] = [
        Piece::WhiteKnight,
        Piece::WhiteBishop,
        Piece::WhiteRook,
        Piece::WhiteQueen,
        Piece::BlackKnight,
        Piece::BlackBishop,
        Piece::BlackRook,
        Piece::BlackQueen,
    ];

    for piece in CASES {
        let m = ChessMove::build().start(Square64::H7).end(Square64::H8).promote(piece).finish();

        assert_eq!(m.promoted(), Some(piece.piece_type()));
        assert!(m.is_promotion());
        assert!(!m.is_capture());
        assert!(!m.is_doube_pawn_push());
        assert!(!m.is_nomove());
        assert!(!m.is_kingside_castle());
        assert!(!m.is_queenside_castle());
        assert!(!m.is_en_passant());
    }
}

#[test]
fn chess_move_default_is_nomove() {
    let m = ChessMove::default();
    assert!(m.is_nomove());
    assert_eq!(m.to_bits(), 0);
}

#[test]
fn chess_move_castles() {
    let k = ChessMove::build().start(Square64::E1).end(Square64::G1).castle(true).finish();
    assert!(k.is_kingside_castle());
    assert!(!k.is_queenside_castle());
    let q = ChessMove::build().start(Square64::E8).end(Square64::C8).castle(false).finish();
    assert!(q.is_queenside_castle());
    assert!(!q.is_kingside_castle());
    let d = ChessMove::build().start(Square64::E2).end(Square64::E4).double_pawn_push().finish();
    assert!(d.is_doube_pawn_push());
}

#[test]
fn moves_type_size() {
    assert_eq!(std::mem::size_of::<Move16>(), 2);
    assert_eq!(std::mem::size_of::<Move32>(), 4);
}

#[test]
fn m32_quiet() {
    let m = Move32::new(Move16::build().finish(), None);
    assert_eq!(m.captured(), None);
    assert!(m.m16.is_nomove());
}

#[test]
fn m32_capture() {
    for piece in Piece::ALL {
        let m = Move32::new(Move16::build().start(Square64::A1).end(Square64::A2).capture().finish(), Some(piece));

        assert_eq!(m.captured(), Some(piece));
        assert!(m.m16.is_capture());
    }
}

#[test]
fn moves_m16_nomove() {
    let m = Move16::build().finish();

    assert!(m.is_nomove());
    assert!(!m.is_doube_pawn_push());
    assert!(!m.is_capture());
    assert!(!m.is_en_passant());
    assert!(!m.is_kingside_castle());
    assert!(!m.is_queenside_castle());
    assert!(!m.is_promotion());

    assert_eq!(m.start(), Square64::A1);
    assert_eq!(m.end(), Square64::A1);

    assert_eq!(m.promoted_piece(Color::White), None);
    assert_eq!(m.promoted_piece(Color::Black), None);
}

#[test]
fn moves_m16_quiet_move() {
    for start in 0..64 {
        for end in 0..64 {
            if start == end {
                continue;
            }

            let start = Square64::from_primitive(start);
            let end = Square64::from_primitive(end);
            let m = Move16::build().start(start).end(end).finish();

            assert!(!m.is_nomove());
            assert!(!m.is_doube_pawn_push());
            assert!(!m.is_capture());
            assert!(!m.is_en_passant());
            assert!(!m.is_kingside_castle());
            assert!(!m.is_queenside_castle());
            assert!(!m.is_promotion());

            assert_eq!(m.start(), start);
            assert_eq!(m.end(), end);

            assert_eq!(m.promoted_piece(Color::White), None);
            assert_eq!(m.promoted_piece(Color::Black), None);
        }
    }
}

#[test]
fn moves_m16_capture() {
    let m = Move16::build().start(Square64::A1).end(Square64::A2).capture().finish();

    assert_eq!(m.start(), Square64::A1);
    assert_eq!(m.end(), Square64::A2);
    assert!(m.is_capture());
    assert!(!m.is_en_passant());
}

#[test]
fn moves_m16_en_passant_capture() {
    let m = Move16::build().start(Square64::A4).end(Square64::B3).en_passant().finish();

    assert_eq!(m.start(), Square64::A4);
    assert_eq!(m.end(), Square64::B3);
    assert!(m.is_capture());
    assert!(m.is_en_passant());
}

#[test]
fn moves_m16_promotion() {
    const CASES: [(Piece, Color); 8] = [
        (Piece::WhiteKnight, Color::White),
        (Piece::WhiteBishop, Color::White),
        (Piece::WhiteRook, Color::White),
        (Piece::WhiteQueen, Color::White),
        (Piece::BlackKnight, Color::Black),
        (Piece::BlackBishop, Color::Black),
        (Piece::BlackRook, Color::Black),
        (Piece::BlackQueen, Color::Black),
    ];

    for (piece, color) in CASES {
        let m = Move16::build().start(Square64::H7).end(Square64::H8).promote(piece).finish();

        assert_eq!(m.promoted_piece(color), Some(piece));
        assert!(m.is_promotion());
        assert!(!m.is_capture());
        assert!(!m.is_doube_pawn_push());
        assert!(!m.is_nomove());
        assert!(!m.is_kingside_castle());
        assert!(!m.is_queenside_castle());
        assert!(!m.is_en_passant());
    }
}

#[test]
fn sq64_invalid() {
    let sq = Square64::Invalid;
    assert_eq!(None, sq.file());
    assert_eq!(None, sq.rank());
}

#[test]
fn convert_piece_types() {
    for color in [Color::White, Color::Black] {
        for piece_type in PieceType::ALL {
            let piece = Piece::new(piece_type, color);
            println!("{color:?}, {piece_type:?} -> {piece:?}");
            assert_eq!(piece.piece_type(), piece_type);
            assert_eq!(piece.color(), color);
        }
    }
}

#[test]
fn m16_promotion_capture_piece() {
    const CASES: [(Piece, Color); 4] = [
        (Piece::WhiteKnight, Color::White),
        (Piece::WhiteQueen, Color::White),
        (Piece::BlackBishop, Color::Black),
        (Piece::BlackRook, Color::Black),
    ];
    for (piece, color) in CASES {
        let m = Move16::build().start(Square64::G7).end(Square64::H8).capture().promote(piece).finish();
        assert_eq!(m.promoted_piece(color), Some(piece));
        assert!(m.is_capture());
    }
}
