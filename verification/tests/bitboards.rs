use mattis::bitboard::BitBoard;
use mattis::mattis_bitboard::BitBoard as SetBoard;
use mattis::types::Square64;

#[test]
fn lib_pop_all_bits() {
    let mut bitboard = SetBoard::full();

    for i in 0..64 {
        let sq = bitboard.pop().unwrap();
        let sq: usize = sq.index();
        assert_eq!(sq, i);
    }
}

#[test]
fn lib_pop_empty() {
    let mut bitboard = SetBoard::empty();
    let sq = bitboard.pop();
    assert_eq!(sq, None);
}

#[test]
fn lib_set_and_clear() {
    let mut bitboard = SetBoard::empty();

    for sq in 0..64 {
        let sq = Square64::from_primitive(sq);
        assert!(!bitboard.get(sq));
        bitboard.set(sq);
        assert!(bitboard.get(sq));
        bitboard.clear(sq);
        assert!(!bitboard.get(sq));
        assert!(bitboard.is_empty());
    }
}

#[test]
fn lib_iter_all_indices() {
    let bb = SetBoard::full();
    let squares = bb.iter_bit_indices();

    assert_eq!(squares.len(), 64);
    for sq in 0..64 {
        assert_eq!(squares[sq], Square64::from_primitive(sq));
    }
}

#[test]
fn invalid_index() {
    let mut bitboard = BitBoard::empty();
    assert!(!bitboard.get(Square64::Invalid));

    bitboard.set(Square64::Invalid);
    assert!(!bitboard.get(Square64::Invalid));
    assert!(bitboard.is_empty());

    let mut bitboard = BitBoard::full();
    assert!(!bitboard.get(Square64::Invalid));

    bitboard.set(Square64::Invalid);
    assert!(!bitboard.get(Square64::Invalid));
    assert!(bitboard.is_full());
}

#[test]
fn bitboard_set_and_clear() {
    let mut bitboard = BitBoard::empty();

    for sq in 0..64 {
        let sq = Square64::from_primitive(sq);
        assert!(!bitboard.get(sq));
        bitboard.set(sq);
        assert!(bitboard.get(sq));
        bitboard.clear(sq);
        assert!(!bitboard.get(sq));
        assert!(bitboard.is_empty());
    }
}

#[test]
fn bitboard_fill_and_clear() {
    let mut bitboard = BitBoard::empty();

    for i in 0..64 {
        let sq = Square64::from_primitive(i);
        bitboard.set(sq);
    }

    assert_eq!(BitBoard::full(), bitboard);

    for i in 0..64 {
        let sq = Square64::from_primitive(i);
        bitboard.clear(sq);
    }

    assert_eq!(BitBoard::empty(), bitboard);
}

#[test]
fn bitboard_pop_all_bits() {
    let mut bitboard = BitBoard::full();

    for i in 0..64 {
        let sq = bitboard.pop();
        let sq: usize = sq.index();
        assert_eq!(sq, i);
    }
}

#[test]
fn bitboard_pop_empty() {
    let mut bitboard = BitBoard::empty();
    let sq = bitboard.pop();
    assert_eq!(sq, Square64::Invalid);
}

#[test]
fn bitboard_iter_all_indices() {
    let bb = BitBoard::full();
    let squares = bb.iter_bit_indices();

    assert_eq!(squares.len(), 64);
    for sq in 0..64 {
        assert_eq!(squares[sq], Square64::from_primitive(sq));
    }
}

#[test]
fn bit_count_and_shifts() {
    let mut bb = BitBoard::empty();
    bb.set(Square64::A1);
    bb.set(Square64::H8);
    assert_eq!(bb.bit_count(), 2);
    assert_eq!(bb.shifted_north().bit_count(), 1);
    assert!(bb.shifted_north().get(Square64::A2));
    assert!(bb.shifted_east().get(Square64::B1));
    assert!(!bb.shifted_east().get(Square64::A2));
    assert_eq!(BitBoard::full().bit_count(), 64);
}
