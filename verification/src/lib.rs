//! A chess engine library: board representation, move encoding, move generation,
//! evaluation, search support and the UCI protocol.

pub mod bits;
pub mod text;
pub mod types;
pub mod bitboard;
pub mod mattis_bitboard;
pub mod chess_move;
pub mod moves;
pub mod tables;
pub mod magics;
pub mod board;
pub mod perft;
pub mod eval;
pub mod hashtable;
pub mod tptable;
pub mod heuristics;
pub mod search;
pub mod time_man;
pub mod uci;
pub mod notation;
