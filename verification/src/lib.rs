pub mod square;
pub mod bitboard;
pub mod generic;
pub mod board;
pub mod gods;
pub mod game;
pub mod fen;
pub mod move_verifier;
pub mod consistency_checker;
