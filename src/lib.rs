//! Game logic of a falling-block puzzle: piece geometry, the playfield grid,
//! and the state machine that moves, rotates, locks and scores pieces.

pub mod piece;
pub mod board;
pub mod game;

