//! A chess rules engine: board state, per-piece movement rules, legal-move
//! generation with check-safety filtering, move application, terminal-state
//! detection, and the compact binary encoding used to relay a move between
//! two game instances.
pub mod board;
pub mod codec;
pub mod game;
pub mod move_button;
pub mod piece;
