//! The rules of the mill game on a board of 24 points: sets of points, the
//! geometry of the board, moves and their wire form, the legal moves of a
//! board and what a move does to it, and the course of a game against the
//! engine.

pub mod bitboard;
pub mod board;
pub mod geometry;
pub mod moves;
pub mod rules;
pub mod session;
