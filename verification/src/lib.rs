//! A chess game that a remote caller drives move by move.
//!
//! The caller hands in the current position. The session in [`engine`] checks
//! it, says under which limits a move is to be searched, checks the move that
//! comes back against the rules of chess, and returns the next position or
//! the marker of a finished game. The positions are texts in Forsyth-Edwards
//! notation, whose syntax is in [`fen`], with the bound on the moves of a
//! side in [`mobility`], and every game starts from the position in
//! [`opening`]; the rules of chess are those of the
//! `pleco` crate, behind [`rules`]. [`actor`] and [`kernel`] are the entry
//! point of the host.

pub mod actor;
pub mod engine;
pub mod fen;
pub mod kernel;
pub mod mobility;
pub mod opening;
pub mod rules;
