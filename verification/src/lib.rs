//! A verified shogi engine for automated self-play.
//!
//! The crate models the board and the captured-piece pool, generates the
//! candidate moves of a side, filters them down to the legal ones (no move
//! may leave the mover's own king in check, and a pawn drop may not
//! checkmate on the spot), detects check and checkmate, and drives the
//! turn-based game state machine.  Move selection among equally legal
//! positions and the persistence of finished games are left to the caller:
//! the engine hands out the candidate positions and a fixed-shape feature
//! encoding of each, and adopts whichever candidate the caller picks.

pub mod board;
pub mod check;
pub mod encode;
pub mod game;
pub mod movegen;
pub mod piece;
