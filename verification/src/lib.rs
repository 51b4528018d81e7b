//! Pseudo-legal chess move generation and board-state transitions.
//!
//! The crate models an 8x8 board whose squares record occupancy (piece kind,
//! team, and an opaque piece identifier) together with a transient highlight
//! flag. On top of the board it provides the move generators for every piece
//! kind (sliding rays for rook, bishop and queen; fixed offsets for knight and
//! king; the pawn's forward-move and capture rules), the highlight projection
//! that marks a generator's output on the board, and the commit step that
//! validates a chosen destination and mutates the board. A small state
//! machine ties these together per selection gesture.
//!
//! Move generation is pseudo-legal only: check detection, castling, en
//! passant, double-step pawn moves and promotion are out of scope.

pub mod board;
pub mod game;
pub mod laws;
pub mod moves;
