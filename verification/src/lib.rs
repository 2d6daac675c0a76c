//! A bitboard chess position representation and pseudo-legal move generator.
//!
//! A position is held as twelve 64-bit occupancy boards, one per
//! (color, piece type) pair, with bit `i` standing for square
//! `i = 8 * rank + file` (bit 0 is a1, bit 63 is h8).  Attack tables are
//! pure functions from a source square (and, for sliders, the occupancy)
//! to the bitboard of reachable squares; the move generator turns attack
//! bitboards into move records, and the move applier mutates a board in
//! place, one move at a time.

pub mod bits;
pub mod board;
pub mod error;
pub mod laws;
pub mod moves;
pub mod piece;
pub mod position;
pub mod rules;
pub mod rules_bb;
