use vstd::prelude::*;

use crate::piece::PieceType;
use crate::position::Position;

verus! {

/// One pseudo-legal move: the square the piece leaves, the square it goes
/// to, the kind of piece that moves, and whether the destination held an
/// enemy piece when the move was generated.  Moves are produced by the
/// generator and consumed once by the applier; they are never mutated.
#[derive(Clone, Copy, Debug, PartialEq, Eq, Structural)]
pub struct Move {
    pub start: Position,
    pub end: Position,
    pub piece_type: PieceType,
    pub is_capture: bool,
}

impl Move {
    /// A quiet move (no capture) between two squares.
    pub fn new(start: Position, end: Position, piece_type: PieceType) -> (r: Move)
        ensures
            r == (Move { start, end, piece_type, is_capture: false }),
    {
        Move { start, end, piece_type, is_capture: false }
    }
}

} // verus!
