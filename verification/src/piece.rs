use vstd::prelude::*;

use crate::error::ChessError;

verus! {

/// The two sides.  `as_index` fixes the storage convention: the six White
/// boards come first in a board array, the six Black boards after them.
#[derive(Clone, Copy, Debug, PartialEq, Eq, Structural)]
pub enum Color {
    White,
    Black,
}

impl Color {
    /// Storage index of the side: White 0, Black 1.
    pub open spec fn as_index(self) -> int {
        match self {
            Color::White => 0,
            Color::Black => 1,
        }
    }

    pub open spec fn opposite_spec(self) -> Color {
        match self {
            Color::White => Color::Black,
            Color::Black => Color::White,
        }
    }

    pub fn index(self) -> (r: usize)
        ensures
            r as int == self.as_index(),
    {
        match self {
            Color::White => 0,
            Color::Black => 1,
        }
    }

    pub fn opposite(self) -> (r: Color)
        ensures
            r == self.opposite_spec(),
    {
        match self {
            Color::White => Color::Black,
            Color::Black => Color::White,
        }
    }

    /// The side with storage index `i`; an index outside 0..2 is refused
    /// rather than mapped to anything.
    pub fn from_index(i: usize) -> (r: Result<Color, ChessError>)
        ensures
            r == (if i == 0 {
                Ok::<Color, ChessError>(Color::White)
            } else if i == 1 {
                Ok::<Color, ChessError>(Color::Black)
            } else {
                Err::<Color, ChessError>(ChessError::InvalidIndex)
            }),
    {
        match i {
            0 => Ok(Color::White),
            1 => Ok(Color::Black),
            _ => Err(ChessError::InvalidIndex),
        }
    }
}

/// The six piece kinds.  `as_index` fixes the storage convention inside one
/// side's six boards: pawn, knight, bishop, rook, queen, king.
#[derive(Clone, Copy, Debug, PartialEq, Eq, Structural)]
pub enum PieceType {
    Pawn,
    Knight,
    Bishop,
    Rook,
    Queen,
    King,
}

impl PieceType {
    /// Storage index of the piece kind within one side's boards.
    pub open spec fn as_index(self) -> int {
        match self {
            PieceType::Pawn => 0,
            PieceType::Knight => 1,
            PieceType::Bishop => 2,
            PieceType::Rook => 3,
            PieceType::Queen => 4,
            PieceType::King => 5,
        }
    }

    pub open spec fn glyph_spec(self) -> char {
        match self {
            PieceType::Pawn => 'P',
            PieceType::Knight => 'N',
            PieceType::Bishop => 'B',
            PieceType::Rook => 'R',
            PieceType::Queen => 'Q',
            PieceType::King => 'K',
        }
    }

    pub fn index(self) -> (r: usize)
        ensures
            r as int == self.as_index(),
    {
        match self {
            PieceType::Pawn => 0,
            PieceType::Knight => 1,
            PieceType::Bishop => 2,
            PieceType::Rook => 3,
            PieceType::Queen => 4,
            PieceType::King => 5,
        }
    }

    /// One letter per piece kind, for rendering a board as text.
    pub fn glyph(self) -> (r: char)
        ensures
            r == self.glyph_spec(),
    {
        match self {
            PieceType::Pawn => 'P',
            PieceType::Knight => 'N',
            PieceType::Bishop => 'B',
            PieceType::Rook => 'R',
            PieceType::Queen => 'Q',
            PieceType::King => 'K',
        }
    }

    /// The piece kind with storage index `i`; an index outside 0..6 is
    /// refused rather than mapped to anything.
    pub fn from_index(i: usize) -> (r: Result<PieceType, ChessError>)
        ensures
            i < 6 ==> (r matches Ok(p) && p.as_index() == i as int),
            i >= 6 ==> r == Err::<PieceType, ChessError>(ChessError::InvalidIndex),
    {
        match i {
            0 => Ok(PieceType::Pawn),
            1 => Ok(PieceType::Knight),
            2 => Ok(PieceType::Bishop),
            3 => Ok(PieceType::Rook),
            4 => Ok(PieceType::Queen),
            5 => Ok(PieceType::King),
            _ => Err(ChessError::InvalidIndex),
        }
    }
}

} // verus!
