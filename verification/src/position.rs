use vstd::prelude::*;

use crate::bits::bit_at;
use crate::bits::BitOperations;
use crate::error::ChessError;

verus! {

/// A rank of the board, rank 1 at index 0 up to rank 8 at index 7.
#[derive(Clone, Copy, Debug, PartialEq, Eq, Structural)]
pub enum Rank {
    One,
    Two,
    Three,
    Four,
    Five,
    Six,
    Seven,
    Eight,
}

impl Rank {
    pub open spec fn as_index(self) -> int {
        match self {
            Rank::One => 0,
            Rank::Two => 1,
            Rank::Three => 2,
            Rank::Four => 3,
            Rank::Five => 4,
            Rank::Six => 5,
            Rank::Seven => 6,
            Rank::Eight => 7,
        }
    }

    pub fn index(self) -> (r: usize)
        ensures
            r as int == self.as_index(),
    {
        match self {
            Rank::One => 0,
            Rank::Two => 1,
            Rank::Three => 2,
            Rank::Four => 3,
            Rank::Five => 4,
            Rank::Six => 5,
            Rank::Seven => 6,
            Rank::Eight => 7,
        }
    }

    /// The rank with index `i`, for an index already known to be in range.
    pub fn of_index(i: usize) -> (r: Rank)
        requires
            i < 8,
        ensures
            r.as_index() == i as int,
    {
        match i {
            0 => Rank::One,
            1 => Rank::Two,
            2 => Rank::Three,
            3 => Rank::Four,
            4 => Rank::Five,
            5 => Rank::Six,
            6 => Rank::Seven,
            _ => Rank::Eight,
        }
    }

    /// The rank with index `i`; an index outside 0..8 is refused.
    pub fn from_index(i: usize) -> (r: Result<Rank, ChessError>)
        ensures
            i < 8 ==> (r matches Ok(rk) && rk.as_index() == i as int),
            i >= 8 ==> r == Err::<Rank, ChessError>(ChessError::InvalidIndex),
    {
        if i < 8 {
            Ok(Rank::of_index(i))
        } else {
            Err(ChessError::InvalidIndex)
        }
    }
}

/// A file of the board, the a-file at index 0 up to the h-file at index 7.
#[derive(Clone, Copy, Debug, PartialEq, Eq, Structural)]
pub enum File {
    A,
    B,
    C,
    D,
    E,
    F,
    G,
    H,
}

impl File {
    pub open spec fn as_index(self) -> int {
        match self {
            File::A => 0,
            File::B => 1,
            File::C => 2,
            File::D => 3,
            File::E => 4,
            File::F => 5,
            File::G => 6,
            File::H => 7,
        }
    }

    pub fn index(self) -> (r: usize)
        ensures
            r as int == self.as_index(),
    {
        match self {
            File::A => 0,
            File::B => 1,
            File::C => 2,
            File::D => 3,
            File::E => 4,
            File::F => 5,
            File::G => 6,
            File::H => 7,
        }
    }

    /// The file with index `i`, for an index already known to be in range.
    pub fn of_index(i: usize) -> (r: File)
        requires
            i < 8,
        ensures
            r.as_index() == i as int,
    {
        match i {
            0 => File::A,
            1 => File::B,
            2 => File::C,
            3 => File::D,
            4 => File::E,
            5 => File::F,
            6 => File::G,
            _ => File::H,
        }
    }

    /// The file with index `i`; an index outside 0..8 is refused.
    pub fn from_index(i: usize) -> (r: Result<File, ChessError>)
        ensures
            i < 8 ==> (r matches Ok(f) && f.as_index() == i as int),
            i >= 8 ==> r == Err::<File, ChessError>(ChessError::InvalidIndex),
    {
        if i < 8 {
            Ok(File::of_index(i))
        } else {
            Err(ChessError::InvalidIndex)
        }
    }
}

/// A square of the board, as the pair of its rank and file.  Its bit index
/// is `8 * rank + file`, so a1 is 0 and h8 is 63.
#[derive(Clone, Copy, Debug, PartialEq, Eq, Structural)]
pub struct Position {
    pub rank: Rank,
    pub file: File,
}

impl Position {
    /// The bit index of the square, between 0 and 63.
    pub open spec fn index_spec(self) -> int {
        8 * self.rank.as_index() + self.file.as_index()
    }

    pub fn index(self) -> (r: usize)
        ensures
            r as int == self.index_spec(),
            r < 64,
    {
        self.rank.index() * 8 + self.file.index()
    }

    /// The square with bit index `sq`, for an index already known to be in
    /// range.
    pub fn from_square(sq: usize) -> (r: Position)
        requires
            sq < 64,
        ensures
            r.index_spec() == sq as int,
            r.rank.as_index() == sq as int / 8,
            r.file.as_index() == sq as int % 8,
    {
        Position { rank: Rank::of_index(sq / 8), file: File::of_index(sq % 8) }
    }

    /// The square with bit index `sq`; an index outside 0..64 is refused.
    pub fn from_index(sq: usize) -> (r: Result<Position, ChessError>)
        ensures
            sq < 64 ==> (r matches Ok(p) && p.index_spec() == sq as int),
            sq >= 64 ==> r == Err::<Position, ChessError>(ChessError::InvalidIndex),
    {
        if sq < 64 {
            Ok(Position::from_square(sq))
        } else {
            Err(ChessError::InvalidIndex)
        }
    }

    /// The square of the lowest set bit of `bb`.  A zero bitboard holds no
    /// square, and is refused rather than mapped to a default square.
    pub fn from_bitboard(bb: u64) -> (r: Result<Position, ChessError>)
        ensures
            bb == 0 ==> r == Err::<Position, ChessError>(ChessError::MalformedBitboard),
            bb != 0 ==> (r matches Ok(p) && bit_at(bb, p.index_spec()) && forall|i: int|
                0 <= i < p.index_spec() ==> !bit_at(bb, i)),
    {
        if bb == 0 {
            Err(ChessError::MalformedBitboard)
        } else {
            Ok(Position::from_square(bb.lsb_index()))
        }
    }

    /// Two squares with the same bit index are the same square.
    pub proof fn lemma_index_injective(p1: Position, p2: Position)
        requires
            p1.index_spec() == p2.index_spec(),
        ensures
            p1 == p2,
    {
        assert(0 <= p1.rank.as_index() < 8);
        assert(0 <= p1.file.as_index() < 8);
        assert(0 <= p2.rank.as_index() < 8);
        assert(0 <= p2.file.as_index() < 8);
        assert(p1.rank.as_index() == p2.rank.as_index());
        assert(p1.file.as_index() == p2.file.as_index());
        assert(p1.rank == p2.rank);
        assert(p1.file == p2.file);
    }
}

} // verus!
