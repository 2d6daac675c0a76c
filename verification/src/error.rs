use vstd::prelude::*;

verus! {

/// The ways a caller can misuse the engine's interfaces, and the interfaces
/// that are declared but deliberately not provided yet.
#[derive(Clone, Copy, Debug, PartialEq, Eq, Structural)]
pub enum ChessError {
    /// A square was asked of a bitboard that holds no square at all.
    MalformedBitboard,
    /// An integer outside its domain was offered as a square, rank, file,
    /// piece or color index.
    InvalidIndex,
    /// The operation is a named extension point with no implementation
    /// behind it; the caller must not mistake this for a real answer.
    UnimplementedOperation,
}

} // verus!
