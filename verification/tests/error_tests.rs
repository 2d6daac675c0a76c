use chess::error::ChessError;
use chess::piece::Color;
use chess::piece::PieceType;
use chess::position::File;
use chess::position::Position;
use chess::position::Rank;

#[test]
fn color_from_index_bounds() {
    assert_eq!(Ok(Color::White), Color::from_index(0));
    assert_eq!(Ok(Color::Black), Color::from_index(1));
    assert_eq!(Err(ChessError::InvalidIndex), Color::from_index(2));
}

#[test]
fn piece_type_from_index_bounds() {
    assert_eq!(Ok(PieceType::Pawn), PieceType::from_index(0));
    assert_eq!(Ok(PieceType::King), PieceType::from_index(5));
    assert_eq!(Err(ChessError::InvalidIndex), PieceType::from_index(6));
}

#[test]
fn rank_and_file_from_index_bounds() {
    assert_eq!(Ok(Rank::One), Rank::from_index(0));
    assert_eq!(Ok(Rank::Eight), Rank::from_index(7));
    assert_eq!(Err(ChessError::InvalidIndex), Rank::from_index(8));
    assert_eq!(Ok(File::A), File::from_index(0));
    assert_eq!(Ok(File::H), File::from_index(7));
    assert_eq!(Err(ChessError::InvalidIndex), File::from_index(8));
}

#[test]
fn position_round_trips_through_index() {
    for sq in 0..64usize {
        let p = Position::from_index(sq).unwrap();
        assert_eq!(sq, p.index());
    }
    assert_eq!(Err(ChessError::InvalidIndex), Position::from_index(64));
}

#[test]
fn position_from_bitboard_takes_lowest_square() {
    let p = Position::from_bitboard(0b1000).unwrap();
    assert_eq!(p.rank, Rank::One);
    assert_eq!(p.file, File::D);
    let p = Position::from_bitboard(0x8000000000000100).unwrap();
    assert_eq!(8, p.index());
}

#[test]
fn position_from_empty_bitboard_is_refused() {
    assert_eq!(
        Err(ChessError::MalformedBitboard),
        Position::from_bitboard(0)
    );
}

#[test]
fn piece_glyphs() {
    assert_eq!('P', PieceType::Pawn.glyph());
    assert_eq!('N', PieceType::Knight.glyph());
    assert_eq!('B', PieceType::Bishop.glyph());
    assert_eq!('R', PieceType::Rook.glyph());
    assert_eq!('Q', PieceType::Queen.glyph());
    assert_eq!('K', PieceType::King.glyph());
}

#[test]
fn color_opposite_swaps_sides() {
    assert_eq!(Color::Black, Color::White.opposite());
    assert_eq!(Color::White, Color::Black.opposite());
}
