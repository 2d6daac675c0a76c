use chess::board::Board;
use chess::error::ChessError;
use chess::moves::Move;
use chess::piece::Color;
use chess::piece::PieceType;
use chess::position::File;
use chess::position::Position;
use chess::position::Rank;
use chess::rules::generate_bishop_moves;
use chess::rules::generate_king_moves;
use chess::rules::generate_knight_moves;
use chess::rules::generate_queen_moves;
use chess::rules::generate_rook_moves;

fn moves_to_u64(moves: &Vec<Move>) -> u64 {
    moves
        .iter()
        .fold(0u64, |b, m| b | (1u64 << m.end.index()))
}

#[test]
fn do_move_e4() {
    let mut board = Board::new();
    let m = Move::new(
        Position {
            rank: Rank::Two,
            file: File::E,
        },
        Position {
            rank: Rank::Four,
            file: File::E,
        },
        PieceType::Pawn,
    );

    assert!(board.is_move_legal(&m));

    board.do_move(&m);

    // the full-move counter advances only once Black has answered
    assert_eq!(board.turn, 0);
    assert_eq!(board.side_to_move, Color::Black);
    assert_eq!(0x1000ef00, board.at(PieceType::Pawn, Color::White));
}

#[test]
fn test_blockers_bb() {
    let board = Board::new();
    assert_eq!(0xffff000000000000, board.enemies_bb());
    assert_eq!(0xffff, board.friends_bb());
}

#[test]
fn legal_moves_pieces_start() {
    let board = Board::new();

    let moves = generate_rook_moves(&board);
    assert_eq!(0, moves.len(), "expected 0, got {}", moves_to_u64(&moves));

    let moves = generate_knight_moves(&board);
    assert_eq!(4, moves.len(), "expected 4, got {}", moves_to_u64(&moves));

    let moves = generate_bishop_moves(&board);
    assert_eq!(0, moves.len(), "expected 0, got {}", moves_to_u64(&moves));

    let moves = generate_queen_moves(&board);
    assert_eq!(0, moves.len(), "expected 0, got {}", moves_to_u64(&moves));

    let moves = generate_king_moves(&board);
    assert_eq!(0, moves.len(), "expected 0, got {}", moves_to_u64(&moves));
}

#[test]
fn start_layout() {
    let board = Board::new();
    assert_eq!(0xff00, board.at(PieceType::Pawn, Color::White));
    assert_eq!(0x42, board.at(PieceType::Knight, Color::White));
    assert_eq!(0x24, board.at(PieceType::Bishop, Color::White));
    assert_eq!(0x81, board.at(PieceType::Rook, Color::White));
    assert_eq!(0x8, board.at(PieceType::Queen, Color::White)); // d1
    assert_eq!(0x10, board.at(PieceType::King, Color::White)); // e1
    assert_eq!(0xff000000000000, board.at(PieceType::Pawn, Color::Black));
    assert_eq!(0x4200000000000000, board.at(PieceType::Knight, Color::Black));
    assert_eq!(0x2400000000000000, board.at(PieceType::Bishop, Color::Black));
    assert_eq!(0x8100000000000000, board.at(PieceType::Rook, Color::Black));
    assert_eq!(0x800000000000000, board.at(PieceType::Queen, Color::Black)); // d8
    assert_eq!(0x1000000000000000, board.at(PieceType::King, Color::Black)); // e8
    assert_eq!(Color::White, board.side_to_move);
    assert_eq!(0, board.turn);
    assert!(board.white_king_castling);
    assert!(board.white_queen_castling);
    assert!(board.black_king_castling);
    assert!(board.black_queen_castling);
}

#[test]
fn side_alternates_and_turn_counts_full_moves() {
    let mut board = Board::new();
    let e3 = Move::new(
        Position { rank: Rank::Two, file: File::E },
        Position { rank: Rank::Three, file: File::E },
        PieceType::Pawn,
    );
    board.do_move(&e3);
    assert_eq!(Color::Black, board.side_to_move);
    assert_eq!(0, board.turn);

    let a6 = Move::new(
        Position { rank: Rank::Seven, file: File::A },
        Position { rank: Rank::Six, file: File::A },
        PieceType::Pawn,
    );
    board.do_move(&a6);
    assert_eq!(Color::White, board.side_to_move);
    assert_eq!(1, board.turn);

    let d3 = Move::new(
        Position { rank: Rank::Two, file: File::D },
        Position { rank: Rank::Three, file: File::D },
        PieceType::Pawn,
    );
    board.do_move(&d3);
    assert_eq!(Color::Black, board.side_to_move);
    assert_eq!(1, board.turn);

    let b6 = Move::new(
        Position { rank: Rank::Seven, file: File::B },
        Position { rank: Rank::Six, file: File::B },
        PieceType::Pawn,
    );
    board.do_move(&b6);
    assert_eq!(Color::White, board.side_to_move);
    assert_eq!(2, board.turn);
}

#[test]
fn do_move_capture_removes_enemy_piece() {
    let mut board = Board::empty();
    board.set_bb(PieceType::Pawn, Color::White, 0x8000000); // d4
    board.set_bb(PieceType::Knight, Color::Black, 0x400000000); // c5
    let capture = Move {
        start: Position { rank: Rank::Four, file: File::D },
        end: Position { rank: Rank::Five, file: File::C },
        piece_type: PieceType::Pawn,
        is_capture: true,
    };
    board.do_move(&capture);
    assert_eq!(0x400000000, board.at(PieceType::Pawn, Color::White));
    assert_eq!(0, board.at(PieceType::Knight, Color::Black));
    assert_eq!(Color::Black, board.side_to_move);
}

#[test]
fn generated_destinations_avoid_friends() {
    let mut board = Board::new();
    let mut seen: u64 = 0;
    for m in board.generate_legal_moves() {
        assert_eq!(0, board.friends_bb() & (1u64 << m.end.index()));
        seen |= 1u64 << m.end.index();
    }
    assert_ne!(0, seen);

    // the same after a couple of moves, from Black's side
    let e4 = Move::new(
        Position { rank: Rank::Two, file: File::E },
        Position { rank: Rank::Four, file: File::E },
        PieceType::Pawn,
    );
    board.do_move(&e4);
    for m in board.generate_legal_moves() {
        assert_eq!(0, board.friends_bb() & (1u64 << m.end.index()));
    }
}

#[test]
fn from_fen_reports_unimplemented() {
    let parsed = Board::from_fen("rnbqkbnr/pppppppp/8/8/8/8/PPPPPPPP/RNBQKBNR w KQkq - 0 1");
    assert_eq!(parsed.unwrap_err(), ChessError::UnimplementedOperation);
}
