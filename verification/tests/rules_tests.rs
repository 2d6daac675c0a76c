use chess::board::Board;
use chess::moves::Move;
use chess::piece::Color;
use chess::piece::PieceType;
use chess::rules::generate_bishop_moves;
use chess::rules::generate_king_moves;
use chess::rules::generate_knight_moves;
use chess::rules::generate_pawn_moves;
use chess::rules::generate_queen_moves;
use chess::rules::generate_rook_moves;
use chess::rules_bb::knight_attacks_bb;
use chess::rules_bb::rook_attacks_bb;

fn moves_to_u64(moves: &Vec<Move>) -> u64 {
    moves
        .iter()
        .fold(0u64, |b, m| b | (1u64 << m.end.index()))
}

#[test]
fn king_moves_empty() {
    let mut board = Board::empty();

    board.set_bb(PieceType::King, Color::White, 0x800000000); // d5
    let res = generate_king_moves(&board);
    assert_eq!(0x1c141c000000, moves_to_u64(&res));

    board.set_bb(PieceType::King, Color::White, 0x1); // a1
    let res = generate_king_moves(&board);
    assert_eq!(0x302, moves_to_u64(&res));

    board.set_bb(PieceType::King, Color::White, 0x80); // h1
    let res = generate_king_moves(&board);
    assert_eq!(0xc040, moves_to_u64(&res));

    board.set_bb(PieceType::King, Color::White, 0x1000000000000000); // e8
    let res = generate_king_moves(&board);
    assert_eq!(0x2838000000000000, moves_to_u64(&res));
}

#[test]
fn king_moves_blockers() {
    let mut board = Board::empty();
    board.set_bb(PieceType::King, Color::White, 0x1000000000000000); // e8

    board.set_bb(PieceType::Pawn, Color::White, 0x820000000000000); // d8, f7
    let res = generate_king_moves(&board);
    assert_eq!(0x2018000000000000, moves_to_u64(&res));

    board.set_bb(PieceType::Pawn, Color::White, 0u64);
    board.set_bb(PieceType::Pawn, Color::Black, 0x820000000000000); // d8, f7
    let res = generate_king_moves(&board);
    assert_eq!(0x2838000000000000, moves_to_u64(&res));
}

#[test]
fn knight_moves_empty() {
    let mut board = Board::empty();

    board.set_bb(PieceType::Knight, Color::White, 0x42); // initial white pos
    let res = generate_knight_moves(&board);
    assert_eq!(0xa51800, moves_to_u64(&res));

    board.set_bb(PieceType::Knight, Color::White, 0x400000000); // one knight on c5
    let res = generate_knight_moves(&board);
    assert_eq!(0xa1100110a0000, moves_to_u64(&res));

    board.set_bb(PieceType::Knight, Color::White, 0); // no knight
    let res = generate_knight_moves(&board);
    assert!(res.is_empty());
}

#[test]
fn knight_moves_blockers() {
    let mut board = Board::empty();
    board.set_bb(PieceType::Knight, Color::White, 0x400000000); // one knight on c5

    board.set_bb(PieceType::Pawn, Color::White, 0x8020001080000); // a4, b6, d3, d7
    let res = generate_knight_moves(&board);
    assert_eq!(0x2110010020000, moves_to_u64(&res));

    board.set_bb(PieceType::Pawn, Color::White, 0u64);
    board.set_bb(PieceType::Pawn, Color::Black, 0x8020001080000); // a4, b6, d3, d7
    let res = generate_knight_moves(&board);
    assert_eq!(0xa1100110a0000, moves_to_u64(&res));
}

#[test]
fn rook_moves_empty() {
    let mut board = Board::empty();

    board.set_bb(PieceType::Rook, Color::White, 0x200100000000); // c6 & h5
    let res = generate_rook_moves(&board);
    assert_eq!(0x2121dffe21212121, moves_to_u64(&res));
    assert_eq!(28, res.len());
}

#[test]
fn rook_moves_blockers() {
    let mut board = Board::empty();
    board.set_bb(PieceType::Rook, Color::White, 0x200100000000); // c6 & h5

    board.set_bb(PieceType::Pawn, Color::White, 0x2100444000002100); // lots of blockers
    let res = generate_rook_moves(&board);
    assert_eq!(0x21193e21210000, moves_to_u64(&res));

    board.set_bb(PieceType::Pawn, Color::White, 0u64);
    board.set_bb(PieceType::Pawn, Color::Black, 0x2100444000002100);
    let res = generate_rook_moves(&board);
    assert_eq!(0x21215d7e21212100, moves_to_u64(&res));
}

#[test]
fn bishop_moves_empty() {
    let mut board = Board::empty();

    board.set_bb(PieceType::Bishop, Color::White, 0x4000000); // c4
    let res = generate_bishop_moves(&board);
    assert_eq!(0x4020110a000a1120, moves_to_u64(&res));

    board.set_bb(PieceType::Bishop, Color::White, 0x200000); // f3
    let res = generate_bishop_moves(&board);
    assert_eq!(0x102048850005088, moves_to_u64(&res));

    board.set_bb(PieceType::Bishop, Color::White, 0x80000000000000); // H7
    let res = generate_bishop_moves(&board);
    assert_eq!(0x4000402010080402, moves_to_u64(&res));

    board.set_bb(PieceType::Bishop, Color::White, 0x8000000000000); // D7
    let res = generate_bishop_moves(&board);
    assert_eq!(0x1400142241800000, moves_to_u64(&res));
}

#[test]
fn bishop_moves_blockers() {
    let mut board = Board::empty();
    board.set_bb(PieceType::Bishop, Color::White, 0x4000000); // c4

    board.set_bb(PieceType::Pawn, Color::White, 0x20010020020000); // a6, b3, f7, f4
    let res = generate_bishop_moves(&board);
    assert_eq!(0x100a00081020, moves_to_u64(&res));

    board.set_bb(PieceType::Pawn, Color::White, 0u64); // remove white blockers
    board.set_bb(PieceType::Pawn, Color::Black, 0x20010020020000); // a6, b3, f7, f4
    let res = generate_bishop_moves(&board);
    assert_eq!(0x20110a000a1020, moves_to_u64(&res));
}

#[test]
fn pawn_moves_empty() {
    let mut board = Board::empty();

    board.set_bb(PieceType::Pawn, Color::White, 0x20429d00);
    let res = generate_pawn_moves(&board);
    // single pushes of every pawn, plus the double pushes of the five
    // pawns still on their home rank
    assert_eq!(0x20df9d0000, moves_to_u64(&res));

    board.side_to_move = Color::Black;
    board.set_bb(PieceType::Pawn, Color::White, 0);
    board.set_bb(PieceType::Pawn, Color::Black, 0x20429d00000000);
    let res = generate_pawn_moves(&board);
    assert_eq!(0x20629d000000, moves_to_u64(&res));
}

#[test]
fn queen_moves_empty() {
    let mut board = Board::empty();

    board.set_bb(PieceType::Queen, Color::White, 0x4000000); // c4
    let res = generate_queen_moves(&board);
    assert_eq!(0x4424150efb0e1524, moves_to_u64(&res));

    board.set_bb(PieceType::Queen, Color::White, 0x4008000); // c4 and h2
    let res = generate_queen_moves(&board);
    assert_eq!(0xc6a49d9efbce7fe4, moves_to_u64(&res));
}

#[test]
fn queen_moves_blockers() {
    let mut board = Board::empty();
    board.set_bb(PieceType::Queen, Color::White, 0x4000000); // c4

    board.set_bb(PieceType::Pawn, Color::White, 0x100041040000); // a4, c3, e6, g4
    let res = generate_queen_moves(&board);
    assert_eq!(0x404050e3a0a1120, moves_to_u64(&res));

    board.set_bb(PieceType::Pawn, Color::White, 0u64); // remove white blockers
    board.set_bb(PieceType::Pawn, Color::Black, 0x100041040000); // a4, c3, e6, g4
    let res = generate_queen_moves(&board);
    assert_eq!(0x404150e7b0e1120, moves_to_u64(&res));
}

#[test]
fn knight_attack_table_fixed_values() {
    // knight on d5: exactly eight destinations, as a fixed bitboard
    let d5 = knight_attacks_bb(35);
    assert_eq!(0x14220022140000, d5);
    assert_eq!(8, d5.count_ones());
    // knight in the a1 corner: exactly two destinations
    let a1 = knight_attacks_bb(0);
    assert_eq!(0x20400, a1);
    assert_eq!(2, a1.count_ones());
}

#[test]
fn rook_ray_stops_at_blocker() {
    // rook on a1, a blocker three squares up the a-file: the ray ends on
    // the blocker's square and never runs past it
    let attacks = rook_attacks_bb(0, 0x1000000);
    assert_eq!(0x10101fe, attacks);

    // an own pawn there is excluded from the moves; an enemy pawn is a
    // capture square
    let mut board = Board::empty();
    board.set_bb(PieceType::Rook, Color::White, 0x1);
    board.set_bb(PieceType::Pawn, Color::White, 0x1000000); // a4
    let res = generate_rook_moves(&board);
    assert_eq!(0x101fe, moves_to_u64(&res));

    board.set_bb(PieceType::Pawn, Color::White, 0);
    board.set_bb(PieceType::Pawn, Color::Black, 0x1000000); // a4
    let res = generate_rook_moves(&board);
    assert_eq!(0x10101fe, moves_to_u64(&res));
    for m in &res {
        assert_eq!(m.is_capture, m.end.index() == 24);
    }
}

#[test]
fn pawn_captures_diagonal_only_enemies() {
    // white pawn on d4, black pawns on c5 and e5: one push and two
    // flagged captures
    let mut board = Board::empty();
    board.set_bb(PieceType::Pawn, Color::White, 0x8000000); // d4
    board.set_bb(PieceType::Pawn, Color::Black, 0x1400000000); // c5, e5
    let res = generate_pawn_moves(&board);
    assert_eq!(0x1c00000000, moves_to_u64(&res));
    assert_eq!(3, res.len());
    for m in &res {
        assert_eq!(m.is_capture, m.end.index() != 35);
    }
}

#[test]
fn pawn_capture_never_wraps_files() {
    // white pawn on a4, black pawn on h4: the squares a5 and h4 are
    // neighbors in the bit layout but lie on opposite edges of the board,
    // so no capture exists
    let mut board = Board::empty();
    board.set_bb(PieceType::Pawn, Color::White, 0x1000000); // a4
    board.set_bb(PieceType::Pawn, Color::Black, 0x80000000); // h4
    let res = generate_pawn_moves(&board);
    assert_eq!(0x100000000, moves_to_u64(&res)); // the a5 push only
    assert_eq!(1, res.len());
    assert!(!res[0].is_capture);
}
