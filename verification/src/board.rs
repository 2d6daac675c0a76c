use vstd::prelude::*;

use crate::bits::bit_at;
use crate::bits::lemma_bit_test;
use crate::bits::BitOperations;
use crate::error::ChessError;
use crate::moves::Move;
use crate::piece::Color;
use crate::piece::PieceType;
use crate::rules::generate_bishop_moves;
use crate::rules::generate_king_moves;
use crate::rules::generate_knight_moves;
use crate::rules::generate_pawn_moves;
use crate::rules::generate_queen_moves;
use crate::rules::generate_rook_moves;
use crate::rules::lemma_contains_concat;
use crate::rules::lemma_pseudo_legal_determined;
use crate::rules::pseudo_legal_move;

verus! {

/// Index of the board of one (color, piece type) pair in the array of
/// twelve: the six White boards first, each side's boards in the order
/// pawn, knight, bishop, rook, queen, king.
pub open spec fn board_index(c: Color, p: PieceType) -> int {
    c.as_index() * 6 + p.as_index()
}

/// The full game state: twelve occupancy boards, the side to move, the
/// full-move counter, and the four castling-rights flags.  The flags are
/// tracked but nothing reads or writes them yet; castling itself is a
/// planned extension.
#[derive(Clone, Copy, Debug)]
pub struct Board {
    pub bitboards: [u64; 12],
    pub side_to_move: Color,
    pub turn: u32,
    pub white_king_castling: bool,
    pub white_queen_castling: bool,
    pub black_king_castling: bool,
    pub black_queen_castling: bool,
}

impl Board {
    /// The board of one (color, piece type) pair.
    pub open spec fn piece_bb_spec(self, c: Color, p: PieceType) -> u64 {
        self.bitboards[board_index(c, p)]
    }

    /// Every square one side occupies.
    pub open spec fn side_bb_spec(self, c: Color) -> u64 {
        self.piece_bb_spec(c, PieceType::Pawn) | self.piece_bb_spec(c, PieceType::Knight)
            | self.piece_bb_spec(c, PieceType::Bishop) | self.piece_bb_spec(c, PieceType::Rook)
            | self.piece_bb_spec(c, PieceType::Queen) | self.piece_bb_spec(c, PieceType::King)
    }

    /// Every square the side to move occupies.
    pub open spec fn friends_spec(self) -> u64 {
        self.side_bb_spec(self.side_to_move)
    }

    /// Every square the opponent of the side to move occupies.
    pub open spec fn enemies_spec(self) -> u64 {
        self.side_bb_spec(self.side_to_move.opposite_spec())
    }

    /// Every occupied square.
    pub open spec fn occupancy_spec(self) -> u64 {
        self.friends_spec() | self.enemies_spec()
    }

    /// No square is set in more than one of the twelve boards.
    pub open spec fn well_formed(self) -> bool {
        forall|i: int, j: int|
            0 <= i < j < 12 ==> #[trigger] (self.bitboards[i] & self.bitboards[j]) == 0
    }

    /// The standard starting position: the usual back ranks and pawn rows,
    /// White to move, every castling right intact, move counter at zero.
    pub fn new() -> (r: Board)
        ensures
            r.bitboards@ =~= seq![
                0x000000000000ff00u64,
                0x0000000000000042u64,
                0x0000000000000024u64,
                0x0000000000000081u64,
                0x0000000000000008u64,
                0x0000000000000010u64,
                0x00ff000000000000u64,
                0x4200000000000000u64,
                0x2400000000000000u64,
                0x8100000000000000u64,
                0x0800000000000000u64,
                0x1000000000000000u64,
            ],
            r.side_to_move == Color::White,
            r.turn == 0,
            r.white_king_castling,
            r.white_queen_castling,
            r.black_king_castling,
            r.black_queen_castling,
            r.well_formed(),
    {
        let r = Board {
            bitboards: [
                0x000000000000ff00u64,  // white pawns
                0x0000000000000042u64,  // white knights
                0x0000000000000024u64,  // white bishops
                0x0000000000000081u64,  // white rooks
                0x0000000000000008u64,  // white queen
                0x0000000000000010u64,  // white king
                0x00ff000000000000u64,  // black pawns
                0x4200000000000000u64,  // black knights
                0x2400000000000000u64,  // black bishops
                0x8100000000000000u64,  // black rooks
                0x0800000000000000u64,  // black queen
                0x1000000000000000u64,  // black king
            ],
            side_to_move: Color::White,
            turn: 0,
            white_king_castling: true,
            white_queen_castling: true,
            black_king_castling: true,
            black_queen_castling: true,
        };
        proof {
            assert(0xff00u64 & 0x42u64 == 0 && 0xff00u64 & 0x24u64 == 0 && 0xff00u64 & 0x81u64 == 0
                && 0xff00u64 & 0x8u64 == 0 && 0xff00u64 & 0x10u64 == 0 && 0x42u64 & 0x24u64 == 0
                && 0x42u64 & 0x81u64 == 0 && 0x42u64 & 0x8u64 == 0 && 0x42u64 & 0x10u64 == 0
                && 0x24u64 & 0x81u64 == 0 && 0x24u64 & 0x8u64 == 0 && 0x24u64 & 0x10u64 == 0
                && 0x81u64 & 0x8u64 == 0 && 0x81u64 & 0x10u64 == 0 && 0x8u64 & 0x10u64 == 0)
                by (bit_vector);
            assert(0x00ff000000000000u64 & 0x4200000000000000u64 == 0 && 0x00ff000000000000u64
                & 0x2400000000000000u64 == 0 && 0x00ff000000000000u64 & 0x8100000000000000u64 == 0
                && 0x00ff000000000000u64 & 0x0800000000000000u64 == 0 && 0x00ff000000000000u64
                & 0x1000000000000000u64 == 0 && 0x4200000000000000u64 & 0x2400000000000000u64 == 0
                && 0x4200000000000000u64 & 0x8100000000000000u64 == 0 && 0x4200000000000000u64
                & 0x0800000000000000u64 == 0 && 0x4200000000000000u64 & 0x1000000000000000u64 == 0
                && 0x2400000000000000u64 & 0x8100000000000000u64 == 0 && 0x2400000000000000u64
                & 0x0800000000000000u64 == 0 && 0x2400000000000000u64 & 0x1000000000000000u64 == 0
                && 0x8100000000000000u64 & 0x0800000000000000u64 == 0 && 0x8100000000000000u64
                & 0x1000000000000000u64 == 0 && 0x0800000000000000u64 & 0x1000000000000000u64 == 0)
                by (bit_vector);
            assert forall|a: u64, b: u64|
                a & 0xffffu64 == a && b & 0xffff000000000000u64 == b implies #[trigger] (a & b)
                == 0 by {
                assert(a & 0xffffu64 == a && b & 0xffff000000000000u64 == b ==> a & b == 0)
                    by (bit_vector);
            }
            assert(0xff00u64 & 0xffffu64 == 0xff00u64 && 0x42u64 & 0xffffu64 == 0x42u64 && 0x24u64
                & 0xffffu64 == 0x24u64 && 0x81u64 & 0xffffu64 == 0x81u64 && 0x8u64 & 0xffffu64
                == 0x8u64 && 0x10u64 & 0xffffu64 == 0x10u64) by (bit_vector);
            assert(0x00ff000000000000u64 & 0xffff000000000000u64 == 0x00ff000000000000u64
                && 0x4200000000000000u64 & 0xffff000000000000u64 == 0x4200000000000000u64
                && 0x2400000000000000u64 & 0xffff000000000000u64 == 0x2400000000000000u64
                && 0x8100000000000000u64 & 0xffff000000000000u64 == 0x8100000000000000u64
                && 0x0800000000000000u64 & 0xffff000000000000u64 == 0x0800000000000000u64
                && 0x1000000000000000u64 & 0xffff000000000000u64 == 0x1000000000000000u64)
                by (bit_vector);
        }
        r
    }

    /// A board with no pieces at all: the blank sheet the tests place
    /// pieces on.  White to move, flags intact, move counter at zero.
    pub fn empty() -> (r: Board)
        ensures
            forall|i: int| 0 <= i < 12 ==> r.bitboards[i] == 0u64,
            r.side_to_move == Color::White,
            r.turn == 0,
            r.white_king_castling,
            r.white_queen_castling,
            r.black_king_castling,
            r.black_queen_castling,
            r.well_formed(),
    {
        let r = Board {
            bitboards: [0u64, 0u64, 0u64, 0u64, 0u64, 0u64, 0u64, 0u64, 0u64, 0u64, 0u64, 0u64],
            side_to_move: Color::White,
            turn: 0,
            white_king_castling: true,
            white_queen_castling: true,
            black_king_castling: true,
            black_queen_castling: true,
        };
        proof {
            assert(0u64 & 0u64 == 0u64) by (bit_vector);
        }
        r
    }

    /// The board of an explicit (piece type, color) pair, for diagnostics
    /// and tests.
    pub fn at(&self, piece: PieceType, color: Color) -> (r: u64)
        ensures
            r == self.piece_bb_spec(color, piece),
    {
        self.bitboards[color.index() * 6 + piece.index()]
    }

    /// Replace the board of one (piece type, color) pair.
    pub fn set_bb(&mut self, piece: PieceType, color: Color, bb: u64)
        ensures
            final(self).bitboards@ == old(self).bitboards@.update(board_index(color, piece), bb),
            final(self).side_to_move == old(self).side_to_move,
            final(self).turn == old(self).turn,
            final(self).white_king_castling == old(self).white_king_castling,
            final(self).white_queen_castling == old(self).white_queen_castling,
            final(self).black_king_castling == old(self).black_king_castling,
            final(self).black_queen_castling == old(self).black_queen_castling,
    {
        let idx = color.index() * 6 + piece.index();
        self.bitboards[idx] = bb;
    }

    /// The side-relative board of one piece type: the side to move's own
    /// board of that piece, with no color argument needed.
    pub fn piece_bb(&self, piece: PieceType) -> (r: u64)
        ensures
            r == self.piece_bb_spec(self.side_to_move, piece),
    {
        self.bitboards[self.side_to_move.index() * 6 + piece.index()]
    }

    /// Union of the six boards of the side to move.
    pub fn friends_bb(&self) -> (r: u64)
        ensures
            r == self.friends_spec(),
    {
        let off = self.side_to_move.index() * 6;
        self.bitboards[off] | self.bitboards[off + 1] | self.bitboards[off + 2]
            | self.bitboards[off + 3] | self.bitboards[off + 4] | self.bitboards[off + 5]
    }

    /// Union of the six boards of the opponent of the side to move.
    pub fn enemies_bb(&self) -> (r: u64)
        ensures
            r == self.enemies_spec(),
    {
        let off = self.side_to_move.opposite().index() * 6;
        self.bitboards[off] | self.bitboards[off + 1] | self.bitboards[off + 2]
            | self.bitboards[off + 3] | self.bitboards[off + 4] | self.bitboards[off + 5]
    }

    /// The legality filter the aggregator applies: an extension point that
    /// must one day reject moves leaving the mover's own king in check.
    /// Nothing is implemented behind it yet, so it accepts every move, and
    /// the aggregator's output is pseudo-legal only.
    pub fn is_move_legal(&self, _m: &Move) -> (r: bool)
        ensures
            r,
    {
        true
    }

    /// Building a board from forsyth-edwards notation is a declared
    /// collaborator with no implementation behind it yet; the call reports
    /// that rather than hand back a half-right board.
    pub fn from_fen(_text: &str) -> (r: Result<Board, ChessError>)
        ensures
            r == Err::<Board, ChessError>(ChessError::UnimplementedOperation),
    {
        Err(ChessError::UnimplementedOperation)
    }

    /// Append to `v` the moves of `part` that the legality filter accepts.
    /// The filter accepts everything for now, so every move is kept.
    fn keep_legal(&self, part: Vec<Move>, v: &mut Vec<Move>)
        ensures
            final(v)@ == old(v)@ + part@,
    {
        proof {
            assert(old(v)@ + part@.subrange(0, 0) =~= old(v)@);
        }
        let mut i: usize = 0;
        while i < part.len()
            invariant
                i <= part.len(),
                v@ == old(v)@ + part@.subrange(0, i as int),
            decreases part.len() - i,
        {
            let m = part[i];
            if self.is_move_legal(&m) {
                v.push(m);
            }
            proof {
                assert(part@.subrange(0, i + 1) =~= part@.subrange(0, i as int).push(part@[i as int]));
                assert(old(v)@ + part@.subrange(0, i + 1) =~= (old(v)@ + part@.subrange(0, i as int)).push(part@[i as int]));
            }
            i += 1;
        }
        proof {
            assert(part@.subrange(0, part@.len() as int) =~= part@);
        }
    }

    /// Every pseudo-legal move of the side to move, each one run through
    /// the legality filter: pawn, rook, knight, bishop, queen and king
    /// moves in that order.  While the filter accepts everything, the
    /// output is exactly the pseudo-legal move set, with no duplicated
    /// (start, end) pair.
    pub fn generate_legal_moves(&self) -> (r: Vec<Move>)
        requires
            self.well_formed(),
        ensures
            forall|m: Move| #[trigger] r@.contains(m) <==> pseudo_legal_move(*self, m),
            forall|i: int, j: int|
                0 <= i < j < r@.len() ==> !(r@[i].start == r@[j].start && r@[i].end == r@[j].end),
    {
        let mut v: Vec<Move> = Vec::new();
        let part_p = generate_pawn_moves(self);
        let ghost pg = part_p@;
        self.keep_legal(part_p, &mut v);
        proof {
            lemma_contains_concat(Seq::<Move>::empty(), pg);
            assert(v@ =~= pg);
            assert forall|m: Move|
                #[trigger] v@.contains(m) <==> (pseudo_legal_move(*self, m) && m.piece_type
                    == PieceType::Pawn) by {}
            assert forall|i: int|
                0 <= i < v@.len() implies (#[trigger] v@[i]).piece_type == PieceType::Pawn by {
                assert(v@[i] == pg[i]);
            }
            assert forall|i: int, j: int| 0 <= i < j < v@.len() implies v@[i] != v@[j] by {
                assert(v@[i] == pg[i] && v@[j] == pg[j]);
                assert(!(pg[i].start == pg[j].start && pg[i].end == pg[j].end));
            }
        }
        let part_r = generate_rook_moves(self);
        let ghost vpre_r = v@;
        let ghost rg = part_r@;
        self.keep_legal(part_r, &mut v);
        proof {
            lemma_contains_concat(vpre_r, rg);
            assert forall|m: Move|
                #[trigger] v@.contains(m) <==> (pseudo_legal_move(*self, m) && (m.piece_type
                    == PieceType::Pawn || m.piece_type == PieceType::Rook)) by {}
            assert forall|i: int|
                0 <= i < v@.len() implies ((#[trigger] v@[i]).piece_type == PieceType::Pawn
                || v@[i].piece_type == PieceType::Rook) by {
                if i < vpre_r.len() {
                    assert(v@[i] == vpre_r[i]);
                } else {
                    assert(v@[i] == rg[i - vpre_r.len()]);
                }
            }
            assert forall|i: int, j: int| 0 <= i < j < v@.len() implies v@[i] != v@[j] by {
                if j < vpre_r.len() {
                    assert(v@[i] == vpre_r[i] && v@[j] == vpre_r[j]);
                } else if i >= vpre_r.len() {
                    assert(v@[i] == rg[i - vpre_r.len()] && v@[j] == rg[j - vpre_r.len()]);
                    assert(!(rg[i - vpre_r.len()].start == rg[j - vpre_r.len()].start && rg[i
                        - vpre_r.len()].end == rg[j - vpre_r.len()].end));
                } else {
                    assert(v@[i] == vpre_r[i] && v@[j] == rg[j - vpre_r.len()]);
                }
            }
        }
        let part_n = generate_knight_moves(self);
        let ghost vpre_n = v@;
        let ghost ng = part_n@;
        self.keep_legal(part_n, &mut v);
        proof {
            lemma_contains_concat(vpre_n, ng);
            assert forall|m: Move|
                #[trigger] v@.contains(m) <==> (pseudo_legal_move(*self, m) && (m.piece_type
                    == PieceType::Pawn || m.piece_type == PieceType::Rook || m.piece_type
                    == PieceType::Knight)) by {}
            assert forall|i: int|
                0 <= i < v@.len() implies ((#[trigger] v@[i]).piece_type == PieceType::Pawn
                || v@[i].piece_type == PieceType::Rook || v@[i].piece_type == PieceType::Knight)
                by {
                if i < vpre_n.len() {
                    assert(v@[i] == vpre_n[i]);
                } else {
                    assert(v@[i] == ng[i - vpre_n.len()]);
                }
            }
            assert forall|i: int, j: int| 0 <= i < j < v@.len() implies v@[i] != v@[j] by {
                if j < vpre_n.len() {
                    assert(v@[i] == vpre_n[i] && v@[j] == vpre_n[j]);
                } else if i >= vpre_n.len() {
                    assert(v@[i] == ng[i - vpre_n.len()] && v@[j] == ng[j - vpre_n.len()]);
                    assert(!(ng[i - vpre_n.len()].start == ng[j - vpre_n.len()].start && ng[i
                        - vpre_n.len()].end == ng[j - vpre_n.len()].end));
                } else {
                    assert(v@[i] == vpre_n[i] && v@[j] == ng[j - vpre_n.len()]);
                }
            }
        }
        let part_b = generate_bishop_moves(self);
        let ghost vpre_b = v@;
        let ghost bg = part_b@;
        self.keep_legal(part_b, &mut v);
        proof {
            lemma_contains_concat(vpre_b, bg);
            assert forall|m: Move|
                #[trigger] v@.contains(m) <==> (pseudo_legal_move(*self, m) && (m.piece_type
                    == PieceType::Pawn || m.piece_type == PieceType::Rook || m.piece_type
                    == PieceType::Knight || m.piece_type == PieceType::Bishop)) by {}
            assert forall|i: int|
                0 <= i < v@.len() implies ((#[trigger] v@[i]).piece_type == PieceType::Pawn
                || v@[i].piece_type == PieceType::Rook || v@[i].piece_type == PieceType::Knight
                || v@[i].piece_type == PieceType::Bishop) by {
                if i < vpre_b.len() {
                    assert(v@[i] == vpre_b[i]);
                } else {
                    assert(v@[i] == bg[i - vpre_b.len()]);
                }
            }
            assert forall|i: int, j: int| 0 <= i < j < v@.len() implies v@[i] != v@[j] by {
                if j < vpre_b.len() {
                    assert(v@[i] == vpre_b[i] && v@[j] == vpre_b[j]);
                } else if i >= vpre_b.len() {
                    assert(v@[i] == bg[i - vpre_b.len()] && v@[j] == bg[j - vpre_b.len()]);
                    assert(!(bg[i - vpre_b.len()].start == bg[j - vpre_b.len()].start && bg[i
                        - vpre_b.len()].end == bg[j - vpre_b.len()].end));
                } else {
                    assert(v@[i] == vpre_b[i] && v@[j] == bg[j - vpre_b.len()]);
                }
            }
        }
        let part_q = generate_queen_moves(self);
        let ghost vpre_q = v@;
        let ghost qg = part_q@;
        self.keep_legal(part_q, &mut v);
        proof {
            lemma_contains_concat(vpre_q, qg);
            assert forall|m: Move|
                #[trigger] v@.contains(m) <==> (pseudo_legal_move(*self, m) && (m.piece_type
                    == PieceType::Pawn || m.piece_type == PieceType::Rook || m.piece_type
                    == PieceType::Knight || m.piece_type == PieceType::Bishop || m.piece_type
                    == PieceType::Queen)) by {}
            assert forall|i: int|
                0 <= i < v@.len() implies ((#[trigger] v@[i]).piece_type == PieceType::Pawn
                || v@[i].piece_type == PieceType::Rook || v@[i].piece_type == PieceType::Knight
                || v@[i].piece_type == PieceType::Bishop || v@[i].piece_type == PieceType::Queen)
                by {
                if i < vpre_q.len() {
                    assert(v@[i] == vpre_q[i]);
                } else {
                    assert(v@[i] == qg[i - vpre_q.len()]);
                }
            }
            assert forall|i: int, j: int| 0 <= i < j < v@.len() implies v@[i] != v@[j] by {
                if j < vpre_q.len() {
                    assert(v@[i] == vpre_q[i] && v@[j] == vpre_q[j]);
                } else if i >= vpre_q.len() {
                    assert(v@[i] == qg[i - vpre_q.len()] && v@[j] == qg[j - vpre_q.len()]);
                    assert(!(qg[i - vpre_q.len()].start == qg[j - vpre_q.len()].start && qg[i
                        - vpre_q.len()].end == qg[j - vpre_q.len()].end));
                } else {
                    assert(v@[i] == vpre_q[i] && v@[j] == qg[j - vpre_q.len()]);
                }
            }
        }
        let part_k = generate_king_moves(self);
        let ghost vpre_k = v@;
        let ghost kg = part_k@;
        self.keep_legal(part_k, &mut v);
        proof {
            lemma_contains_concat(vpre_k, kg);
            assert forall|m: Move|
                #[trigger] v@.contains(m) <==> pseudo_legal_move(*self, m) by {
                assert(m.piece_type == PieceType::Pawn || m.piece_type == PieceType::Rook
                    || m.piece_type == PieceType::Knight || m.piece_type == PieceType::Bishop
                    || m.piece_type == PieceType::Queen || m.piece_type == PieceType::King);
            }
            assert forall|i: int, j: int| 0 <= i < j < v@.len() implies v@[i] != v@[j] by {
                if j < vpre_k.len() {
                    assert(v@[i] == vpre_k[i] && v@[j] == vpre_k[j]);
                } else if i >= vpre_k.len() {
                    assert(v@[i] == kg[i - vpre_k.len()] && v@[j] == kg[j - vpre_k.len()]);
                    assert(!(kg[i - vpre_k.len()].start == kg[j - vpre_k.len()].start && kg[i
                        - vpre_k.len()].end == kg[j - vpre_k.len()].end));
                } else {
                    assert(v@[i] == vpre_k[i] && v@[j] == kg[j - vpre_k.len()]);
                    assert(vpre_k[i].piece_type != PieceType::King);
                }
            }
            assert forall|i: int, j: int|
                0 <= i < j < v@.len() implies !(v@[i].start == v@[j].start && v@[i].end
                == v@[j].end) by {
                if v@[i].start == v@[j].start && v@[i].end == v@[j].end {
                    assert(v@.contains(v@[i]));
                    assert(v@.contains(v@[j]));
                    lemma_pseudo_legal_determined(*self, v@[i], v@[j]);
                }
            }
        }
        v
    }

    /// Apply one move: relocate the moving piece by toggling its start and
    /// end squares, clear the destination on whichever enemy board holds it
    /// when the move is a capture, hand the turn to the opponent, and count
    /// a full move once Black has answered.  No legality check happens
    /// here; that is the generator's and the filter's business.
    #[verifier::loop_isolation(false)]
    pub fn do_move(&mut self, m: &Move)
        requires
            old(self).turn < u32::MAX,
        ensures
            final(self).bitboards[board_index(old(self).side_to_move, m.piece_type)] == (old(
                self,
            ).bitboards[board_index(old(self).side_to_move, m.piece_type)] ^ (1u64 << (
            m.start.index_spec() as u64))) ^ (1u64 << (m.end.index_spec() as u64)),
            forall|i: int|
                0 <= i < 12 && i != board_index(old(self).side_to_move, m.piece_type) && !(
                board_index(old(self).side_to_move.opposite_spec(), PieceType::Pawn) <= i
                    < board_index(old(self).side_to_move.opposite_spec(), PieceType::Pawn) + 6)
                    ==> final(self).bitboards[i] == old(self).bitboards[i],
            forall|i: int|
                board_index(old(self).side_to_move.opposite_spec(), PieceType::Pawn) <= i
                    < board_index(old(self).side_to_move.opposite_spec(), PieceType::Pawn) + 6
                    ==> final(self).bitboards[i] == (if m.is_capture && bit_at(
                    old(self).bitboards[i],
                    m.end.index_spec(),
                ) {
                    old(self).bitboards[i] & !(1u64 << (m.end.index_spec() as u64))
                } else {
                    old(self).bitboards[i]
                }),
            final(self).side_to_move == old(self).side_to_move.opposite_spec(),
            final(self).turn as int == old(self).turn as int + (if old(self).side_to_move
                == Color::Black {
                1int
            } else {
                0int
            }),
            final(self).white_king_castling == old(self).white_king_castling,
            final(self).white_queen_castling == old(self).white_queen_castling,
            final(self).black_king_castling == old(self).black_king_castling,
            final(self).black_queen_castling == old(self).black_queen_castling,
    {
        let s = m.start.index();
        let e = m.end.index();
        let mover = self.side_to_move;
        let mi = mover.index() * 6 + m.piece_type.index();
        proof {
            assert(s as u64 == m.start.index_spec() as u64);
            assert(e as u64 == m.end.index_spec() as u64);
            assert(mi as int == board_index(old(self).side_to_move, m.piece_type));
        }
        let mut bb = self.bitboards[mi];
        bb.toggle_bit(s);
        bb.toggle_bit(e);
        self.bitboards[mi] = bb;
        proof {
            assert(self.bitboards@ =~= old(self).bitboards@.update(mi as int, bb));
            assert(bb == (old(self).bitboards@[mi as int] ^ (1u64 << (m.start.index_spec()
                as u64))) ^ (1u64 << (m.end.index_spec() as u64)));
            assert(self.bitboards@[mi as int] == (old(self).bitboards@[mi as int] ^ (1u64 << (
            m.start.index_spec() as u64))) ^ (1u64 << (m.end.index_spec() as u64)));
        }
        let ghost mid: Seq<u64> = self.bitboards@;
        if m.is_capture {
            let eo = mover.opposite().index() * 6;
            let mask: u64 = 1u64 << (e as u64);
            let mut j: usize = 0;
            while j < 6
                invariant
                    j <= 6,
                    eo == old(self).side_to_move.opposite_spec().as_index() * 6,
                    e < 64,
                    e as int == m.end.index_spec(),
                    mask == 1u64 << (m.end.index_spec() as u64),
                    mid.len() == 12,
                    self.bitboards@.len() == 12,
                    forall|i: int|
                        0 <= i < 12 && !(eo <= i < eo + j) ==> self.bitboards@[i] == mid[i],
                    forall|i: int|
                        eo <= i < eo + j ==> self.bitboards@[i] == (if bit_at(
                            mid[i],
                            m.end.index_spec(),
                        ) {
                            mid[i] & !(1u64 << (m.end.index_spec() as u64))
                        } else {
                            mid[i]
                        }),
                    self.side_to_move == old(self).side_to_move,
                    self.turn == old(self).turn,
                    self.white_king_castling == old(self).white_king_castling,
                    self.white_queen_castling == old(self).white_queen_castling,
                    self.black_king_castling == old(self).black_king_castling,
                    self.black_queen_castling == old(self).black_queen_castling,
                decreases 6 - j,
            {
                let idx = eo + j;
                proof {
                    lemma_bit_test(self.bitboards@[idx as int], e as u64);
                }
                if self.bitboards[idx] & mask != 0 {
                    self.bitboards[idx] = self.bitboards[idx] & !mask;
                }
                j += 1;
            }
        }
        self.side_to_move = mover.opposite();
        if mover == Color::Black {
            self.turn = self.turn + 1;
        }
        proof {
            let mip = board_index(old(self).side_to_move, m.piece_type);
            let eo2 = board_index(old(self).side_to_move.opposite_spec(), PieceType::Pawn);
            assert(0 <= m.piece_type.as_index() < 6);
            assert(mip == mi as int);
            assert(!(eo2 <= mip < eo2 + 6));
            assert(self.bitboards@[mip] == (old(self).bitboards@[mip] ^ (1u64 << (
            m.start.index_spec() as u64))) ^ (1u64 << (m.end.index_spec() as u64)));
            assert forall|i: int|
                0 <= i < 12 && i != mip && !(eo2 <= i < eo2 + 6) implies self.bitboards@[i] == old(
                self,
            ).bitboards@[i] by {
                assert(mid[i] == old(self).bitboards@[i]);
                assert(self.bitboards@[i] == mid[i]);
            }
        }
    }
}

} // verus!
