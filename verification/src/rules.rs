use vstd::prelude::*;

use crate::bits::bit_at;
use crate::bits::lemma_bit_and;
use crate::bits::lemma_bit_not;
use crate::bits::lemma_bit_or;
use crate::bits::lemma_bit_single;
use crate::bits::lemma_bit_zero;
use crate::bits::BitOperations;
use crate::board::Board;
use crate::moves::Move;
use crate::piece::Color;
use crate::piece::PieceType;
use crate::position::Position;
use crate::rules_bb::bishop_attacks_bb;
use crate::rules_bb::bishop_reaches;
use crate::rules_bb::east_one;
use crate::rules_bb::exclude_friends;
use crate::rules_bb::file_of;
use crate::rules_bb::king_attacks_bb;
use crate::rules_bb::king_reaches;
use crate::rules_bb::knight_attacks_bb;
use crate::rules_bb::knight_reaches;
use crate::rules_bb::lemma_board_coordinates;
use crate::rules_bb::lemma_rank_file;
use crate::rules_bb::north_one;
use crate::rules_bb::queen_attacks_bb;
use crate::rules_bb::queen_reaches;
use crate::rules_bb::rank_of;
use crate::rules_bb::rook_attacks_bb;
use crate::rules_bb::rook_reaches;
use crate::rules_bb::south_one;
use crate::rules_bb::west_one;

verus! {

/// What a piece other than a pawn can reach from `s` given occupancy `occ`;
/// a pawn's moves depend on more than occupancy and are specified apart.
pub open spec fn nonpawn_reaches(p: PieceType, occ: u64, s: int, t: int) -> bool {
    match p {
        PieceType::Pawn => false,
        PieceType::Knight => knight_reaches(s, t),
        PieceType::Bishop => bishop_reaches(occ, s, t),
        PieceType::Rook => rook_reaches(occ, s, t),
        PieceType::Queen => queen_reaches(occ, s, t),
        PieceType::King => king_reaches(s, t),
    }
}

/// A pseudo-legal move of a piece other than a pawn: the piece stands on
/// the start square, reaches the end square over the current occupancy, the
/// end square holds no friend, and the capture flag records whether it
/// holds an enemy.
pub open spec fn nonpawn_move_at(b: Board, m: Move) -> bool {
    &&& bit_at(b.piece_bb_spec(b.side_to_move, m.piece_type), m.start.index_spec())
    &&& nonpawn_reaches(m.piece_type, b.occupancy_spec(), m.start.index_spec(), m.end.index_spec())
    &&& !bit_at(b.friends_spec(), m.end.index_spec())
    &&& m.is_capture == bit_at(b.enemies_spec(), m.end.index_spec())
}

/// A quiet pawn advance over occupancy `occ`: one rank forward onto an
/// empty square, or, from the pawn's home rank, two ranks forward across an
/// empty square onto an empty square.
pub open spec fn pawn_quiet_ok(occ: u64, side: Color, s: int, e: int) -> bool {
    if side == Color::White {
        ||| (0 <= s && e == s + 8 && e < 64 && !bit_at(occ, e))
        ||| (0 <= s && rank_of(s) == 1 && e == s + 16 && !bit_at(occ, s + 8) && !bit_at(occ, e))
    } else {
        ||| (s < 64 && e == s - 8 && 0 <= e && !bit_at(occ, e))
        ||| (s < 64 && rank_of(s) == 6 && e == s - 16 && !bit_at(occ, s - 8) && !bit_at(occ, e))
    }
}

/// A pawn capture: one rank forward, one file aside, onto a square an enemy
/// piece occupies.
pub open spec fn pawn_capture_ok(enemies: u64, side: Color, s: int, e: int) -> bool {
    let fwd = if side == Color::White {
        1int
    } else {
        -1int
    };
    &&& 0 <= s < 64
    &&& 0 <= e < 64
    &&& rank_of(e) == rank_of(s) + fwd
    &&& (file_of(e) == file_of(s) + 1 || file_of(e) == file_of(s) - 1)
    &&& bit_at(enemies, e)
}

/// Any pawn move from `s` to `e`: a quiet advance or a capture.
pub open spec fn pawn_move_ok(occ: u64, enemies: u64, side: Color, s: int, e: int) -> bool {
    pawn_quiet_ok(occ, side, s, e) || pawn_capture_ok(enemies, side, s, e)
}

/// A pseudo-legal pawn move on board `b`.  A quiet advance never lands on
/// an occupied square and a capture always lands on an enemy, so the
/// capture flag equals the enemy-occupancy of the end square in both cases.
pub open spec fn pawn_move_at(b: Board, m: Move) -> bool {
    &&& bit_at(b.piece_bb_spec(b.side_to_move, PieceType::Pawn), m.start.index_spec())
    &&& pawn_move_ok(
        b.occupancy_spec(),
        b.enemies_spec(),
        b.side_to_move,
        m.start.index_spec(),
        m.end.index_spec(),
    )
    &&& m.piece_type == PieceType::Pawn
    &&& m.is_capture == bit_at(b.enemies_spec(), m.end.index_spec())
}

/// A pseudo-legal move on board `b`: piece-movement, blocker and capture
/// rules hold, but nothing is said about leaving one's own king in check.
pub open spec fn pseudo_legal_move(b: Board, m: Move) -> bool {
    if m.piece_type == PieceType::Pawn {
        pawn_move_at(b, m)
    } else {
        nonpawn_move_at(b, m)
    }
}

/// On a well-formed board, a pseudo-legal move is determined by its start
/// and end squares: the start square names the piece (the boards share no
/// square) and the end square names the capture flag.
pub proof fn lemma_pseudo_legal_determined(b: Board, m1: Move, m2: Move)
    requires
        b.well_formed(),
        pseudo_legal_move(b, m1),
        pseudo_legal_move(b, m2),
        m1.start == m2.start,
        m1.end == m2.end,
    ensures
        m1 == m2,
{
    if m1.piece_type != m2.piece_type {
        let i1 = crate::board::board_index(b.side_to_move, m1.piece_type);
        let i2 = crate::board::board_index(b.side_to_move, m2.piece_type);
        assert(bit_at(b.bitboards[i1], m1.start.index_spec()));
        assert(bit_at(b.bitboards[i2], m2.start.index_spec()));
        assert(m1.piece_type.as_index() != m2.piece_type.as_index());
        if i1 < i2 {
            crate::bits::lemma_bit_disjoint(b.bitboards[i1], b.bitboards[i2]);
        } else {
            crate::bits::lemma_bit_disjoint(b.bitboards[i2], b.bitboards[i1]);
        }
        assert(false);
    }
}

/// Membership in a concatenation is membership in either part.
pub proof fn lemma_contains_concat<A>(a: Seq<A>, b: Seq<A>)
    ensures
        forall|x: A| #[trigger] (a + b).contains(x) <==> a.contains(x) || b.contains(x),
{
    assert forall|x: A| #[trigger] (a + b).contains(x) <==> a.contains(x) || b.contains(x) by {
        if (a + b).contains(x) {
            let i = choose|i: int| 0 <= i < (a + b).len() && (a + b)[i] == x;
            if i < a.len() {
                assert(a[i] == x);
            } else {
                assert(b[i - a.len()] == x);
            }
        }
        if a.contains(x) {
            let i = choose|i: int| 0 <= i < a.len() && a[i] == x;
            assert((a + b)[i] == x);
        }
        if b.contains(x) {
            let i = choose|i: int| 0 <= i < b.len() && b[i] == x;
            assert((a + b)[a.len() + i] == x);
        }
    }
}

/// Turn an attack bitboard into move records: one move from `pos` to each
/// set square of `attacks`, flagged as a capture exactly where an enemy
/// stands, in ascending order of destination square.
fn gen_attack_vec(pos: Position, attacks: u64, piece: PieceType, enemies: u64) -> (r: Vec<Move>)
    ensures
        forall|m: Move|
            #[trigger] r@.contains(m) <==> (m.start == pos && m.piece_type == piece && bit_at(
                attacks,
                m.end.index_spec(),
            ) && m.is_capture == bit_at(enemies, m.end.index_spec())),
        forall|i: int|
            0 <= i < r@.len() ==> (#[trigger] r@[i]).start == pos && r@[i].piece_type == piece
                && bit_at(attacks, r@[i].end.index_spec()),
        forall|i: int, j: int|
            0 <= i < j < r@.len() ==> r@[i].end.index_spec() < r@[j].end.index_spec(),
{
    let mut v: Vec<Move> = Vec::new();
    let mut rem = attacks;
    let ghost mut bound: int = 0;
    proof {
        lemma_bit_zero();
    }
    while rem != 0
        invariant
            0 <= bound <= 64,
            forall|t: int| #[trigger] bit_at(rem, t) <==> (bit_at(attacks, t) && t >= bound),
            forall|m: Move|
                #[trigger] v@.contains(m) <==> (m.start == pos && m.piece_type == piece && bit_at(
                    attacks,
                    m.end.index_spec(),
                ) && m.end.index_spec() < bound && m.is_capture == bit_at(
                    enemies,
                    m.end.index_spec(),
                )),
            forall|i: int|
                0 <= i < v@.len() ==> (#[trigger] v@[i]).start == pos && v@[i].piece_type == piece
                    && bit_at(attacks, v@[i].end.index_spec()) && v@[i].end.index_spec() < bound,
            forall|i: int, j: int|
                0 <= i < j < v@.len() ==> v@[i].end.index_spec() < v@[j].end.index_spec(),
        decreases 64 - bound,
    {
        let ghost rem_pre: u64 = rem;
        let sq = rem.lsb_pop();
        let target = Position::from_square(sq);
        let mv = Move { start: pos, end: target, piece_type: piece, is_capture: enemies.test_bit(
            sq,
        ) };
        let ghost vpre = v@;
        v.push(mv);
        proof {
            assert(v@ == vpre.push(mv));
            assert forall|m: Move|
                #[trigger] v@.contains(m) <==> (m.start == pos && m.piece_type == piece && bit_at(
                    attacks,
                    m.end.index_spec(),
                ) && m.end.index_spec() < sq + 1 && m.is_capture == bit_at(
                    enemies,
                    m.end.index_spec(),
                )) by {
                if v@.contains(m) {
                    let i = choose|i: int| 0 <= i < v@.len() && v@[i] == m;
                    if i < vpre.len() {
                        assert(vpre[i] == m);
                        assert(vpre.contains(m));
                    } else {
                        assert(m == mv);
                    }
                }
                if m.start == pos && m.piece_type == piece && bit_at(attacks, m.end.index_spec())
                    && m.end.index_spec() < sq + 1 && m.is_capture == bit_at(
                    enemies,
                    m.end.index_spec(),
                ) {
                    if m.end.index_spec() < bound {
                        assert(vpre.contains(m));
                        let i = choose|i: int| 0 <= i < vpre.len() && vpre[i] == m;
                        assert(v@[i] == m);
                    } else {
                        // no square of `attacks` lies between the old bound
                        // and the popped square, so the move ends on it
                        if m.end.index_spec() < sq as int {
                            assert(bit_at(rem_pre, m.end.index_spec()));
                            assert(false);
                        }
                        assert(m.end.index_spec() == sq as int);
                        Position::lemma_index_injective(m.end, target);
                        assert(m == mv);
                        assert(v@[vpre.len() as int] == mv);
                    }
                }
            }
            bound = sq + 1;
        }
    }
    proof {
        assert forall|t: int| bit_at(attacks, t) implies t < bound by {
            assert(!bit_at(rem, t));
        }
    }
    v
}

/// The attack bitboard of a piece other than a pawn.
fn attacks_from(piece: PieceType, sq: usize, occ: u64) -> (r: u64)
    requires
        sq < 64,
        piece != PieceType::Pawn,
    ensures
        forall|t: int| #[trigger] bit_at(r, t) <==> nonpawn_reaches(piece, occ, sq as int, t),
{
    match piece {
        PieceType::Pawn => {
            proof {
                assert(false);
            }
            0
        },
        PieceType::Knight => knight_attacks_bb(sq),
        PieceType::Bishop => bishop_attacks_bb(sq, occ),
        PieceType::Rook => rook_attacks_bb(sq, occ),
        PieceType::Queen => queen_attacks_bb(sq, occ),
        PieceType::King => king_attacks_bb(sq),
    }
}

/// All pseudo-legal moves of one piece type other than the pawn: for each
/// piece of that type of the side to move, its attack squares with the
/// friends stripped out.
fn gen_moves_of(board: &Board, piece: PieceType) -> (r: Vec<Move>)
    requires
        piece != PieceType::Pawn,
    ensures
        forall|m: Move|
            #[trigger] r@.contains(m) <==> (m.piece_type == piece && nonpawn_move_at(*board, m)),
        forall|i: int| 0 <= i < r@.len() ==> (#[trigger] r@[i]).piece_type == piece,
        forall|i: int, j: int|
            0 <= i < j < r@.len() ==> !(r@[i].start == r@[j].start && r@[i].end == r@[j].end),
{
    let enemies = board.enemies_bb();
    let friends = board.friends_bb();
    let blockers = friends | enemies;
    let mut pieces = board.piece_bb(piece);
    let ghost pieces0: u64 = pieces;
    let mut v: Vec<Move> = Vec::new();
    let ghost mut bound: int = 0;
    proof {
        lemma_bit_zero();
    }
    while pieces != 0
        invariant
            piece != PieceType::Pawn,
            enemies == board.enemies_spec(),
            friends == board.friends_spec(),
            blockers == board.occupancy_spec(),
            pieces0 == board.piece_bb_spec(board.side_to_move, piece),
            0 <= bound <= 64,
            forall|t: int| #[trigger] bit_at(pieces, t) <==> (bit_at(pieces0, t) && t >= bound),
            forall|m: Move|
                #[trigger] v@.contains(m) <==> (m.piece_type == piece && nonpawn_move_at(*board, m)
                    && m.start.index_spec() < bound),
            forall|i: int|
                0 <= i < v@.len() ==> (#[trigger] v@[i]).piece_type == piece
                    && v@[i].start.index_spec() < bound,
            forall|i: int, j: int|
                0 <= i < j < v@.len() ==> !(v@[i].start == v@[j].start && v@[i].end == v@[j].end),
        decreases 64 - bound,
    {
        let ghost pieces_pre: u64 = pieces;
        let sp = pieces.lsb_pop();
        let raw = attacks_from(piece, sp, blockers);
        let att = exclude_friends(raw, friends);
        let pos = Position::from_square(sp);
        let mut part = gen_attack_vec(pos, att, piece, enemies);
        let ghost vpre = v@;
        let ghost partg = part@;
        v.append(&mut part);
        proof {
            assert(v@ == vpre + partg);
            lemma_contains_concat(vpre, partg);
            assert forall|m: Move|
                #[trigger] v@.contains(m) <==> (m.piece_type == piece && nonpawn_move_at(*board, m)
                    && m.start.index_spec() < sp + 1) by {
                if partg.contains(m) {
                    assert(m.start == pos);
                    assert(bit_at(pieces0, sp as int));
                    assert(nonpawn_move_at(*board, m));
                }
                if m.piece_type == piece && nonpawn_move_at(*board, m) && m.start.index_spec() < sp
                    + 1 && !(m.start.index_spec() < bound) {
                    // the start square carries a piece and no square of the
                    // piece board lies between the old bound and the popped
                    // square, so the move starts on the popped square
                    if m.start.index_spec() < sp as int {
                        assert(bit_at(pieces_pre, m.start.index_spec()));
                        assert(false);
                    }
                    assert(m.start.index_spec() == sp as int);
                    Position::lemma_index_injective(m.start, pos);
                    assert(partg.contains(m));
                }
            }
            assert forall|i: int, j: int|
                0 <= i < j < v@.len() implies !(v@[i].start == v@[j].start && v@[i].end
                == v@[j].end) by {
                if i < vpre.len() && j >= vpre.len() {
                    assert(v@[i] == vpre[i]);
                    assert(v@[j] == partg[j - vpre.len()]);
                    assert(partg.contains(partg[j - vpre.len()]));
                    assert(v@[j].start == pos);
                    // an old move starts below the popped square, the new
                    // one on it
                    assert(vpre[i].start.index_spec() < sp as int);
                } else if i >= vpre.len() {
                    assert(v@[i] == partg[i - vpre.len()]);
                    assert(v@[j] == partg[j - vpre.len()]);
                    assert(partg[i - vpre.len()].end.index_spec() < partg[j
                        - vpre.len()].end.index_spec());
                } else {
                    assert(v@[i] == vpre[i]);
                    assert(v@[j] == vpre[j]);
                }
            }
            bound = sp + 1;
        }
    }
    proof {
        assert forall|t: int| bit_at(pieces0, t) implies t < bound by {
            assert(!bit_at(pieces, t));
        }
    }
    v
}

/// All pseudo-legal knight moves of the side to move.
pub fn generate_knight_moves(board: &Board) -> (r: Vec<Move>)
    ensures
        forall|m: Move| #[trigger] r@.contains(m) <==> (m.piece_type == PieceType::Knight
            && pseudo_legal_move(*board, m)),
        forall|i: int| 0 <= i < r@.len() ==> (#[trigger] r@[i]).piece_type == PieceType::Knight,
        forall|i: int, j: int|
            0 <= i < j < r@.len() ==> !(r@[i].start == r@[j].start && r@[i].end == r@[j].end),
{
    gen_moves_of(board, PieceType::Knight)
}

/// All pseudo-legal bishop moves of the side to move.
pub fn generate_bishop_moves(board: &Board) -> (r: Vec<Move>)
    ensures
        forall|m: Move| #[trigger] r@.contains(m) <==> (m.piece_type == PieceType::Bishop
            && pseudo_legal_move(*board, m)),
        forall|i: int| 0 <= i < r@.len() ==> (#[trigger] r@[i]).piece_type == PieceType::Bishop,
        forall|i: int, j: int|
            0 <= i < j < r@.len() ==> !(r@[i].start == r@[j].start && r@[i].end == r@[j].end),
{
    gen_moves_of(board, PieceType::Bishop)
}

/// All pseudo-legal rook moves of the side to move.
pub fn generate_rook_moves(board: &Board) -> (r: Vec<Move>)
    ensures
        forall|m: Move| #[trigger] r@.contains(m) <==> (m.piece_type == PieceType::Rook
            && pseudo_legal_move(*board, m)),
        forall|i: int| 0 <= i < r@.len() ==> (#[trigger] r@[i]).piece_type == PieceType::Rook,
        forall|i: int, j: int|
            0 <= i < j < r@.len() ==> !(r@[i].start == r@[j].start && r@[i].end == r@[j].end),
{
    gen_moves_of(board, PieceType::Rook)
}

/// All pseudo-legal queen moves of the side to move.
pub fn generate_queen_moves(board: &Board) -> (r: Vec<Move>)
    ensures
        forall|m: Move| #[trigger] r@.contains(m) <==> (m.piece_type == PieceType::Queen
            && pseudo_legal_move(*board, m)),
        forall|i: int| 0 <= i < r@.len() ==> (#[trigger] r@[i]).piece_type == PieceType::Queen,
        forall|i: int, j: int|
            0 <= i < j < r@.len() ==> !(r@[i].start == r@[j].start && r@[i].end == r@[j].end),
{
    gen_moves_of(board, PieceType::Queen)
}

/// All pseudo-legal king moves of the side to move.
pub fn generate_king_moves(board: &Board) -> (r: Vec<Move>)
    ensures
        forall|m: Move| #[trigger] r@.contains(m) <==> (m.piece_type == PieceType::King
            && pseudo_legal_move(*board, m)),
        forall|i: int| 0 <= i < r@.len() ==> (#[trigger] r@[i]).piece_type == PieceType::King,
        forall|i: int, j: int|
            0 <= i < j < r@.len() ==> !(r@[i].start == r@[j].start && r@[i].end == r@[j].end),
{
    gen_moves_of(board, PieceType::King)
}

/// All pseudo-legal pawn moves of the side to move: single and double
/// advances onto empty squares and diagonal captures onto enemy squares.
pub fn generate_pawn_moves(board: &Board) -> (r: Vec<Move>)
    ensures
        forall|m: Move| #[trigger] r@.contains(m) <==> (m.piece_type == PieceType::Pawn
            && pseudo_legal_move(*board, m)),
        forall|i: int| 0 <= i < r@.len() ==> (#[trigger] r@[i]).piece_type == PieceType::Pawn,
        forall|i: int, j: int|
            0 <= i < j < r@.len() ==> !(r@[i].start == r@[j].start && r@[i].end == r@[j].end),
{
    let enemies = board.enemies_bb();
    let friends = board.friends_bb();
    let blockers = friends | enemies;
    let white = board.side_to_move == Color::White;
    let mut pawns = board.piece_bb(PieceType::Pawn);
    let ghost pawns0: u64 = pawns;
    let mut v: Vec<Move> = Vec::new();
    let ghost mut bound: int = 0;
    proof {
        lemma_bit_zero();
        lemma_bit_or(friends, enemies);
    }
    while pawns != 0
        invariant
            enemies == board.enemies_spec(),
            friends == board.friends_spec(),
            blockers == board.occupancy_spec(),
            white == (board.side_to_move == Color::White),
            pawns0 == board.piece_bb_spec(board.side_to_move, PieceType::Pawn),
            0 <= bound <= 64,
            forall|t: int| #[trigger] bit_at(pawns, t) <==> (bit_at(pawns0, t) && t >= bound),
            forall|m: Move|
                #[trigger] v@.contains(m) <==> (m.piece_type == PieceType::Pawn && pawn_move_at(
                    *board,
                    m,
                ) && m.start.index_spec() < bound),
            forall|i: int|
                0 <= i < v@.len() ==> (#[trigger] v@[i]).piece_type == PieceType::Pawn
                    && v@[i].start.index_spec() < bound,
            forall|i: int, j: int|
                0 <= i < j < v@.len() ==> !(v@[i].start == v@[j].start && v@[i].end == v@[j].end),
        decreases 64 - bound,
    {
        let ghost pawns_pre: u64 = pawns;
        let sp = pawns.lsb_pop();
        let pbit: u64 = 1u64 << (sp as u64);
        proof {
            lemma_bit_single(sp as u64);
            lemma_rank_file(sp as int);
            lemma_board_coordinates();
        }
        let step = if white {
            north_one(pbit)
        } else {
            south_one(pbit)
        };
        let not_blockers = !blockers;
        proof {
            lemma_bit_not(blockers);
            lemma_bit_and(step, not_blockers);
        }
        let single = step & not_blockers;
        let home = if white {
            sp / 8 == 1
        } else {
            sp / 8 == 6
        };
        let mut quiet: u64 = single;
        if single != 0 && home {
            let step2 = if white {
                north_one(single)
            } else {
                south_one(single)
            };
            let dbl = step2 & not_blockers;
            proof {
                lemma_bit_and(step2, not_blockers);
                lemma_bit_or(single, dbl);
            }
            quiet = single | dbl;
        }
        let diag_e = east_one(step);
        let diag_w = west_one(step);
        let diag = diag_e | diag_w;
        let caps = diag & enemies;
        let targets = quiet | caps;
        proof {
            lemma_bit_or(diag_e, diag_w);
            lemma_bit_and(diag, enemies);
            lemma_bit_or(quiet, caps);
        }
        let pos = Position::from_square(sp);
        proof {
            let si = sp as int;
            lemma_bit_zero();
            assert forall|e: int|
                #[trigger] bit_at(quiet, e) <==> pawn_quiet_ok(
                    blockers,
                    board.side_to_move,
                    si,
                    e,
                ) by {
                if 0 <= e < 64 {
                    lemma_rank_file(e);
                }
                if white {
                    if home && single != 0 {
                        // the only square the single-advance board can hold
                        // is the one ahead of the pawn
                        crate::bits::lemma_nonzero_has_bit(single);
                        assert(bit_at(single, si + 8));
                    } else if home {
                        // the square ahead is occupied, so neither advance
                        // exists
                        assert(!bit_at(single, si + 8));
                        assert(bit_at(blockers, si + 8));
                    }
                } else {
                    if home && single != 0 {
                        crate::bits::lemma_nonzero_has_bit(single);
                        assert(bit_at(single, si - 8));
                    } else if home {
                        assert(!bit_at(single, si - 8));
                        assert(bit_at(blockers, si - 8));
                    }
                }
            }
            assert forall|e: int|
                #[trigger] bit_at(caps, e) <==> pawn_capture_ok(
                    enemies,
                    board.side_to_move,
                    si,
                    e,
                ) by {
                if 0 <= e < 64 {
                    lemma_rank_file(e);
                }
            }
            assert forall|e: int|
                #[trigger] bit_at(targets, e) <==> pawn_move_ok(
                    blockers,
                    enemies,
                    board.side_to_move,
                    si,
                    e,
                ) by {
                assert(bit_at(targets, e) <==> bit_at(quiet, e) || bit_at(caps, e));
            }
        }
        let mut part = gen_attack_vec(pos, targets, PieceType::Pawn, enemies);
        let ghost vpre = v@;
        let ghost partg = part@;
        v.append(&mut part);
        proof {
            assert(v@ == vpre + partg);
            lemma_contains_concat(vpre, partg);
            assert forall|m: Move|
                #[trigger] v@.contains(m) <==> (m.piece_type == PieceType::Pawn && pawn_move_at(
                    *board,
                    m,
                ) && m.start.index_spec() < sp + 1) by {
                if partg.contains(m) {
                    assert(m.start == pos);
                    assert(bit_at(pawns0, sp as int));
                    assert(pawn_move_at(*board, m));
                }
                if m.piece_type == PieceType::Pawn && pawn_move_at(*board, m)
                    && m.start.index_spec() < sp + 1 && !(m.start.index_spec() < bound) {
                    if m.start.index_spec() < sp as int {
                        assert(bit_at(pawns_pre, m.start.index_spec()));
                        assert(false);
                    }
                    assert(m.start.index_spec() == sp as int);
                    Position::lemma_index_injective(m.start, pos);
                    assert(partg.contains(m));
                }
            }
            assert forall|i: int, j: int|
                0 <= i < j < v@.len() implies !(v@[i].start == v@[j].start && v@[i].end
                == v@[j].end) by {
                if i < vpre.len() && j >= vpre.len() {
                    assert(v@[i] == vpre[i]);
                    assert(v@[j] == partg[j - vpre.len()]);
                    assert(partg.contains(partg[j - vpre.len()]));
                    assert(v@[j].start == pos);
                    assert(vpre[i].start.index_spec() < sp as int);
                } else if i >= vpre.len() {
                    assert(v@[i] == partg[i - vpre.len()]);
                    assert(v@[j] == partg[j - vpre.len()]);
                    assert(partg[i - vpre.len()].end.index_spec() < partg[j
                        - vpre.len()].end.index_spec());
                } else {
                    assert(v@[i] == vpre[i]);
                    assert(v@[j] == vpre[j]);
                }
            }
            bound = sp + 1;
        }
    }
    proof {
        assert forall|t: int| bit_at(pawns0, t) implies t < bound by {
            assert(!bit_at(pawns, t));
        }
    }
    v
}

} // verus!
