use vstd::prelude::*;

use crate::bits::bit_at;
use crate::bits::lemma_bit_disjoint;
use crate::bits::lemma_bit_or;
use crate::board::Board;
use crate::moves::Move;
use crate::piece::Color;
use crate::piece::PieceType;
use crate::rules::pseudo_legal_move;
use crate::rules_bb::lemma_rank_file;
use crate::rules_bb::lemma_ray_stays_off;
use crate::rules_bb::ray_clear_before;
use crate::rules_bb::ray_on_board;
use crate::rules_bb::ray_reaches;
use crate::rules_bb::ray_square;

verus! {

/// Toggling the same square of a bitboard twice restores the original
/// value: the toggle is its own inverse.
pub proof fn lemma_toggle_twice(bb: u64, index: u64)
    requires
        index < 64,
    ensures
        (bb ^ (1u64 << index)) ^ (1u64 << index) == bb,
{
    assert((bb ^ (1u64 << index)) ^ (1u64 << index) == bb) by (bit_vector);
}

/// Along one ray, two distinct step counts land on distinct squares.
proof fn lemma_ray_injective(s: int, dr: int, df: int, k1: int, k2: int)
    requires
        0 <= s < 64,
        -1 <= dr <= 1,
        -1 <= df <= 1,
        !(dr == 0 && df == 0),
        1 <= k1,
        1 <= k2,
        ray_on_board(s, dr, df, k1),
        ray_on_board(s, dr, df, k2),
        ray_square(s, dr, df, k1) == ray_square(s, dr, df, k2),
    ensures
        k1 == k2,
{
    lemma_rank_file(s);
    if dr == 0 {
        assert(k1 * dr == 0 && k2 * dr == 0) by (nonlinear_arith)
            requires
                dr == 0,
        ;
    } else if dr == 1 {
        assert(k1 * dr == k1 && k2 * dr == k2) by (nonlinear_arith)
            requires
                dr == 1,
        ;
    } else {
        assert(k1 * dr == -k1 && k2 * dr == -k2) by (nonlinear_arith)
            requires
                dr == -1,
        ;
    }
    if df == 0 {
        assert(k1 * df == 0 && k2 * df == 0) by (nonlinear_arith)
            requires
                df == 0,
        ;
    } else if df == 1 {
        assert(k1 * df == k1 && k2 * df == k2) by (nonlinear_arith)
            requires
                df == 1,
        ;
    } else {
        assert(k1 * df == -k1 && k2 * df == -k2) by (nonlinear_arith)
            requires
                df == -1,
        ;
    }
}

/// A single blocker truncates a slider's ray: with the squares before step
/// `k` empty and step `k` occupied, the ray reaches every step up to and
/// including the blocker's square — whatever color stands there — and no
/// step beyond it.
pub proof fn lemma_blocker_truncates_ray(occ: u64, s: int, dr: int, df: int, k: int)
    requires
        0 <= s < 64,
        -1 <= dr <= 1,
        -1 <= df <= 1,
        !(dr == 0 && df == 0),
        1 <= k,
        ray_on_board(s, dr, df, k),
        bit_at(occ, ray_square(s, dr, df, k)),
        forall|j: int| 1 <= j < k ==> !bit_at(occ, #[trigger] ray_square(s, dr, df, j)),
    ensures
        forall|j: int|
            1 <= j <= k ==> ray_reaches(occ, s, dr, df, #[trigger] ray_square(s, dr, df, j)),
        forall|j: int|
            k < j && ray_on_board(s, dr, df, j) ==> !ray_reaches(
                occ,
                s,
                dr,
                df,
                #[trigger] ray_square(s, dr, df, j),
            ),
{
    assert forall|j: int|
        1 <= j <= k implies ray_reaches(occ, s, dr, df, #[trigger] ray_square(s, dr, df, j)) by {
        if !ray_on_board(s, dr, df, j) {
            lemma_ray_stays_off(s, dr, df, j, k);
        }
        assert(ray_clear_before(occ, s, dr, df, j));
    }
    assert forall|j: int|
        k < j && ray_on_board(s, dr, df, j) implies !ray_reaches(
        occ,
        s,
        dr,
        df,
        ray_square(s, dr, df, j),
    ) by {
        if ray_reaches(occ, s, dr, df, ray_square(s, dr, df, j)) {
            let m = choose|m: int|
                1 <= m && #[trigger] ray_on_board(s, dr, df, m) && ray_square(s, dr, df, j)
                    == ray_square(s, dr, df, m) && ray_clear_before(occ, s, dr, df, m);
            lemma_ray_injective(s, dr, df, j, m);
            assert(!bit_at(occ, ray_square(s, dr, df, k)));
        }
    }
}

/// Which squares one side's union board holds: exactly the squares of its
/// six piece boards.
proof fn lemma_side_occupancy(b: Board, c: Color)
    ensures
        forall|t: int|
            #[trigger] bit_at(b.side_bb_spec(c), t) <==> (bit_at(
                b.piece_bb_spec(c, PieceType::Pawn),
                t,
            ) || bit_at(b.piece_bb_spec(c, PieceType::Knight), t) || bit_at(
                b.piece_bb_spec(c, PieceType::Bishop),
                t,
            ) || bit_at(b.piece_bb_spec(c, PieceType::Rook), t) || bit_at(
                b.piece_bb_spec(c, PieceType::Queen),
                t,
            ) || bit_at(b.piece_bb_spec(c, PieceType::King), t)),
{
    let p = b.piece_bb_spec(c, PieceType::Pawn);
    let n = b.piece_bb_spec(c, PieceType::Knight);
    let bi = b.piece_bb_spec(c, PieceType::Bishop);
    let r = b.piece_bb_spec(c, PieceType::Rook);
    let q = b.piece_bb_spec(c, PieceType::Queen);
    let k = b.piece_bb_spec(c, PieceType::King);
    lemma_bit_or(p, n);
    lemma_bit_or(p | n, bi);
    lemma_bit_or(p | n | bi, r);
    lemma_bit_or(p | n | bi | r, q);
    lemma_bit_or(p | n | bi | r | q, k);
}

/// On a well-formed board no square holds a piece of both sides, so the
/// friend and enemy unions never overlap.
pub proof fn lemma_friends_enemies_disjoint(b: Board)
    requires
        b.well_formed(),
    ensures
        forall|t: int| !(#[trigger] bit_at(b.friends_spec(), t) && bit_at(b.enemies_spec(), t)),
{
    lemma_side_occupancy(b, b.side_to_move);
    lemma_side_occupancy(b, b.side_to_move.opposite_spec());
    assert forall|i: int, j: int, t: int|
        0 <= i < j < 12 implies !(#[trigger] bit_at(b.bitboards[i], t) && #[trigger] bit_at(
        b.bitboards[j],
        t,
    )) by {
        lemma_bit_disjoint(b.bitboards[i], b.bitboards[j]);
    }
}

/// No generated move ever lands on a square the mover's own pieces occupy:
/// every pseudo-legal destination avoids the friend union.  For the pieces
/// other than pawns this is the friend-exclusion step; a quiet pawn
/// advance lands on an empty square and a pawn capture on an enemy.
pub proof fn lemma_destination_never_friendly(b: Board, m: Move)
    requires
        b.well_formed(),
        pseudo_legal_move(b, m),
    ensures
        !bit_at(b.friends_spec(), m.end.index_spec()),
{
    if m.piece_type == PieceType::Pawn {
        lemma_bit_or(b.friends_spec(), b.enemies_spec());
        lemma_friends_enemies_disjoint(b);
    }
}

} // verus!
