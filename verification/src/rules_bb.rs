use vstd::prelude::*;

use crate::bits::bit_at;
use crate::bits::lemma_bit_or;
use crate::bits::lemma_bit_single;
use crate::bits::lemma_bit_test;

verus! {

/// All squares but the a-file: masks off pieces that would wrap from the
/// a-file to the h-file of the rank below when shifted one step east.
pub const NOT_A_FILE: u64 = 0xfefefefefefefefe;

/// All squares but the h-file: masks off pieces that would wrap from the
/// h-file to the a-file of the rank above when shifted one step west.
pub const NOT_H_FILE: u64 = 0x7f7f7f7f7f7f7f7f;

/// The rank (0 to 7) a square index lies on.
pub open spec fn rank_of(i: int) -> int {
    i / 8
}

/// The file (0 to 7) a square index lies on.
pub open spec fn file_of(i: int) -> int {
    i % 8
}

/// The square index of a (rank, file) coordinate pair.
pub open spec fn square_at(r: int, f: int) -> int {
    8 * r + f
}

/// The coordinate pair lies on the board.
pub open spec fn on_board(r: int, f: int) -> bool {
    0 <= r < 8 && 0 <= f < 8
}

/// A square index splits uniquely into its rank and file.
pub proof fn lemma_rank_file(i: int)
    requires
        0 <= i < 64,
    ensures
        0 <= rank_of(i) < 8,
        0 <= file_of(i) < 8,
        i == 8 * rank_of(i) + file_of(i),
{
    vstd::arithmetic::div_mod::lemma_fundamental_div_mod(i, 8);
    vstd::arithmetic::div_mod::lemma_mod_bound(i, 8);
}

/// Ambient form of `lemma_rank_file`: whenever a proof mentions the rank or
/// file of a square, or builds a square from coordinates, the decomposition
/// is available.
pub proof fn lemma_board_coordinates()
    ensures
        forall|i: int|
            0 <= i < 64 ==> (0 <= #[trigger] rank_of(i) < 8 && 0 <= file_of(i) < 8 && i == 8
                * rank_of(i) + file_of(i)),
        forall|i: int|
            0 <= i < 64 ==> (0 <= #[trigger] file_of(i) < 8 && 0 <= rank_of(i) < 8 && i == 8
                * rank_of(i) + file_of(i)),
        forall|r: int, f: int|
            on_board(r, f) ==> (0 <= #[trigger] square_at(r, f) < 64 && rank_of(square_at(r, f))
                == r && file_of(square_at(r, f)) == f),
{
    assert forall|i: int|
        0 <= i < 64 implies (0 <= #[trigger] rank_of(i) < 8 && 0 <= file_of(i) < 8 && i == 8
        * rank_of(i) + file_of(i)) by {
        lemma_rank_file(i);
    }
    assert forall|i: int|
        0 <= i < 64 implies (0 <= #[trigger] file_of(i) < 8 && 0 <= rank_of(i) < 8 && i == 8
        * rank_of(i) + file_of(i)) by {
        lemma_rank_file(i);
    }
    assert forall|r: int, f: int|
        on_board(r, f) implies (0 <= #[trigger] square_at(r, f) < 64 && rank_of(square_at(r, f))
        == r && file_of(square_at(r, f)) == f) by {
        lemma_rank_file(square_at(r, f));
    }
}

/// A king step: the two squares differ and are at most one rank and one
/// file apart.
pub open spec fn king_reaches(s: int, t: int) -> bool {
    &&& 0 <= s < 64
    &&& 0 <= t < 64
    &&& t != s
    &&& -1 <= rank_of(t) - rank_of(s) <= 1
    &&& -1 <= file_of(t) - file_of(s) <= 1
}

/// A knight jump: two ranks and one file apart, or one rank and two files
/// apart.
pub open spec fn knight_reaches(s: int, t: int) -> bool {
    let dr = rank_of(t) - rank_of(s);
    let df = file_of(t) - file_of(s);
    &&& 0 <= s < 64
    &&& 0 <= t < 64
    &&& ((dr == 2 || dr == -2) && (df == 1 || df == -1) || (dr == 1 || dr == -1) && (df == 2 || df
        == -2))
}

/// The square `k` steps from `s` along direction `(dr, df)`.
pub open spec fn ray_square(s: int, dr: int, df: int, k: int) -> int {
    square_at(rank_of(s) + k * dr, file_of(s) + k * df)
}

/// The square `k` steps from `s` along `(dr, df)` lies on the board.
pub open spec fn ray_on_board(s: int, dr: int, df: int, k: int) -> bool {
    on_board(rank_of(s) + k * dr, file_of(s) + k * df)
}

/// No square strictly before step `k` of the ray is occupied.
pub open spec fn ray_clear_before(occ: u64, s: int, dr: int, df: int, k: int) -> bool {
    forall|j: int| 1 <= j < k ==> !bit_at(occ, #[trigger] ray_square(s, dr, df, j))
}

/// A slider on `s` reaches `t` along direction `(dr, df)` given occupancy
/// `occ`: `t` is some step of the ray, every earlier step is empty, and the
/// walk stops only after the first occupied square, so `t` itself may be
/// occupied.
pub open spec fn ray_reaches(occ: u64, s: int, dr: int, df: int, t: int) -> bool {
    exists|k: int|
        1 <= k && #[trigger] ray_on_board(s, dr, df, k) && t == ray_square(s, dr, df, k)
            && ray_clear_before(occ, s, dr, df, k)
}

/// A rook on `s` reaches `t`: one of the four straight rays does.
pub open spec fn rook_reaches(occ: u64, s: int, t: int) -> bool {
    ||| ray_reaches(occ, s, 1, 0, t)
    ||| ray_reaches(occ, s, -1, 0, t)
    ||| ray_reaches(occ, s, 0, 1, t)
    ||| ray_reaches(occ, s, 0, -1, t)
}

/// A bishop on `s` reaches `t`: one of the four diagonal rays does.
pub open spec fn bishop_reaches(occ: u64, s: int, t: int) -> bool {
    ||| ray_reaches(occ, s, 1, 1, t)
    ||| ray_reaches(occ, s, 1, -1, t)
    ||| ray_reaches(occ, s, -1, 1, t)
    ||| ray_reaches(occ, s, -1, -1, t)
}

/// A queen on `s` reaches `t`: as a rook or as a bishop.
pub open spec fn queen_reaches(occ: u64, s: int, t: int) -> bool {
    rook_reaches(occ, s, t) || bishop_reaches(occ, s, t)
}

/// One rank toward rank 8.
pub(crate) fn north_one(bb: u64) -> (r: u64)
    ensures
        forall|i: int| #[trigger] bit_at(r, i) <==> (8 <= i < 64 && bit_at(bb, i - 8)),
{
    let r = bb << 8u64;
    proof {
        assert forall|i: int| #[trigger] bit_at(r, i) <==> (8 <= i < 64 && bit_at(bb, i - 8)) by {
            if 8 <= i < 64 {
                let j: u64 = i as u64;
                let d: u64 = (i - 8) as u64;
                assert((((bb << 8u64) >> j) & 1u64 == 1u64) <==> ((bb >> d) & 1u64 == 1u64))
                    by (bit_vector)
                    requires
                        8u64 <= j < 64u64,
                        d == j - 8,
                ;
            } else if 0 <= i < 8 {
                let j: u64 = i as u64;
                assert(((bb << 8u64) >> j) & 1u64 == 0u64) by (bit_vector)
                    requires
                        j < 8u64,
                ;
            }
        }
    }
    r
}

/// One rank toward rank 1.
pub(crate) fn south_one(bb: u64) -> (r: u64)
    ensures
        forall|i: int| #[trigger] bit_at(r, i) <==> (0 <= i < 56 && bit_at(bb, i + 8)),
{
    let r = bb >> 8u64;
    proof {
        assert forall|i: int| #[trigger] bit_at(r, i) <==> (0 <= i < 56 && bit_at(bb, i + 8)) by {
            if 0 <= i < 56 {
                let j: u64 = i as u64;
                let d: u64 = (i + 8) as u64;
                assert((((bb >> 8u64) >> j) & 1u64 == 1u64) <==> ((bb >> d) & 1u64 == 1u64))
                    by (bit_vector)
                    requires
                        j < 56u64,
                        d == j + 8,
                ;
            } else if 56 <= i < 64 {
                let j: u64 = i as u64;
                assert(((bb >> 8u64) >> j) & 1u64 == 0u64) by (bit_vector)
                    requires
                        56u64 <= j < 64u64,
                ;
            }
        }
    }
    r
}

/// Two ranks toward rank 8.
fn north_two(bb: u64) -> (r: u64)
    ensures
        forall|i: int| #[trigger] bit_at(r, i) <==> (16 <= i < 64 && bit_at(bb, i - 16)),
{
    let r = bb << 16u64;
    proof {
        assert forall|i: int| #[trigger] bit_at(r, i) <==> (16 <= i < 64 && bit_at(bb, i - 16)) by {
            if 16 <= i < 64 {
                let j: u64 = i as u64;
                let d: u64 = (i - 16) as u64;
                assert((((bb << 16u64) >> j) & 1u64 == 1u64) <==> ((bb >> d) & 1u64 == 1u64))
                    by (bit_vector)
                    requires
                        16u64 <= j < 64u64,
                        d == j - 16,
                ;
            } else if 0 <= i < 16 {
                let j: u64 = i as u64;
                assert(((bb << 16u64) >> j) & 1u64 == 0u64) by (bit_vector)
                    requires
                        j < 16u64,
                ;
            }
        }
    }
    r
}

/// Two ranks toward rank 1.
fn south_two(bb: u64) -> (r: u64)
    ensures
        forall|i: int| #[trigger] bit_at(r, i) <==> (0 <= i < 48 && bit_at(bb, i + 16)),
{
    let r = bb >> 16u64;
    proof {
        assert forall|i: int| #[trigger] bit_at(r, i) <==> (0 <= i < 48 && bit_at(bb, i + 16)) by {
            if 0 <= i < 48 {
                let j: u64 = i as u64;
                let d: u64 = (i + 16) as u64;
                assert((((bb >> 16u64) >> j) & 1u64 == 1u64) <==> ((bb >> d) & 1u64 == 1u64))
                    by (bit_vector)
                    requires
                        j < 48u64,
                        d == j + 16,
                ;
            } else if 48 <= i < 64 {
                let j: u64 = i as u64;
                assert(((bb >> 16u64) >> j) & 1u64 == 0u64) by (bit_vector)
                    requires
                        48u64 <= j < 64u64,
                ;
            }
        }
    }
    r
}

/// One file toward the h-file, dropping pieces that would wrap.
pub(crate) fn east_one(bb: u64) -> (r: u64)
    ensures
        forall|i: int|
            #[trigger] bit_at(r, i) <==> (0 <= i < 64 && file_of(i) != 0 && bit_at(bb, i - 1)),
{
    let r = (bb << 1u64) & NOT_A_FILE;
    proof {
        assert forall|i: int|
            #[trigger] bit_at(r, i) <==> (0 <= i < 64 && file_of(i) != 0 && bit_at(bb, i - 1)) by {
            if 0 <= i < 64 {
                let j: u64 = i as u64;
                if i % 8 != 0 {
                    let d: u64 = (i - 1) as u64;
                    assert(((((bb << 1u64) & 0xfefefefefefefefeu64) >> j) & 1u64 == 1u64) <==> ((bb
                        >> d) & 1u64 == 1u64)) by (bit_vector)
                        requires
                            j < 64u64,
                            j % 8 != 0,
                            d == j - 1,
                    ;
                } else {
                    assert((((bb << 1u64) & 0xfefefefefefefefeu64) >> j) & 1u64 == 0u64)
                        by (bit_vector)
                        requires
                            j < 64u64,
                            j % 8 == 0,
                    ;
                }
            }
        }
    }
    r
}

/// One file toward the a-file, dropping pieces that would wrap.
pub(crate) fn west_one(bb: u64) -> (r: u64)
    ensures
        forall|i: int|
            #[trigger] bit_at(r, i) <==> (0 <= i < 64 && file_of(i) != 7 && bit_at(bb, i + 1)),
{
    let r = (bb >> 1u64) & NOT_H_FILE;
    proof {
        assert forall|i: int|
            #[trigger] bit_at(r, i) <==> (0 <= i < 64 && file_of(i) != 7 && bit_at(bb, i + 1)) by {
            if 0 <= i < 64 {
                let j: u64 = i as u64;
                if i % 8 != 7 {
                    let d: u64 = (i + 1) as u64;
                    assert(((((bb >> 1u64) & 0x7f7f7f7f7f7f7f7fu64) >> j) & 1u64 == 1u64) <==> ((bb
                        >> d) & 1u64 == 1u64)) by (bit_vector)
                        requires
                            j < 64u64,
                            j % 8 != 7,
                            d == j + 1,
                    ;
                } else {
                    assert((((bb >> 1u64) & 0x7f7f7f7f7f7f7f7fu64) >> j) & 1u64 == 0u64)
                        by (bit_vector)
                        requires
                            j < 64u64,
                            j % 8 == 7,
                    ;
                }
            }
        }
    }
    r
}

/// Strip from an attack set the squares the mover's own pieces stand on: a
/// piece may stop on or capture across anything but a friend.
pub fn exclude_friends(attacks: u64, friends: u64) -> (r: u64)
    ensures
        forall|i: int| #[trigger] bit_at(r, i) <==> (bit_at(attacks, i) && !bit_at(friends, i)),
{
    let r = attacks ^ (attacks & friends);
    proof {
        assert forall|i: int|
            #[trigger] bit_at(r, i) <==> (bit_at(attacks, i) && !bit_at(friends, i)) by {
            if 0 <= i < 64 {
                let j: u64 = i as u64;
                assert((((attacks ^ (attacks & friends)) >> j) & 1u64 == 1u64) <==> (((attacks >> j)
                    & 1u64 == 1u64) && !((friends >> j) & 1u64 == 1u64))) by (bit_vector);
            }
        }
    }
    r
}

/// The squares a king on `sq` attacks, never mind whose pieces stand where:
/// one east/west step of the king, then one north/south step of the king
/// together with its east/west neighbors.
#[verifier::rlimit(50)]
pub fn king_attacks_bb(sq: usize) -> (r: u64)
    requires
        sq < 64,
    ensures
        forall|t: int| #[trigger] bit_at(r, t) <==> king_reaches(sq as int, t),
{
    let king: u64 = 1u64 << (sq as u64);
    let e = east_one(king);
    let w = west_one(king);
    let ew = e | w;
    let expanded = king | ew;
    let n = north_one(expanded);
    let s = south_one(expanded);
    let ns = n | s;
    let r = ew | ns;
    proof {
        lemma_bit_single(sq as u64);
        lemma_bit_or(e, w);
        lemma_bit_or(king, ew);
        lemma_bit_or(n, s);
        lemma_bit_or(ew, ns);
        lemma_board_coordinates();
        assert forall|t: int| #[trigger] bit_at(r, t) <==> king_reaches(sq as int, t) by {
            if 0 <= t < 64 {
                lemma_rank_file(t);
                lemma_rank_file(sq as int);
            }
        }
    }
    r
}

/// The squares a knight on `sq` attacks: the east/west single steps moved
/// two ranks, and the east/west double steps moved one rank.
#[verifier::rlimit(50)]
pub fn knight_attacks_bb(sq: usize) -> (r: u64)
    requires
        sq < 64,
    ensures
        forall|t: int| #[trigger] bit_at(r, t) <==> knight_reaches(sq as int, t),
{
    let knight: u64 = 1u64 << (sq as u64);
    let e1 = east_one(knight);
    let w1 = west_one(knight);
    let ew1 = e1 | w1;
    let e2 = east_one(e1);
    let w2 = west_one(w1);
    let ew2 = e2 | w2;
    let n2 = north_two(ew1);
    let s2 = south_two(ew1);
    let n1 = north_one(ew2);
    let s1 = south_one(ew2);
    let vert2 = n2 | s2;
    let vert1 = n1 | s1;
    let r = vert2 | vert1;
    proof {
        lemma_bit_single(sq as u64);
        lemma_bit_or(e1, w1);
        lemma_bit_or(e2, w2);
        lemma_bit_or(n2, s2);
        lemma_bit_or(n1, s1);
        lemma_bit_or(vert2, vert1);
        lemma_board_coordinates();
        assert forall|t: int| #[trigger] bit_at(r, t) <==> knight_reaches(sq as int, t) by {
            if 0 <= t < 64 {
                lemma_rank_file(t);
                lemma_rank_file(sq as int);
            }
        }
    }
    r
}

/// Leaving the board once means staying off it for the rest of the ray.
pub proof fn lemma_ray_stays_off(s: int, dr: int, df: int, k: int, m: int)
    requires
        0 <= s < 64,
        -1 <= dr <= 1,
        -1 <= df <= 1,
        !(dr == 0 && df == 0),
        1 <= k <= m,
        !ray_on_board(s, dr, df, k),
    ensures
        !ray_on_board(s, dr, df, m),
{
    lemma_rank_file(s);
    if dr == 0 {
        assert(k * dr == 0 && m * dr == 0) by (nonlinear_arith)
            requires
                dr == 0,
        ;
    } else if dr == 1 {
        assert(k * dr == k && m * dr == m) by (nonlinear_arith)
            requires
                dr == 1,
        ;
    } else {
        assert(k * dr == -k && m * dr == -m) by (nonlinear_arith)
            requires
                dr == -1,
        ;
    }
    if df == 0 {
        assert(k * df == 0 && m * df == 0) by (nonlinear_arith)
            requires
                df == 0,
        ;
    } else if df == 1 {
        assert(k * df == k && m * df == m) by (nonlinear_arith)
            requires
                df == 1,
        ;
    } else {
        assert(k * df == -k && m * df == -m) by (nonlinear_arith)
            requires
                df == -1,
        ;
    }
}

/// Walk outward from `sq` along `(dr, df)`, accumulating squares, and stop
/// after the first occupied square or at the edge of the board.
fn walk_ray(sq: usize, dr: i64, df: i64, occ: u64) -> (res: u64)
    requires
        sq < 64,
        -1 <= dr <= 1,
        -1 <= df <= 1,
        !(dr == 0 && df == 0),
    ensures
        forall|t: int|
            #[trigger] bit_at(res, t) <==> ray_reaches(occ, sq as int, dr as int, df as int, t),
{
    proof {
        lemma_board_coordinates();
        lemma_rank_file(sq as int);
    }
    let ghost si: int = sq as int;
    let ghost dri: int = dr as int;
    let ghost dfi: int = df as int;
    let sr: i64 = (sq / 8) as i64;
    let sf: i64 = (sq % 8) as i64;
    let mut cr: i64 = sr + dr;
    let mut cf: i64 = sf + df;
    let mut acc: u64 = 0;
    let mut blocked: bool = false;
    let ghost mut k: int = 1;
    proof {
        crate::bits::lemma_bit_zero();
    }
    while !blocked && 0 <= cr && cr < 8 && 0 <= cf && cf < 8
        invariant
            sq < 64,
            -1 <= dr <= 1,
            -1 <= df <= 1,
            !(dr == 0 && df == 0),
            si == sq as int,
            dri == dr as int,
            dfi == df as int,
            1 <= k <= 8,
            cr as int == rank_of(si) + k * dri,
            cf as int == file_of(si) + k * dfi,
            forall|j: int| 1 <= j < k ==> #[trigger] ray_on_board(si, dri, dfi, j),
            !blocked ==> forall|j: int|
                1 <= j < k ==> !bit_at(occ, #[trigger] ray_square(si, dri, dfi, j)),
            blocked ==> 2 <= k && bit_at(occ, ray_square(si, dri, dfi, k - 1)) && (forall|j: int|
                1 <= j < k - 1 ==> !bit_at(occ, #[trigger] ray_square(si, dri, dfi, j))),
            forall|t: int|
                #[trigger] bit_at(acc, t) <==> exists|j: int|
                    1 <= j < k && t == #[trigger] ray_square(si, dri, dfi, j),
        decreases 9 - k,
    {
        proof {
            lemma_board_coordinates();
            // the moving coordinate has strayed at most seven steps, so the
            // step count stays below eight
            if dri == 1 {
                assert(k * dri == k) by (nonlinear_arith)
                    requires
                        dri == 1,
                ;
            } else if dri == -1 {
                assert(k * dri == -k) by (nonlinear_arith)
                    requires
                        dri == -1,
                ;
            } else {
                assert(k * dri == 0) by (nonlinear_arith)
                    requires
                        dri == 0,
                ;
            }
            if dfi == 1 {
                assert(k * dfi == k) by (nonlinear_arith)
                    requires
                        dfi == 1,
                ;
            } else if dfi == -1 {
                assert(k * dfi == -k) by (nonlinear_arith)
                    requires
                        dfi == -1,
                ;
            } else {
                assert(k * dfi == 0) by (nonlinear_arith)
                    requires
                        dfi == 0,
                ;
            }
            assert(k <= 7);
            assert((k + 1) * dri == k * dri + dri) by (nonlinear_arith);
            assert((k + 1) * dfi == k * dfi + dfi) by (nonlinear_arith);
        }
        let sq_k: u64 = (cr * 8 + cf) as u64;
        let b: u64 = 1u64 << sq_k;
        proof {
            assert(sq_k as int == square_at(rank_of(si) + k * dri, file_of(si) + k * dfi));
            assert(sq_k as int == ray_square(si, dri, dfi, k));
            assert(ray_on_board(si, dri, dfi, k));
            lemma_bit_single(sq_k);
            lemma_bit_or(acc, b);
            lemma_bit_test(occ, sq_k);
        }
        acc = acc | b;
        if occ & b != 0 {
            blocked = true;
        }
        cr = cr + dr;
        cf = cf + df;
        proof {
            k = k + 1;
        }
    }
    proof {
        assert forall|t: int| #[trigger] bit_at(acc, t) <==> ray_reaches(occ, si, dri, dfi, t) by {
            if bit_at(acc, t) {
                let j = choose|j: int| 1 <= j < k && t == #[trigger] ray_square(si, dri, dfi, j);
                assert(ray_on_board(si, dri, dfi, j));
                assert(ray_clear_before(occ, si, dri, dfi, j));
            }
            if ray_reaches(occ, si, dri, dfi, t) {
                let m = choose|m: int|
                    1 <= m && #[trigger] ray_on_board(si, dri, dfi, m) && t == ray_square(
                        si,
                        dri,
                        dfi,
                        m,
                    ) && ray_clear_before(occ, si, dri, dfi, m);
                if m < k {
                    assert(bit_at(acc, t));
                } else {
                    if blocked {
                        // the walk stopped on an occupied square, which lies
                        // strictly before step m and contradicts the clear
                        // prefix of the witness
                        assert(bit_at(occ, ray_square(si, dri, dfi, k - 1)));
                        assert(!bit_at(occ, ray_square(si, dri, dfi, k - 1)));
                    } else {
                        // the walk ran off the board at step k, so step m is
                        // off the board as well
                        assert(!ray_on_board(si, dri, dfi, k));
                        lemma_ray_stays_off(si, dri, dfi, k, m);
                    }
                }
            }
        }
    }
    acc
}

/// The squares a rook on `sq` attacks given the occupancy `blockers`: each
/// straight ray, walked outward until it runs off the board or just past
/// the first occupied square.
pub fn rook_attacks_bb(sq: usize, blockers: u64) -> (r: u64)
    requires
        sq < 64,
    ensures
        forall|t: int| #[trigger] bit_at(r, t) <==> rook_reaches(blockers, sq as int, t),
{
    let n = walk_ray(sq, 1, 0, blockers);
    let s = walk_ray(sq, -1, 0, blockers);
    let e = walk_ray(sq, 0, 1, blockers);
    let w = walk_ray(sq, 0, -1, blockers);
    let r = (n | s) | (e | w);
    proof {
        lemma_bit_or(n, s);
        lemma_bit_or(e, w);
        lemma_bit_or(n | s, e | w);
    }
    r
}

/// The squares a bishop on `sq` attacks given the occupancy `blockers`:
/// each diagonal ray, walked as for the rook.
pub fn bishop_attacks_bb(sq: usize, blockers: u64) -> (r: u64)
    requires
        sq < 64,
    ensures
        forall|t: int| #[trigger] bit_at(r, t) <==> bishop_reaches(blockers, sq as int, t),
{
    let ne = walk_ray(sq, 1, 1, blockers);
    let nw = walk_ray(sq, 1, -1, blockers);
    let se = walk_ray(sq, -1, 1, blockers);
    let sw = walk_ray(sq, -1, -1, blockers);
    let r = (ne | nw) | (se | sw);
    proof {
        lemma_bit_or(ne, nw);
        lemma_bit_or(se, sw);
        lemma_bit_or(ne | nw, se | sw);
    }
    r
}

/// The squares a queen on `sq` attacks: the rook's and the bishop's rays
/// together.
pub fn queen_attacks_bb(sq: usize, blockers: u64) -> (r: u64)
    requires
        sq < 64,
    ensures
        forall|t: int| #[trigger] bit_at(r, t) <==> queen_reaches(blockers, sq as int, t),
{
    let rook = rook_attacks_bb(sq, blockers);
    let bishop = bishop_attacks_bb(sq, blockers);
    let r = rook | bishop;
    proof {
        lemma_bit_or(rook, bishop);
    }
    r
}

} // verus!
