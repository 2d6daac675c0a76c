use vstd::prelude::*;

verus! {

/// Bit `i` of bitboard `bb` is set.  Bit `i` stands for square `i` of the
/// board, with `i = 8 * rank + file` (bit 0 is a1, bit 63 is h8), so a `u64`
/// encodes a set of squares.
pub open spec fn bit_at(bb: u64, i: int) -> bool {
    0 <= i < 64 && (bb >> (i as u64)) & 1u64 == 1u64
}

pub proof fn lemma_bit_zero()
    ensures
        forall|i: int| !bit_at(0u64, i),
{
    assert forall|i: int| !bit_at(0u64, i) by {
        if 0 <= i < 64 {
            let j: u64 = i as u64;
            assert((0u64 >> j) & 1u64 == 0u64) by (bit_vector);
        }
    }
}

pub proof fn lemma_bit_or(a: u64, b: u64)
    ensures
        forall|i: int| #[trigger] bit_at(a | b, i) <==> bit_at(a, i) || bit_at(b, i),
{
    assert forall|i: int| #[trigger] bit_at(a | b, i) <==> bit_at(a, i) || bit_at(b, i) by {
        if 0 <= i < 64 {
            let j: u64 = i as u64;
            assert((((a | b) >> j) & 1u64 == 1u64) <==> (((a >> j) & 1u64 == 1u64) || ((b >> j)
                & 1u64 == 1u64))) by (bit_vector);
        }
    }
}

pub proof fn lemma_bit_and(a: u64, b: u64)
    ensures
        forall|i: int| #[trigger] bit_at(a & b, i) <==> bit_at(a, i) && bit_at(b, i),
{
    assert forall|i: int| #[trigger] bit_at(a & b, i) <==> bit_at(a, i) && bit_at(b, i) by {
        if 0 <= i < 64 {
            let j: u64 = i as u64;
            assert((((a & b) >> j) & 1u64 == 1u64) <==> (((a >> j) & 1u64 == 1u64) && ((b >> j)
                & 1u64 == 1u64))) by (bit_vector);
        }
    }
}

pub proof fn lemma_bit_not(a: u64)
    ensures
        forall|i: int| 0 <= i < 64 ==> (#[trigger] bit_at(!a, i) <==> !bit_at(a, i)),
{
    assert forall|i: int| 0 <= i < 64 implies (#[trigger] bit_at(!a, i) <==> !bit_at(a, i)) by {
        let j: u64 = i as u64;
        assert((((!a) >> j) & 1u64 == 1u64) <==> !((a >> j) & 1u64 == 1u64)) by (bit_vector)
            requires j < 64u64;
    }
}

pub proof fn lemma_bit_single(k: u64)
    requires
        k < 64,
    ensures
        forall|i: int| #[trigger] bit_at(1u64 << k, i) <==> i == k as int,
{
    assert forall|i: int| #[trigger] bit_at(1u64 << k, i) <==> i == k as int by {
        if 0 <= i < 64 {
            let j: u64 = i as u64;
            assert((((1u64 << k) >> j) & 1u64 == 1u64) <==> j == k) by (bit_vector)
                requires k < 64u64, j < 64u64;
        }
    }
}

/// Testing a square with a mask agrees with `bit_at`.
pub proof fn lemma_bit_test(a: u64, k: u64)
    requires
        k < 64,
    ensures
        (a & (1u64 << k) != 0) <==> bit_at(a, k as int),
{
    assert((a & (1u64 << k) != 0) <==> ((a >> k) & 1u64 == 1u64)) by (bit_vector)
        requires k < 64u64;
}

/// Clearing one bit leaves exactly the other bits.
pub proof fn lemma_bit_clear(a: u64, k: u64)
    requires
        k < 64,
    ensures
        forall|i: int| #[trigger] bit_at(a & !(1u64 << k), i) <==> (bit_at(a, i) && i != k as int),
{
    assert forall|i: int| #[trigger] bit_at(a & !(1u64 << k), i) <==> (bit_at(a, i) && i
        != k as int) by {
        if 0 <= i < 64 {
            let j: u64 = i as u64;
            assert((((a & !(1u64 << k)) >> j) & 1u64 == 1u64) <==> (((a >> j) & 1u64 == 1u64) && j
                != k)) by (bit_vector)
                requires k < 64u64, j < 64u64;
        }
    }
}

/// Toggling one bit flips it and leaves the other bits.
pub proof fn lemma_bit_toggle(a: u64, k: u64)
    requires
        k < 64,
    ensures
        forall|i: int| #[trigger] bit_at(a ^ (1u64 << k), i) <==> (if i == k as int {
            !bit_at(a, i)
        } else {
            bit_at(a, i)
        }),
{
    assert forall|i: int| #[trigger] bit_at(a ^ (1u64 << k), i) <==> (if i == k as int {
        !bit_at(a, i)
    } else {
        bit_at(a, i)
    }) by {
        if 0 <= i < 64 {
            let j: u64 = i as u64;
            assert((((a ^ (1u64 << k)) >> j) & 1u64 == 1u64) <==> (if j == k {
                !((a >> j) & 1u64 == 1u64)
            } else {
                ((a >> j) & 1u64 == 1u64)
            })) by (bit_vector)
                requires k < 64u64, j < 64u64;
        }
    }
}

/// A nonzero bitboard holds at least one square.
pub proof fn lemma_nonzero_has_bit(a: u64)
    requires
        a != 0,
    ensures
        exists|i: int| #[trigger] bit_at(a, i),
{
    vstd::std_specs::bits::axiom_u64_trailing_zeros(a);
    let tz = vstd::std_specs::bits::u64_trailing_zeros(a) as int;
    assert(bit_at(a, tz));
}

/// Two bitboards with empty intersection share no square.
pub proof fn lemma_bit_disjoint(a: u64, b: u64)
    requires
        a & b == 0,
    ensures
        forall|i: int| !(#[trigger] bit_at(a, i) && bit_at(b, i)),
{
    assert forall|i: int| !(#[trigger] bit_at(a, i) && bit_at(b, i)) by {
        if 0 <= i < 64 {
            let j: u64 = i as u64;
            assert(!(((a >> j) & 1u64 == 1u64) && ((b >> j) & 1u64 == 1u64))) by (bit_vector)
                requires a & b == 0u64;
        }
    }
}

/// Single-square operations on a 64-bit occupancy board.
pub trait BitOperations: Sized {
    /// The board the operations read, as a raw 64-bit value.
    spec fn bits(&self) -> u64;

    /// Index of the lowest set bit.  A zero board holds no square to report,
    /// so it is excluded by precondition.
    fn lsb_index(&self) -> (r: usize)
        requires
            self.bits() != 0,
        ensures
            r < 64,
            bit_at(self.bits(), r as int),
            forall|i: int| 0 <= i < r ==> !bit_at(self.bits(), i),
    ;

    /// Index of the lowest set bit, which is also cleared in place.
    fn lsb_pop(&mut self) -> (r: usize)
        requires
            old(self).bits() != 0,
        ensures
            r < 64,
            bit_at(old(self).bits(), r as int),
            forall|i: int| 0 <= i < r ==> !bit_at(old(self).bits(), i),
            final(self).bits() == old(self).bits() & !(1u64 << (r as u64)),
            forall|i: int|
                #[trigger] bit_at(final(self).bits(), i) <==> (bit_at(old(self).bits(), i) && i
                    != r),
    ;

    /// Index of the highest set bit.  A zero board is excluded as for
    /// `lsb_index`.
    fn msb_index(&self) -> (r: usize)
        requires
            self.bits() != 0,
        ensures
            r < 64,
            bit_at(self.bits(), r as int),
            forall|i: int| r < i < 64 ==> !bit_at(self.bits(), i),
    ;

    /// Whether one square is set.
    fn test_bit(&self, index: usize) -> (r: bool)
        requires
            index < 64,
        ensures
            r == bit_at(self.bits(), index as int),
    ;

    /// Flip one square.  Toggling the same index twice restores the board.
    fn toggle_bit(&mut self, index: usize)
        requires
            index < 64,
        ensures
            final(self).bits() == old(self).bits() ^ (1u64 << (index as u64)),
            forall|i: int|
                #[trigger] bit_at(final(self).bits(), i) <==> (if i == index {
                    !bit_at(old(self).bits(), i)
                } else {
                    bit_at(old(self).bits(), i)
                }),
    ;
}

impl BitOperations for u64 {
    open spec fn bits(&self) -> u64 {
        *self
    }

    fn lsb_index(&self) -> (r: usize) {
        proof {
            vstd::std_specs::bits::axiom_u64_trailing_zeros(*self);
        }
        self.trailing_zeros() as usize
    }

    fn lsb_pop(&mut self) -> (r: usize) {
        let index = self.lsb_index();
        *self = *self & !(1u64 << (index as u64));
        proof {
            lemma_bit_clear(old(self).bits(), index as u64);
        }
        index
    }

    fn msb_index(&self) -> (r: usize) {
        proof {
            vstd::std_specs::bits::axiom_u64_leading_zeros(*self);
        }
        let lz = self.leading_zeros();
        proof {
            let b: u64 = *self;
            let k: u64 = (63 - lz) as u64;
            assert((b >> k) & 1u64 == 1u64) by (bit_vector)
                requires (b >> k) & 1u64 != 0u64;
        }
        (63 - lz) as usize
    }

    fn test_bit(&self, index: usize) -> (r: bool) {
        proof {
            lemma_bit_test(*self, index as u64);
        }
        *self & (1u64 << (index as u64)) != 0
    }

    fn toggle_bit(&mut self, index: usize) {
        *self = *self ^ (1u64 << (index as u64));
        proof {
            lemma_bit_toggle(old(self).bits(), index as u64);
        }
    }
}

} // verus!
