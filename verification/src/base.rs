use vstd::prelude::*;

verus! {

use crate::sealed::BaseSealed;

/// Defines a base for a [crate::BitArray]. This base holds the data for the array.
///
/// A base is an unsigned integer of `width()` bits; `spec_bit(i)` is its bit
/// of weight `2^i`.
pub trait Base: Copy + Default + BaseSealed + Sized {
    /// The number of bits this base holds.
    spec fn width() -> nat;

    /// The bit of weight `2^i` (false outside `0..width()`).
    spec fn spec_bit(self, i: int) -> bool;

    /// A base holds at least one and at most 128 bits.
    proof fn lemma_width()
        ensures
            0 < Self::width() <= 128,
    ;

    /// Two values with the same bits are the same value.
    proof fn lemma_bits_determine(a: Self, b: Self)
        requires
            forall|i: int| 0 <= i < Self::width() ==> a.spec_bit(i) == b.spec_bit(i),
        ensures
            a == b,
    ;

    /// Return the maximum amount of bits this base can hold
    fn max_len() -> (n: u8)
        ensures
            n as nat == Self::width(),
            n > 0,
    ;

    /// Returns the max value of this base.
    fn max() -> (r: Self)
        ensures
            forall|i: int| 0 <= i < Self::width() ==> r.spec_bit(i),
    ;

    /// Return the representation of zero for this base
    fn zero() -> (r: Self)
        ensures
            forall|i: int| !r.spec_bit(i),
    ;

    /// Return the representation of one for this base
    fn one() -> (r: Self)
        ensures
            forall|i: int| r.spec_bit(i) == (i == 0),
    ;

    /// Return the representation of a one at the given index for this base
    fn one_at_index(index: u8) -> (r: Self)
        requires
            (index as nat) < Self::width(),
        ensures
            forall|i: int| r.spec_bit(i) == (i == index as int),
    ;

    /// Bitwise and.
    fn bit_and(self, rhs: Self) -> (r: Self)
        ensures
            forall|i: int| r.spec_bit(i) == (self.spec_bit(i) && rhs.spec_bit(i)),
    ;

    /// Bitwise or.
    fn bit_or(self, rhs: Self) -> (r: Self)
        ensures
            forall|i: int| r.spec_bit(i) == (self.spec_bit(i) || rhs.spec_bit(i)),
    ;

    /// Bitwise not.
    fn bit_not(self) -> (r: Self)
        ensures
            forall|i: int| r.spec_bit(i) == (0 <= i < Self::width() && !self.spec_bit(i)),
    ;

    /// Whether every bit is 0.
    fn is_zero(self) -> (r: bool)
        ensures
            r == (forall|i: int| !self.spec_bit(i)),
    ;
}

/// The bit of weight `2^i` of a 128-bit value.
pub open spec fn bit_of(v: u128, i: int) -> bool {
    0 <= i < 128 && (v >> (i as u128)) & 1u128 == 1u128
}

/// A nonzero value has a set bit below `hi` when it has none at or above `hi`.
proof fn lemma_nonzero_has_bit(a: u128, hi: u128) -> (j: u128)
    requires
        a != 0,
        hi <= 128,
        a >> hi == 0,
    ensures
        j < hi,
        (a >> j) & 1 == 1,
    decreases hi,
{
    assert(hi != 0 && (a & 1 == 1 ==> (a >> 0u128) & 1 == 1)) by (bit_vector)
        requires
            a != 0,
            hi <= 128,
            a >> hi == 0,
    ;
    if a & 1 == 1 {
        0
    } else {
        assert((a >> 1) != 0 && (a >> 1) >> (hi - 1) as u128 == 0) by (bit_vector)
            requires
                a & 1 != 1,
                a != 0,
                hi != 0,
                hi <= 128,
                a >> hi == 0,
        ;
        let k = lemma_nonzero_has_bit(a >> 1, (hi - 1) as u128);
        assert((a >> (k + 1) as u128) & 1 == 1) by (bit_vector)
            requires
                ((a >> 1u128) >> k) & 1 == 1,
                k < 127,
        ;
        (k + 1) as u128
    }
}

impl BaseSealed for u8 {

}

proof fn lemma_u8_bits(x: u8, y: u8, k: u8, j: u8)
    by (bit_vector)
    requires
        j < 8,
        k < 8,
    ensures
        (((x & y) >> j) & 1 == 1) == ((x >> j) & 1 == 1 && (y >> j) & 1 == 1),
        (((x | y) >> j) & 1 == 1) == ((x >> j) & 1 == 1 || (y >> j) & 1 == 1),
        (((x ^ y) >> j) & 1 == 1) == ((x >> j) & 1 == 1 != ((y >> j) & 1 == 1)),
        (((!x) >> j) & 1 == 1) == !((x >> j) & 1 == 1),
        (((1u8 << k) >> j) & 1 == 1) == (j == k),
        ((1u8 >> j) & 1 == 1) == (j == 0),
        (0u8 >> j) & 1 != 1,
        ((!0u8) >> j) & 1 == 1,
        !0u8 == u8::MAX,
        (((x as u128) >> (j as u128)) & 1 == 1) == ((x >> j) & 1 == 1),
        (x as u128) >> (8 as u128) == 0,
        x != 0 ==> (x as u128) != 0,
        x != y ==> (x ^ y) != 0,
{
}

impl Base for u8 {
    open spec fn width() -> nat {
        8
    }

    open spec fn spec_bit(self, i: int) -> bool {
        0 <= i < 8 && (self >> (i as u8)) & 1u8 == 1u8
    }

    proof fn lemma_width() {
    }

    proof fn lemma_bits_determine(a: Self, b: Self) {
        if a != b {
            let d = a ^ b;
            lemma_u8_bits(a, b, 0, 0);
            lemma_u8_bits(d, 0, 0, 0);
            let j = lemma_nonzero_has_bit(d as u128, 8 as u128);
            lemma_u8_bits(d, 0, 0, j as u8);
            lemma_u8_bits(a, b, 0, j as u8);
            assert(a.spec_bit(j as int) != b.spec_bit(j as int));
        }
    }

    fn max_len() -> (n: u8) {
        8
    }

    fn max() -> (r: Self) {
        proof {
            assert forall|i: int| 0 <= i < 8 implies u8::MAX.spec_bit(i) by {
                lemma_u8_bits(0, 0, 0, i as u8);
            }
        }
        u8::MAX
    }

    fn zero() -> (r: Self) {
        proof {
            assert forall|i: int| !0u8.spec_bit(i) by {
                if 0 <= i < 8 {
                    lemma_u8_bits(0, 0, 0, i as u8);
                }
            }
        }
        0
    }

    fn one() -> (r: Self) {
        proof {
            assert forall|i: int| 1u8.spec_bit(i) == (i == 0) by {
                if 0 <= i < 8 {
                    lemma_u8_bits(0, 0, 0, i as u8);
                }
            }
        }
        1
    }

    fn one_at_index(index: u8) -> (r: Self) {
        let r = 1u8 << index;
        proof {
            assert forall|i: int| r.spec_bit(i) == (i == index as int) by {
                if 0 <= i < 8 {
                    lemma_u8_bits(0, 0, index as u8, i as u8);
                }
            }
        }
        r
    }

    fn bit_and(self, rhs: Self) -> (r: Self) {
        let r = self & rhs;
        proof {
            assert forall|i: int| r.spec_bit(i) == (self.spec_bit(i) && rhs.spec_bit(i)) by {
                if 0 <= i < 8 {
                    lemma_u8_bits(self, rhs, 0, i as u8);
                }
            }
        }
        r
    }

    fn bit_or(self, rhs: Self) -> (r: Self) {
        let r = self | rhs;
        proof {
            assert forall|i: int| r.spec_bit(i) == (self.spec_bit(i) || rhs.spec_bit(i)) by {
                if 0 <= i < 8 {
                    lemma_u8_bits(self, rhs, 0, i as u8);
                }
            }
        }
        r
    }

    fn bit_not(self) -> (r: Self) {
        let r = !self;
        proof {
            assert forall|i: int| r.spec_bit(i) == (0 <= i < 8 && !self.spec_bit(i)) by {
                if 0 <= i < 8 {
                    lemma_u8_bits(self, 0, 0, i as u8);
                }
            }
        }
        r
    }

    fn is_zero(self) -> (r: bool) {
        proof {
            if self == 0 {
                assert forall|i: int| !self.spec_bit(i) by {
                    if 0 <= i < 8 {
                        lemma_u8_bits(self, 0, 0, i as u8);
                    }
                }
            } else {
                lemma_u8_bits(self, 0, 0, 0);
                let j = lemma_nonzero_has_bit(self as u128, 8 as u128);
                lemma_u8_bits(self, 0, 0, j as u8);
                assert(self.spec_bit(j as int));
            }
        }
        self == 0
    }
}

impl BaseSealed for u16 {

}

proof fn lemma_u16_bits(x: u16, y: u16, k: u16, j: u16)
    by (bit_vector)
    requires
        j < 16,
        k < 16,
    ensures
        (((x & y) >> j) & 1 == 1) == ((x >> j) & 1 == 1 && (y >> j) & 1 == 1),
        (((x | y) >> j) & 1 == 1) == ((x >> j) & 1 == 1 || (y >> j) & 1 == 1),
        (((x ^ y) >> j) & 1 == 1) == ((x >> j) & 1 == 1 != ((y >> j) & 1 == 1)),
        (((!x) >> j) & 1 == 1) == !((x >> j) & 1 == 1),
        (((1u16 << k) >> j) & 1 == 1) == (j == k),
        ((1u16 >> j) & 1 == 1) == (j == 0),
        (0u16 >> j) & 1 != 1,
        ((!0u16) >> j) & 1 == 1,
        !0u16 == u16::MAX,
        (((x as u128) >> (j as u128)) & 1 == 1) == ((x >> j) & 1 == 1),
        (x as u128) >> (16 as u128) == 0,
        x != 0 ==> (x as u128) != 0,
        x != y ==> (x ^ y) != 0,
{
}

impl Base for u16 {
    open spec fn width() -> nat {
        16
    }

    open spec fn spec_bit(self, i: int) -> bool {
        0 <= i < 16 && (self >> (i as u16)) & 1u16 == 1u16
    }

    proof fn lemma_width() {
    }

    proof fn lemma_bits_determine(a: Self, b: Self) {
        if a != b {
            let d = a ^ b;
            lemma_u16_bits(a, b, 0, 0);
            lemma_u16_bits(d, 0, 0, 0);
            let j = lemma_nonzero_has_bit(d as u128, 16 as u128);
            lemma_u16_bits(d, 0, 0, j as u16);
            lemma_u16_bits(a, b, 0, j as u16);
            assert(a.spec_bit(j as int) != b.spec_bit(j as int));
        }
    }

    fn max_len() -> (n: u8) {
        16
    }

    fn max() -> (r: Self) {
        proof {
            assert forall|i: int| 0 <= i < 16 implies u16::MAX.spec_bit(i) by {
                lemma_u16_bits(0, 0, 0, i as u16);
            }
        }
        u16::MAX
    }

    fn zero() -> (r: Self) {
        proof {
            assert forall|i: int| !0u16.spec_bit(i) by {
                if 0 <= i < 16 {
                    lemma_u16_bits(0, 0, 0, i as u16);
                }
            }
        }
        0
    }

    fn one() -> (r: Self) {
        proof {
            assert forall|i: int| 1u16.spec_bit(i) == (i == 0) by {
                if 0 <= i < 16 {
                    lemma_u16_bits(0, 0, 0, i as u16);
                }
            }
        }
        1
    }

    fn one_at_index(index: u8) -> (r: Self) {
        let r = 1u16 << index;
        proof {
            assert forall|i: int| r.spec_bit(i) == (i == index as int) by {
                if 0 <= i < 16 {
                    lemma_u16_bits(0, 0, index as u16, i as u16);
                }
            }
        }
        r
    }

    fn bit_and(self, rhs: Self) -> (r: Self) {
        let r = self & rhs;
        proof {
            assert forall|i: int| r.spec_bit(i) == (self.spec_bit(i) && rhs.spec_bit(i)) by {
                if 0 <= i < 16 {
                    lemma_u16_bits(self, rhs, 0, i as u16);
                }
            }
        }
        r
    }

    fn bit_or(self, rhs: Self) -> (r: Self) {
        let r = self | rhs;
        proof {
            assert forall|i: int| r.spec_bit(i) == (self.spec_bit(i) || rhs.spec_bit(i)) by {
                if 0 <= i < 16 {
                    lemma_u16_bits(self, rhs, 0, i as u16);
                }
            }
        }
        r
    }

    fn bit_not(self) -> (r: Self) {
        let r = !self;
        proof {
            assert forall|i: int| r.spec_bit(i) == (0 <= i < 16 && !self.spec_bit(i)) by {
                if 0 <= i < 16 {
                    lemma_u16_bits(self, 0, 0, i as u16);
                }
            }
        }
        r
    }

    fn is_zero(self) -> (r: bool) {
        proof {
            if self == 0 {
                assert forall|i: int| !self.spec_bit(i) by {
                    if 0 <= i < 16 {
                        lemma_u16_bits(self, 0, 0, i as u16);
                    }
                }
            } else {
                lemma_u16_bits(self, 0, 0, 0);
                let j = lemma_nonzero_has_bit(self as u128, 16 as u128);
                lemma_u16_bits(self, 0, 0, j as u16);
                assert(self.spec_bit(j as int));
            }
        }
        self == 0
    }
}

impl BaseSealed for u32 {

}

proof fn lemma_u32_bits(x: u32, y: u32, k: u32, j: u32)
    by (bit_vector)
    requires
        j < 32,
        k < 32,
    ensures
        (((x & y) >> j) & 1 == 1) == ((x >> j) & 1 == 1 && (y >> j) & 1 == 1),
        (((x | y) >> j) & 1 == 1) == ((x >> j) & 1 == 1 || (y >> j) & 1 == 1),
        (((x ^ y) >> j) & 1 == 1) == ((x >> j) & 1 == 1 != ((y >> j) & 1 == 1)),
        (((!x) >> j) & 1 == 1) == !((x >> j) & 1 == 1),
        (((1u32 << k) >> j) & 1 == 1) == (j == k),
        ((1u32 >> j) & 1 == 1) == (j == 0),
        (0u32 >> j) & 1 != 1,
        ((!0u32) >> j) & 1 == 1,
        !0u32 == u32::MAX,
        (((x as u128) >> (j as u128)) & 1 == 1) == ((x >> j) & 1 == 1),
        (x as u128) >> (32 as u128) == 0,
        x != 0 ==> (x as u128) != 0,
        x != y ==> (x ^ y) != 0,
{
}

impl Base for u32 {
    open spec fn width() -> nat {
        32
    }

    open spec fn spec_bit(self, i: int) -> bool {
        0 <= i < 32 && (self >> (i as u32)) & 1u32 == 1u32
    }

    proof fn lemma_width() {
    }

    proof fn lemma_bits_determine(a: Self, b: Self) {
        if a != b {
            let d = a ^ b;
            lemma_u32_bits(a, b, 0, 0);
            lemma_u32_bits(d, 0, 0, 0);
            let j = lemma_nonzero_has_bit(d as u128, 32 as u128);
            lemma_u32_bits(d, 0, 0, j as u32);
            lemma_u32_bits(a, b, 0, j as u32);
            assert(a.spec_bit(j as int) != b.spec_bit(j as int));
        }
    }

    fn max_len() -> (n: u8) {
        32
    }

    fn max() -> (r: Self) {
        proof {
            assert forall|i: int| 0 <= i < 32 implies u32::MAX.spec_bit(i) by {
                lemma_u32_bits(0, 0, 0, i as u32);
            }
        }
        u32::MAX
    }

    fn zero() -> (r: Self) {
        proof {
            assert forall|i: int| !0u32.spec_bit(i) by {
                if 0 <= i < 32 {
                    lemma_u32_bits(0, 0, 0, i as u32);
                }
            }
        }
        0
    }

    fn one() -> (r: Self) {
        proof {
            assert forall|i: int| 1u32.spec_bit(i) == (i == 0) by {
                if 0 <= i < 32 {
                    lemma_u32_bits(0, 0, 0, i as u32);
                }
            }
        }
        1
    }

    fn one_at_index(index: u8) -> (r: Self) {
        let r = 1u32 << index;
        proof {
            assert forall|i: int| r.spec_bit(i) == (i == index as int) by {
                if 0 <= i < 32 {
                    lemma_u32_bits(0, 0, index as u32, i as u32);
                }
            }
        }
        r
    }

    fn bit_and(self, rhs: Self) -> (r: Self) {
        let r = self & rhs;
        proof {
            assert forall|i: int| r.spec_bit(i) == (self.spec_bit(i) && rhs.spec_bit(i)) by {
                if 0 <= i < 32 {
                    lemma_u32_bits(self, rhs, 0, i as u32);
                }
            }
        }
        r
    }

    fn bit_or(self, rhs: Self) -> (r: Self) {
        let r = self | rhs;
        proof {
            assert forall|i: int| r.spec_bit(i) == (self.spec_bit(i) || rhs.spec_bit(i)) by {
                if 0 <= i < 32 {
                    lemma_u32_bits(self, rhs, 0, i as u32);
                }
            }
        }
        r
    }

    fn bit_not(self) -> (r: Self) {
        let r = !self;
        proof {
            assert forall|i: int| r.spec_bit(i) == (0 <= i < 32 && !self.spec_bit(i)) by {
                if 0 <= i < 32 {
                    lemma_u32_bits(self, 0, 0, i as u32);
                }
            }
        }
        r
    }

    fn is_zero(self) -> (r: bool) {
        proof {
            if self == 0 {
                assert forall|i: int| !self.spec_bit(i) by {
                    if 0 <= i < 32 {
                        lemma_u32_bits(self, 0, 0, i as u32);
                    }
                }
            } else {
                lemma_u32_bits(self, 0, 0, 0);
                let j = lemma_nonzero_has_bit(self as u128, 32 as u128);
                lemma_u32_bits(self, 0, 0, j as u32);
                assert(self.spec_bit(j as int));
            }
        }
        self == 0
    }
}

impl BaseSealed for u64 {

}

proof fn lemma_u64_bits(x: u64, y: u64, k: u64, j: u64)
    by (bit_vector)
    requires
        j < 64,
        k < 64,
    ensures
        (((x & y) >> j) & 1 == 1) == ((x >> j) & 1 == 1 && (y >> j) & 1 == 1),
        (((x | y) >> j) & 1 == 1) == ((x >> j) & 1 == 1 || (y >> j) & 1 == 1),
        (((x ^ y) >> j) & 1 == 1) == ((x >> j) & 1 == 1 != ((y >> j) & 1 == 1)),
        (((!x) >> j) & 1 == 1) == !((x >> j) & 1 == 1),
        (((1u64 << k) >> j) & 1 == 1) == (j == k),
        ((1u64 >> j) & 1 == 1) == (j == 0),
        (0u64 >> j) & 1 != 1,
        ((!0u64) >> j) & 1 == 1,
        !0u64 == u64::MAX,
        (((x as u128) >> (j as u128)) & 1 == 1) == ((x >> j) & 1 == 1),
        (x as u128) >> (64 as u128) == 0,
        x != 0 ==> (x as u128) != 0,
        x != y ==> (x ^ y) != 0,
{
}

impl Base for u64 {
    open spec fn width() -> nat {
        64
    }

    open spec fn spec_bit(self, i: int) -> bool {
        0 <= i < 64 && (self >> (i as u64)) & 1u64 == 1u64
    }

    proof fn lemma_width() {
    }

    proof fn lemma_bits_determine(a: Self, b: Self) {
        if a != b {
            let d = a ^ b;
            lemma_u64_bits(a, b, 0, 0);
            lemma_u64_bits(d, 0, 0, 0);
            let j = lemma_nonzero_has_bit(d as u128, 64 as u128);
            lemma_u64_bits(d, 0, 0, j as u64);
            lemma_u64_bits(a, b, 0, j as u64);
            assert(a.spec_bit(j as int) != b.spec_bit(j as int));
        }
    }

    fn max_len() -> (n: u8) {
        64
    }

    fn max() -> (r: Self) {
        proof {
            assert forall|i: int| 0 <= i < 64 implies u64::MAX.spec_bit(i) by {
                lemma_u64_bits(0, 0, 0, i as u64);
            }
        }
        u64::MAX
    }

    fn zero() -> (r: Self) {
        proof {
            assert forall|i: int| !0u64.spec_bit(i) by {
                if 0 <= i < 64 {
                    lemma_u64_bits(0, 0, 0, i as u64);
                }
            }
        }
        0
    }

    fn one() -> (r: Self) {
        proof {
            assert forall|i: int| 1u64.spec_bit(i) == (i == 0) by {
                if 0 <= i < 64 {
                    lemma_u64_bits(0, 0, 0, i as u64);
                }
            }
        }
        1
    }

    fn one_at_index(index: u8) -> (r: Self) {
        let r = 1u64 << index;
        proof {
            assert forall|i: int| r.spec_bit(i) == (i == index as int) by {
                if 0 <= i < 64 {
                    lemma_u64_bits(0, 0, index as u64, i as u64);
                }
            }
        }
        r
    }

    fn bit_and(self, rhs: Self) -> (r: Self) {
        let r = self & rhs;
        proof {
            assert forall|i: int| r.spec_bit(i) == (self.spec_bit(i) && rhs.spec_bit(i)) by {
                if 0 <= i < 64 {
                    lemma_u64_bits(self, rhs, 0, i as u64);
                }
            }
        }
        r
    }

    fn bit_or(self, rhs: Self) -> (r: Self) {
        let r = self | rhs;
        proof {
            assert forall|i: int| r.spec_bit(i) == (self.spec_bit(i) || rhs.spec_bit(i)) by {
                if 0 <= i < 64 {
                    lemma_u64_bits(self, rhs, 0, i as u64);
                }
            }
        }
        r
    }

    fn bit_not(self) -> (r: Self) {
        let r = !self;
        proof {
            assert forall|i: int| r.spec_bit(i) == (0 <= i < 64 && !self.spec_bit(i)) by {
                if 0 <= i < 64 {
                    lemma_u64_bits(self, 0, 0, i as u64);
                }
            }
        }
        r
    }

    fn is_zero(self) -> (r: bool) {
        proof {
            if self == 0 {
                assert forall|i: int| !self.spec_bit(i) by {
                    if 0 <= i < 64 {
                        lemma_u64_bits(self, 0, 0, i as u64);
                    }
                }
            } else {
                lemma_u64_bits(self, 0, 0, 0);
                let j = lemma_nonzero_has_bit(self as u128, 64 as u128);
                lemma_u64_bits(self, 0, 0, j as u64);
                assert(self.spec_bit(j as int));
            }
        }
        self == 0
    }
}

impl BaseSealed for u128 {

}

proof fn lemma_u128_bits(x: u128, y: u128, k: u128, j: u128)
    by (bit_vector)
    requires
        j < 128,
        k < 128,
    ensures
        (((x & y) >> j) & 1 == 1) == ((x >> j) & 1 == 1 && (y >> j) & 1 == 1),
        (((x | y) >> j) & 1 == 1) == ((x >> j) & 1 == 1 || (y >> j) & 1 == 1),
        (((x ^ y) >> j) & 1 == 1) == ((x >> j) & 1 == 1 != ((y >> j) & 1 == 1)),
        (((!x) >> j) & 1 == 1) == !((x >> j) & 1 == 1),
        (((1u128 << k) >> j) & 1 == 1) == (j == k),
        ((1u128 >> j) & 1 == 1) == (j == 0),
        (0u128 >> j) & 1 != 1,
        ((!0u128) >> j) & 1 == 1,
        !0u128 == u128::MAX,
        (((x as u128) >> (j as u128)) & 1 == 1) == ((x >> j) & 1 == 1),
        (x as u128) >> (128 as u128) == 0,
        x != 0 ==> (x as u128) != 0,
        x != y ==> (x ^ y) != 0,
{
}

impl Base for u128 {
    open spec fn width() -> nat {
        128
    }

    open spec fn spec_bit(self, i: int) -> bool {
        0 <= i < 128 && (self >> (i as u128)) & 1u128 == 1u128
    }

    proof fn lemma_width() {
    }

    proof fn lemma_bits_determine(a: Self, b: Self) {
        if a != b {
            let d = a ^ b;
            lemma_u128_bits(a, b, 0, 0);
            lemma_u128_bits(d, 0, 0, 0);
            let j = lemma_nonzero_has_bit(d as u128, 128 as u128);
            lemma_u128_bits(d, 0, 0, j as u128);
            lemma_u128_bits(a, b, 0, j as u128);
            assert(a.spec_bit(j as int) != b.spec_bit(j as int));
        }
    }

    fn max_len() -> (n: u8) {
        128
    }

    fn max() -> (r: Self) {
        proof {
            assert forall|i: int| 0 <= i < 128 implies u128::MAX.spec_bit(i) by {
                lemma_u128_bits(0, 0, 0, i as u128);
            }
        }
        u128::MAX
    }

    fn zero() -> (r: Self) {
        proof {
            assert forall|i: int| !0u128.spec_bit(i) by {
                if 0 <= i < 128 {
                    lemma_u128_bits(0, 0, 0, i as u128);
                }
            }
        }
        0
    }

    fn one() -> (r: Self) {
        proof {
            assert forall|i: int| 1u128.spec_bit(i) == (i == 0) by {
                if 0 <= i < 128 {
                    lemma_u128_bits(0, 0, 0, i as u128);
                }
            }
        }
        1
    }

    fn one_at_index(index: u8) -> (r: Self) {
        let r = 1u128 << index;
        proof {
            assert forall|i: int| r.spec_bit(i) == (i == index as int) by {
                if 0 <= i < 128 {
                    lemma_u128_bits(0, 0, index as u128, i as u128);
                }
            }
        }
        r
    }

    fn bit_and(self, rhs: Self) -> (r: Self) {
        let r = self & rhs;
        proof {
            assert forall|i: int| r.spec_bit(i) == (self.spec_bit(i) && rhs.spec_bit(i)) by {
                if 0 <= i < 128 {
                    lemma_u128_bits(self, rhs, 0, i as u128);
                }
            }
        }
        r
    }

    fn bit_or(self, rhs: Self) -> (r: Self) {
        let r = self | rhs;
        proof {
            assert forall|i: int| r.spec_bit(i) == (self.spec_bit(i) || rhs.spec_bit(i)) by {
                if 0 <= i < 128 {
                    lemma_u128_bits(self, rhs, 0, i as u128);
                }
            }
        }
        r
    }

    fn bit_not(self) -> (r: Self) {
        let r = !self;
        proof {
            assert forall|i: int| r.spec_bit(i) == (0 <= i < 128 && !self.spec_bit(i)) by {
                if 0 <= i < 128 {
                    lemma_u128_bits(self, 0, 0, i as u128);
                }
            }
        }
        r
    }

    fn is_zero(self) -> (r: bool) {
        proof {
            if self == 0 {
                assert forall|i: int| !self.spec_bit(i) by {
                    if 0 <= i < 128 {
                        lemma_u128_bits(self, 0, 0, i as u128);
                    }
                }
            } else {
                lemma_u128_bits(self, 0, 0, 0);
                let j = lemma_nonzero_has_bit(self as u128, 128 as u128);
                lemma_u128_bits(self, 0, 0, j as u128);
                assert(self.spec_bit(j as int));
            }
        }
        self == 0
    }
}

impl BaseSealed for usize {

}

proof fn lemma_usize_bits(x: usize, y: usize, k: usize, j: usize)
    by (bit_vector)
    requires
        j < usize::BITS,
        k < usize::BITS,
    ensures
        (((x & y) >> j) & 1 == 1) == ((x >> j) & 1 == 1 && (y >> j) & 1 == 1),
        (((x | y) >> j) & 1 == 1) == ((x >> j) & 1 == 1 || (y >> j) & 1 == 1),
        (((x ^ y) >> j) & 1 == 1) == ((x >> j) & 1 == 1 != ((y >> j) & 1 == 1)),
        (((!x) >> j) & 1 == 1) == !((x >> j) & 1 == 1),
        (((1usize << k) >> j) & 1 == 1) == (j == k),
        ((1usize >> j) & 1 == 1) == (j == 0),
        (0usize >> j) & 1 != 1,
        ((!0usize) >> j) & 1 == 1,
        (((x as u128) >> (j as u128)) & 1 == 1) == ((x >> j) & 1 == 1),
        (x as u128) >> (usize::BITS as u128) == 0,
        x != 0 ==> (x as u128) != 0,
        x != y ==> (x ^ y) != 0,
{
}

impl Base for usize {
    open spec fn width() -> nat {
        usize::BITS as nat
    }

    open spec fn spec_bit(self, i: int) -> bool {
        0 <= i < usize::BITS && (self >> (i as usize)) & 1usize == 1usize
    }

    proof fn lemma_width() {
    }

    proof fn lemma_bits_determine(a: Self, b: Self) {
        if a != b {
            let d = a ^ b;
            lemma_usize_bits(a, b, 0, 0);
            lemma_usize_bits(d, 0, 0, 0);
            let j = lemma_nonzero_has_bit(d as u128, usize::BITS as u128);
            lemma_usize_bits(d, 0, 0, j as usize);
            lemma_usize_bits(a, b, 0, j as usize);
            assert(a.spec_bit(j as int) != b.spec_bit(j as int));
        }
    }

    fn max_len() -> (n: u8) {
        usize::BITS as u8
    }

    fn max() -> (r: Self) {
        proof {
            assert forall|i: int| 0 <= i < usize::BITS implies (!0usize).spec_bit(i) by {
                lemma_usize_bits(0, 0, 0, i as usize);
            }
        }
        !0usize
    }

    fn zero() -> (r: Self) {
        proof {
            assert forall|i: int| !0usize.spec_bit(i) by {
                if 0 <= i < usize::BITS {
                    lemma_usize_bits(0, 0, 0, i as usize);
                }
            }
        }
        0
    }

    fn one() -> (r: Self) {
        proof {
            assert forall|i: int| 1usize.spec_bit(i) == (i == 0) by {
                if 0 <= i < usize::BITS {
                    lemma_usize_bits(0, 0, 0, i as usize);
                }
            }
        }
        1
    }

    fn one_at_index(index: u8) -> (r: Self) {
        let r = 1usize << index;
        proof {
            assert forall|i: int| r.spec_bit(i) == (i == index as int) by {
                if 0 <= i < usize::BITS {
                    lemma_usize_bits(0, 0, index as usize, i as usize);
                }
            }
        }
        r
    }

    fn bit_and(self, rhs: Self) -> (r: Self) {
        let r = self & rhs;
        proof {
            assert forall|i: int| r.spec_bit(i) == (self.spec_bit(i) && rhs.spec_bit(i)) by {
                if 0 <= i < usize::BITS {
                    lemma_usize_bits(self, rhs, 0, i as usize);
                }
            }
        }
        r
    }

    fn bit_or(self, rhs: Self) -> (r: Self) {
        let r = self | rhs;
        proof {
            assert forall|i: int| r.spec_bit(i) == (self.spec_bit(i) || rhs.spec_bit(i)) by {
                if 0 <= i < usize::BITS {
                    lemma_usize_bits(self, rhs, 0, i as usize);
                }
            }
        }
        r
    }

    fn bit_not(self) -> (r: Self) {
        let r = !self;
        proof {
            assert forall|i: int| r.spec_bit(i) == (0 <= i < usize::BITS && !self.spec_bit(i)) by {
                if 0 <= i < usize::BITS {
                    lemma_usize_bits(self, 0, 0, i as usize);
                }
            }
        }
        r
    }

    fn is_zero(self) -> (r: bool) {
        proof {
            if self == 0 {
                assert forall|i: int| !self.spec_bit(i) by {
                    if 0 <= i < usize::BITS {
                        lemma_usize_bits(self, 0, 0, i as usize);
                    }
                }
            } else {
                lemma_usize_bits(self, 0, 0, 0);
                let j = lemma_nonzero_has_bit(self as u128, usize::BITS as u128);
                lemma_usize_bits(self, 0, 0, j as usize);
                assert(self.spec_bit(j as int));
            }
        }
        self == 0
    }
}

} // verus!
