//! The element types that vectors and matrices hold.
use crate::modular::{
    lemma_signed_ring, lemma_signed_wrap, lemma_truncating_quotient_bound, lemma_unsigned_ring,
    lemma_unsigned_wrap, signed_residue, truncating_quotient, unsigned_residue,
};
use vstd::prelude::*;

verus! {

/// A numeric element type: a commutative ring with a zero and a one, plus
/// negation and a partial division.
///
/// The spec functions are the arithmetic that the contracts of vectors and
/// matrices speak of; the proof functions are the ring laws that every
/// implementation proves of it; the exec functions compute it.
///
/// The fixed-width integers implement it with wrapping arithmetic, modulo
/// 2^bits: that is a ring, so the laws of sums and products of matrices hold
/// exactly, whatever the magnitudes. Division truncates toward zero, and is
/// defined for every nonzero divisor (`MIN / -1` wraps to `MIN`).
pub trait Scalar: Copy + Sized {
    /// The additive identity.
    spec fn zero_spec() -> Self;

    /// The multiplicative identity.
    spec fn one_spec() -> Self;

    /// The sum of two values.
    spec fn plus(a: Self, b: Self) -> Self;

    /// The difference of two values.
    spec fn minus(a: Self, b: Self) -> Self;

    /// The product of two values.
    spec fn times(a: Self, b: Self) -> Self;

    /// The additive inverse of a value.
    spec fn negated(a: Self) -> Self;

    /// Whether `a` may be divided by `b`.
    spec fn can_divide(a: Self, b: Self) -> bool;

    /// The quotient of `a` by `b`, where `can_divide(a, b)`.
    spec fn quotient(a: Self, b: Self) -> Self;

    proof fn lemma_plus_commutative(a: Self, b: Self)
        ensures
            Self::plus(a, b) == Self::plus(b, a),
    ;

    proof fn lemma_plus_associative(a: Self, b: Self, c: Self)
        ensures
            Self::plus(Self::plus(a, b), c) == Self::plus(a, Self::plus(b, c)),
    ;

    proof fn lemma_plus_zero(a: Self)
        ensures
            Self::plus(a, Self::zero_spec()) == a,
    ;

    proof fn lemma_times_commutative(a: Self, b: Self)
        ensures
            Self::times(a, b) == Self::times(b, a),
    ;

    proof fn lemma_times_associative(a: Self, b: Self, c: Self)
        ensures
            Self::times(Self::times(a, b), c) == Self::times(a, Self::times(b, c)),
    ;

    proof fn lemma_times_one(a: Self)
        ensures
            Self::times(a, Self::one_spec()) == a,
    ;

    proof fn lemma_times_zero(a: Self)
        ensures
            Self::times(a, Self::zero_spec()) == Self::zero_spec(),
    ;

    proof fn lemma_distributive(a: Self, b: Self, c: Self)
        ensures
            Self::times(a, Self::plus(b, c)) == Self::plus(Self::times(a, b), Self::times(a, c)),
    ;

    fn zero() -> (r: Self)
        ensures
            r == Self::zero_spec(),
    ;

    fn one() -> (r: Self)
        ensures
            r == Self::one_spec(),
    ;

    fn add(self, rhs: Self) -> (r: Self)
        ensures
            r == Self::plus(self, rhs),
    ;

    fn sub(self, rhs: Self) -> (r: Self)
        ensures
            r == Self::minus(self, rhs),
    ;

    fn mul(self, rhs: Self) -> (r: Self)
        ensures
            r == Self::times(self, rhs),
    ;

    fn neg(self) -> (r: Self)
        ensures
            r == Self::negated(self),
    ;

    fn div(self, rhs: Self) -> (r: Self)
        requires
            Self::can_divide(self, rhs),
        ensures
            r == Self::quotient(self, rhs),
    ;

    fn equals(&self, other: &Self) -> (r: bool)
        ensures
            r == (*self == *other),
    ;
}

/// The number of distinct `i32` values.
pub open spec fn i32_modulus() -> int {
    0x1_0000_0000
}

/// `i32` arithmetic wraps modulo 2^32.
impl Scalar for i32 {
    open spec fn zero_spec() -> i32 {
        0
    }

    open spec fn one_spec() -> i32 {
        1
    }

    open spec fn plus(a: i32, b: i32) -> i32 {
        signed_residue(a + b, i32_modulus()) as i32
    }

    open spec fn minus(a: i32, b: i32) -> i32 {
        signed_residue(a - b, i32_modulus()) as i32
    }

    open spec fn times(a: i32, b: i32) -> i32 {
        signed_residue(a * b, i32_modulus()) as i32
    }

    open spec fn negated(a: i32) -> i32 {
        signed_residue(-a, i32_modulus()) as i32
    }

    open spec fn can_divide(a: i32, b: i32) -> bool {
        b != 0
    }

    open spec fn quotient(a: i32, b: i32) -> i32 {
        signed_residue(truncating_quotient(a as int, b as int), i32_modulus()) as i32
    }

    proof fn lemma_plus_commutative(a: i32, b: i32) {
        assert(a + b == b + a);
    }

    proof fn lemma_plus_associative(a: i32, b: i32, c: i32) {
        lemma_signed_ring(a as int, b as int, c as int, i32_modulus());
        lemma_signed_ring(signed_residue(a + b, i32_modulus()), 0, 0, i32_modulus());
        lemma_signed_ring(signed_residue(b + c, i32_modulus()), 0, 0, i32_modulus());
    }

    proof fn lemma_plus_zero(a: i32) {
        lemma_signed_ring(a as int, 0, 0, i32_modulus());
    }

    proof fn lemma_times_commutative(a: i32, b: i32) {
        assert(a * b == b * a) by (nonlinear_arith);
    }

    proof fn lemma_times_associative(a: i32, b: i32, c: i32) {
        lemma_signed_ring(a as int, b as int, c as int, i32_modulus());
        lemma_signed_ring(signed_residue(a * b, i32_modulus()), 0, 0, i32_modulus());
        lemma_signed_ring(signed_residue(b * c, i32_modulus()), 0, 0, i32_modulus());
    }

    proof fn lemma_times_one(a: i32) {
        lemma_signed_ring(a as int, 0, 0, i32_modulus());
    }

    proof fn lemma_times_zero(a: i32) {
        lemma_signed_ring(a as int, 0, 0, i32_modulus());
    }

    proof fn lemma_distributive(a: i32, b: i32, c: i32) {
        lemma_signed_ring(a as int, b as int, c as int, i32_modulus());
        lemma_signed_ring(signed_residue(b + c, i32_modulus()), 0, 0, i32_modulus());
        lemma_signed_ring(signed_residue(a * b, i32_modulus()), 0, 0, i32_modulus());
        lemma_signed_ring(signed_residue(a * c, i32_modulus()), 0, 0, i32_modulus());
    }

    fn zero() -> (r: i32) {
        0
    }

    fn one() -> (r: i32) {
        1
    }

    fn add(self, rhs: i32) -> (r: i32) {
        proof {
            lemma_signed_wrap(self + rhs, i32_modulus());
        }
        self.wrapping_add(rhs)
    }

    fn sub(self, rhs: i32) -> (r: i32) {
        proof {
            lemma_signed_wrap(self - rhs, i32_modulus());
        }
        self.wrapping_sub(rhs)
    }

    fn mul(self, rhs: i32) -> (r: i32) {
        self.wrapping_mul(rhs)
    }

    fn neg(self) -> (r: i32) {
        proof {
            lemma_signed_wrap(0 - self, i32_modulus());
        }
        0i32.wrapping_sub(self)
    }

    fn div(self, rhs: i32) -> (r: i32) {
        proof {
            lemma_truncating_quotient_bound(self as int, rhs as int);
            lemma_signed_wrap(truncating_quotient(self as int, rhs as int), i32_modulus());
        }
        match self.checked_div(rhs) {
            Some(q) => q,
            None => self,
        }
    }

    fn equals(&self, other: &i32) -> (r: bool) {
        *self == *other
    }
}

/// The number of distinct `i64` values.
pub open spec fn i64_modulus() -> int {
    0x1_0000_0000_0000_0000
}

/// `i64` arithmetic wraps modulo 2^64.
impl Scalar for i64 {
    open spec fn zero_spec() -> i64 {
        0
    }

    open spec fn one_spec() -> i64 {
        1
    }

    open spec fn plus(a: i64, b: i64) -> i64 {
        signed_residue(a + b, i64_modulus()) as i64
    }

    open spec fn minus(a: i64, b: i64) -> i64 {
        signed_residue(a - b, i64_modulus()) as i64
    }

    open spec fn times(a: i64, b: i64) -> i64 {
        signed_residue(a * b, i64_modulus()) as i64
    }

    open spec fn negated(a: i64) -> i64 {
        signed_residue(-a, i64_modulus()) as i64
    }

    open spec fn can_divide(a: i64, b: i64) -> bool {
        b != 0
    }

    open spec fn quotient(a: i64, b: i64) -> i64 {
        signed_residue(truncating_quotient(a as int, b as int), i64_modulus()) as i64
    }

    proof fn lemma_plus_commutative(a: i64, b: i64) {
        assert(a + b == b + a);
    }

    proof fn lemma_plus_associative(a: i64, b: i64, c: i64) {
        lemma_signed_ring(a as int, b as int, c as int, i64_modulus());
        lemma_signed_ring(signed_residue(a + b, i64_modulus()), 0, 0, i64_modulus());
        lemma_signed_ring(signed_residue(b + c, i64_modulus()), 0, 0, i64_modulus());
    }

    proof fn lemma_plus_zero(a: i64) {
        lemma_signed_ring(a as int, 0, 0, i64_modulus());
    }

    proof fn lemma_times_commutative(a: i64, b: i64) {
        assert(a * b == b * a) by (nonlinear_arith);
    }

    proof fn lemma_times_associative(a: i64, b: i64, c: i64) {
        lemma_signed_ring(a as int, b as int, c as int, i64_modulus());
        lemma_signed_ring(signed_residue(a * b, i64_modulus()), 0, 0, i64_modulus());
        lemma_signed_ring(signed_residue(b * c, i64_modulus()), 0, 0, i64_modulus());
    }

    proof fn lemma_times_one(a: i64) {
        lemma_signed_ring(a as int, 0, 0, i64_modulus());
    }

    proof fn lemma_times_zero(a: i64) {
        lemma_signed_ring(a as int, 0, 0, i64_modulus());
    }

    proof fn lemma_distributive(a: i64, b: i64, c: i64) {
        lemma_signed_ring(a as int, b as int, c as int, i64_modulus());
        lemma_signed_ring(signed_residue(b + c, i64_modulus()), 0, 0, i64_modulus());
        lemma_signed_ring(signed_residue(a * b, i64_modulus()), 0, 0, i64_modulus());
        lemma_signed_ring(signed_residue(a * c, i64_modulus()), 0, 0, i64_modulus());
    }

    fn zero() -> (r: i64) {
        0
    }

    fn one() -> (r: i64) {
        1
    }

    fn add(self, rhs: i64) -> (r: i64) {
        proof {
            lemma_signed_wrap(self + rhs, i64_modulus());
        }
        self.wrapping_add(rhs)
    }

    fn sub(self, rhs: i64) -> (r: i64) {
        proof {
            lemma_signed_wrap(self - rhs, i64_modulus());
        }
        self.wrapping_sub(rhs)
    }

    fn mul(self, rhs: i64) -> (r: i64) {
        self.wrapping_mul(rhs)
    }

    fn neg(self) -> (r: i64) {
        proof {
            lemma_signed_wrap(0 - self, i64_modulus());
        }
        0i64.wrapping_sub(self)
    }

    fn div(self, rhs: i64) -> (r: i64) {
        proof {
            lemma_truncating_quotient_bound(self as int, rhs as int);
            lemma_signed_wrap(truncating_quotient(self as int, rhs as int), i64_modulus());
        }
        match self.checked_div(rhs) {
            Some(q) => q,
            None => self,
        }
    }

    fn equals(&self, other: &i64) -> (r: bool) {
        *self == *other
    }
}

/// The number of distinct `isize` values.
pub open spec fn isize_modulus() -> int {
    usize::MAX as int + 1
}

/// `isize` arithmetic wraps modulo the number of `usize` values.
impl Scalar for isize {
    open spec fn zero_spec() -> isize {
        0
    }

    open spec fn one_spec() -> isize {
        1
    }

    open spec fn plus(a: isize, b: isize) -> isize {
        signed_residue(a + b, isize_modulus()) as isize
    }

    open spec fn minus(a: isize, b: isize) -> isize {
        signed_residue(a - b, isize_modulus()) as isize
    }

    open spec fn times(a: isize, b: isize) -> isize {
        signed_residue(a * b, isize_modulus()) as isize
    }

    open spec fn negated(a: isize) -> isize {
        signed_residue(-a, isize_modulus()) as isize
    }

    open spec fn can_divide(a: isize, b: isize) -> bool {
        b != 0
    }

    open spec fn quotient(a: isize, b: isize) -> isize {
        signed_residue(truncating_quotient(a as int, b as int), isize_modulus()) as isize
    }

    proof fn lemma_plus_commutative(a: isize, b: isize) {
        assert(a + b == b + a);
    }

    proof fn lemma_plus_associative(a: isize, b: isize, c: isize) {
        lemma_signed_ring(a as int, b as int, c as int, isize_modulus());
        lemma_signed_ring(signed_residue(a + b, isize_modulus()), 0, 0, isize_modulus());
        lemma_signed_ring(signed_residue(b + c, isize_modulus()), 0, 0, isize_modulus());
    }

    proof fn lemma_plus_zero(a: isize) {
        lemma_signed_ring(a as int, 0, 0, isize_modulus());
    }

    proof fn lemma_times_commutative(a: isize, b: isize) {
        assert(a * b == b * a) by (nonlinear_arith);
    }

    proof fn lemma_times_associative(a: isize, b: isize, c: isize) {
        lemma_signed_ring(a as int, b as int, c as int, isize_modulus());
        lemma_signed_ring(signed_residue(a * b, isize_modulus()), 0, 0, isize_modulus());
        lemma_signed_ring(signed_residue(b * c, isize_modulus()), 0, 0, isize_modulus());
    }

    proof fn lemma_times_one(a: isize) {
        lemma_signed_ring(a as int, 0, 0, isize_modulus());
    }

    proof fn lemma_times_zero(a: isize) {
        lemma_signed_ring(a as int, 0, 0, isize_modulus());
    }

    proof fn lemma_distributive(a: isize, b: isize, c: isize) {
        lemma_signed_ring(a as int, b as int, c as int, isize_modulus());
        lemma_signed_ring(signed_residue(b + c, isize_modulus()), 0, 0, isize_modulus());
        lemma_signed_ring(signed_residue(a * b, isize_modulus()), 0, 0, isize_modulus());
        lemma_signed_ring(signed_residue(a * c, isize_modulus()), 0, 0, isize_modulus());
    }

    fn zero() -> (r: isize) {
        0
    }

    fn one() -> (r: isize) {
        1
    }

    fn add(self, rhs: isize) -> (r: isize) {
        proof {
            lemma_signed_wrap(self + rhs, isize_modulus());
        }
        self.wrapping_add(rhs)
    }

    fn sub(self, rhs: isize) -> (r: isize) {
        proof {
            lemma_signed_wrap(self - rhs, isize_modulus());
        }
        self.wrapping_sub(rhs)
    }

    fn mul(self, rhs: isize) -> (r: isize) {
        self.wrapping_mul(rhs)
    }

    fn neg(self) -> (r: isize) {
        proof {
            lemma_signed_wrap(0 - self, isize_modulus());
        }
        0isize.wrapping_sub(self)
    }

    fn div(self, rhs: isize) -> (r: isize) {
        proof {
            lemma_truncating_quotient_bound(self as int, rhs as int);
            lemma_signed_wrap(truncating_quotient(self as int, rhs as int), isize_modulus());
        }
        match self.checked_div(rhs) {
            Some(q) => q,
            None => self,
        }
    }

    fn equals(&self, other: &isize) -> (r: bool) {
        *self == *other
    }
}

/// The number of distinct `u32` values.
pub open spec fn u32_modulus() -> int {
    0x1_0000_0000
}

/// `u32` arithmetic wraps modulo 2^32.
impl Scalar for u32 {
    open spec fn zero_spec() -> u32 {
        0
    }

    open spec fn one_spec() -> u32 {
        1
    }

    open spec fn plus(a: u32, b: u32) -> u32 {
        unsigned_residue(a + b, u32_modulus()) as u32
    }

    open spec fn minus(a: u32, b: u32) -> u32 {
        unsigned_residue(a - b, u32_modulus()) as u32
    }

    open spec fn times(a: u32, b: u32) -> u32 {
        unsigned_residue(a * b, u32_modulus()) as u32
    }

    open spec fn negated(a: u32) -> u32 {
        unsigned_residue(-a, u32_modulus()) as u32
    }

    open spec fn can_divide(a: u32, b: u32) -> bool {
        b != 0
    }

    open spec fn quotient(a: u32, b: u32) -> u32 {
        a / b
    }

    proof fn lemma_plus_commutative(a: u32, b: u32) {
        assert(a + b == b + a);
    }

    proof fn lemma_plus_associative(a: u32, b: u32, c: u32) {
        lemma_unsigned_ring(a as int, b as int, c as int, u32_modulus());
        lemma_unsigned_ring(a + b, 0, 0, u32_modulus());
        lemma_unsigned_ring(b + c, 0, 0, u32_modulus());
    }

    proof fn lemma_plus_zero(a: u32) {
        lemma_unsigned_ring(a as int, 0, 0, u32_modulus());
    }

    proof fn lemma_times_commutative(a: u32, b: u32) {
        assert(a * b == b * a) by (nonlinear_arith);
    }

    proof fn lemma_times_associative(a: u32, b: u32, c: u32) {
        lemma_unsigned_ring(a as int, b as int, c as int, u32_modulus());
        lemma_unsigned_ring(a * b, 0, 0, u32_modulus());
        lemma_unsigned_ring(b * c, 0, 0, u32_modulus());
    }

    proof fn lemma_times_one(a: u32) {
        lemma_unsigned_ring(a as int, 0, 0, u32_modulus());
    }

    proof fn lemma_times_zero(a: u32) {
        lemma_unsigned_ring(a as int, 0, 0, u32_modulus());
    }

    proof fn lemma_distributive(a: u32, b: u32, c: u32) {
        lemma_unsigned_ring(a as int, b as int, c as int, u32_modulus());
        lemma_unsigned_ring(b + c, 0, 0, u32_modulus());
        lemma_unsigned_ring(a * b, 0, 0, u32_modulus());
        lemma_unsigned_ring(a * c, 0, 0, u32_modulus());
    }

    fn zero() -> (r: u32) {
        0
    }

    fn one() -> (r: u32) {
        1
    }

    fn add(self, rhs: u32) -> (r: u32) {
        proof {
            lemma_unsigned_wrap(self + rhs, u32_modulus());
        }
        self.wrapping_add(rhs)
    }

    fn sub(self, rhs: u32) -> (r: u32) {
        proof {
            lemma_unsigned_wrap(self - rhs, u32_modulus());
        }
        self.wrapping_sub(rhs)
    }

    fn mul(self, rhs: u32) -> (r: u32) {
        self.wrapping_mul(rhs)
    }

    fn neg(self) -> (r: u32) {
        proof {
            lemma_unsigned_wrap(0 - self, u32_modulus());
        }
        0u32.wrapping_sub(self)
    }

    fn div(self, rhs: u32) -> (r: u32) {
        self / rhs
    }

    fn equals(&self, other: &u32) -> (r: bool) {
        *self == *other
    }
}

/// The number of distinct `u64` values.
pub open spec fn u64_modulus() -> int {
    0x1_0000_0000_0000_0000
}

/// `u64` arithmetic wraps modulo 2^64.
impl Scalar for u64 {
    open spec fn zero_spec() -> u64 {
        0
    }

    open spec fn one_spec() -> u64 {
        1
    }

    open spec fn plus(a: u64, b: u64) -> u64 {
        unsigned_residue(a + b, u64_modulus()) as u64
    }

    open spec fn minus(a: u64, b: u64) -> u64 {
        unsigned_residue(a - b, u64_modulus()) as u64
    }

    open spec fn times(a: u64, b: u64) -> u64 {
        unsigned_residue(a * b, u64_modulus()) as u64
    }

    open spec fn negated(a: u64) -> u64 {
        unsigned_residue(-a, u64_modulus()) as u64
    }

    open spec fn can_divide(a: u64, b: u64) -> bool {
        b != 0
    }

    open spec fn quotient(a: u64, b: u64) -> u64 {
        a / b
    }

    proof fn lemma_plus_commutative(a: u64, b: u64) {
        assert(a + b == b + a);
    }

    proof fn lemma_plus_associative(a: u64, b: u64, c: u64) {
        lemma_unsigned_ring(a as int, b as int, c as int, u64_modulus());
        lemma_unsigned_ring(a + b, 0, 0, u64_modulus());
        lemma_unsigned_ring(b + c, 0, 0, u64_modulus());
    }

    proof fn lemma_plus_zero(a: u64) {
        lemma_unsigned_ring(a as int, 0, 0, u64_modulus());
    }

    proof fn lemma_times_commutative(a: u64, b: u64) {
        assert(a * b == b * a) by (nonlinear_arith);
    }

    proof fn lemma_times_associative(a: u64, b: u64, c: u64) {
        lemma_unsigned_ring(a as int, b as int, c as int, u64_modulus());
        lemma_unsigned_ring(a * b, 0, 0, u64_modulus());
        lemma_unsigned_ring(b * c, 0, 0, u64_modulus());
    }

    proof fn lemma_times_one(a: u64) {
        lemma_unsigned_ring(a as int, 0, 0, u64_modulus());
    }

    proof fn lemma_times_zero(a: u64) {
        lemma_unsigned_ring(a as int, 0, 0, u64_modulus());
    }

    proof fn lemma_distributive(a: u64, b: u64, c: u64) {
        lemma_unsigned_ring(a as int, b as int, c as int, u64_modulus());
        lemma_unsigned_ring(b + c, 0, 0, u64_modulus());
        lemma_unsigned_ring(a * b, 0, 0, u64_modulus());
        lemma_unsigned_ring(a * c, 0, 0, u64_modulus());
    }

    fn zero() -> (r: u64) {
        0
    }

    fn one() -> (r: u64) {
        1
    }

    fn add(self, rhs: u64) -> (r: u64) {
        proof {
            lemma_unsigned_wrap(self + rhs, u64_modulus());
        }
        self.wrapping_add(rhs)
    }

    fn sub(self, rhs: u64) -> (r: u64) {
        proof {
            lemma_unsigned_wrap(self - rhs, u64_modulus());
        }
        self.wrapping_sub(rhs)
    }

    fn mul(self, rhs: u64) -> (r: u64) {
        self.wrapping_mul(rhs)
    }

    fn neg(self) -> (r: u64) {
        proof {
            lemma_unsigned_wrap(0 - self, u64_modulus());
        }
        0u64.wrapping_sub(self)
    }

    fn div(self, rhs: u64) -> (r: u64) {
        self / rhs
    }

    fn equals(&self, other: &u64) -> (r: bool) {
        *self == *other
    }
}

/// The number of distinct `usize` values.
pub open spec fn usize_modulus() -> int {
    usize::MAX as int + 1
}

/// `usize` arithmetic wraps modulo the number of `usize` values.
impl Scalar for usize {
    open spec fn zero_spec() -> usize {
        0
    }

    open spec fn one_spec() -> usize {
        1
    }

    open spec fn plus(a: usize, b: usize) -> usize {
        unsigned_residue(a + b, usize_modulus()) as usize
    }

    open spec fn minus(a: usize, b: usize) -> usize {
        unsigned_residue(a - b, usize_modulus()) as usize
    }

    open spec fn times(a: usize, b: usize) -> usize {
        unsigned_residue(a * b, usize_modulus()) as usize
    }

    open spec fn negated(a: usize) -> usize {
        unsigned_residue(-a, usize_modulus()) as usize
    }

    open spec fn can_divide(a: usize, b: usize) -> bool {
        b != 0
    }

    open spec fn quotient(a: usize, b: usize) -> usize {
        a / b
    }

    proof fn lemma_plus_commutative(a: usize, b: usize) {
        assert(a + b == b + a);
    }

    proof fn lemma_plus_associative(a: usize, b: usize, c: usize) {
        lemma_unsigned_ring(a as int, b as int, c as int, usize_modulus());
        lemma_unsigned_ring(a + b, 0, 0, usize_modulus());
        lemma_unsigned_ring(b + c, 0, 0, usize_modulus());
    }

    proof fn lemma_plus_zero(a: usize) {
        lemma_unsigned_ring(a as int, 0, 0, usize_modulus());
    }

    proof fn lemma_times_commutative(a: usize, b: usize) {
        assert(a * b == b * a) by (nonlinear_arith);
    }

    proof fn lemma_times_associative(a: usize, b: usize, c: usize) {
        lemma_unsigned_ring(a as int, b as int, c as int, usize_modulus());
        lemma_unsigned_ring(a * b, 0, 0, usize_modulus());
        lemma_unsigned_ring(b * c, 0, 0, usize_modulus());
    }

    proof fn lemma_times_one(a: usize) {
        lemma_unsigned_ring(a as int, 0, 0, usize_modulus());
    }

    proof fn lemma_times_zero(a: usize) {
        lemma_unsigned_ring(a as int, 0, 0, usize_modulus());
    }

    proof fn lemma_distributive(a: usize, b: usize, c: usize) {
        lemma_unsigned_ring(a as int, b as int, c as int, usize_modulus());
        lemma_unsigned_ring(b + c, 0, 0, usize_modulus());
        lemma_unsigned_ring(a * b, 0, 0, usize_modulus());
        lemma_unsigned_ring(a * c, 0, 0, usize_modulus());
    }

    fn zero() -> (r: usize) {
        0
    }

    fn one() -> (r: usize) {
        1
    }

    fn add(self, rhs: usize) -> (r: usize) {
        proof {
            lemma_unsigned_wrap(self + rhs, usize_modulus());
        }
        self.wrapping_add(rhs)
    }

    fn sub(self, rhs: usize) -> (r: usize) {
        proof {
            lemma_unsigned_wrap(self - rhs, usize_modulus());
        }
        self.wrapping_sub(rhs)
    }

    fn mul(self, rhs: usize) -> (r: usize) {
        self.wrapping_mul(rhs)
    }

    fn neg(self) -> (r: usize) {
        proof {
            lemma_unsigned_wrap(0 - self, usize_modulus());
        }
        0usize.wrapping_sub(self)
    }

    fn div(self, rhs: usize) -> (r: usize) {
        self / rhs
    }

    fn equals(&self, other: &usize) -> (r: bool) {
        *self == *other
    }
}

/// The number of distinct `i8` values.
pub open spec fn i8_modulus() -> int {
    0x100
}

/// `i8` arithmetic wraps modulo 2^8.
impl Scalar for i8 {
    open spec fn zero_spec() -> i8 {
        0
    }

    open spec fn one_spec() -> i8 {
        1
    }

    open spec fn plus(a: i8, b: i8) -> i8 {
        signed_residue(a + b, i8_modulus()) as i8
    }

    open spec fn minus(a: i8, b: i8) -> i8 {
        signed_residue(a - b, i8_modulus()) as i8
    }

    open spec fn times(a: i8, b: i8) -> i8 {
        signed_residue(a * b, i8_modulus()) as i8
    }

    open spec fn negated(a: i8) -> i8 {
        signed_residue(-a, i8_modulus()) as i8
    }

    open spec fn can_divide(a: i8, b: i8) -> bool {
        b != 0
    }

    open spec fn quotient(a: i8, b: i8) -> i8 {
        signed_residue(truncating_quotient(a as int, b as int), i8_modulus()) as i8
    }

    proof fn lemma_plus_commutative(a: i8, b: i8) {
        assert(a + b == b + a);
    }

    proof fn lemma_plus_associative(a: i8, b: i8, c: i8) {
        lemma_signed_ring(a as int, b as int, c as int, i8_modulus());
        lemma_signed_ring(signed_residue(a + b, i8_modulus()), 0, 0, i8_modulus());
        lemma_signed_ring(signed_residue(b + c, i8_modulus()), 0, 0, i8_modulus());
    }

    proof fn lemma_plus_zero(a: i8) {
        lemma_signed_ring(a as int, 0, 0, i8_modulus());
    }

    proof fn lemma_times_commutative(a: i8, b: i8) {
        assert(a * b == b * a) by (nonlinear_arith);
    }

    proof fn lemma_times_associative(a: i8, b: i8, c: i8) {
        lemma_signed_ring(a as int, b as int, c as int, i8_modulus());
        lemma_signed_ring(signed_residue(a * b, i8_modulus()), 0, 0, i8_modulus());
        lemma_signed_ring(signed_residue(b * c, i8_modulus()), 0, 0, i8_modulus());
    }

    proof fn lemma_times_one(a: i8) {
        lemma_signed_ring(a as int, 0, 0, i8_modulus());
    }

    proof fn lemma_times_zero(a: i8) {
        lemma_signed_ring(a as int, 0, 0, i8_modulus());
    }

    proof fn lemma_distributive(a: i8, b: i8, c: i8) {
        lemma_signed_ring(a as int, b as int, c as int, i8_modulus());
        lemma_signed_ring(signed_residue(b + c, i8_modulus()), 0, 0, i8_modulus());
        lemma_signed_ring(signed_residue(a * b, i8_modulus()), 0, 0, i8_modulus());
        lemma_signed_ring(signed_residue(a * c, i8_modulus()), 0, 0, i8_modulus());
    }

    fn zero() -> (r: i8) {
        0
    }

    fn one() -> (r: i8) {
        1
    }

    fn add(self, rhs: i8) -> (r: i8) {
        proof {
            lemma_signed_wrap(self + rhs, i8_modulus());
        }
        self.wrapping_add(rhs)
    }

    fn sub(self, rhs: i8) -> (r: i8) {
        proof {
            lemma_signed_wrap(self - rhs, i8_modulus());
        }
        self.wrapping_sub(rhs)
    }

    fn mul(self, rhs: i8) -> (r: i8) {
        self.wrapping_mul(rhs)
    }

    fn neg(self) -> (r: i8) {
        proof {
            lemma_signed_wrap(0 - self, i8_modulus());
        }
        0i8.wrapping_sub(self)
    }

    fn div(self, rhs: i8) -> (r: i8) {
        proof {
            lemma_truncating_quotient_bound(self as int, rhs as int);
            lemma_signed_wrap(truncating_quotient(self as int, rhs as int), i8_modulus());
        }
        match self.checked_div(rhs) {
            Some(q) => q,
            None => self,
        }
    }

    fn equals(&self, other: &i8) -> (r: bool) {
        *self == *other
    }
}

/// The number of distinct `i16` values.
pub open spec fn i16_modulus() -> int {
    0x1_0000
}

/// `i16` arithmetic wraps modulo 2^16.
impl Scalar for i16 {
    open spec fn zero_spec() -> i16 {
        0
    }

    open spec fn one_spec() -> i16 {
        1
    }

    open spec fn plus(a: i16, b: i16) -> i16 {
        signed_residue(a + b, i16_modulus()) as i16
    }

    open spec fn minus(a: i16, b: i16) -> i16 {
        signed_residue(a - b, i16_modulus()) as i16
    }

    open spec fn times(a: i16, b: i16) -> i16 {
        signed_residue(a * b, i16_modulus()) as i16
    }

    open spec fn negated(a: i16) -> i16 {
        signed_residue(-a, i16_modulus()) as i16
    }

    open spec fn can_divide(a: i16, b: i16) -> bool {
        b != 0
    }

    open spec fn quotient(a: i16, b: i16) -> i16 {
        signed_residue(truncating_quotient(a as int, b as int), i16_modulus()) as i16
    }

    proof fn lemma_plus_commutative(a: i16, b: i16) {
        assert(a + b == b + a);
    }

    proof fn lemma_plus_associative(a: i16, b: i16, c: i16) {
        lemma_signed_ring(a as int, b as int, c as int, i16_modulus());
        lemma_signed_ring(signed_residue(a + b, i16_modulus()), 0, 0, i16_modulus());
        lemma_signed_ring(signed_residue(b + c, i16_modulus()), 0, 0, i16_modulus());
    }

    proof fn lemma_plus_zero(a: i16) {
        lemma_signed_ring(a as int, 0, 0, i16_modulus());
    }

    proof fn lemma_times_commutative(a: i16, b: i16) {
        assert(a * b == b * a) by (nonlinear_arith);
    }

    proof fn lemma_times_associative(a: i16, b: i16, c: i16) {
        lemma_signed_ring(a as int, b as int, c as int, i16_modulus());
        lemma_signed_ring(signed_residue(a * b, i16_modulus()), 0, 0, i16_modulus());
        lemma_signed_ring(signed_residue(b * c, i16_modulus()), 0, 0, i16_modulus());
    }

    proof fn lemma_times_one(a: i16) {
        lemma_signed_ring(a as int, 0, 0, i16_modulus());
    }

    proof fn lemma_times_zero(a: i16) {
        lemma_signed_ring(a as int, 0, 0, i16_modulus());
    }

    proof fn lemma_distributive(a: i16, b: i16, c: i16) {
        lemma_signed_ring(a as int, b as int, c as int, i16_modulus());
        lemma_signed_ring(signed_residue(b + c, i16_modulus()), 0, 0, i16_modulus());
        lemma_signed_ring(signed_residue(a * b, i16_modulus()), 0, 0, i16_modulus());
        lemma_signed_ring(signed_residue(a * c, i16_modulus()), 0, 0, i16_modulus());
    }

    fn zero() -> (r: i16) {
        0
    }

    fn one() -> (r: i16) {
        1
    }

    fn add(self, rhs: i16) -> (r: i16) {
        proof {
            lemma_signed_wrap(self + rhs, i16_modulus());
        }
        self.wrapping_add(rhs)
    }

    fn sub(self, rhs: i16) -> (r: i16) {
        proof {
            lemma_signed_wrap(self - rhs, i16_modulus());
        }
        self.wrapping_sub(rhs)
    }

    fn mul(self, rhs: i16) -> (r: i16) {
        self.wrapping_mul(rhs)
    }

    fn neg(self) -> (r: i16) {
        proof {
            lemma_signed_wrap(0 - self, i16_modulus());
        }
        0i16.wrapping_sub(self)
    }

    fn div(self, rhs: i16) -> (r: i16) {
        proof {
            lemma_truncating_quotient_bound(self as int, rhs as int);
            lemma_signed_wrap(truncating_quotient(self as int, rhs as int), i16_modulus());
        }
        match self.checked_div(rhs) {
            Some(q) => q,
            None => self,
        }
    }

    fn equals(&self, other: &i16) -> (r: bool) {
        *self == *other
    }
}

/// The number of distinct `i128` values.
pub open spec fn i128_modulus() -> int {
    u128::MAX as int + 1
}

/// `i128` arithmetic wraps modulo 2^128.
impl Scalar for i128 {
    open spec fn zero_spec() -> i128 {
        0
    }

    open spec fn one_spec() -> i128 {
        1
    }

    open spec fn plus(a: i128, b: i128) -> i128 {
        signed_residue(a + b, i128_modulus()) as i128
    }

    open spec fn minus(a: i128, b: i128) -> i128 {
        signed_residue(a - b, i128_modulus()) as i128
    }

    open spec fn times(a: i128, b: i128) -> i128 {
        signed_residue(a * b, i128_modulus()) as i128
    }

    open spec fn negated(a: i128) -> i128 {
        signed_residue(-a, i128_modulus()) as i128
    }

    open spec fn can_divide(a: i128, b: i128) -> bool {
        b != 0
    }

    open spec fn quotient(a: i128, b: i128) -> i128 {
        signed_residue(truncating_quotient(a as int, b as int), i128_modulus()) as i128
    }

    proof fn lemma_plus_commutative(a: i128, b: i128) {
        assert(a + b == b + a);
    }

    proof fn lemma_plus_associative(a: i128, b: i128, c: i128) {
        lemma_signed_ring(a as int, b as int, c as int, i128_modulus());
        lemma_signed_ring(signed_residue(a + b, i128_modulus()), 0, 0, i128_modulus());
        lemma_signed_ring(signed_residue(b + c, i128_modulus()), 0, 0, i128_modulus());
    }

    proof fn lemma_plus_zero(a: i128) {
        lemma_signed_ring(a as int, 0, 0, i128_modulus());
    }

    proof fn lemma_times_commutative(a: i128, b: i128) {
        assert(a * b == b * a) by (nonlinear_arith);
    }

    proof fn lemma_times_associative(a: i128, b: i128, c: i128) {
        lemma_signed_ring(a as int, b as int, c as int, i128_modulus());
        lemma_signed_ring(signed_residue(a * b, i128_modulus()), 0, 0, i128_modulus());
        lemma_signed_ring(signed_residue(b * c, i128_modulus()), 0, 0, i128_modulus());
    }

    proof fn lemma_times_one(a: i128) {
        lemma_signed_ring(a as int, 0, 0, i128_modulus());
    }

    proof fn lemma_times_zero(a: i128) {
        lemma_signed_ring(a as int, 0, 0, i128_modulus());
    }

    proof fn lemma_distributive(a: i128, b: i128, c: i128) {
        lemma_signed_ring(a as int, b as int, c as int, i128_modulus());
        lemma_signed_ring(signed_residue(b + c, i128_modulus()), 0, 0, i128_modulus());
        lemma_signed_ring(signed_residue(a * b, i128_modulus()), 0, 0, i128_modulus());
        lemma_signed_ring(signed_residue(a * c, i128_modulus()), 0, 0, i128_modulus());
    }

    fn zero() -> (r: i128) {
        0
    }

    fn one() -> (r: i128) {
        1
    }

    fn add(self, rhs: i128) -> (r: i128) {
        proof {
            lemma_signed_wrap(self + rhs, i128_modulus());
        }
        self.wrapping_add(rhs)
    }

    fn sub(self, rhs: i128) -> (r: i128) {
        proof {
            lemma_signed_wrap(self - rhs, i128_modulus());
        }
        self.wrapping_sub(rhs)
    }

    fn mul(self, rhs: i128) -> (r: i128) {
        self.wrapping_mul(rhs)
    }

    fn neg(self) -> (r: i128) {
        proof {
            lemma_signed_wrap(0 - self, i128_modulus());
        }
        0i128.wrapping_sub(self)
    }

    fn div(self, rhs: i128) -> (r: i128) {
        proof {
            lemma_truncating_quotient_bound(self as int, rhs as int);
            lemma_signed_wrap(truncating_quotient(self as int, rhs as int), i128_modulus());
        }
        match self.checked_div(rhs) {
            Some(q) => q,
            None => self,
        }
    }

    fn equals(&self, other: &i128) -> (r: bool) {
        *self == *other
    }
}

/// The number of distinct `u8` values.
pub open spec fn u8_modulus() -> int {
    0x100
}

/// `u8` arithmetic wraps modulo 2^8.
impl Scalar for u8 {
    open spec fn zero_spec() -> u8 {
        0
    }

    open spec fn one_spec() -> u8 {
        1
    }

    open spec fn plus(a: u8, b: u8) -> u8 {
        unsigned_residue(a + b, u8_modulus()) as u8
    }

    open spec fn minus(a: u8, b: u8) -> u8 {
        unsigned_residue(a - b, u8_modulus()) as u8
    }

    open spec fn times(a: u8, b: u8) -> u8 {
        unsigned_residue(a * b, u8_modulus()) as u8
    }

    open spec fn negated(a: u8) -> u8 {
        unsigned_residue(-a, u8_modulus()) as u8
    }

    open spec fn can_divide(a: u8, b: u8) -> bool {
        b != 0
    }

    open spec fn quotient(a: u8, b: u8) -> u8 {
        a / b
    }

    proof fn lemma_plus_commutative(a: u8, b: u8) {
        assert(a + b == b + a);
    }

    proof fn lemma_plus_associative(a: u8, b: u8, c: u8) {
        lemma_unsigned_ring(a as int, b as int, c as int, u8_modulus());
        lemma_unsigned_ring(a + b, 0, 0, u8_modulus());
        lemma_unsigned_ring(b + c, 0, 0, u8_modulus());
    }

    proof fn lemma_plus_zero(a: u8) {
        lemma_unsigned_ring(a as int, 0, 0, u8_modulus());
    }

    proof fn lemma_times_commutative(a: u8, b: u8) {
        assert(a * b == b * a) by (nonlinear_arith);
    }

    proof fn lemma_times_associative(a: u8, b: u8, c: u8) {
        lemma_unsigned_ring(a as int, b as int, c as int, u8_modulus());
        lemma_unsigned_ring(a * b, 0, 0, u8_modulus());
        lemma_unsigned_ring(b * c, 0, 0, u8_modulus());
    }

    proof fn lemma_times_one(a: u8) {
        lemma_unsigned_ring(a as int, 0, 0, u8_modulus());
    }

    proof fn lemma_times_zero(a: u8) {
        lemma_unsigned_ring(a as int, 0, 0, u8_modulus());
    }

    proof fn lemma_distributive(a: u8, b: u8, c: u8) {
        lemma_unsigned_ring(a as int, b as int, c as int, u8_modulus());
        lemma_unsigned_ring(b + c, 0, 0, u8_modulus());
        lemma_unsigned_ring(a * b, 0, 0, u8_modulus());
        lemma_unsigned_ring(a * c, 0, 0, u8_modulus());
    }

    fn zero() -> (r: u8) {
        0
    }

    fn one() -> (r: u8) {
        1
    }

    fn add(self, rhs: u8) -> (r: u8) {
        proof {
            lemma_unsigned_wrap(self + rhs, u8_modulus());
        }
        self.wrapping_add(rhs)
    }

    fn sub(self, rhs: u8) -> (r: u8) {
        proof {
            lemma_unsigned_wrap(self - rhs, u8_modulus());
        }
        self.wrapping_sub(rhs)
    }

    fn mul(self, rhs: u8) -> (r: u8) {
        self.wrapping_mul(rhs)
    }

    fn neg(self) -> (r: u8) {
        proof {
            lemma_unsigned_wrap(0 - self, u8_modulus());
        }
        0u8.wrapping_sub(self)
    }

    fn div(self, rhs: u8) -> (r: u8) {
        self / rhs
    }

    fn equals(&self, other: &u8) -> (r: bool) {
        *self == *other
    }
}

/// The number of distinct `u16` values.
pub open spec fn u16_modulus() -> int {
    0x1_0000
}

/// `u16` arithmetic wraps modulo 2^16.
impl Scalar for u16 {
    open spec fn zero_spec() -> u16 {
        0
    }

    open spec fn one_spec() -> u16 {
        1
    }

    open spec fn plus(a: u16, b: u16) -> u16 {
        unsigned_residue(a + b, u16_modulus()) as u16
    }

    open spec fn minus(a: u16, b: u16) -> u16 {
        unsigned_residue(a - b, u16_modulus()) as u16
    }

    open spec fn times(a: u16, b: u16) -> u16 {
        unsigned_residue(a * b, u16_modulus()) as u16
    }

    open spec fn negated(a: u16) -> u16 {
        unsigned_residue(-a, u16_modulus()) as u16
    }

    open spec fn can_divide(a: u16, b: u16) -> bool {
        b != 0
    }

    open spec fn quotient(a: u16, b: u16) -> u16 {
        a / b
    }

    proof fn lemma_plus_commutative(a: u16, b: u16) {
        assert(a + b == b + a);
    }

    proof fn lemma_plus_associative(a: u16, b: u16, c: u16) {
        lemma_unsigned_ring(a as int, b as int, c as int, u16_modulus());
        lemma_unsigned_ring(a + b, 0, 0, u16_modulus());
        lemma_unsigned_ring(b + c, 0, 0, u16_modulus());
    }

    proof fn lemma_plus_zero(a: u16) {
        lemma_unsigned_ring(a as int, 0, 0, u16_modulus());
    }

    proof fn lemma_times_commutative(a: u16, b: u16) {
        assert(a * b == b * a) by (nonlinear_arith);
    }

    proof fn lemma_times_associative(a: u16, b: u16, c: u16) {
        lemma_unsigned_ring(a as int, b as int, c as int, u16_modulus());
        lemma_unsigned_ring(a * b, 0, 0, u16_modulus());
        lemma_unsigned_ring(b * c, 0, 0, u16_modulus());
    }

    proof fn lemma_times_one(a: u16) {
        lemma_unsigned_ring(a as int, 0, 0, u16_modulus());
    }

    proof fn lemma_times_zero(a: u16) {
        lemma_unsigned_ring(a as int, 0, 0, u16_modulus());
    }

    proof fn lemma_distributive(a: u16, b: u16, c: u16) {
        lemma_unsigned_ring(a as int, b as int, c as int, u16_modulus());
        lemma_unsigned_ring(b + c, 0, 0, u16_modulus());
        lemma_unsigned_ring(a * b, 0, 0, u16_modulus());
        lemma_unsigned_ring(a * c, 0, 0, u16_modulus());
    }

    fn zero() -> (r: u16) {
        0
    }

    fn one() -> (r: u16) {
        1
    }

    fn add(self, rhs: u16) -> (r: u16) {
        proof {
            lemma_unsigned_wrap(self + rhs, u16_modulus());
        }
        self.wrapping_add(rhs)
    }

    fn sub(self, rhs: u16) -> (r: u16) {
        proof {
            lemma_unsigned_wrap(self - rhs, u16_modulus());
        }
        self.wrapping_sub(rhs)
    }

    fn mul(self, rhs: u16) -> (r: u16) {
        self.wrapping_mul(rhs)
    }

    fn neg(self) -> (r: u16) {
        proof {
            lemma_unsigned_wrap(0 - self, u16_modulus());
        }
        0u16.wrapping_sub(self)
    }

    fn div(self, rhs: u16) -> (r: u16) {
        self / rhs
    }

    fn equals(&self, other: &u16) -> (r: bool) {
        *self == *other
    }
}

/// The number of distinct `u128` values.
pub open spec fn u128_modulus() -> int {
    u128::MAX as int + 1
}

/// `u128` arithmetic wraps modulo 2^128.
impl Scalar for u128 {
    open spec fn zero_spec() -> u128 {
        0
    }

    open spec fn one_spec() -> u128 {
        1
    }

    open spec fn plus(a: u128, b: u128) -> u128 {
        unsigned_residue(a + b, u128_modulus()) as u128
    }

    open spec fn minus(a: u128, b: u128) -> u128 {
        unsigned_residue(a - b, u128_modulus()) as u128
    }

    open spec fn times(a: u128, b: u128) -> u128 {
        unsigned_residue(a * b, u128_modulus()) as u128
    }

    open spec fn negated(a: u128) -> u128 {
        unsigned_residue(-a, u128_modulus()) as u128
    }

    open spec fn can_divide(a: u128, b: u128) -> bool {
        b != 0
    }

    open spec fn quotient(a: u128, b: u128) -> u128 {
        a / b
    }

    proof fn lemma_plus_commutative(a: u128, b: u128) {
        assert(a + b == b + a);
    }

    proof fn lemma_plus_associative(a: u128, b: u128, c: u128) {
        lemma_unsigned_ring(a as int, b as int, c as int, u128_modulus());
        lemma_unsigned_ring(a + b, 0, 0, u128_modulus());
        lemma_unsigned_ring(b + c, 0, 0, u128_modulus());
    }

    proof fn lemma_plus_zero(a: u128) {
        lemma_unsigned_ring(a as int, 0, 0, u128_modulus());
    }

    proof fn lemma_times_commutative(a: u128, b: u128) {
        assert(a * b == b * a) by (nonlinear_arith);
    }

    proof fn lemma_times_associative(a: u128, b: u128, c: u128) {
        lemma_unsigned_ring(a as int, b as int, c as int, u128_modulus());
        lemma_unsigned_ring(a * b, 0, 0, u128_modulus());
        lemma_unsigned_ring(b * c, 0, 0, u128_modulus());
    }

    proof fn lemma_times_one(a: u128) {
        lemma_unsigned_ring(a as int, 0, 0, u128_modulus());
    }

    proof fn lemma_times_zero(a: u128) {
        lemma_unsigned_ring(a as int, 0, 0, u128_modulus());
    }

    proof fn lemma_distributive(a: u128, b: u128, c: u128) {
        lemma_unsigned_ring(a as int, b as int, c as int, u128_modulus());
        lemma_unsigned_ring(b + c, 0, 0, u128_modulus());
        lemma_unsigned_ring(a * b, 0, 0, u128_modulus());
        lemma_unsigned_ring(a * c, 0, 0, u128_modulus());
    }

    fn zero() -> (r: u128) {
        0
    }

    fn one() -> (r: u128) {
        1
    }

    fn add(self, rhs: u128) -> (r: u128) {
        proof {
            lemma_unsigned_wrap(self + rhs, u128_modulus());
        }
        self.wrapping_add(rhs)
    }

    fn sub(self, rhs: u128) -> (r: u128) {
        proof {
            lemma_unsigned_wrap(self - rhs, u128_modulus());
        }
        self.wrapping_sub(rhs)
    }

    fn mul(self, rhs: u128) -> (r: u128) {
        self.wrapping_mul(rhs)
    }

    fn neg(self) -> (r: u128) {
        proof {
            lemma_unsigned_wrap(0 - self, u128_modulus());
        }
        0u128.wrapping_sub(self)
    }

    fn div(self, rhs: u128) -> (r: u128) {
        self / rhs
    }

    fn equals(&self, other: &u128) -> (r: bool) {
        *self == *other
    }
}

} // verus!
