//! The arithmetic that a transform is built from.
//!
//! A transform only ever adds and subtracts two elements. What the sum and
//! the difference of two elements are is the element type's own business:
//! the mathematical integers add exactly, the machine integers wrap around.

use vstd::prelude::*;
use vstd::wrapping::*;

verus! {

/// The sum and the difference of two values, as mathematical functions.
pub trait Arithmetic: Sized {
    /// The sum of `self` and `rhs`.
    spec fn plus(self, rhs: Self) -> Self;

    /// The difference of `self` and `rhs`.
    spec fn minus(self, rhs: Self) -> Self;
}

impl Arithmetic for int {
    open spec fn plus(self, rhs: int) -> int {
        self + rhs
    }

    open spec fn minus(self, rhs: int) -> int {
        self - rhs
    }
}

impl Arithmetic for i32 {
    open spec fn plus(self, rhs: i32) -> i32 {
        i32_specs::wrapping_add(self, rhs)
    }

    open spec fn minus(self, rhs: i32) -> i32 {
        i32_specs::wrapping_sub(self, rhs)
    }
}

impl Arithmetic for i64 {
    open spec fn plus(self, rhs: i64) -> i64 {
        i64_specs::wrapping_add(self, rhs)
    }

    open spec fn minus(self, rhs: i64) -> i64 {
        i64_specs::wrapping_sub(self, rhs)
    }
}

/// Machine integers: elements that stand for mathematical integers and
/// whose sums and differences are exact as long as they stay within a
/// limit.
pub trait Integer: Arithmetic {
    /// The mathematical integer that the element stands for.
    spec fn value(self) -> int;

    /// The largest magnitude that the type holds in both signs.
    spec fn limit() -> int;

    /// A sum within the limit is the exact sum.
    proof fn lemma_plus_exact(a: Self, b: Self)
        requires
            -Self::limit() <= a.value() + b.value() <= Self::limit(),
        ensures
            a.plus(b).value() == a.value() + b.value(),
    ;

    /// A difference within the limit is the exact difference.
    proof fn lemma_minus_exact(a: Self, b: Self)
        requires
            -Self::limit() <= a.value() - b.value() <= Self::limit(),
        ensures
            a.minus(b).value() == a.value() - b.value(),
    ;

    /// The number of values of the type. Sums and differences that leave
    /// the type's range wrap around by this number.
    spec fn modulus() -> int;

    /// The modulus is positive.
    proof fn lemma_modulus_positive()
        ensures
            Self::modulus() > 0,
    ;

    /// Every sum is the exact sum up to a multiple of the modulus.
    proof fn lemma_plus_wraps(a: Self, b: Self)
        ensures
            a.plus(b).value() % Self::modulus() == (a.value() + b.value()) % Self::modulus(),
    ;

    /// Every difference is the exact difference up to a multiple of the
    /// modulus.
    proof fn lemma_minus_wraps(a: Self, b: Self)
        ensures
            a.minus(b).value() % Self::modulus() == (a.value() - b.value()) % Self::modulus(),
    ;
}

impl Integer for i32 {
    open spec fn value(self) -> int {
        self as int
    }

    open spec fn limit() -> int {
        i32::MAX as int
    }

    proof fn lemma_plus_exact(a: i32, b: i32) {
    }

    proof fn lemma_minus_exact(a: i32, b: i32) {
    }

    open spec fn modulus() -> int {
        0x1_0000_0000
    }

    proof fn lemma_modulus_positive() {
    }

    proof fn lemma_plus_wraps(a: i32, b: i32) {
    }

    proof fn lemma_minus_wraps(a: i32, b: i32) {
    }
}

impl Integer for i64 {
    open spec fn value(self) -> int {
        self as int
    }

    open spec fn limit() -> int {
        i64::MAX as int
    }

    proof fn lemma_plus_exact(a: i64, b: i64) {
    }

    proof fn lemma_minus_exact(a: i64, b: i64) {
    }

    open spec fn modulus() -> int {
        0x1_0000_0000_0000_0000
    }

    proof fn lemma_modulus_positive() {
    }

    proof fn lemma_plus_wraps(a: i64, b: i64) {
    }

    proof fn lemma_minus_wraps(a: i64, b: i64) {
    }
}

/// An element that a transform can work on: a value that is copied freely
/// and that computes the butterfly of itself and another element.
pub trait Butterfly: Arithmetic + Copy {
    /// The butterfly primitive: the pair `(self + rhs, self - rhs)`.
    fn butterfly(self, rhs: Self) -> (r: (Self, Self))
        ensures
            r.0 == self.plus(rhs),
            r.1 == self.minus(rhs),
    ;
}

impl Butterfly for i32 {
    fn butterfly(self, rhs: i32) -> (r: (i32, i32)) {
        (self.wrapping_add(rhs), self.wrapping_sub(rhs))
    }
}

impl Butterfly for i64 {
    fn butterfly(self, rhs: i64) -> (r: (i64, i64)) {
        (self.wrapping_add(rhs), self.wrapping_sub(rhs))
    }
}

} // verus!
