//! The arithmetic of tensor elements.

use vstd::prelude::*;

verus! {

/// A floating-point element type.
///
/// Nothing is stated of the operations: rounding differs from device to device, and contracts
/// speak of whatever an operation returns.
pub trait Float: Copy {
    /// The element nearest to a count.
    fn cast_from(value: usize) -> Self;

    /// The sum of two elements.
    fn plus(self, other: Self) -> Self;

    /// The difference of two elements.
    fn minus(self, other: Self) -> Self;

    /// The product of two elements.
    fn times(self, other: Self) -> Self;

    /// The quotient of two elements.
    fn over(self, other: Self) -> Self;

    /// The additive inverse.
    fn negated(self) -> Self;

    /// The cosine of an angle in radians.
    fn cos(self) -> Self;

    /// The sine of an angle in radians.
    fn sin(self) -> Self;
}

/// Whether casts have but one outcome on every count.
pub open spec fn casts_uniquely<F: Float>() -> bool {
    forall|n: usize, x: F, y: F|
        #![trigger call_ensures(F::cast_from, (n,), x), call_ensures(F::cast_from, (n,), y)]
        call_ensures(F::cast_from, (n,), x) && call_ensures(F::cast_from, (n,), y) ==> x == y
}

/// Whether negation has but one outcome on every element.
pub open spec fn negates_uniquely<F: Float>() -> bool {
    forall|x: F, y: F, z: F|
        #![trigger call_ensures(F::negated, (x,), y), call_ensures(F::negated, (x,), z)]
        call_ensures(F::negated, (x,), y) && call_ensures(F::negated, (x,), z) ==> y == z
}

/// Whether division has but one outcome on every two elements.
pub open spec fn divides_uniquely<F: Float>() -> bool {
    forall|x: F, d: F, y: F, z: F|
        #![trigger call_ensures(F::over, (x, d), y), call_ensures(F::over, (x, d), z)]
        call_ensures(F::over, (x, d), y) && call_ensures(F::over, (x, d), z) ==> y == z
}

} // verus!
