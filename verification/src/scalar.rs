//! The arithmetic underneath the renderer.

use vstd::prelude::*;

verus! {

/// A number the renderer can compute with.
///
/// Each operation comes as a pair: an executable method and a specification
/// function of the same shape. The trait claims one thing only of an
/// implementation, that the method returns what the specification function
/// names; no algebraic law is assumed, so what is proved of the renderer holds
/// for rounding arithmetic as well as for exact arithmetic.
pub trait Scalar: Copy {
    /// The number that stands for the integer `n`.
    spec fn spec_from_u16(n: u16) -> Self;

    fn from_u16(n: u16) -> (r: Self)
        ensures
            r == Self::spec_from_u16(n),
    ;

    /// A value that is larger than every distance along a ray.
    spec fn spec_infinity() -> Self;

    fn infinity() -> (r: Self)
        ensures
            r == Self::spec_infinity(),
    ;

    /// `self + rhs`.
    spec fn spec_plus(self, rhs: Self) -> Self;

    fn plus(self, rhs: Self) -> (r: Self)
        ensures
            r == self.spec_plus(rhs),
    ;

    /// `self - rhs`.
    spec fn spec_minus(self, rhs: Self) -> Self;

    fn minus(self, rhs: Self) -> (r: Self)
        ensures
            r == self.spec_minus(rhs),
    ;

    /// `self * rhs`.
    spec fn spec_times(self, rhs: Self) -> Self;

    fn times(self, rhs: Self) -> (r: Self)
        ensures
            r == self.spec_times(rhs),
    ;

    /// `self / rhs`. Total: what a zero divisor gives is the implementation's
    /// choice, but it gives a value.
    spec fn spec_over(self, rhs: Self) -> Self;

    fn over(self, rhs: Self) -> (r: Self)
        ensures
            r == self.spec_over(rhs),
    ;

    /// The square root of `self`.
    spec fn spec_sqrt(self) -> Self;

    fn sqrt(self) -> (r: Self)
        ensures
            r == self.spec_sqrt(),
    ;

    /// The sine of `self`, an angle in radians.
    spec fn spec_sin(self) -> Self;

    fn sin(self) -> (r: Self)
        ensures
            r == self.spec_sin(),
    ;

    /// `self < rhs`.
    spec fn spec_less(self, rhs: Self) -> bool;

    fn less(self, rhs: Self) -> (r: bool)
        ensures
            r == self.spec_less(rhs),
    ;

    /// The 8-bit code that an image stores for the channel intensity `self`.
    spec fn spec_to_byte(self) -> u8;

    fn to_byte(self) -> (r: u8)
        ensures
            r == self.spec_to_byte(),
    ;
}

/// `less` puts the numbers in order: of two numbers at most one is below the
/// other, and a number that is not below a second, which is not below a third,
/// is not below the third. Exact arithmetic is ordered; rounded arithmetic is,
/// as long as it holds nothing that is not a number.
pub open spec fn ordered<S: Scalar>() -> bool {
    &&& forall|a: S, b: S| #[trigger] a.spec_less(b) ==> !b.spec_less(a)
    &&& forall|a: S, b: S, c: S|
        !(#[trigger] a.spec_less(b)) && !(#[trigger] b.spec_less(c)) ==> !a.spec_less(c)
}

/// Among ordered numbers no number is below itself.
pub proof fn lemma_less_is_irreflexive<S: Scalar>(a: S)
    requires
        ordered::<S>(),
    ensures
        !a.spec_less(a),
{
    if a.spec_less(a) {
        assert(!a.spec_less(a));
    }
}

/// Among ordered numbers, what is below a number that is below a third is
/// below the third.
pub proof fn lemma_less_is_transitive<S: Scalar>(a: S, b: S, c: S)
    requires
        ordered::<S>(),
        a.spec_less(b),
        b.spec_less(c),
    ensures
        a.spec_less(c),
{
    // were `a` not below `c`, which is not below `b`, it would not be below `b`
    if !a.spec_less(c) {
        assert(!c.spec_less(b));
    }
}

/// The number 0.
pub open spec fn zero<S: Scalar>() -> S {
    S::spec_from_u16(0)
}

/// The number 1.
pub open spec fn one<S: Scalar>() -> S {
    S::spec_from_u16(1)
}

/// The quotient of two integers, as the arithmetic computes it.
pub open spec fn spec_ratio<S: Scalar>(num: u16, den: u16) -> S {
    S::spec_from_u16(num).spec_over(S::spec_from_u16(den))
}

/// The quotient `num / den` of two integers.
pub fn ratio<S: Scalar>(num: u16, den: u16) -> (r: S)
    ensures
        r == spec_ratio::<S>(num, den),
{
    S::from_u16(num).over(S::from_u16(den))
}

} // verus!
