use vstd::prelude::*;

verus! {

/// The number type that the layout computes with.
///
/// The layout is generic over its float precision: a user picks the number
/// type (in practice a wrapper of `f32` or `f64`) by implementing this trait.
/// The library never looks inside a number: it only combines numbers through
/// the operations below, each of which has a spec counterpart of the same
/// name. The one thing that every contract in this crate rests on is what the
/// `ensures` of these methods say: that an operation returns the value of its
/// spec counterpart on its arguments, i.e. that each operation is a
/// deterministic function of its arguments. Nothing is assumed of the
/// arithmetic itself (no commutativity, no ordering laws, no exactness), so
/// every result of the library is stated as the exact expression, in these
/// operations and in this order of evaluation, that it computes.
///
/// An implementation over machine floats meets this contract as far as IEEE
/// arithmetic fixes its results: the sign and payload bits of a NaN result
/// are left open by Rust, so two equal computations that produce a NaN may
/// produce NaNs that differ bit for bit, and what the contracts (and laws
/// such as the determinism of epochs) say of equal results then holds of
/// the numbers only up to that difference.
pub trait Float: Copy + Sized {
    /// The additive identity.
    spec fn spec_zero() -> Self;

    /// The multiplicative identity.
    spec fn spec_one() -> Self;

    /// The circle constant (`2π`).
    spec fn spec_tau() -> Self;

    /// The number nearest to the given integer.
    spec fn spec_from_usize(n: usize) -> Self;

    spec fn spec_add(self, rhs: Self) -> Self;

    spec fn spec_sub(self, rhs: Self) -> Self;

    spec fn spec_mul(self, rhs: Self) -> Self;

    spec fn spec_div(self, rhs: Self) -> Self;

    spec fn spec_neg(self) -> Self;

    spec fn spec_powi(self, n: i32) -> Self;

    spec fn spec_powf(self, e: Self) -> Self;

    spec fn spec_sqrt(self) -> Self;

    spec fn spec_ln(self) -> Self;

    /// `ln(1 + self)`, computed more accurately than with `ln`.
    spec fn spec_ln_1p(self) -> Self;

    spec fn spec_abs(self) -> Self;

    spec fn spec_min(self, rhs: Self) -> Self;

    spec fn spec_max(self, rhs: Self) -> Self;

    spec fn spec_cos(self) -> Self;

    spec fn spec_sin(self) -> Self;

    /// Strict comparison `self < rhs`.
    spec fn spec_lt(self, rhs: Self) -> bool;

    fn zero() -> (r: Self)
        ensures
            r == Self::spec_zero(),
    ;

    fn one() -> (r: Self)
        ensures
            r == Self::spec_one(),
    ;

    fn tau() -> (r: Self)
        ensures
            r == Self::spec_tau(),
    ;

    fn from_usize(n: usize) -> (r: Self)
        ensures
            r == Self::spec_from_usize(n),
    ;

    fn add(self, rhs: Self) -> (r: Self)
        ensures
            r == self.spec_add(rhs),
    ;

    fn sub(self, rhs: Self) -> (r: Self)
        ensures
            r == self.spec_sub(rhs),
    ;

    fn mul(self, rhs: Self) -> (r: Self)
        ensures
            r == self.spec_mul(rhs),
    ;

    fn div(self, rhs: Self) -> (r: Self)
        ensures
            r == self.spec_div(rhs),
    ;

    fn neg(self) -> (r: Self)
        ensures
            r == self.spec_neg(),
    ;

    fn powi(self, n: i32) -> (r: Self)
        ensures
            r == self.spec_powi(n),
    ;

    fn powf(self, e: Self) -> (r: Self)
        ensures
            r == self.spec_powf(e),
    ;

    fn sqrt(self) -> (r: Self)
        ensures
            r == self.spec_sqrt(),
    ;

    fn ln(self) -> (r: Self)
        ensures
            r == self.spec_ln(),
    ;

    fn ln_1p(self) -> (r: Self)
        ensures
            r == self.spec_ln_1p(),
    ;

    fn abs(self) -> (r: Self)
        ensures
            r == self.spec_abs(),
    ;

    fn min(self, rhs: Self) -> (r: Self)
        ensures
            r == self.spec_min(rhs),
    ;

    fn max(self, rhs: Self) -> (r: Self)
        ensures
            r == self.spec_max(rhs),
    ;

    fn cos(self) -> (r: Self)
        ensures
            r == self.spec_cos(),
    ;

    fn sin(self) -> (r: Self)
        ensures
            r == self.spec_sin(),
    ;

    fn lt(self, rhs: Self) -> (r: bool)
        ensures
            r == self.spec_lt(rhs),
    ;
}

/// The number `2`, as the layout uses it to halve quantities.
pub open spec fn two<F: Float>() -> F {
    F::spec_from_usize(2)
}

/// `x * x`, written as the layout writes squares.
pub open spec fn square<F: Float>(x: F) -> F {
    x.spec_powi(2)
}

} // verus!
