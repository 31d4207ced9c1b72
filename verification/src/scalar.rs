//! The numbers of the simulation.
//!
//! Every rule of the game is written against [`Scalar`], so that a host chooses the arithmetic:
//! single precision in the client, [`crate::fixed::Fixed`] where no floating-point unit can be
//! trusted to agree bit for bit between two machines.

use vstd::prelude::*;

verus! {

/// A number type that lockstep peers can share.
///
/// Each operation is a function of its operands alone, which is what makes a run repeatable.
/// The laws at the end ask for no more than a strict partial order, exact small whole numbers,
/// an exact unit and operations that keep the order where they are defined, so that a type that
/// rounds and has unordered values (a not-a-number) qualifies as well.
pub trait Scalar: Copy + Sized {
    spec fn ratio_spec(num: i64, den: i64) -> Self;

    /// The quotient of two whole numbers.
    #[verifier::when_used_as_spec(ratio_spec)]
    fn ratio(num: i64, den: i64) -> (r: Self)
        requires
            den > 0,
        ensures
            r == Self::ratio_spec(num, den),
    ;

    spec fn infinity_spec() -> Self;

    /// A value that no distance exceeds.
    #[verifier::when_used_as_spec(infinity_spec)]
    fn infinity() -> (r: Self)
        ensures
            r == Self::infinity_spec(),
    ;

    spec fn plus_spec(self, other: Self) -> Self;

    #[verifier::when_used_as_spec(plus_spec)]
    fn plus(self, other: Self) -> (r: Self)
        ensures
            r == self.plus_spec(other),
    ;

    spec fn minus_spec(self, other: Self) -> Self;

    #[verifier::when_used_as_spec(minus_spec)]
    fn minus(self, other: Self) -> (r: Self)
        ensures
            r == self.minus_spec(other),
    ;

    spec fn times_spec(self, other: Self) -> Self;

    #[verifier::when_used_as_spec(times_spec)]
    fn times(self, other: Self) -> (r: Self)
        ensures
            r == self.times_spec(other),
    ;

    spec fn over_spec(self, other: Self) -> Self;

    /// The quotient `self / other`, with a value of its own for a zero divisor.
    #[verifier::when_used_as_spec(over_spec)]
    fn over(self, other: Self) -> (r: Self)
        ensures
            r == self.over_spec(other),
    ;

    spec fn root_spec(self) -> Self;

    /// The square root.
    #[verifier::when_used_as_spec(root_spec)]
    fn root(self) -> (r: Self)
        ensures
            r == self.root_spec(),
    ;

    spec fn magnitude_spec(self) -> Self;

    /// The absolute value.
    #[verifier::when_used_as_spec(magnitude_spec)]
    fn magnitude(self) -> (r: Self)
        ensures
            r == self.magnitude_spec(),
    ;

    spec fn sign_spec(self) -> Self;

    /// One with the sign of `self`.
    #[verifier::when_used_as_spec(sign_spec)]
    fn sign(self) -> (r: Self)
        ensures
            r == self.sign_spec(),
    ;

    spec fn negated_spec(self) -> Self;

    #[verifier::when_used_as_spec(negated_spec)]
    fn negated(self) -> (r: Self)
        ensures
            r == self.negated_spec(),
    ;

    spec fn least_spec(self, other: Self) -> Self;

    /// The smaller of the two.
    #[verifier::when_used_as_spec(least_spec)]
    fn least(self, other: Self) -> (r: Self)
        ensures
            r == self.least_spec(other),
    ;

    spec fn most_spec(self, other: Self) -> Self;

    /// The larger of the two.
    #[verifier::when_used_as_spec(most_spec)]
    fn most(self, other: Self) -> (r: Self)
        ensures
            r == self.most_spec(other),
    ;

    spec fn ceiling_spec(self) -> Self;

    /// The least whole number not below `self`.
    #[verifier::when_used_as_spec(ceiling_spec)]
    fn ceiling(self) -> (r: Self)
        ensures
            r == self.ceiling_spec(),
    ;

    spec fn fraction_spec(self) -> Self;

    /// What is left of `self` without its whole part.
    #[verifier::when_used_as_spec(fraction_spec)]
    fn fraction(self) -> (r: Self)
        ensures
            r == self.fraction_spec(),
    ;

    spec fn truncated_spec(self) -> i64;

    /// The whole part, rounded towards zero and saturated.
    #[verifier::when_used_as_spec(truncated_spec)]
    fn truncated(self) -> (r: i64)
        ensures
            r == self.truncated_spec(),
    ;

    spec fn nanos_spec(self) -> u64;

    /// A duration of `self` seconds in nanoseconds, saturated; zero for a negative one.
    #[verifier::when_used_as_spec(nanos_spec)]
    fn nanos(self) -> (r: u64)
        ensures
            r == self.nanos_spec(),
    ;

    spec fn bits_spec(self) -> u32;

    /// A pattern that equal values share, for state hashes.
    #[verifier::when_used_as_spec(bits_spec)]
    fn bits(self) -> (r: u32)
        ensures
            r == self.bits_spec(),
    ;

    spec fn less_spec(self, other: Self) -> bool;

    #[verifier::when_used_as_spec(less_spec)]
    fn less(self, other: Self) -> (r: bool)
        ensures
            r == self.less_spec(other),
    ;

    spec fn at_most_spec(self, other: Self) -> bool;

    #[verifier::when_used_as_spec(at_most_spec)]
    fn at_most(self, other: Self) -> (r: bool)
        ensures
            r == self.at_most_spec(other),
    ;

    spec fn same_spec(self, other: Self) -> bool;

    /// Numeric equality.
    #[verifier::when_used_as_spec(same_spec)]
    fn same(self, other: Self) -> (r: bool)
        ensures
            r == self.same_spec(other),
    ;

    /// Nothing is less than itself.
    proof fn less_irreflexive(a: Self)
        ensures
            !a.less(a),
    ;

    /// `less` is transitive.
    proof fn less_transitive(a: Self, b: Self, c: Self)
        requires
            a.less(b),
            b.less(c),
        ensures
            a.less(c),
    ;

    /// What is less is not at least.
    proof fn less_excludes_at_most(a: Self, b: Self)
        requires
            a.less(b),
        ensures
            !b.at_most(a),
    ;

    /// The smaller of two values does not exceed the second.
    proof fn least_bounded(a: Self, b: Self)
        ensures
            !b.less(a.least(b)),
    ;

    /// Small whole numbers keep their order.
    proof fn whole_less(a: i64, b: i64)
        requires
            -0x100_0000 <= a < b <= 0x100_0000,
        ensures
            Self::ratio(a, 1).less(Self::ratio(b, 1)),
    ;

    /// Small whole numbers have their opposites.
    proof fn whole_negated(a: i64)
        requires
            0 < a <= 0x100_0000,
        ensures
            Self::ratio(a, 1).negated() == Self::ratio((-a) as i64, 1),
    ;

    /// A factor of one or of minus one keeps the size of a ratio of small numbers.
    proof fn unit_factor(num: i64, den: i64)
        requires
            0 <= num <= 0x100_0000,
            0 < den <= 0x100_0000,
        ensures
            Self::ratio(1, 1).times(Self::ratio(num, den)).magnitude() == Self::ratio(num, den),
            Self::ratio(1, 1).negated().times(Self::ratio(num, den)).magnitude() == Self::ratio(num, den),
    ;

    /// What equals itself is at most itself.
    proof fn at_most_reflexive(a: Self)
        requires
            a.same(a),
        ensures
            a.at_most(a),
    ;

    /// `at_most` is transitive.
    proof fn at_most_transitive(a: Self, b: Self, c: Self)
        requires
            a.at_most(b),
            b.at_most(c),
        ensures
            a.at_most(c),
    ;

    /// What is more than something is so still if it grows.
    proof fn less_carries(a: Self, b: Self, c: Self)
        requires
            a.less(b),
            b.at_most(c),
        ensures
            a.less(c),
    ;

    /// To take more from less leaves no more, if both differences exist.
    proof fn minus_monotone(a: Self, b: Self, c: Self, d: Self)
        requires
            a.at_most(b),
            d.at_most(c),
            a.minus(c).same(a.minus(c)),
            b.minus(d).same(b.minus(d)),
        ensures
            a.minus(c).at_most(b.minus(d)),
    ;

    /// To take something away leaves no more, if the difference exists.
    proof fn minus_shrinks(a: Self, d: Self)
        requires
            Self::ratio(0, 1).at_most(d),
            a.minus(d).same(a.minus(d)),
        ensures
            a.minus(d).at_most(a),
    ;

    /// A factor that is not negative keeps the order, if both products exist.
    proof fn times_monotone(k: Self, a: Self, b: Self)
        requires
            Self::ratio(0, 1).at_most(k),
            a.at_most(b),
            k.times(a).same(k.times(a)),
            k.times(b).same(k.times(b)),
        ensures
            k.times(a).at_most(k.times(b)),
    ;
}

/// Zero.
#[verifier::allow_in_spec]
pub fn zero<S: Scalar>() -> S
    returns
        S::ratio(0, 1),
{
    S::ratio(0, 1)
}

/// One.
#[verifier::allow_in_spec]
pub fn one<S: Scalar>() -> S
    returns
        S::ratio(1, 1),
{
    S::ratio(1, 1)
}

/// A whole number.
#[verifier::allow_in_spec]
pub fn whole<S: Scalar>(n: i64) -> S
    returns
        S::ratio(n, 1),
{
    S::ratio(n, 1)
}

/// A number of hundredths.
#[verifier::allow_in_spec]
pub fn hundredths<S: Scalar>(n: i64) -> S
    returns
        S::ratio(n, 100),
{
    S::ratio(n, 100)
}

/// `x` kept between `lo` and `hi`.
pub open spec fn clamped_spec<S: Scalar>(x: S, lo: S, hi: S) -> S {
    let y = if x.less(lo) { lo } else { x };
    if hi.less(y) { hi } else { y }
}

/// `x` kept between `lo` and `hi`.
#[verifier::when_used_as_spec(clamped_spec)]
pub fn clamped<S: Scalar>(x: S, lo: S, hi: S) -> (r: S)
    ensures
        r == clamped_spec(x, lo, hi),
{
    let y: S = if x.less(lo) { lo } else { x };
    if hi.less(y) { hi } else { y }
}

} // verus!
