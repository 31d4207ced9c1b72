//! Fixed-point arithmetic: a [`Scalar`] with sixteen fractional bits that saturates at its ends.

use vstd::prelude::*;
use vstd::arithmetic::div_mod::*;

use crate::scalar::Scalar;

verus! {

/// The raw value of one.
pub const ONE: i64 = 65536;

/// A number of 65536ths.
#[derive(Clone, Copy, PartialEq, Eq, Structural, Debug)]
pub struct Fixed {
    pub raw: i64,
}

/// The nearest raw value that 64 bits hold.
pub open spec fn saturated(x: int) -> i64 {
    if x > i64::MAX { i64::MAX } else if x < i64::MIN { i64::MIN } else { x as i64 }
}

fn saturate(x: i128) -> (r: i64)
    ensures
        r == saturated(x as int),
{
    if x > i64::MAX as i128 {
        i64::MAX
    } else if x < i64::MIN as i128 {
        i64::MIN
    } else {
        x as i64
    }
}

/// `a / b` rounded towards zero.
pub open spec fn quotient(a: int, b: int) -> int
    recommends
        b != 0,
{
    let q = abs(a) / abs(b);
    if (a < 0) == (b < 0) { q } else { -q }
}

/// The absolute value of an integer.
pub open spec fn abs(a: int) -> int {
    if a < 0 { -a } else { a }
}

fn divide(a: i128, b: i64) -> (r: i128)
    requires
        b != 0,
        -0x8000_0000_0000_0000_0000int <= a <= 0x8000_0000_0000_0000_0000int,
    ensures
        r == quotient(a as int, b as int),
{
    let pa: u128 = if a < 0 { (-a) as u128 } else { a as u128 };
    let wide: i128 = b as i128;
    let pb: u128 = if wide < 0 { (-wide) as u128 } else { wide as u128 };
    let q: u128 = pa / pb;
    proof {
        lemma_div_is_ordered_by_denominator(pa as int, 1, pb as int);
        lemma_div_basics(pa as int);
    }
    if (a < 0) == (b < 0) {
        q as i128
    } else {
        -(q as i128)
    }
}

/// `r` is the whole part of the square root of `n`.
pub open spec fn is_root(n: int, r: int) -> bool {
    &&& 0 <= r
    &&& r * r <= n
    &&& n < (r + 1) * (r + 1)
}

/// The whole part of the square root of `n`.
pub open spec fn whole_root(n: int) -> int {
    choose|r: int| is_root(n, r)
}

proof fn lemma_root_unique(n: int, r: int, s: int)
    requires
        is_root(n, r),
        is_root(n, s),
    ensures
        r == s,
{
    assert(r == s) by (nonlinear_arith)
        requires
            0 <= r,
            0 <= s,
            r * r <= n,
            s * s <= n,
            n < (r + 1) * (r + 1),
            n < (s + 1) * (s + 1),
    ;
}

fn integer_root(n: u128) -> (r: u64)
    requires
        n < 0x1_0000_0000_0000_0000_0000,
    ensures
        is_root(n as int, r as int),
{
    let mut lo: u64 = 0;
    let mut hi: u64 = 0x100_0000_0000;
    assert(0x100_0000_0000int * 0x100_0000_0000int == 0x1_0000_0000_0000_0000_0000int) by (nonlinear_arith);
    while hi - lo > 1
        invariant
            lo < hi <= 0x100_0000_0000,
            lo * lo <= n,
            n < hi * hi,
        decreases hi - lo,
    {
        let mid: u64 = lo + (hi - lo) / 2;
        assert(mid * mid <= 0x100_0000_0000int * 0x100_0000_0000int) by (nonlinear_arith)
            requires
                0 <= mid <= 0x100_0000_0000,
        ;
        let square: u128 = (mid as u128) * (mid as u128);
        if square <= n {
            lo = mid;
        } else {
            hi = mid;
        }
    }
    lo
}

impl Scalar for Fixed {
    open spec fn ratio_spec(num: i64, den: i64) -> Self {
        Fixed { raw: saturated(quotient(num * 65536, den as int)) }
    }

    fn ratio(num: i64, den: i64) -> (r: Self) {
        Fixed { raw: saturate(divide(num as i128 * 65536i128, den)) }
    }

    open spec fn infinity_spec() -> Self {
        Fixed { raw: i64::MAX }
    }

    fn infinity() -> (r: Self) {
        Fixed { raw: i64::MAX }
    }

    open spec fn plus_spec(self, other: Self) -> Self {
        Fixed { raw: saturated(self.raw + other.raw) }
    }

    fn plus(self, other: Self) -> (r: Self) {
        Fixed { raw: saturate(self.raw as i128 + other.raw as i128) }
    }

    open spec fn minus_spec(self, other: Self) -> Self {
        Fixed { raw: saturated(self.raw - other.raw) }
    }

    fn minus(self, other: Self) -> (r: Self) {
        Fixed { raw: saturate(self.raw as i128 - other.raw as i128) }
    }

    open spec fn times_spec(self, other: Self) -> Self {
        Fixed { raw: saturated(quotient(self.raw * other.raw, ONE as int)) }
    }

    fn times(self, other: Self) -> (r: Self) {
        let a: i128 = self.raw as i128;
        let b: i128 = other.raw as i128;
        assert(-0x8000_0000_0000_0000int * 0x8000_0000_0000_0000int <= a * b <= 0x8000_0000_0000_0000int
            * 0x8000_0000_0000_0000int) by (nonlinear_arith)
            requires
                -0x8000_0000_0000_0000int <= a <= 0x7fff_ffff_ffff_ffffint,
                -0x8000_0000_0000_0000int <= b <= 0x7fff_ffff_ffff_ffffint,
        ;
        let product: i128 = a * b;
        let q: i128 = if product < 0 { -((-product) / ONE as i128) } else { product / ONE as i128 };
        Fixed { raw: saturate(q) }
    }

    open spec fn over_spec(self, other: Self) -> Self {
        if other.raw == 0 {
            Fixed { raw: if self.raw < 0 { i64::MIN } else { i64::MAX } }
        } else {
            Fixed { raw: saturated(quotient(self.raw * 65536, other.raw as int)) }
        }
    }

    fn over(self, other: Self) -> (r: Self) {
        if other.raw == 0 {
            Fixed { raw: if self.raw < 0 { i64::MIN } else { i64::MAX } }
        } else {
            Fixed { raw: saturate(divide(self.raw as i128 * 65536i128, other.raw)) }
        }
    }

    open spec fn root_spec(self) -> Self {
        if self.raw <= 0 {
            Fixed { raw: 0 }
        } else {
            Fixed { raw: saturated(whole_root(self.raw * 65536)) }
        }
    }

    fn root(self) -> (r: Self) {
        if self.raw <= 0 {
            Fixed { raw: 0 }
        } else {
            let r: u64 = integer_root(self.raw as u128 * 65536u128);
            proof {
                lemma_root_unique(self.raw * 65536, r as int, whole_root(self.raw * 65536));
            }
            Fixed { raw: saturate(r as i128) }
        }
    }

    open spec fn magnitude_spec(self) -> Self {
        Fixed { raw: saturated(abs(self.raw as int)) }
    }

    fn magnitude(self) -> (r: Self) {
        if self.raw < 0 {
            Fixed { raw: saturate(-(self.raw as i128)) }
        } else {
            self
        }
    }

    open spec fn sign_spec(self) -> Self {
        Fixed { raw: if self.raw < 0 { (-ONE) as i64 } else { ONE } }
    }

    fn sign(self) -> (r: Self) {
        Fixed { raw: if self.raw < 0 { -ONE } else { ONE } }
    }

    open spec fn negated_spec(self) -> Self {
        Fixed { raw: saturated(-(self.raw as int)) }
    }

    fn negated(self) -> (r: Self) {
        Fixed { raw: saturate(-(self.raw as i128)) }
    }

    open spec fn least_spec(self, other: Self) -> Self {
        if self.raw <= other.raw { self } else { other }
    }

    fn least(self, other: Self) -> (r: Self) {
        if self.raw <= other.raw { self } else { other }
    }

    open spec fn most_spec(self, other: Self) -> Self {
        if self.raw >= other.raw { self } else { other }
    }

    fn most(self, other: Self) -> (r: Self) {
        if self.raw >= other.raw { self } else { other }
    }

    open spec fn ceiling_spec(self) -> Self {
        Fixed { raw: saturated(-((-(self.raw as int)) / (ONE as int)) * 65536) }
    }

    fn ceiling(self) -> (r: Self) {
        let negative: i128 = -(self.raw as i128);
        let floor: i128 = if negative >= 0 {
            negative / ONE as i128
        } else {
            -((-negative + (ONE as i128 - 1)) / ONE as i128)
        };
        Fixed { raw: saturate(-floor * 65536i128) }
    }

    open spec fn fraction_spec(self) -> Self {
        Fixed { raw: saturated(self.raw - quotient(self.raw as int, ONE as int) * 65536) }
    }

    fn fraction(self) -> (r: Self) {
        let q: i128 = divide(self.raw as i128, ONE);
        Fixed { raw: saturate(self.raw as i128 - q * 65536i128) }
    }

    open spec fn truncated_spec(self) -> i64 {
        saturated(quotient(self.raw as int, ONE as int))
    }

    fn truncated(self) -> (r: i64) {
        saturate(divide(self.raw as i128, ONE))
    }

    open spec fn nanos_spec(self) -> u64 {
        if self.raw <= 0 {
            0
        } else if self.raw * 1_000_000_000 / (ONE as int) > u64::MAX {
            u64::MAX
        } else {
            (self.raw * 1_000_000_000 / (ONE as int)) as u64
        }
    }

    fn nanos(self) -> (r: u64) {
        if self.raw <= 0 {
            0
        } else {
            let n: u128 = self.raw as u128 * 1_000_000_000u128 / ONE as u128;
            if n > u64::MAX as u128 {
                u64::MAX
            } else {
                n as u64
            }
        }
    }

    open spec fn bits_spec(self) -> u32 {
        #[verifier::truncate]
        (self.raw as u32)
    }

    fn bits(self) -> (r: u32) {
        #[verifier::truncate]
        (self.raw as u32)
    }

    open spec fn less_spec(self, other: Self) -> bool {
        self.raw < other.raw
    }

    fn less(self, other: Self) -> (r: bool) {
        self.raw < other.raw
    }

    open spec fn at_most_spec(self, other: Self) -> bool {
        self.raw <= other.raw
    }

    fn at_most(self, other: Self) -> (r: bool) {
        self.raw <= other.raw
    }

    open spec fn same_spec(self, other: Self) -> bool {
        self.raw == other.raw
    }

    fn same(self, other: Self) -> (r: bool) {
        self.raw == other.raw
    }

    proof fn less_irreflexive(a: Self) {
    }

    proof fn less_transitive(a: Self, b: Self, c: Self) {
    }

    proof fn less_excludes_at_most(a: Self, b: Self) {
    }

    proof fn least_bounded(a: Self, b: Self) {
    }

    proof fn whole_less(a: i64, b: i64) {
        lemma_div_basics(abs(a * 65536));
        lemma_div_basics(abs(b * 65536));
    }

    proof fn whole_negated(a: i64) {
        lemma_div_basics(abs(a * 65536));
    }

    proof fn unit_factor(num: i64, den: i64) {
        let wide = num * 65536;
        lemma_div_basics(65536int);
        lemma_div_is_ordered_by_denominator(wide, 1, den as int);
        lemma_div_basics(wide);
        lemma_div_pos_is_pos(wide, den as int);
        let raw = wide / (den as int);
        assert(0 <= raw <= wide);
        assert(Self::ratio_spec(num, den).raw == raw);
        assert(Self::ratio_spec(1, 1).raw == 65536);
        assert(quotient(65536 * raw, 65536) == raw);
        assert(quotient(-65536 * raw, 65536) == -raw);
    }

    proof fn at_most_reflexive(a: Self) {
    }

    proof fn at_most_transitive(a: Self, b: Self, c: Self) {
    }

    proof fn less_carries(a: Self, b: Self, c: Self) {
    }

    proof fn minus_monotone(a: Self, b: Self, c: Self, d: Self) {
    }

    proof fn minus_shrinks(a: Self, d: Self) {
        lemma_div_basics(1);
    }

    proof fn times_monotone(k: Self, a: Self, b: Self) {
        lemma_div_basics(1);
        assert(k.raw * a.raw <= k.raw * b.raw) by (nonlinear_arith)
            requires
                0 <= k.raw,
                a.raw <= b.raw,
        ;
        lemma_quotient_ordered(k.raw * a.raw, k.raw * b.raw);
    }
}

pub proof fn lemma_quotient_ordered(a: int, b: int)
    requires
        a <= b,
    ensures
        quotient(a, 65536) <= quotient(b, 65536),
{
    lemma_div_pos_is_pos(abs(a), 65536);
    lemma_div_pos_is_pos(abs(b), 65536);
    if a >= 0 {
        lemma_div_is_ordered(a, b, 65536);
    } else if b < 0 {
        lemma_div_is_ordered(-b, -a, 65536);
    }
}

} // verus!
