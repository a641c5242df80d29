//! Exact, repeatable arithmetic: numbers with sixteen binary places.
//!
//! A render in this arithmetic comes out the same, bit for bit, on every
//! machine.

use crate::color::Color;
use crate::material::Sampler;
use crate::scalar::{ordered, Scalar};
use vstd::prelude::*;

verus! {

/// The raw value of the number 1.
pub const ONE: i64 = 0x1_0000;

/// The raw value of the number that stands for pi, 3.14159 to five places.
pub const PI: i64 = 205887;

/// A number with sixteen binary places: `raw / 65536`. Results that do not
/// fit are replaced by the nearest number that does, and results that fall
/// between two numbers by the one nearer to zero.
#[derive(Clone, Copy, Debug, PartialEq, Eq)]
pub struct Fixed {
    pub raw: i64,
}

/// The nearest raw value to `x`.
pub open spec fn saturated(x: int) -> i64 {
    if x < i64::MIN {
        i64::MIN
    } else if x > i64::MAX {
        i64::MAX
    } else {
        x as i64
    }
}

/// The distance of `x` from zero.
pub open spec fn magnitude(x: int) -> int {
    if x < 0 {
        -x
    } else {
        x
    }
}

/// `n / d`, rounded towards zero; `d` is not zero.
pub open spec fn quotient(n: int, d: int) -> int {
    if (n < 0) == (d < 0) {
        magnitude(n) / magnitude(d)
    } else {
        -(magnitude(n) / magnitude(d))
    }
}

/// `r` is the square root of `n`, rounded down.
pub open spec fn is_floor_sqrt(n: int, r: int) -> bool {
    0 <= r && r * r <= n < (r + 1) * (r + 1)
}

/// The square root of `n`, rounded down.
pub open spec fn floor_sqrt(n: int) -> int {
    choose|r: int| is_floor_sqrt(n, r)
}

/// A number has one square root, rounded down.
pub proof fn lemma_floor_sqrt_is_unique(n: int, r: int)
    requires
        is_floor_sqrt(n, r),
    ensures
        floor_sqrt(n) == r,
{
    let s = floor_sqrt(n);
    assert(is_floor_sqrt(n, s));
    if s < r {
        assert((s + 1) * (s + 1) <= r * r) by (nonlinear_arith)
            requires
                0 <= s + 1 <= r,
        ;
    }
    if r < s {
        assert((r + 1) * (r + 1) <= s * s) by (nonlinear_arith)
            requires
                0 <= r + 1 <= s,
        ;
    }
}

/// One arch of the sine, from an angle of 0 to pi, drawn as the parabola
/// through its two zeros and its peak: `4 t (pi - t) / pi^2`, in raw values
/// and rounded down.
pub open spec fn arch(t: int) -> int {
    (4 * t * (PI - t) * ONE) / (PI * PI)
}

fn saturate(x: i128) -> (r: i64)
    ensures
        r == saturated(x as int),
{
    if x < i64::MIN as i128 {
        i64::MIN
    } else if x > i64::MAX as i128 {
        i64::MAX
    } else {
        x as i64
    }
}

fn divide(n: i128, d: i128) -> (q: i128)
    requires
        d != 0,
        i128::MIN < n,
        i128::MIN < d,
    ensures
        q == quotient(n as int, d as int),
{
    let above: i128 = if n < 0 {
        -n
    } else {
        n
    };
    let below: i128 = if d < 0 {
        -d
    } else {
        d
    };
    let q: i128 = above / below;
    assert(0 <= q <= above) by (nonlinear_arith)
        requires
            q == above / below,
            above >= 0,
            below >= 1,
    ;
    if (n < 0) == (d < 0) {
        q
    } else {
        -q
    }
}

impl Fixed {
    pub fn from_raw(raw: i64) -> (r: Self)
        ensures
            r.raw == raw,
    {
        Fixed { raw }
    }

    /// The arch of the sine over the angle with raw value `t`.
    fn arch(t: i64) -> (r: i64)
        requires
            0 <= t <= PI,
        ensures
            r == arch(t as int),
            0 <= r <= ONE,
    {
        let span: i64 = PI - t;
        assert(0 <= t * span <= 205887 * 205887 && 4 * t * span == 4 * (t * span)) by (nonlinear_arith)
            requires
                0 <= t <= 205887,
                0 <= span <= 205887,
        ;
        assert(4 * (t * span) <= PI * PI) by (nonlinear_arith)
            requires
                span == PI - t,
        ;
        let area: i64 = t * span;
        let scaled: i64 = 4 * area * ONE;
        assert(4 * t * (PI - t) * ONE == scaled);
        let r: i64 = scaled / (PI * PI);
        assert(0 <= r <= ONE) by (nonlinear_arith)
            requires
                r as int == (scaled as int) / (PI * PI),
                0 <= scaled <= PI * PI * ONE,
                PI * PI > 0,
        ;
        r
    }
}

impl Scalar for Fixed {
    open spec fn spec_from_u16(n: u16) -> Self {
        Fixed { raw: (n * ONE) as i64 }
    }

    fn from_u16(n: u16) -> (r: Self) {
        Fixed { raw: n as i64 * ONE }
    }

    /// The largest number there is.
    open spec fn spec_infinity() -> Self {
        Fixed { raw: i64::MAX }
    }

    fn infinity() -> (r: Self) {
        Fixed { raw: i64::MAX }
    }

    open spec fn spec_plus(self, rhs: Self) -> Self {
        Fixed { raw: saturated(self.raw + rhs.raw) }
    }

    fn plus(self, rhs: Self) -> (r: Self) {
        Fixed { raw: saturate(self.raw as i128 + rhs.raw as i128) }
    }

    open spec fn spec_minus(self, rhs: Self) -> Self {
        Fixed { raw: saturated(self.raw - rhs.raw) }
    }

    fn minus(self, rhs: Self) -> (r: Self) {
        Fixed { raw: saturate(self.raw as i128 - rhs.raw as i128) }
    }

    open spec fn spec_times(self, rhs: Self) -> Self {
        Fixed { raw: saturated(quotient(self.raw * rhs.raw, ONE as int)) }
    }

    fn times(self, rhs: Self) -> (r: Self) {
        assert(-0x4000_0000_0000_0000_0000_0000_0000_0000 <= self.raw * rhs.raw
            <= 0x4000_0000_0000_0000_0000_0000_0000_0000) by (nonlinear_arith)
            requires
                -0x8000_0000_0000_0000 <= self.raw <= 0x8000_0000_0000_0000,
                -0x8000_0000_0000_0000 <= rhs.raw <= 0x8000_0000_0000_0000,
        ;
        let product: i128 = self.raw as i128 * rhs.raw as i128;
        Fixed { raw: saturate(divide(product, ONE as i128)) }
    }

    /// Division by zero gives the largest number of the sign of `self`, and
    /// zero where `self` is zero.
    open spec fn spec_over(self, rhs: Self) -> Self {
        if rhs.raw == 0 {
            if self.raw > 0 {
                Fixed { raw: i64::MAX }
            } else if self.raw < 0 {
                Fixed { raw: i64::MIN }
            } else {
                Fixed { raw: 0 }
            }
        } else {
            Fixed { raw: saturated(quotient(self.raw * ONE, rhs.raw as int)) }
        }
    }

    fn over(self, rhs: Self) -> (r: Self) {
        if rhs.raw == 0 {
            if self.raw > 0 {
                Fixed { raw: i64::MAX }
            } else if self.raw < 0 {
                Fixed { raw: i64::MIN }
            } else {
                Fixed { raw: 0 }
            }
        } else {
            let scaled: i128 = self.raw as i128 * 0x1_0000;
            Fixed { raw: saturate(divide(scaled, rhs.raw as i128)) }
        }
    }

    /// The square root, rounded down to sixteen places; zero for a negative
    /// number.
    open spec fn spec_sqrt(self) -> Self {
        if self.raw <= 0 {
            Fixed { raw: 0 }
        } else {
            Fixed { raw: floor_sqrt(self.raw * ONE) as i64 }
        }
    }

    fn sqrt(self) -> (r: Self) {
        if self.raw <= 0 {
            return Fixed { raw: 0 };
        }
        let n: u128 = self.raw as u128 * ONE as u128;
        let mut low: u128 = 0;
        let mut high: u128 = 0x100_0000_0000;
        assert(high * high == 0x1_0000_0000_0000_0000_0000) by (nonlinear_arith)
            requires
                high == 0x100_0000_0000,
        ;
        while high - low > 1
            invariant
                low < high <= 0x100_0000_0000,
                low * low <= n < high * high,
            decreases high - low,
        {
            let middle: u128 = low + (high - low) / 2;
            assert(middle * middle <= 0x100_0000_0000 * 0x100_0000_0000) by (nonlinear_arith)
                requires
                    0 <= middle <= 0x100_0000_0000,
            ;
            if middle * middle <= n {
                low = middle;
            } else {
                high = middle;
            }
        }
        proof {
            lemma_floor_sqrt_is_unique(n as int, low as int);
        }
        Fixed { raw: low as i64 }
    }

    /// The sine, drawn with parabolas: the angle is reduced to one turn,
    /// and each half turn is an [`arch`], the second one upside down. The
    /// sine of a negative angle is minus the sine of the positive one.
    open spec fn spec_sin(self) -> Self {
        let turned = magnitude(self.raw as int) % (2 * PI);
        let up = if turned <= PI {
            arch(turned)
        } else {
            -arch(turned - PI)
        };
        if self.raw < 0 {
            Fixed { raw: (-up) as i64 }
        } else {
            Fixed { raw: up as i64 }
        }
    }

    fn sin(self) -> (r: Self) {
        let size: i128 = if self.raw < 0 {
            -(self.raw as i128)
        } else {
            self.raw as i128
        };
        let turned: i64 = (size % (2 * PI as i128)) as i64;
        let up: i64 = if turned <= PI {
            Fixed::arch(turned)
        } else {
            -Fixed::arch(turned - PI)
        };
        if self.raw < 0 {
            Fixed { raw: -up }
        } else {
            Fixed { raw: up }
        }
    }

    open spec fn spec_less(self, rhs: Self) -> bool {
        self.raw < rhs.raw
    }

    fn less(self, rhs: Self) -> (r: bool) {
        self.raw < rhs.raw
    }

    /// 0 for zero and below, 255 for one and above, and in between the first
    /// eight binary places.
    open spec fn spec_to_byte(self) -> u8 {
        if self.raw <= 0 {
            0
        } else if self.raw >= ONE {
            255
        } else {
            (self.raw / 256) as u8
        }
    }

    fn to_byte(self) -> (r: u8) {
        if self.raw <= 0 {
            0
        } else if self.raw >= ONE {
            255
        } else {
            (self.raw / 256) as u8
        }
    }
}

/// These numbers are ordered.
pub proof fn lemma_fixed_is_ordered()
    ensures
        ordered::<Fixed>(),
{
}

/// The square root is the true one, rounded down to sixteen places: its
/// square does not exceed the number, and the square of the next number up
/// does.
pub proof fn lemma_sqrt_is_the_root(x: Fixed)
    requires
        x.raw >= 0,
    ensures
        is_floor_sqrt(x.raw * ONE, x.spec_sqrt().raw as int),
{
    if x.raw > 0 {
        let n = x.raw * ONE;
        assert(n < (n + 1) * (n + 1)) by (nonlinear_arith)
            requires
                n >= 0,
        ;
        lemma_floor_sqrt_exists(n as nat, n as nat);
        let r = floor_sqrt(n);
        assert(r <= i64::MAX) by (nonlinear_arith)
            requires
                0 <= r,
                r * r <= n,
                n <= i64::MAX * 0x1_0000,
        ;
    } else {
        assert(is_floor_sqrt(0, 0));
    }
}

/// Every number from zero up has a square root, rounded down: counting down
/// from any `r` whose square is not below `n` finds it.
proof fn lemma_floor_sqrt_exists(n: nat, r: nat)
    requires
        n < (r + 1) * (r + 1),
    ensures
        exists|s: int| is_floor_sqrt(n as int, s),
    decreases r,
{
    if r * r <= n {
        assert(is_floor_sqrt(n as int, r as int));
    } else {
        assert(r >= 1 && n < ((r - 1) + 1) * ((r - 1) + 1)) by (nonlinear_arith)
            requires
                n < r * r,
        ;
        lemma_floor_sqrt_exists(n, (r - 1) as nat);
    }
}

/// Gamma correction keeps the two ends of the scale: one sample of black
/// comes out black, and one sample of white comes out white.
pub proof fn lemma_gamma_keeps_the_ends()
    ensures
        Fixed::spec_from_u16(0).spec_sqrt() == Fixed::spec_from_u16(0),
        Fixed::spec_from_u16(1).spec_sqrt() == Fixed::spec_from_u16(1),
        Color::<Fixed>::spec_black().spec_developed(Fixed::spec_from_u16(1))
            == Color::<Fixed>::spec_black(),
        Color::<Fixed>::spec_white().spec_developed(Fixed::spec_from_u16(1))
            == Color::<Fixed>::spec_white(),
{
    assert(is_floor_sqrt(0x1_0000int * 0x1_0000int, 0x1_0000int));
    lemma_floor_sqrt_is_unique(ONE * ONE, ONE as int);
    let one = Fixed::spec_from_u16(1);
    let zero = Fixed::spec_from_u16(0);
    assert(zero.spec_over(one) == zero);
    assert(magnitude(ONE * ONE) / magnitude(ONE as int) == ONE) by (nonlinear_arith);
    assert(one.spec_over(one) == one);
}

/// A source of numbers in [0, 1) that starts from a seed and is the same
/// for the same seed: a linear congruential generator on 32 bits, of which
/// each draw shows the upper sixteen.
#[derive(Clone, Copy, Debug, PartialEq, Eq)]
pub struct SeededSampler {
    pub state: u32,
}

/// The state that follows `state`.
pub open spec fn spec_step(state: u32) -> u32 {
    ((state * 1664525 + 1013904223) % 0x1_0000_0000) as u32
}

impl SeededSampler {
    pub fn new(seed: u32) -> (r: Self)
        ensures
            r.state == seed,
    {
        SeededSampler { state: seed }
    }
}

impl Sampler for SeededSampler {
    type Num = Fixed;

    open spec fn spec_draw(self) -> (Fixed, Self) {
        let next = spec_step(self.state);
        (Fixed { raw: (next / 0x1_0000) as i64 }, SeededSampler { state: next })
    }

    fn draw(&mut self) -> (x: Fixed) {
        let wide: u64 = self.state as u64 * 1664525 + 1013904223;
        let next: u32 = (wide % 0x1_0000_0000) as u32;
        self.state = next;
        Fixed { raw: (next / 0x1_0000) as i64 }
    }
}

/// Every draw is at least zero and below one.
pub proof fn lemma_draws_are_fractions(sampler: SeededSampler)
    ensures
        0 <= sampler.spec_draw().0.raw < ONE,
{
}

} // verus!
