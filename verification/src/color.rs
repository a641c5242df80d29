//! Linear-light colours.

use crate::scalar::{one, ratio, spec_ratio, zero, Scalar};
use vstd::prelude::*;

verus! {

/// Three channel intensities in linear light. Nothing bounds a channel while
/// light is being summed; clamping belongs to whoever encodes the picture.
#[derive(Clone, Copy, Debug, PartialEq)]
pub struct Color<S> {
    pub r: S,
    pub g: S,
    pub b: S,
}

impl<S: Scalar> Color<S> {
    pub fn new(r: S, g: S, b: S) -> (c: Self)
        ensures
            c == (Color { r, g, b }),
    {
        Color { r, g, b }
    }

    /// No light at all.
    pub open spec fn spec_black() -> Self {
        Color { r: zero(), g: zero(), b: zero() }
    }

    pub fn black() -> (c: Self)
        ensures
            c == Self::spec_black(),
    {
        Color { r: S::from_u16(0), g: S::from_u16(0), b: S::from_u16(0) }
    }

    /// Full intensity on every channel.
    pub open spec fn spec_white() -> Self {
        Color { r: one(), g: one(), b: one() }
    }

    pub fn white() -> (c: Self)
        ensures
            c == Self::spec_white(),
    {
        Color { r: S::from_u16(1), g: S::from_u16(1), b: S::from_u16(1) }
    }

    /// The blue of the sky straight overhead: (1/2, 7/10, 1).
    pub open spec fn spec_sky_blue() -> Self {
        Color { r: spec_ratio(1, 2), g: spec_ratio(7, 10), b: one() }
    }

    pub fn sky_blue() -> (c: Self)
        ensures
            c == Self::spec_sky_blue(),
    {
        Color { r: ratio(1, 2), g: ratio(7, 10), b: S::from_u16(1) }
    }

    /// Channel by channel, `self + rhs`.
    pub open spec fn spec_plus(self, rhs: Self) -> Self {
        Color {
            r: self.r.spec_plus(rhs.r),
            g: self.g.spec_plus(rhs.g),
            b: self.b.spec_plus(rhs.b),
        }
    }

    pub fn plus(self, rhs: Self) -> (c: Self)
        ensures
            c == self.spec_plus(rhs),
    {
        Color { r: self.r.plus(rhs.r), g: self.g.plus(rhs.g), b: self.b.plus(rhs.b) }
    }

    /// Channel by channel, `self * rhs`: `self` seen through the filter `rhs`.
    pub open spec fn spec_times(self, rhs: Self) -> Self {
        Color {
            r: self.r.spec_times(rhs.r),
            g: self.g.spec_times(rhs.g),
            b: self.b.spec_times(rhs.b),
        }
    }

    pub fn times(self, rhs: Self) -> (c: Self)
        ensures
            c == self.spec_times(rhs),
    {
        Color { r: self.r.times(rhs.r), g: self.g.times(rhs.g), b: self.b.times(rhs.b) }
    }

    /// Every channel multiplied by `k`, the factor on the left.
    pub open spec fn spec_scaled(self, k: S) -> Self {
        Color { r: k.spec_times(self.r), g: k.spec_times(self.g), b: k.spec_times(self.b) }
    }

    pub fn scaled(self, k: S) -> (c: Self)
        ensures
            c == self.spec_scaled(k),
    {
        Color { r: k.times(self.r), g: k.times(self.g), b: k.times(self.b) }
    }

    /// The mean of `n` summed samples, gamma-corrected for gamma 2: every
    /// channel is divided by `n` and replaced by its square root.
    pub open spec fn spec_developed(self, n: S) -> Self {
        Color {
            r: self.r.spec_over(n).spec_sqrt(),
            g: self.g.spec_over(n).spec_sqrt(),
            b: self.b.spec_over(n).spec_sqrt(),
        }
    }

    pub fn developed(self, n: S) -> (c: Self)
        ensures
            c == self.spec_developed(n),
    {
        Color { r: self.r.over(n).sqrt(), g: self.g.over(n).sqrt(), b: self.b.over(n).sqrt() }
    }

    /// The three channels as the bytes an 8-bit image stores.
    pub open spec fn spec_to_bytes(self) -> (u8, u8, u8) {
        (self.r.spec_to_byte(), self.g.spec_to_byte(), self.b.spec_to_byte())
    }

    pub fn to_bytes(&self) -> (p: (u8, u8, u8))
        ensures
            p == self.spec_to_bytes(),
    {
        (self.r.to_byte(), self.g.to_byte(), self.b.to_byte())
    }
}

} // verus!
