//! Colour as a function of where a surface was hit.

use crate::color::Color;
use crate::scalar::{zero, Scalar};
use crate::vector::Point;
use vstd::prelude::*;

verus! {

/// A colour for every point of a surface.
///
/// A texture holds no state that changes: `color_at` is a function of its
/// arguments, named by `color_at_spec`.
pub trait Texture {
    type Num: Scalar;

    /// The colour at surface coordinates (`u`, `v`), both in [0, 1], where the
    /// surface passes through `hit_point`.
    spec fn color_at_spec(&self, u: Self::Num, v: Self::Num, hit_point: Point<Self::Num>) -> Color<
        Self::Num,
    >;

    fn color_at(&self, u: Self::Num, v: Self::Num, hit_point: Point<Self::Num>) -> (c: Color<
        Self::Num,
    >)
        ensures
            c == self.color_at_spec(u, v, hit_point),
    ;
}

/// One colour everywhere.
#[derive(Clone, Copy, Debug)]
pub struct SolidColor<S> {
    color: Color<S>,
}

impl<S: Scalar> View for SolidColor<S> {
    type V = Color<S>;

    closed spec fn view(&self) -> Color<S> {
        self.color
    }
}

impl<S: Scalar> SolidColor<S> {
    pub fn new(color: Color<S>) -> (r: Self)
        ensures
            r@ == color,
    {
        Self { color }
    }
}

impl<S: Scalar> Texture for SolidColor<S> {
    type Num = S;

    open spec fn color_at_spec(&self, u: S, v: S, hit_point: Point<S>) -> Color<S> {
        self@
    }

    fn color_at(&self, _u: S, _v: S, _hit_point: Point<S>) -> (c: Color<S>) {
        self.color
    }
}

/// `sin(10 x) * sin(10 y) * sin(10 z)`, multiplied from the left: its sign
/// tells the cells of a three-dimensional chessboard apart.
pub open spec fn spec_sine_product<S: Scalar>(p: Point<S>) -> S {
    let ten = S::spec_from_u16(10);
    ten.spec_times(p.x).spec_sin().spec_times(ten.spec_times(p.y).spec_sin()).spec_times(
        ten.spec_times(p.z).spec_sin(),
    )
}

pub fn sine_product<S: Scalar>(p: &Point<S>) -> (s: S)
    ensures
        s == spec_sine_product(*p),
{
    let ten = S::from_u16(10);
    ten.times(p.x).sin().times(ten.times(p.y).sin()).times(ten.times(p.z).sin())
}

/// Whether `p` lies in an odd cell of the chessboard: the sine product is
/// below zero there.
pub open spec fn in_odd_cell<S: Scalar>(p: Point<S>) -> bool {
    spec_sine_product(p).spec_less(zero())
}

/// A chessboard in space, made of two other textures. Which of the two shows
/// depends on the hit point alone, never on the surface coordinates.
#[derive(Clone, Copy, Debug)]
pub struct CheckerTexture<'a, A, B> {
    texture_even: &'a A,
    texture_odd: &'a B,
}

impl<'a, A, B> CheckerTexture<'a, A, B> where A: Texture, B: Texture<Num = A::Num> {
    /// The texture of the cells where the sine product is zero or above.
    pub closed spec fn even(&self) -> &'a A {
        self.texture_even
    }

    /// The texture of the cells where the sine product is below zero.
    pub closed spec fn odd(&self) -> &'a B {
        self.texture_odd
    }

    pub fn new(texture_even: &'a A, texture_odd: &'a B) -> (r: Self)
        ensures
            r.even() == texture_even,
            r.odd() == texture_odd,
    {
        Self { texture_even, texture_odd }
    }
}

impl<'a, A, B> Texture for CheckerTexture<'a, A, B> where A: Texture, B: Texture<Num = A::Num> {
    type Num = A::Num;

    open spec fn color_at_spec(&self, u: A::Num, v: A::Num, hit_point: Point<A::Num>) -> Color<
        A::Num,
    > {
        if in_odd_cell(hit_point) {
            self.odd().color_at_spec(u, v, hit_point)
        } else {
            self.even().color_at_spec(u, v, hit_point)
        }
    }

    fn color_at(&self, u: A::Num, v: A::Num, hit_point: Point<A::Num>) -> (c: Color<A::Num>) {
        if sine_product(&hit_point).less(A::Num::from_u16(0)) {
            self.texture_odd.color_at(u, v, hit_point)
        } else {
            self.texture_even.color_at(u, v, hit_point)
        }
    }
}

} // verus!
