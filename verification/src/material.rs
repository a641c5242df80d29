//! What a surface does to light, and where chance comes from.

use crate::color::Color;
use crate::scalar::Scalar;
use crate::vector::{Point, Ray, Vector};
use vstd::prelude::*;

verus! {

/// A stream of numbers drawn uniformly from [0, 1).
///
/// All chance in a render comes out of a sampler, so a render is a function of
/// the scene and of the sampler it starts with: `spec_draw` names the next
/// number together with the sampler that remains.
pub trait Sampler: Sized {
    type Num: Scalar;

    spec fn spec_draw(self) -> (Self::Num, Self);

    fn draw(&mut self) -> (x: Self::Num)
        ensures
            (x, *final(self)) == old(self).spec_draw(),
    ;
}

/// Where a ray met a surface.
pub struct HitRecord<'a, M: Material> {
    /// The point that was hit.
    pub point: Point<M::Num>,
    /// The surface normal there.
    pub normal: Vector<M::Num>,
    /// The distance along the ray, in units of its direction.
    pub t: M::Num,
    /// The surface coordinates of the point.
    pub u: M::Num,
    pub v: M::Num,
    /// What the surface is made of.
    pub material: &'a M,
}

impl<'a, M: Material> HitRecord<'a, M> {
    pub fn material(&self) -> (m: &'a M)
        ensures
            m == self.material,
    {
        self.material
    }
}

/// A surface's answer to incoming light.
pub trait Material: Sized {
    type Num: Scalar;

    /// What `scatter` returns for these arguments, and the sampler it leaves.
    spec fn scatter_spec<R: Sampler<Num = Self::Num>>(
        &self,
        ray: Ray<Self::Num>,
        hit: HitRecord<'_, Self>,
        rng: R,
    ) -> (Option<(Ray<Self::Num>, Color<Self::Num>)>, R);

    /// Sends the light that arrived along `ray` on its way: the ray it leaves
    /// on and the share of each channel that survives, or `None` where the
    /// surface swallows it.
    fn scatter<R: Sampler<Num = Self::Num>>(
        &self,
        ray: &Ray<Self::Num>,
        hit: &HitRecord<'_, Self>,
        rng: &mut R,
    ) -> (r: Option<(Ray<Self::Num>, Color<Self::Num>)>)
        ensures
            (r, *final(rng)) == self.scatter_spec(*ray, *hit, *old(rng)),
    ;
}

} // verus!
