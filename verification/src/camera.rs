//! The eye of the renderer.

use crate::material::Sampler;
use crate::scalar::Scalar;
use crate::vector::Ray;
use vstd::prelude::*;

verus! {

/// Turns a place on the picture into a ray into the scene.
pub trait Camera {
    type Num: Scalar;

    spec fn time_spec(&self) -> Option<(Self::Num, Self::Num)>;

    /// The moments at which the shutter opens and closes, where the camera
    /// has a shutter.
    fn time(&self) -> (r: Option<(Self::Num, Self::Num)>)
        ensures
            r == self.time_spec(),
    ;

    /// What `get_ray` returns for these arguments, and the sampler it leaves.
    spec fn get_ray_spec<R: Sampler<Num = Self::Num>>(&self, u: Self::Num, v: Self::Num, rng: R) -> (
        Ray<Self::Num>,
        R,
    );

    /// The ray through the picture at (`u`, `v`), where (0, 0) is the bottom
    /// left corner and (1, 1) the top right one.
    fn get_ray<R: Sampler<Num = Self::Num>>(&self, u: Self::Num, v: Self::Num, rng: &mut R) -> (r:
        Ray<Self::Num>)
        ensures
            (r, *final(rng)) == self.get_ray_spec(u, v, *old(rng)),
    ;
}

} // verus!
