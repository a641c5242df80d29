//! From a ray to the light that comes back along it.

use crate::color::Color;
use crate::hittable::Hittable;
use crate::material::{Material, Sampler};
use crate::scalar::{one, ratio, spec_ratio, Scalar};
use crate::vector::Ray;
use vstd::prelude::*;

verus! {

/// The colour of the sky in a direction whose unit vector rises by `unit_y`:
/// white at the bottom, sky blue at the top, and in between the mix
/// `(1 - t) * white + t * blue` with `t = (unit_y + 1) / 2`.
pub open spec fn spec_sky_gradient<S: Scalar>(unit_y: S) -> Color<S> {
    let t = spec_ratio::<S>(1, 2).spec_times(unit_y.spec_plus(one()));
    Color::spec_white().spec_scaled(one::<S>().spec_minus(t)).spec_plus(
        Color::spec_sky_blue().spec_scaled(t),
    )
}

pub fn sky_gradient<S: Scalar>(unit_y: S) -> (c: Color<S>)
    ensures
        c == spec_sky_gradient(unit_y),
{
    let t = ratio::<S>(1, 2).times(unit_y.plus(S::from_u16(1)));
    Color::white().scaled(S::from_u16(1).minus(t)).plus(Color::sky_blue().scaled(t))
}

/// What a ray sees that hits nothing: the sky in its direction.
pub open spec fn spec_sky_color<S: Scalar>(ray: Ray<S>) -> Color<S> {
    spec_sky_gradient(ray.direction.spec_unit_vector().y)
}

pub fn sky_color<S: Scalar>(ray: &Ray<S>) -> (c: Color<S>)
    ensures
        c == spec_sky_color(*ray),
{
    sky_gradient(ray.direction.unit_vector().y)
}

/// The sky depends on a ray through the height of its unit direction alone:
/// two rays that agree there see the same sky, wherever they start.
pub proof fn lemma_sky_ignores_origin<S: Scalar>(a: Ray<S>, b: Ray<S>)
    requires
        a.direction.spec_unit_vector().y == b.direction.spec_unit_vector().y,
    ensures
        spec_sky_color(a) == spec_sky_color(b),
{
}

/// The nearest distance at which a hit counts, 1/1000: a ray that leaves a
/// surface must not hit that surface again through rounding.
pub open spec fn spec_shadow_epsilon<S: Scalar>() -> S {
    spec_ratio(1, 1000)
}

/// The light that comes back along `ray` when it may bounce `depth` times,
/// and the sampler that is left.
///
/// With no bounce left there is no light. A ray that hits nothing sees the
/// sky. A ray that hits a surface is handed to its material: where that
/// swallows the ray there is no light, and where it scatters the ray the
/// light along the scattered ray, with one bounce less, comes back filtered
/// by the attenuation.
pub open spec fn spec_ray_color<W: Hittable, R: Sampler<Num = W::Num>>(
    world: &W,
    ray: Ray<W::Num>,
    depth: nat,
    rng: R,
) -> (Color<W::Num>, R)
    decreases depth,
{
    if depth == 0 {
        (Color::spec_black(), rng)
    } else {
        match world.hit_spec(ray, spec_shadow_epsilon(), W::Num::spec_infinity()) {
            None => (spec_sky_color(ray), rng),
            Some(hit) => {
                let (scattered, rng_after) = hit.material.scatter_spec(ray, hit, rng);
                match scattered {
                    None => (Color::spec_black(), rng_after),
                    Some((onward, attenuation)) => {
                        let (incoming, rng_last) = spec_ray_color(
                            world,
                            onward,
                            (depth - 1) as nat,
                            rng_after,
                        );
                        (attenuation.spec_times(incoming), rng_last)
                    },
                }
            },
        }
    }
}

/// Follows `ray` through `world` for at most `depth` bounces.
pub fn ray_color<W: Hittable, R: Sampler<Num = W::Num>>(
    world: &W,
    ray: Ray<W::Num>,
    depth: u16,
    rng: &mut R,
) -> (c: Color<W::Num>)
    ensures
        (c, *final(rng)) == spec_ray_color(world, ray, depth as nat, *old(rng)),
        depth == 0 ==> c == Color::<W::Num>::spec_black() && *final(rng) == *old(rng),
        depth > 0 && world.hit_spec(ray, spec_shadow_epsilon(), W::Num::spec_infinity()) is None
            ==> c == spec_sky_color(ray) && *final(rng) == *old(rng),
    decreases depth,
{
    if depth == 0 {
        return Color::black();
    }
    match world.hit(&ray, ratio(1, 1000), W::Num::infinity()) {
        None => sky_color(&ray),
        Some(hit) => match hit.material().scatter(&ray, &hit, rng) {
            None => Color::black(),
            Some((onward, attenuation)) => {
                let incoming = ray_color(world, onward, depth - 1, rng);
                attenuation.times(incoming)
            },
        },
    }
}

/// Two worlds answer every ray alike on the interval that shading asks
/// about, from the shadow epsilon to infinity.
pub open spec fn same_hits<V: Hittable, W: Hittable<Num = V::Num, Mat = V::Mat>>(
    first: &V,
    second: &W,
) -> bool {
    forall|r: Ray<V::Num>| #[trigger]
        first.hit_spec(r, spec_shadow_epsilon(), V::Num::spec_infinity()) == second.hit_spec(
            r,
            spec_shadow_epsilon(),
            V::Num::spec_infinity(),
        )
}

/// Two worlds that answer every ray alike send back the same light.
pub proof fn lemma_same_hits_same_light<V: Hittable, W: Hittable<Num = V::Num, Mat = V::Mat>, R: Sampler<Num = V::Num>>(
    first: &V,
    second: &W,
    ray: Ray<V::Num>,
    depth: nat,
    rng: R,
)
    requires
        same_hits(first, second),
    ensures
        spec_ray_color(first, ray, depth, rng) == spec_ray_color(second, ray, depth, rng),
    decreases depth,
{
    if depth > 0 {
        let found = first.hit_spec(ray, spec_shadow_epsilon(), V::Num::spec_infinity());
        assert(found == second.hit_spec(ray, spec_shadow_epsilon(), V::Num::spec_infinity()));
        match found {
            None => {},
            Some(hit) => {
                let (scattered, rng_after) = hit.material.scatter_spec(ray, hit, rng);
                match scattered {
                    None => {},
                    Some((onward, _)) => {
                        lemma_same_hits_same_light(first, second, onward, (depth - 1) as nat, rng_after);
                    },
                }
            },
        }
    }
}

} // verus!
