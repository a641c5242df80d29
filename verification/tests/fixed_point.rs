use raytracer::bvh::Bvh;
use raytracer::camera::Camera;
use raytracer::color::Color;
use raytracer::fixed::{Fixed, SeededSampler, ONE, PI};
use raytracer::hittable::{Aabb, BoundingBoxError, Hittable, HittableList};
use raytracer::material::{HitRecord, Material, Sampler};
use raytracer::raytracer::Raytracer;
use raytracer::scalar::{ratio, Scalar};
use raytracer::shading::{ray_color, sky_color, sky_gradient};
use raytracer::textures::{sine_product, CheckerTexture, SolidColor, Texture};
use raytracer::vector::{Ray, Vector};

fn fx(x: f64) -> Fixed {
    Fixed::from_raw((x * 65536.0).round() as i64)
}

fn value(x: Fixed) -> f64 {
    x.raw as f64 / 65536.0
}

fn raw(r: i64) -> Fixed {
    Fixed::from_raw(r)
}

// ---------------------------------------------------------------------------
// The arithmetic.

#[test]
fn whole_numbers_are_exact() {
    assert_eq!(Fixed::from_u16(0).raw, 0);
    assert_eq!(Fixed::from_u16(1).raw, ONE);
    assert_eq!(Fixed::from_u16(3).raw, 196608);
    assert_eq!(Fixed::from_u16(65535).raw, 65535 * 65536);
    assert_eq!(Fixed::infinity().raw, i64::MAX);
}

#[test]
fn sums_and_differences_are_exact_and_saturate() {
    assert_eq!(fx(1.5).plus(fx(2.25)), fx(3.75));
    assert_eq!(fx(1.5).minus(fx(2.25)), fx(-0.75));
    assert_eq!(Fixed::infinity().plus(fx(1.0)), Fixed::infinity());
    assert_eq!(raw(i64::MIN).minus(fx(1.0)), raw(i64::MIN));
    assert_eq!(raw(i64::MIN).plus(Fixed::infinity()), raw(-1));
}

#[test]
fn products_round_towards_zero() {
    assert_eq!(fx(1.5).times(fx(2.25)).raw, 221184);
    assert_eq!(fx(-1.5).times(fx(2.25)).raw, -221184);
    assert_eq!(fx(-1.5).times(fx(-2.25)).raw, 221184);
    assert_eq!(raw(1).times(raw(1)).raw, 0);
    assert_eq!(raw(-1).times(raw(1)).raw, 0);
    assert_eq!(raw(65535).times(raw(65537)).raw, 65535);
    assert_eq!(raw(-65535).times(raw(65537)).raw, -65535);
    assert_eq!(Fixed::infinity().times(Fixed::infinity()), Fixed::infinity());
    assert_eq!(Fixed::infinity().times(raw(i64::MIN)), raw(i64::MIN));
    assert_eq!(raw(i64::MIN).times(raw(i64::MIN)), Fixed::infinity());
}

#[test]
fn quotients_round_towards_zero() {
    assert_eq!(ratio::<Fixed>(1, 2).raw, 32768);
    assert_eq!(ratio::<Fixed>(7, 10).raw, 45875);
    assert_eq!(ratio::<Fixed>(1, 1000).raw, 65);
    assert_eq!(fx(-7.0).over(fx(10.0)).raw, -45875);
    assert_eq!(fx(7.0).over(fx(-10.0)).raw, -45875);
    assert_eq!(fx(-7.0).over(fx(-10.0)).raw, 45875);
    assert_eq!(fx(3.375).over(fx(2.25)), fx(1.5));
    assert_eq!(Fixed::infinity().over(raw(1)), Fixed::infinity());
}

#[test]
fn division_by_zero_gives_the_far_end() {
    assert_eq!(fx(1.0).over(fx(0.0)), Fixed::infinity());
    assert_eq!(fx(-1.0).over(fx(0.0)), raw(i64::MIN));
    assert_eq!(fx(0.0).over(fx(0.0)), fx(0.0));
}

#[test]
fn square_roots_round_down() {
    assert_eq!(fx(0.0).sqrt(), fx(0.0));
    assert_eq!(fx(1.0).sqrt(), fx(1.0));
    assert_eq!(fx(4.0).sqrt(), fx(2.0));
    assert_eq!(fx(0.25).sqrt(), fx(0.5));
    assert_eq!(fx(2.0).sqrt().raw, 92681);
    assert_eq!(fx(3.0).sqrt().raw, 113511);
    assert_eq!(fx(-4.0).sqrt(), fx(0.0));
    assert_eq!(raw(1).sqrt().raw, 256);
    let top = Fixed::infinity().sqrt().raw as i128;
    let n = i64::MAX as i128 * 65536;
    assert!(top * top <= n && n < (top + 1) * (top + 1));
}

#[test]
fn sine_is_a_chain_of_parabolas() {
    assert_eq!(raw(0).sin().raw, 0);
    assert_eq!(raw(102943).sin().raw, 65535);
    assert_eq!(raw(102944).sin().raw, 65535);
    assert_eq!(raw(PI).sin().raw, 0);
    assert_eq!(raw(308830).sin().raw, -65535);
    assert_eq!(raw(2 * PI).sin().raw, 0);
    assert_eq!(fx(1.0).sin().raw, 56882);
    assert_eq!(fx(-1.0).sin().raw, -56882);
    assert_eq!(fx(10.0).sin().raw, -39210);
    assert_eq!(fx(3.0).sin().raw, 11281);
    // never far from the sine
    for k in -2000..2000 {
        let x = k as f64 / 100.0;
        assert!((value(fx(x).sin()) - x.sin()).abs() < 0.06);
    }
}

#[test]
fn order_is_the_order_of_raw_values() {
    assert!(fx(1.0).less(fx(1.5)));
    assert!(!fx(1.5).less(fx(1.0)));
    assert!(!fx(1.5).less(fx(1.5)));
    assert!(fx(-2.0).less(fx(-1.0)));
    assert!(fx(1.0e9).less(Fixed::infinity()));
}

#[test]
fn bytes_are_the_first_eight_places() {
    assert_eq!(fx(0.0).to_byte(), 0);
    assert_eq!(fx(-3.0).to_byte(), 0);
    assert_eq!(fx(0.5).to_byte(), 128);
    assert_eq!(fx(0.25).to_byte(), 64);
    assert_eq!(raw(65535).to_byte(), 255);
    assert_eq!(fx(1.0).to_byte(), 255);
    assert_eq!(fx(17.0).to_byte(), 255);
    assert_eq!(raw(255).to_byte(), 0);
    assert_eq!(raw(256).to_byte(), 1);
}

#[test]
fn seeded_draws_are_known() {
    let mut s = SeededSampler::new(1);
    assert_eq!(s.draw().raw, 15496);
    assert_eq!(s.state, 1015568748);
    assert_eq!(s.draw().raw, 24200);
    assert_eq!(s.draw().raw, 33046);
    assert_eq!(s.draw().raw, 46195);
    assert_eq!(s.state, 3027450565);
}

#[test]
fn seeded_draws_are_fractions_and_repeat() {
    let mut a = SeededSampler::new(2024);
    let mut b = SeededSampler::new(2024);
    let mut c = SeededSampler::new(2025);
    let mut differs = false;
    for _ in 0..10_000 {
        let x = a.draw();
        assert!(0 <= x.raw && x.raw < ONE);
        assert_eq!(x, b.draw());
        differs |= x != c.draw();
    }
    assert!(differs);
}

// ---------------------------------------------------------------------------
// The renderer on this arithmetic.

fn rgb(r: f64, g: f64, b: f64) -> Color<Fixed> {
    Color::new(fx(r), fx(g), fx(b))
}

fn xyz(x: f64, y: f64, z: f64) -> Vector<Fixed> {
    Vector::new(fx(x), fx(y), fx(z))
}

#[test]
fn sky_in_fixed_point() {
    assert_eq!(sky_gradient(fx(-1.0)), rgb(1.0, 1.0, 1.0));
    assert_eq!(sky_gradient(fx(0.0)), Color::new(raw(49152), raw(55705), raw(65536)));
    assert_eq!(sky_gradient(fx(1.0)), Color::new(raw(32768), raw(45875), raw(65536)));
    let r = Ray::new(xyz(0.0, 0.0, 0.0), xyz(0.0, 3.0, 0.0));
    assert_eq!(sky_color(&r), Color::new(raw(32768), raw(45875), raw(65536)));
}

#[test]
fn gamma_keeps_the_ends_of_the_scale() {
    assert_eq!(rgb(0.0, 1.0, 0.25).developed(fx(1.0)), rgb(0.0, 1.0, 0.5));
    assert_eq!(rgb(0.0, 3.0, 0.75).developed(fx(3.0)), rgb(0.0, 1.0, 0.5));
}

#[test]
fn checker_in_fixed_point() {
    let even = SolidColor::new(rgb(1.0, 1.0, 1.0));
    let odd = SolidColor::new(rgb(0.0, 0.0, 0.0));
    let checker = CheckerTexture::new(&even, &odd);
    let above = xyz(0.1, 0.1, 0.1);
    assert!(sine_product(&above).raw > 0);
    assert_eq!(checker.color_at(fx(0.0), fx(0.0), above), rgb(1.0, 1.0, 1.0));
    let below = xyz(-0.1, 0.1, 0.1);
    assert!(sine_product(&below).raw < 0);
    assert_eq!(checker.color_at(fx(0.0), fx(0.0), below), rgb(0.0, 0.0, 0.0));
    let on = xyz(0.0, 0.1, 0.1);
    assert_eq!(sine_product(&on).raw, 0);
    assert_eq!(checker.color_at(fx(0.0), fx(0.0), on), rgb(1.0, 1.0, 1.0));
}

/// A ball of one material, in any arithmetic.
#[derive(Clone, Debug)]
struct Ball<S> {
    center: Vector<S>,
    radius: S,
    surface: Dye<S>,
}

/// Swallows light, or sends it on along the normal, filtered.
#[derive(Clone, Debug, PartialEq)]
enum Dye<S> {
    Absorbing,
    Tinted(Color<S>),
}

impl<S: Scalar> Material for Dye<S> {
    type Num = S;

    fn scatter_spec<R: Sampler<Num = S>>(
        &self,
        ray: Ray<S>,
        hit: HitRecord<'_, Self>,
        rng: R,
    ) -> (Option<(Ray<S>, Color<S>)>, R) {
        let mut rng = rng;
        let r = self.scatter(&ray, &hit, &mut rng);
        (r, rng)
    }

    fn scatter<R: Sampler<Num = S>>(
        &self,
        _ray: &Ray<S>,
        hit: &HitRecord<'_, Self>,
        _rng: &mut R,
    ) -> Option<(Ray<S>, Color<S>)> {
        match self {
            Dye::Absorbing => None,
            Dye::Tinted(c) => Some((Ray::new(hit.point, hit.normal), *c)),
        }
    }
}

fn dot<S: Scalar>(a: Vector<S>, b: Vector<S>) -> S {
    a.x.times(b.x).plus(a.y.times(b.y)).plus(a.z.times(b.z))
}

fn minus<S: Scalar>(a: Vector<S>, b: Vector<S>) -> Vector<S> {
    Vector::new(a.x.minus(b.x), a.y.minus(b.y), a.z.minus(b.z))
}

impl<S: Scalar> Hittable for Ball<S> {
    type Num = S;
    type Mat = Dye<S>;

    fn hit_spec(&self, ray: Ray<S>, t_min: S, t_max: S) -> Option<HitRecord<'_, Dye<S>>> {
        self.hit(&ray, t_min, t_max)
    }

    fn hit(&self, ray: &Ray<S>, t_min: S, t_max: S) -> Option<HitRecord<'_, Dye<S>>> {
        let zero = S::from_u16(0);
        let oc = minus(ray.origin, self.center);
        let a = dot(ray.direction, ray.direction);
        let half_b = dot(oc, ray.direction);
        let c = dot(oc, oc).minus(self.radius.times(self.radius));
        let discriminant = half_b.times(half_b).minus(a.times(c));
        if discriminant.less(zero) {
            return None;
        }
        let root_of = discriminant.sqrt();
        let mut t = zero.minus(half_b).minus(root_of).over(a);
        if !(t_min.less(t) && t.less(t_max)) {
            t = zero.minus(half_b).plus(root_of).over(a);
            if !(t_min.less(t) && t.less(t_max)) {
                return None;
            }
        }
        let d = ray.direction;
        let point = Vector::new(
            ray.origin.x.plus(t.times(d.x)),
            ray.origin.y.plus(t.times(d.y)),
            ray.origin.z.plus(t.times(d.z)),
        );
        let out = minus(point, self.center);
        Some(HitRecord {
            point,
            normal: Vector::new(
                out.x.over(self.radius),
                out.y.over(self.radius),
                out.z.over(self.radius),
            ),
            t,
            u: zero,
            v: zero,
            material: &self.surface,
        })
    }

    fn bounding_box_spec(&self, time0: S, time1: S) -> Option<Aabb<S>> {
        self.bounding_box(time0, time1).ok()
    }

    fn bounding_box(&self, _time0: S, _time1: S) -> Result<Aabb<S>, BoundingBoxError> {
        let r = self.radius;
        let c = self.center;
        Ok(Aabb::new(
            Vector::new(c.x.minus(r), c.y.minus(r), c.z.minus(r)),
            Vector::new(c.x.plus(r), c.y.plus(r), c.z.plus(r)),
        ))
    }
}

/// A pinhole at the origin that looks down the negative z axis.
#[derive(Clone, Debug)]
struct Eye;

impl Camera for Eye {
    type Num = Fixed;

    fn time_spec(&self) -> Option<(Fixed, Fixed)> {
        None
    }

    fn time(&self) -> Option<(Fixed, Fixed)> {
        None
    }

    fn get_ray_spec<R: Sampler<Num = Fixed>>(&self, u: Fixed, v: Fixed, rng: R) -> (Ray<Fixed>, R) {
        let mut rng = rng;
        let r = self.get_ray(u, v, &mut rng);
        (r, rng)
    }

    fn get_ray<R: Sampler<Num = Fixed>>(&self, u: Fixed, v: Fixed, _rng: &mut R) -> Ray<Fixed> {
        let four = Fixed::from_u16(4);
        let two = Fixed::from_u16(2);
        Ray::new(
            xyz(0.0, 0.0, 0.0),
            Vector::new(u.times(four).minus(two), v.times(four).minus(two), fx(-1.0)),
        )
    }
}

fn ball(center: (f64, f64, f64), radius: f64, surface: Dye<Fixed>) -> Ball<Fixed> {
    Ball { center: xyz(center.0, center.1, center.2), radius: fx(radius), surface }
}

fn beads() -> Vec<Ball<Fixed>> {
    vec![
        ball((0.0, 0.0, -3.0), 0.5, Dye::Tinted(rgb(0.8, 0.3, 0.3))),
        ball((1.2, 0.2, -2.0), 0.4, Dye::Absorbing),
        ball((-1.0, -0.3, -4.0), 0.7, Dye::Tinted(rgb(0.5, 0.5, 0.9))),
        ball((0.0, -100.5, -1.0), 100.0, Dye::Tinted(rgb(0.6, 0.6, 0.6))),
        ball((-0.6, 0.6, -1.5), 0.25, Dye::Absorbing),
    ]
}

fn studio(balls: Vec<Ball<Fixed>>, width: u16, height: u16, samples: u16, depth: u16) -> Raytracer<Ball<Fixed>, Eye> {
    let mut r = Raytracer::new(Eye, width, height, samples, depth);
    for b in balls {
        r.world.add(b);
    }
    r
}

#[test]
fn a_ball_is_hit_where_it_should_be() {
    let b = ball((0.0, 0.0, -3.0), 1.0, Dye::Absorbing);
    let r = Ray::new(xyz(0.0, 0.0, 0.0), xyz(0.0, 0.0, -1.0));
    let hit = b.hit(&r, ratio(1, 1000), Fixed::infinity()).unwrap();
    assert_eq!(hit.t, fx(2.0));
    assert_eq!(hit.point, xyz(0.0, 0.0, -2.0));
    assert_eq!(hit.normal, xyz(0.0, 0.0, 1.0));
}

#[test]
fn no_bounce_left_means_black_in_fixed_point() {
    let mut list = HittableList::new();
    for b in beads() {
        list.add(b);
    }
    let mut rng = SeededSampler::new(5);
    let r = Ray::new(xyz(0.0, 0.0, 0.0), xyz(0.0, 0.0, -1.0));
    assert_eq!(ray_color(&list, r, 0, &mut rng), rgb(0.0, 0.0, 0.0));
    assert_eq!(rng, SeededSampler::new(5));
}

#[test]
fn a_tinted_ball_filters_the_sky() {
    let mut list = HittableList::new();
    list.add(ball((0.0, 0.0, -3.0), 1.0, Dye::Tinted(rgb(0.5, 0.25, 1.0))));
    let mut rng = SeededSampler::new(5);
    let r = Ray::new(xyz(0.0, 0.0, 0.0), xyz(0.0, 0.0, -1.0));
    // the scattered ray leaves along (0, 0, 1), level with the horizon
    let level = sky_gradient(fx(0.0));
    assert_eq!(
        ray_color(&list, r, 2, &mut rng),
        Color::new(raw(49152 / 2), raw(55705 / 4), raw(65536))
    );
    assert_eq!(ray_color(&list, r, 2, &mut rng), rgb(0.5, 0.25, 1.0).times(level));
}

#[test]
fn fixed_point_renders_repeat() {
    let r = studio(beads(), 8, 6, 4, 5);
    let mut first = SeededSampler::new(99);
    let mut second = SeededSampler::new(99);
    let mut third = SeededSampler::new(100);
    let picture = r.render_colors(&mut first);
    assert_eq!(picture.len(), 48);
    assert_eq!(picture, r.render_colors(&mut second));
    assert_eq!(first, second);
    assert_ne!(picture, r.render_colors(&mut third));
}

#[test]
fn fixed_point_tree_agrees_with_the_list() {
    let r = studio(beads(), 8, 6, 2, 4);
    assert!(r.accelerate().is_ok());
    let tree = Bvh::new(&r.world, fx(0.0), fx(0.0)).ok().unwrap();
    for a in -10..=10 {
        for b in -10..=10 {
            let look = Ray::new(
                xyz(0.0, 0.0, 0.0),
                xyz(a as f64 / 10.0 + 0.013, b as f64 / 10.0 + 0.007, -1.0),
            );
            let by_tree = tree.hit(&look, ratio(1, 1000), Fixed::infinity());
            let by_list = r.world.hit(&look, ratio(1, 1000), Fixed::infinity());
            assert_eq!(by_tree.map(|h| (h.t, h.point)), by_list.map(|h| (h.t, h.point)));
        }
    }
    let mut with_tree = SeededSampler::new(3);
    let mut without = SeededSampler::new(3);
    assert_eq!(r.render_colors(&mut with_tree), r.render_colors_without_bvh(&mut without));
}

#[test]
fn fixed_point_picture_shows_sky_and_ground() {
    let r = studio(vec![ball((0.0, -100.5, -1.0), 100.0, Dye::Absorbing)], 4, 4, 1, 1);
    let mut rng = SeededSampler::new(7);
    let image = r.render(&mut rng);
    assert_eq!((image.width(), image.height()), (4, 4));
    // blue-white sky in the top row, the black ball in the bottom row
    for x in 0..4 {
        let (red, green, blue) = image.pixel(x, 0).unwrap();
        assert!(blue == 255 && red > 150 && green > red);
        assert_eq!(image.pixel(x, 3), Some((0, 0, 0)));
    }
    assert_eq!(image.to_bytes().len(), 48);
}
