//! The renderer: a scene, a camera, and the size and quality of the picture.

use crate::bvh::{all_bounded, Bvh, HittableListOptions};
use crate::camera::Camera;
use crate::color::Color;
use crate::hittable::{BoundingBoxError, Hittable, HittableList};
use crate::material::Sampler;
use crate::picture::{image_height, image_pixels, image_width, RgbImage};
use crate::ppm::PPM;
use crate::scalar::{zero, Scalar};
use crate::shading::{
    lemma_same_hits_same_light, ray_color, same_hits, spec_ray_color, spec_shadow_epsilon,
};
use crate::vector::Ray;
use vstd::prelude::*;

verus! {

/// Everything a render needs.
#[derive(Clone, Debug)]
pub struct Raytracer<H, C> {
    /// The scene. It starts empty and is filled before rendering.
    pub world: HittableList<H>,
    pub camera: C,
    /// The number of pixels in a row of the picture.
    pub image_width: u16,
    /// The number of rows of the picture.
    pub image_height: u16,
    /// How many rays are averaged into one pixel.
    pub samples_per_pixel: u16,
    /// How often a ray may bounce.
    pub max_depth: u16,
}

impl<H: Hittable, C: Camera<Num = H::Num>> Raytracer<H, C> {
    /// A renderer with an empty scene.
    pub fn new(
        camera: C,
        image_width: u16,
        image_height: u16,
        samples_per_pixel: u16,
        max_depth: u16,
    ) -> (r: Self)
        ensures
            r.world@ == Seq::<H>::empty(),
            r.camera == camera,
            r.image_width == image_width,
            r.image_height == image_height,
            r.samples_per_pixel == samples_per_pixel,
            r.max_depth == max_depth,
    {
        Self {
            camera,
            image_width,
            image_height,
            samples_per_pixel,
            max_depth,
            world: HittableList::new(),
        }
    }

    /// The number of pixels of the picture.
    pub open spec fn pixel_count(&self) -> nat {
        (self.image_width * self.image_height) as nat
    }

    /// The column of the pixel that stands at `index` in the picture, counted
    /// from the left.
    pub open spec fn spec_column(&self, index: int) -> int {
        index % (self.image_width as int)
    }

    /// The row of the pixel that stands at `index` in the picture, counted
    /// from the bottom: the picture starts with its top row.
    pub open spec fn spec_row_from_bottom(&self, index: int) -> int {
        self.image_height - index / (self.image_width as int) - 1
    }

    /// One sample of the pixel in column `i` of row `j` from the bottom: the
    /// pixel's corner is moved by one draw to the right and by a second draw
    /// upwards, both are divided by the picture's size less one, the camera
    /// turns the place into a ray, and the ray is followed.
    pub open spec fn spec_sample<W: Hittable<Num = H::Num>, R: Sampler<Num = H::Num>>(
        &self,
        world: &W,
        i: u16,
        j: u16,
        rng: R,
    ) -> (Color<H::Num>, R) {
        let (dx, rng_x) = rng.spec_draw();
        let u = H::Num::spec_from_u16(i).spec_plus(dx).spec_over(
            H::Num::spec_from_u16((self.image_width - 1) as u16),
        );
        let (dy, rng_y) = rng_x.spec_draw();
        let v = H::Num::spec_from_u16(j).spec_plus(dy).spec_over(
            H::Num::spec_from_u16((self.image_height - 1) as u16),
        );
        let (ray, rng_ray) = self.camera.get_ray_spec(u, v, rng_y);
        spec_ray_color(world, ray, self.max_depth as nat, rng_ray)
    }

    /// The sum of `count` samples of one pixel, added up from black in the
    /// order in which they are drawn.
    pub open spec fn spec_exposure<W: Hittable<Num = H::Num>, R: Sampler<Num = H::Num>>(
        &self,
        world: &W,
        i: u16,
        j: u16,
        count: nat,
        rng: R,
    ) -> (Color<H::Num>, R)
        decreases count,
    {
        if count == 0 {
            (Color::spec_black(), rng)
        } else {
            let (sum, rng_before) = self.spec_exposure(world, i, j, (count - 1) as nat, rng);
            let (sample, rng_after) = self.spec_sample(world, i, j, rng_before);
            (sum.spec_plus(sample), rng_after)
        }
    }

    /// The colour of the pixel that stands at `index` in the picture: the
    /// mean of its samples, gamma-corrected; black where no sample is asked
    /// for.
    pub open spec fn spec_pixel_color<W: Hittable<Num = H::Num>, R: Sampler<Num = H::Num>>(
        &self,
        world: &W,
        index: int,
        rng: R,
    ) -> (Color<H::Num>, R) {
        if self.samples_per_pixel == 0 {
            (Color::spec_black(), rng)
        } else {
            let (sum, rng_after) = self.spec_exposure(
                world,
                self.spec_column(index) as u16,
                self.spec_row_from_bottom(index) as u16,
                self.samples_per_pixel as nat,
                rng,
            );
            (sum.spec_developed(H::Num::spec_from_u16(self.samples_per_pixel)), rng_after)
        }
    }

    /// The first `count` pixels of the picture, computed one after the other
    /// with one sampler.
    pub open spec fn spec_frame<W: Hittable<Num = H::Num>, R: Sampler<Num = H::Num>>(
        &self,
        world: &W,
        count: nat,
        rng: R,
    ) -> (Seq<Color<H::Num>>, R)
        decreases count,
    {
        if count == 0 {
            (Seq::empty(), rng)
        } else {
            let (before, rng_before) = self.spec_frame(world, (count - 1) as nat, rng);
            let (pixel, rng_after) = self.spec_pixel_color(world, count - 1, rng_before);
            (before.push(pixel), rng_after)
        }
    }

    /// Computes one pixel of the picture. Pixels do not depend on each other:
    /// any number of them may be computed at once, each with a sampler of its
    /// own.
    pub fn pixel_color<W: Hittable<Num = H::Num>, R: Sampler<Num = H::Num>>(
        &self,
        world: &W,
        index: usize,
        rng: &mut R,
    ) -> (c: Color<H::Num>)
        requires
            index < self.pixel_count(),
        ensures
            (c, *final(rng)) == self.spec_pixel_color(world, index as int, *old(rng)),
    {
        if self.samples_per_pixel == 0 {
            return Color::black();
        }
        let width = self.image_width as usize;
        let height = self.image_height as usize;
        assert(width > 0 && height > 0 && index / width < height) by (nonlinear_arith)
            requires
                index < width * height,
        ;
        let i = (index % width) as u16;
        let j = (height - index / width - 1) as u16;
        let mut pixel_color = Color::black();
        let mut taken: u16 = 0;
        while taken < self.samples_per_pixel
            invariant
                taken <= self.samples_per_pixel,
                self.image_width >= 1,
                self.image_height >= 1,
                (pixel_color, *rng) == self.spec_exposure(world, i, j, taken as nat, *old(rng)),
            decreases self.samples_per_pixel - taken,
        {
            let u = H::Num::from_u16(i).plus(rng.draw()).over(
                H::Num::from_u16(self.image_width - 1),
            );
            let v = H::Num::from_u16(j).plus(rng.draw()).over(
                H::Num::from_u16(self.image_height - 1),
            );
            let ray = self.camera.get_ray(u, v, rng);
            let sample = ray_color(world, ray, self.max_depth, rng);
            pixel_color = pixel_color.plus(sample);
            taken += 1;
        }
        pixel_color.developed(H::Num::from_u16(self.samples_per_pixel))
    }

    /// Computes the whole picture in `world`, pixel after pixel from the top
    /// left, row by row.
    pub fn trace<W: Hittable<Num = H::Num>, R: Sampler<Num = H::Num>>(
        &self,
        world: &W,
        rng: &mut R,
    ) -> (colors: Vec<Color<H::Num>>)
        ensures
            (colors@, *final(rng)) == self.spec_frame(world, self.pixel_count(), *old(rng)),
            colors@.len() == self.pixel_count(),
    {
        assert(self.image_height * self.image_width <= 0xffff * 0xffff
            && self.image_height * self.image_width == self.image_width * self.image_height)
            by (nonlinear_arith);
        let count = self.image_height as usize * self.image_width as usize;
        let mut colors: Vec<Color<H::Num>> = Vec::new();
        let mut index: usize = 0;
        while index < count
            invariant
                index <= count,
                count == self.pixel_count(),
                colors@.len() == index,
                (colors@, *rng) == self.spec_frame(world, index as nat, *old(rng)),
            decreases count - index,
        {
            let pixel = self.pixel_color(world, index, rng);
            colors.push(pixel);
            index += 1;
        }
        colors
    }

    /// The interval of time that the boxes of the tree must hold for: the
    /// camera's shutter interval, or the moment zero where it has none.
    pub open spec fn spec_shutter(&self) -> (H::Num, H::Num) {
        match self.camera.time_spec() {
            Some(interval) => interval,
            None => (zero(), zero()),
        }
    }

    /// The tree over the scene, where every object has a box.
    pub open spec fn spec_accelerate(&self) -> Result<Bvh<'_, H>, BoundingBoxError> {
        Bvh::spec_new(self.world@, self.spec_shutter().0, self.spec_shutter().1)
    }

    /// Arranges the scene as a tree of boxes for the time the shutter is
    /// open.
    pub fn accelerate(&self) -> (r: Result<Bvh<'_, H>, BoundingBoxError>)
        ensures
            r == self.spec_accelerate(),
    {
        match self.camera.time() {
            Some(time) => Bvh::new(&self.world, time.0, time.1),
            None => Bvh::new(&self.world, H::Num::from_u16(0), H::Num::from_u16(0)),
        }
    }

    /// The picture as `render` computes it: in the tree where one can be
    /// built, else in the plain scene.
    pub open spec fn spec_render<R: Sampler<Num = H::Num>>(&self, rng: R) -> (
        Seq<Color<H::Num>>,
        R,
    ) {
        self.spec_frame(
            &HittableListOptions::spec_choose_from(self.spec_accelerate(), self.world),
            self.pixel_count(),
            rng,
        )
    }

    /// The picture as it comes out of the plain scene, every ray tested
    /// against every object.
    pub open spec fn spec_render_without_bvh<R: Sampler<Num = H::Num>>(&self, rng: R) -> (
        Seq<Color<H::Num>>,
        R,
    ) {
        self.spec_frame(&self.world, self.pixel_count(), rng)
    }

    /// Computes the colours of the picture, with the help of the tree where
    /// the scene allows one. The choice is made once, before the first pixel.
    pub fn render_colors<R: Sampler<Num = H::Num>>(&self, rng: &mut R) -> (colors: Vec<
        Color<H::Num>,
    >)
        ensures
            (colors@, *final(rng)) == self.spec_render(*old(rng)),
            colors@.len() == self.pixel_count(),
    {
        let bvh = self.accelerate();
        let world = HittableListOptions::choose_from(&bvh, &self.world);
        self.trace(&world, rng)
    }

    /// Computes the colours of the picture without the tree.
    pub fn render_colors_without_bvh<R: Sampler<Num = H::Num>>(&self, rng: &mut R) -> (colors:
        Vec<Color<H::Num>>)
        ensures
            (colors@, *final(rng)) == self.spec_render_without_bvh(*old(rng)),
            colors@.len() == self.pixel_count(),
    {
        self.trace(&self.world, rng)
    }

    /// Renders the scene as colours with the picture's size.
    pub fn render_ppm<R: Sampler<Num = H::Num>>(&self, rng: &mut R) -> (ppm: PPM<H::Num>)
        ensures
            (ppm.colors@, *final(rng)) == self.spec_render(*old(rng)),
            ppm.width == self.image_width,
            ppm.height == self.image_height,
    {
        let colors = self.render_colors(rng);
        PPM::new(colors, self.image_width, self.image_height)
    }

    /// Renders the scene as a picture of bytes.
    pub fn render<R: Sampler<Num = H::Num>>(&self, rng: &mut R) -> (image: RgbImage)
        requires
            3 * self.image_width * self.image_height <= isize::MAX,
        ensures
            image.well_formed(),
            image_width(image) == self.image_width,
            image_height(image) == self.image_height,
            image_pixels(image) == spec_encoded(self.spec_render(*old(rng)).0),
            *final(rng) == self.spec_render(*old(rng)).1,
    {
        let colors = self.render_colors(rng);
        to_image(&colors, self.image_width, self.image_height)
    }

    /// Renders the scene as a picture of bytes without the tree.
    pub fn render_without_bvh<R: Sampler<Num = H::Num>>(&self, rng: &mut R) -> (image: RgbImage)
        requires
            3 * self.image_width * self.image_height <= isize::MAX,
        ensures
            image.well_formed(),
            image_width(image) == self.image_width,
            image_height(image) == self.image_height,
            image_pixels(image) == spec_encoded(self.spec_render_without_bvh(*old(rng)).0),
            *final(rng) == self.spec_render_without_bvh(*old(rng)).1,
    {
        let colors = self.render_colors_without_bvh(rng);
        to_image(&colors, self.image_width, self.image_height)
    }
}

impl<H: Hittable, C: Camera<Num = H::Num>> Raytracer<H, C> {
    /// Two worlds that answer every ray alike give the same samples.
    pub proof fn lemma_same_hits_same_exposure<
        V: Hittable<Num = H::Num>,
        W: Hittable<Num = H::Num, Mat = V::Mat>,
        R: Sampler<Num = H::Num>,
    >(&self, first: &V, second: &W, i: u16, j: u16, count: nat, rng: R)
        requires
            same_hits(first, second),
        ensures
            self.spec_exposure(first, i, j, count, rng) == self.spec_exposure(
                second,
                i,
                j,
                count,
                rng,
            ),
        decreases count,
    {
        if count > 0 {
            self.lemma_same_hits_same_exposure(first, second, i, j, (count - 1) as nat, rng);
            let rng_before = self.spec_exposure(first, i, j, (count - 1) as nat, rng).1;
            let (dx, rng_x) = rng_before.spec_draw();
            let u = H::Num::spec_from_u16(i).spec_plus(dx).spec_over(
                H::Num::spec_from_u16((self.image_width - 1) as u16),
            );
            let (dy, rng_y) = rng_x.spec_draw();
            let v = H::Num::spec_from_u16(j).spec_plus(dy).spec_over(
                H::Num::spec_from_u16((self.image_height - 1) as u16),
            );
            let (ray, rng_ray) = self.camera.get_ray_spec(u, v, rng_y);
            lemma_same_hits_same_light(first, second, ray, self.max_depth as nat, rng_ray);
        }
    }

    /// Two worlds that answer every ray alike give the same picture.
    pub proof fn lemma_same_hits_same_frame<
        V: Hittable<Num = H::Num>,
        W: Hittable<Num = H::Num, Mat = V::Mat>,
        R: Sampler<Num = H::Num>,
    >(&self, first: &V, second: &W, count: nat, rng: R)
        requires
            same_hits(first, second),
        ensures
            self.spec_frame(first, count, rng) == self.spec_frame(second, count, rng),
        decreases count,
    {
        if count > 0 {
            self.lemma_same_hits_same_frame(first, second, (count - 1) as nat, rng);
            let rng_before = self.spec_frame(first, (count - 1) as nat, rng).1;
            self.lemma_same_hits_same_exposure(
                first,
                second,
                self.spec_column(count - 1) as u16,
                self.spec_row_from_bottom(count - 1) as u16,
                self.samples_per_pixel as nat,
                rng_before,
            );
        }
    }

    /// A scene with an object that has no box gets no tree, and its render
    /// is the render of the plain scene.
    pub proof fn lemma_unbounded_scene_falls_back<R: Sampler<Num = H::Num>>(&self, rng: R)
        requires
            !all_bounded(self.world@, self.spec_shutter().0, self.spec_shutter().1),
        ensures
            self.spec_accelerate() is Err,
            self.spec_render(rng) == self.spec_render_without_bvh(rng),
    {
        Bvh::<H>::lemma_built(self.world@, self.spec_shutter().0, self.spec_shutter().1);
        let chosen = HittableListOptions::spec_choose_from(self.spec_accelerate(), self.world);
        assert(same_hits(&chosen, &self.world));
        self.lemma_same_hits_same_frame(&chosen, &self.world, self.pixel_count(), rng);
    }

    /// The boxes of the tree over the scene bound, as far as `ray` can tell
    /// on intervals that start at the shadow epsilon. Where there is no tree
    /// there is nothing to ask.
    pub open spec fn tree_encloses(&self, ray: Ray<H::Num>) -> bool {
        match self.spec_accelerate() {
            Ok(tree) => tree.encloses(ray, spec_shadow_epsilon()),
            Err(_) => true,
        }
    }

    /// Where the boxes of the tree bound, whatever the ray, the tree changes
    /// nothing: the render is the render of the plain scene.
    pub proof fn lemma_tree_changes_nothing<R: Sampler<Num = H::Num>>(&self, rng: R)
        requires
            forall|ray: Ray<H::Num>| #[trigger] self.tree_encloses(ray),
        ensures
            self.spec_render(rng) == self.spec_render_without_bvh(rng),
    {
        Bvh::<H>::lemma_built(self.world@, self.spec_shutter().0, self.spec_shutter().1);
        let chosen = HittableListOptions::spec_choose_from(self.spec_accelerate(), self.world);
        assert forall|r: Ray<H::Num>| #[trigger]
            chosen.hit_spec(r, spec_shadow_epsilon(), H::Num::spec_infinity())
                == self.world.hit_spec(r, spec_shadow_epsilon(), H::Num::spec_infinity()) by {
            match self.spec_accelerate() {
                Ok(tree) => {
                    assert(self.tree_encloses(r));
                    tree.lemma_search_is_scan(r, spec_shadow_epsilon(), H::Num::spec_infinity());
                },
                Err(_) => {},
            }
        }
        self.lemma_same_hits_same_frame(&chosen, &self.world, self.pixel_count(), rng);
    }

    /// A render is a function of the scene, the camera, the settings and
    /// the sampler: two renderers that agree in these give the same picture
    /// and leave the same sampler.
    pub proof fn lemma_render_repeats<R: Sampler<Num = H::Num>>(&self, other: &Self, rng: R)
        requires
            self.world@ == other.world@,
            self.camera == other.camera,
            self.image_width == other.image_width,
            self.image_height == other.image_height,
            self.samples_per_pixel == other.samples_per_pixel,
            self.max_depth == other.max_depth,
        ensures
            self.spec_render(rng) == other.spec_render(rng),
            self.spec_render_without_bvh(rng) == other.spec_render_without_bvh(rng),
    {
        let mine = HittableListOptions::spec_choose_from(self.spec_accelerate(), self.world);
        let others = HittableListOptions::spec_choose_from(other.spec_accelerate(), other.world);
        assert(same_hits(&mine, &others));
        assert(same_hits(&self.world, &other.world));
        self.lemma_same_hits_same_frame(&mine, &others, self.pixel_count(), rng);
        self.lemma_same_hits_same_frame(&self.world, &other.world, self.pixel_count(), rng);
        self.lemma_frame_reads_settings(other, &others, self.pixel_count(), rng);
        self.lemma_frame_reads_settings(other, &other.world, self.pixel_count(), rng);
    }

    /// A picture depends on the renderer through its camera and settings
    /// alone.
    pub proof fn lemma_frame_reads_settings<W: Hittable<Num = H::Num>, R: Sampler<Num = H::Num>>(
        &self,
        other: &Self,
        world: &W,
        count: nat,
        rng: R,
    )
        requires
            self.camera == other.camera,
            self.image_width == other.image_width,
            self.image_height == other.image_height,
            self.samples_per_pixel == other.samples_per_pixel,
            self.max_depth == other.max_depth,
        ensures
            self.spec_frame(world, count, rng) == other.spec_frame(world, count, rng),
        decreases count,
    {
        if count > 0 {
            self.lemma_frame_reads_settings(other, world, (count - 1) as nat, rng);
            let rng_before = self.spec_frame(world, (count - 1) as nat, rng).1;
            self.lemma_exposure_reads_settings(
                other,
                world,
                self.spec_column(count - 1) as u16,
                self.spec_row_from_bottom(count - 1) as u16,
                self.samples_per_pixel as nat,
                rng_before,
            );
        }
    }

    /// The samples of a pixel depend on the renderer through its camera and
    /// settings alone.
    pub proof fn lemma_exposure_reads_settings<W: Hittable<Num = H::Num>, R: Sampler<Num = H::Num>>(
        &self,
        other: &Self,
        world: &W,
        i: u16,
        j: u16,
        count: nat,
        rng: R,
    )
        requires
            self.camera == other.camera,
            self.image_width == other.image_width,
            self.image_height == other.image_height,
            self.max_depth == other.max_depth,
        ensures
            self.spec_exposure(world, i, j, count, rng) == other.spec_exposure(
                world,
                i,
                j,
                count,
                rng,
            ),
        decreases count,
    {
        if count > 0 {
            self.lemma_exposure_reads_settings(other, world, i, j, (count - 1) as nat, rng);
        }
    }
}

/// The bytes of a row of colours, colour by colour.
pub open spec fn spec_encoded<S: Scalar>(colors: Seq<Color<S>>) -> Seq<(u8, u8, u8)> {
    Seq::new(colors.len(), |k: int| colors[k].spec_to_bytes())
}

/// Lays `colors` out as a picture `width` pixels wide and `height` pixels
/// high: the colour at `index` goes to column `index % width` of row
/// `index / width`.
pub fn to_image<S: Scalar>(colors: &Vec<Color<S>>, width: u16, height: u16) -> (image: RgbImage)
    requires
        colors@.len() == width * height,
        3 * width * height <= isize::MAX,
    ensures
        image.well_formed(),
        image_width(image) == width,
        image_height(image) == height,
        image_pixels(image) == spec_encoded(colors@),
{
    let mut image = RgbImage::blank(width as u32, height as u32);
    let mut index: usize = 0;
    while index < colors.len()
        invariant
            index <= colors@.len(),
            colors@.len() == width * height,
            image_width(image) == width,
            image_height(image) == height,
            image_pixels(image).len() == colors@.len(),
            forall|k: int| 0 <= k < index ==> image_pixels(image)[k] == colors@[k].spec_to_bytes(),
        decreases colors@.len() - index,
    {
        let w = width as usize;
        assert(w > 0 && index / w < height && (index / w) * w + index % w == index) by (nonlinear_arith)
            requires
                index < w * height,
        ;
        let i = (index % w) as u32;
        let j = (index / w) as u32;
        image.put(i, j, colors[index].to_bytes());
        index += 1;
    }
    assert(image_pixels(image) =~= spec_encoded(colors@));
    image
}

} // verus!
