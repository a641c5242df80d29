//! Finished pictures: eight bits a channel, rows from the top.

use vstd::prelude::*;

verus! {

/// A picture of red, green and blue bytes, kept in an `image::RgbImage`.
#[verifier::external_body]
pub struct RgbImage {
    buffer: image::RgbImage,
}

/// The number of pixels in a row of the picture.
pub uninterp spec fn image_width(img: RgbImage) -> nat;

/// The number of rows of the picture.
pub uninterp spec fn image_height(img: RgbImage) -> nat;

/// The pixels of the picture, row after row from the top, each row from the
/// left: the pixel in column `x` of row `y` stands at `y * width + x`.
pub uninterp spec fn image_pixels(img: RgbImage) -> Seq<(u8, u8, u8)>;

impl RgbImage {
    /// `image::ImageBuffer::new`: a picture of the given size in which every
    /// channel of every pixel is zero. The buffer takes three bytes a pixel,
    /// and their number has to fit an `isize`.
    #[verifier::external_body]
    pub(crate) fn blank(width: u32, height: u32) -> (img: RgbImage)
        requires
            3 * width * height <= isize::MAX,
        ensures
            image_width(img) == width,
            image_height(img) == height,
            image_pixels(img).len() == width * height,
            forall|k: int| 0 <= k < width * height ==> image_pixels(img)[k] == (0u8, 0u8, 0u8),
    {
        RgbImage { buffer: image::RgbImage::new(width, height) }
    }

    /// `image::ImageBuffer::width`.
    #[verifier::external_body]
    fn buffer_width(&self) -> (w: u32)
        ensures
            w == image_width(*self),
    {
        self.buffer.width()
    }

    /// `image::ImageBuffer::height`.
    #[verifier::external_body]
    fn buffer_height(&self) -> (h: u32)
        ensures
            h == image_height(*self),
    {
        self.buffer.height()
    }

    /// `image::ImageBuffer::put_pixel`: replaces the pixel in column `x` of
    /// row `y` and leaves the rest as it was.
    #[verifier::external_body]
    pub(crate) fn put(&mut self, x: u32, y: u32, pixel: (u8, u8, u8))
        requires
            x < image_width(*old(self)),
            y < image_height(*old(self)),
        ensures
            image_width(*final(self)) == image_width(*old(self)),
            image_height(*final(self)) == image_height(*old(self)),
            image_pixels(*final(self)) == image_pixels(*old(self)).update(
                y * image_width(*old(self)) + x,
                pixel,
            ),
    {
        self.buffer.put_pixel(x, y, image::Rgb([pixel.0, pixel.1, pixel.2]));
    }

    /// `image::ImageBuffer::get_pixel`: the pixel in column `x` of row `y`.
    #[verifier::external_body]
    fn get(&self, x: u32, y: u32) -> (pixel: (u8, u8, u8))
        requires
            x < image_width(*self),
            y < image_height(*self),
        ensures
            pixel == image_pixels(*self)[y * image_width(*self) + x],
    {
        let p = self.buffer.get_pixel(x, y);
        (p.0[0], p.0[1], p.0[2])
    }

    /// A picture has as many pixels as its size says.
    pub open spec fn well_formed(self) -> bool {
        image_pixels(self).len() == image_width(self) * image_height(self)
    }

    pub fn width(&self) -> (w: u32)
        ensures
            w == image_width(*self),
    {
        self.buffer_width()
    }

    pub fn height(&self) -> (h: u32)
        ensures
            h == image_height(*self),
    {
        self.buffer_height()
    }

    /// The pixel in column `x` of row `y`, counted from the top left, or
    /// `None` where the picture has no such pixel.
    pub fn pixel(&self, x: u32, y: u32) -> (p: Option<(u8, u8, u8)>)
        ensures
            p == if x < image_width(*self) && y < image_height(*self) {
                Some(image_pixels(*self)[y * image_width(*self) + x])
            } else {
                None
            },
    {
        if x < self.buffer_width() && y < self.buffer_height() {
            Some(self.get(x, y))
        } else {
            None
        }
    }

    /// The picture as the bytes an encoder takes: red, green and blue of the
    /// first pixel, then of the second, and so on, row after row.
    pub fn to_bytes(&self) -> (bytes: Vec<u8>)
        requires
            self.well_formed(),
        ensures
            bytes@ == spec_flattened(image_pixels(*self)),
    {
        let width = self.buffer_width();
        let height = self.buffer_height();
        let mut bytes: Vec<u8> = Vec::new();
        let mut y: u32 = 0;
        while y < height
            invariant
                y <= height,
                width == image_width(*self),
                height == image_height(*self),
                self.well_formed(),
                bytes@ == spec_flattened(image_pixels(*self).take(y * width)),
            decreases height - y,
        {
            let mut x: u32 = 0;
            while x < width
                invariant
                    x <= width,
                    y < height,
                    width == image_width(*self),
                    height == image_height(*self),
                    self.well_formed(),
                    bytes@ == spec_flattened(image_pixels(*self).take(y * width + x)),
                decreases width - x,
            {
                let pixel = self.get(x, y);
                proof {
                    let k = y * width + x;
                    assert(k < width * height) by (nonlinear_arith)
                        requires
                            k == y * width + x,
                            x < width,
                            y < height,
                    ;
                    let pixels = image_pixels(*self);
                    assert(pixels.take(k + 1).drop_last() =~= pixels.take(k));
                    assert(pixels.take(k + 1).last() == pixel);
                }
                bytes.push(pixel.0);
                bytes.push(pixel.1);
                bytes.push(pixel.2);
                x += 1;
            }
            proof {
                assert((y + 1) * width == y * width + width) by (nonlinear_arith);
            }
            y += 1;
        }
        proof {
            assert(image_pixels(*self).take(height * width) =~= image_pixels(*self)) by {
                assert(height * width == width * height) by (nonlinear_arith);
            }
        }
        bytes
    }
}

/// The channels of `pixels`, one after the other.
pub open spec fn spec_flattened(pixels: Seq<(u8, u8, u8)>) -> Seq<u8>
    decreases pixels.len(),
{
    if pixels.len() == 0 {
        Seq::empty()
    } else {
        spec_flattened(pixels.drop_last()).push(pixels.last().0).push(pixels.last().1).push(
            pixels.last().2,
        )
    }
}

} // verus!
