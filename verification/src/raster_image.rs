//! Raster image, an image owning all pixels that are in it.

use vstd::prelude::*;
use crate::{BGR, ImageBGR, ScreenCaptureError, lemma_row_major_index};

verus! {

/// Raster image, an image owning all pixels that are in it, in row-major
/// order.
pub struct RasterImageBGR {
    width: u32,
    height: u32,
    data: Vec<BGR>,
}

impl RasterImageBGR {
    /// The pixel buffer covers exactly the raster and the pixel count fits
    /// the 32-bit index arithmetic.
    #[verifier::type_invariant]
    pub closed spec fn wf(self) -> bool {
        &&& self.data@.len() == self.width * self.height
        &&& self.width * self.height <= u32::MAX
    }

    /// The row-major index of a coordinate pair.
    fn index(&self, x: u32, y: u32) -> (r: usize)
        requires
            x < self.spec_width(),
            y < self.spec_height(),
        ensures
            r == y * self.spec_width() + x,
            r < self.spec_pixels().len(),
    {
        proof {
            use_type_invariant(self);
            lemma_row_major_index(self.width, x as int, y as int);
            assert((y + 1) * self.width <= self.height * self.width) by (nonlinear_arith)
                requires y < self.height;
            assert(self.height * self.width == self.width * self.height) by (nonlinear_arith);
        }
        (y * self.width + x) as usize
    }

    /// Read-only access to the pixel at the given coordinates, which must
    /// be within the image.
    pub fn data_rgb(&self, x: u32, y: u32) -> (r: &BGR)
        requires
            x < self.spec_width(),
            y < self.spec_height(),
        ensures
            *r == self.spec_pixels()[y * self.spec_width() + x],
    {
        proof {
            use_type_invariant(self);
        }
        let index = self.index(x, y);
        &self.data[index]
    }

    /// Mutable access to the pixel at the given coordinates, which must be
    /// within the image; the rest of the image keeps its pixels.
    pub fn data_rgb_mut(&mut self, x: u32, y: u32) -> (r: &mut BGR)
        requires
            x < old(self).spec_width(),
            y < old(self).spec_height(),
        ensures
            *r == old(self).spec_pixels()[y * old(self).spec_width() + x],
            final(self).spec_width() == old(self).spec_width(),
            final(self).spec_height() == old(self).spec_height(),
            final(self).spec_pixels() == old(self).spec_pixels().update(
                y * old(self).spec_width() + x,
                *final(r),
            ),
    {
        proof {
            use_type_invariant(&*self);
        }
        let index = self.index(x, y);
        &mut self.data[index]
    }

    /// Create a raster image by copying the provided image into the
    /// internal storage. Fails only when the provided image is a stale
    /// accessor whose snapshot was superseded.
    pub fn new<I: ImageBGR>(img: &I) -> (r: Result<RasterImageBGR, ScreenCaptureError>)
        ensures
            img.spec_valid() ==> r is Ok,
            r matches Ok(out) ==> out.spec_width() == img.spec_width() && out.spec_height()
                == img.spec_height() && out.spec_pixels() == img.spec_pixels(),
            r matches Err(e) ==> e is InvalidatedAccess,
    {
        let width = img.width();
        let height = img.height();
        let src = match img.data() {
            Ok(d) => d,
            Err(e) => {
                return Err(e);
            },
        };
        let n: usize = src.len();
        let mut data: Vec<BGR> = Vec::new();
        let mut i: usize = 0;
        while i < n
            invariant
                0 <= i <= n,
                n == src@.len(),
                data@.len() == i,
                forall|j: int| 0 <= j < i ==> data@[j] == src@[j],
            decreases n - i,
        {
            data.push(src[i]);
            i = i + 1;
        }
        proof {
            assert(data@ =~= src@);
        }
        Ok(RasterImageBGR { width, height, data })
    }

    /// Create a new raster image of the given width and height, filled with
    /// the provided color. The pixel count must fit the index arithmetic.
    pub fn filled(width: u32, height: u32, color: BGR) -> (r: RasterImageBGR)
        requires
            width * height <= u32::MAX,
        ensures
            r.spec_width() == width,
            r.spec_height() == height,
            r.spec_pixels().len() == width * height,
            forall|j: int| 0 <= j < width * height ==> r.spec_pixels()[j] == color,
    {
        let n: usize = (width as usize) * (height as usize);
        let mut data: Vec<BGR> = Vec::new();
        let mut i: usize = 0;
        while i < n
            invariant
                0 <= i <= n,
                data@.len() == i,
                forall|j: int| 0 <= j < i ==> data@[j] == color,
            decreases n - i,
        {
            data.push(color);
            i = i + 1;
        }
        RasterImageBGR { width, height, data }
    }

    /// Assemble a raster image from its dimensions and a row-major pixel
    /// buffer covering exactly that raster.
    pub(crate) fn from_raw_parts(width: u32, height: u32, data: Vec<BGR>) -> (r: RasterImageBGR)
        requires
            data@.len() == width * height,
            width * height <= u32::MAX,
        ensures
            r.spec_width() == width,
            r.spec_height() == height,
            r.spec_pixels() == data@,
    {
        RasterImageBGR { width, height, data }
    }

    /// Set a specific pixel to the provided color; the coordinates must be
    /// within the image.
    pub fn set_pixel(&mut self, x: u32, y: u32, color: BGR)
        requires
            x < old(self).spec_width(),
            y < old(self).spec_height(),
        ensures
            final(self).spec_width() == old(self).spec_width(),
            final(self).spec_height() == old(self).spec_height(),
            final(self).spec_pixels() == old(self).spec_pixels().update(
                y * old(self).spec_width() + x,
                color,
            ),
    {
        let p = self.data_rgb_mut(x, y);
        *p = color;
    }

    /// Fill a rectangle with a certain color. The rectangle must lie within
    /// the image; an empty range leaves the image unchanged.
    pub fn fill_rectangle(&mut self, x_min: u32, x_max: u32, y_min: u32, y_max: u32, color: BGR)
        requires
            x_max <= old(self).spec_width(),
            y_max <= old(self).spec_height(),
        ensures
            final(self).spec_width() == old(self).spec_width(),
            final(self).spec_height() == old(self).spec_height(),
            final(self).spec_pixels().len() == old(self).spec_pixels().len(),
            forall|xx: int, yy: int|
                0 <= xx < old(self).spec_width() && 0 <= yy < old(self).spec_height()
                    ==> #[trigger] final(self).spec_pixels()[yy * old(self).spec_width() + xx] == (
                if x_min <= xx < x_max && y_min <= yy < y_max {
                    color
                } else {
                    old(self).spec_pixels()[yy * old(self).spec_width() + xx]
                }),
    {
        proof {
            use_type_invariant(&*self);
        }
        let ghost orig = *self;
        let width = self.width;
        let height = self.height;
        let mut y = y_min;
        while y < y_max
            invariant
                y_min <= y <= y_max || y == y_min,
                x_max <= width,
                y_max <= height,
                width == orig.spec_width(),
                height == orig.spec_height(),
                self.spec_width() == orig.spec_width(),
                self.spec_height() == orig.spec_height(),
                self.spec_pixels().len() == orig.spec_pixels().len(),
                orig.spec_pixels().len() == width * height,
                forall|xx: int, yy: int|
                    0 <= xx < width && 0 <= yy < height ==> #[trigger] self.spec_pixels()[yy * width
                        + xx] == (if x_min <= xx < x_max && y_min <= yy < y {
                        color
                    } else {
                        orig.spec_pixels()[yy * width + xx]
                    }),
            decreases y_max - y,
        {
            let mut x = x_min;
            while x < x_max
                invariant
                    x_min <= x <= x_max || x == x_min,
                    y_min <= y < y_max,
                    x_max <= width,
                    y_max <= height,
                    width == orig.spec_width(),
                    height == orig.spec_height(),
                    self.spec_width() == orig.spec_width(),
                    self.spec_height() == orig.spec_height(),
                    self.spec_pixels().len() == orig.spec_pixels().len(),
                    orig.spec_pixels().len() == width * height,
                    forall|xx: int, yy: int|
                        0 <= xx < width && 0 <= yy < height ==> #[trigger] self.spec_pixels()[yy
                            * width + xx] == (if (x_min <= xx < x_max && y_min <= yy < y) || (y == yy
                            && x_min <= xx < x) {
                            color
                        } else {
                            orig.spec_pixels()[yy * width + xx]
                        }),
                decreases x_max - x,
            {
                let ghost before = *self;
                self.set_pixel(x, y, color);
                proof {
                    lemma_row_major_index(width, x as int, y as int);
                    assert((y + 1) * width <= height * width) by (nonlinear_arith)
                        requires y + 1 <= height && width >= 0;
                    assert(height * width == width * height) by (nonlinear_arith);
                    assert(0 <= y * width + x < orig.spec_pixels().len());
                    assert forall|xx: int, yy: int|
                        0 <= xx < width && 0 <= yy < height implies #[trigger] self.spec_pixels()[yy
                        * width + xx] == (if (x_min <= xx < x_max && y_min <= yy < y) || (y == yy
                        && x_min <= xx < x + 1) {
                        color
                    } else {
                        orig.spec_pixels()[yy * width + xx]
                    }) by {
                        lemma_row_major_index(width, xx, yy);
                        assert((yy + 1) * width <= height * width) by (nonlinear_arith)
                            requires yy + 1 <= height && width >= 0;
                        assert(height * width == width * height) by (nonlinear_arith);
                        if yy * width + xx != y * width + x {
                            assert(self.spec_pixels()[yy * width + xx] == before.spec_pixels()[yy
                                * width + xx]);
                        }
                    }
                }
                x = x + 1;
            }
            y = y + 1;
        }
    }

    /// Fill a rectangle with a gradient. Within the rectangle the red
    /// channel rises left to right, the green channel rises top to bottom
    /// and the blue channel mirrors the red one, each computed in whole
    /// 255ths of the distance across the rectangle. An empty range leaves
    /// the image unchanged.
    pub fn set_gradient(&mut self, x_min: u32, x_max: u32, y_min: u32, y_max: u32)
        requires
            x_max <= old(self).spec_width(),
            y_max <= old(self).spec_height(),
        ensures
            final(self).spec_width() == old(self).spec_width(),
            final(self).spec_height() == old(self).spec_height(),
            final(self).spec_pixels().len() == old(self).spec_pixels().len(),
            forall|xx: int, yy: int|
                0 <= xx < old(self).spec_width() && 0 <= yy < old(self).spec_height()
                    ==> #[trigger] final(self).spec_pixels()[yy * old(self).spec_width() + xx] == (
                if x_min <= xx < x_max && y_min <= yy < y_max {
                    gradient_pixel(xx, yy, x_min as int, x_max as int, y_min as int, y_max as int)
                } else {
                    old(self).spec_pixels()[yy * old(self).spec_width() + xx]
                }),
    {
        proof {
            use_type_invariant(&*self);
        }
        let ghost orig = *self;
        let width = self.width;
        let height = self.height;
        if x_max <= x_min || y_max <= y_min {
            return;
        }
        let span_x: u32 = x_max - x_min;
        let span_y: u32 = y_max - y_min;
        let mut y = y_min;
        while y < y_max
            invariant
                y_min <= y <= y_max,
                x_min < x_max <= width,
                y_min < y_max <= height,
                span_x == x_max - x_min,
                span_y == y_max - y_min,
                width == orig.spec_width(),
                height == orig.spec_height(),
                self.spec_width() == orig.spec_width(),
                self.spec_height() == orig.spec_height(),
                self.spec_pixels().len() == orig.spec_pixels().len(),
                orig.spec_pixels().len() == width * height,
                forall|xx: int, yy: int|
                    0 <= xx < width && 0 <= yy < height ==> #[trigger] self.spec_pixels()[yy * width
                        + xx] == (if x_min <= xx < x_max && y_min <= yy < y {
                        gradient_pixel(xx, yy, x_min as int, x_max as int, y_min as int, y_max as int)
                    } else {
                        orig.spec_pixels()[yy * width + xx]
                    }),
            decreases y_max - y,
        {
            let mut x = x_min;
            while x < x_max
                invariant
                    x_min <= x <= x_max,
                    y_min <= y < y_max,
                    x_min < x_max <= width,
                    y_min < y_max <= height,
                    span_x == x_max - x_min,
                    span_y == y_max - y_min,
                    width == orig.spec_width(),
                    height == orig.spec_height(),
                    self.spec_width() == orig.spec_width(),
                    self.spec_height() == orig.spec_height(),
                    self.spec_pixels().len() == orig.spec_pixels().len(),
                    orig.spec_pixels().len() == width * height,
                    forall|xx: int, yy: int|
                        0 <= xx < width && 0 <= yy < height ==> #[trigger] self.spec_pixels()[yy
                            * width + xx] == (if (x_min <= xx < x_max && y_min <= yy < y) || (y == yy
                            && x_min <= xx < x) {
                            gradient_pixel(xx, yy, x_min as int, x_max as int, y_min as int, y_max as int)
                        } else {
                            orig.spec_pixels()[yy * width + xx]
                        }),
                decreases x_max - x,
            {
                let dx: u32 = x - x_min;
                let dy: u32 = y - y_min;
                proof {
                    assert((dx as int) * 255 / (span_x as int) < 255 && (dx as int) * 255 / (
                    span_x as int) >= 0) by (nonlinear_arith)
                        requires 0 <= dx < span_x;
                    assert((dy as int) * 255 / (span_y as int) < 255 && (dy as int) * 255 / (
                    span_y as int) >= 0) by (nonlinear_arith)
                        requires 0 <= dy < span_y;
                }
                let r: u32 = ((dx as u64) * 255 / (span_x as u64)) as u32;
                let g: u32 = ((dy as u64) * 255 / (span_y as u64)) as u32;
                let color = BGR { b: (255 - r) as u8, g: g as u8, r: r as u8 };
                proof {
                    assert(color == gradient_pixel(
                        x as int,
                        y as int,
                        x_min as int,
                        x_max as int,
                        y_min as int,
                        y_max as int,
                    ));
                }
                let ghost before = *self;
                self.set_pixel(x, y, color);
                proof {
                    lemma_row_major_index(width, x as int, y as int);
                    assert((y + 1) * width <= height * width) by (nonlinear_arith)
                        requires y + 1 <= height && width >= 0;
                    assert(height * width == width * height) by (nonlinear_arith);
                    assert(0 <= y * width + x < orig.spec_pixels().len());
                    assert forall|xx: int, yy: int|
                        0 <= xx < width && 0 <= yy < height implies #[trigger] self.spec_pixels()[yy
                        * width + xx] == (if (x_min <= xx < x_max && y_min <= yy < y) || (y == yy
                        && x_min <= xx < x + 1) {
                        gradient_pixel(xx, yy, x_min as int, x_max as int, y_min as int, y_max as int)
                    } else {
                        orig.spec_pixels()[yy * width + xx]
                    }) by {
                        lemma_row_major_index(width, xx, yy);
                        assert((yy + 1) * width <= height * width) by (nonlinear_arith)
                            requires yy + 1 <= height && width >= 0;
                        assert(height * width == width * height) by (nonlinear_arith);
                        if yy * width + xx != y * width + x {
                            assert(self.spec_pixels()[yy * width + xx] == before.spec_pixels()[yy
                                * width + xx]);
                        }
                    }
                }
                x = x + 1;
            }
            y = y + 1;
        }
    }

    /// Create a raster image from the provided two dimensional vector of
    /// pixels: at least one row, every row of the same width, the total
    /// pixel count fitting the index arithmetic.
    pub fn from_2d_vec(data: &[Vec<BGR>]) -> (r: RasterImageBGR)
        requires
            data@.len() > 0,
            data@.len() <= u32::MAX,
            data@[0]@.len() <= u32::MAX,
            forall|yy: int| 0 <= yy < data@.len() ==> #[trigger] data@[yy]@.len() == data@[0]@.len(),
            data@.len() * data@[0]@.len() <= u32::MAX,
        ensures
            r.spec_width() == data@[0]@.len(),
            r.spec_height() == data@.len(),
            forall|xx: int, yy: int|
                0 <= xx < data@[0]@.len() && 0 <= yy < data@.len() ==> #[trigger] r.spec_pixels()[yy
                    * data@[0]@.len() + xx] == data@[yy]@[xx],
    {
        let height: u32 = data.len() as u32;
        let width: u32 = data[0].len() as u32;
        let mut out: Vec<BGR> = Vec::new();
        let mut y: usize = 0;
        while y < height as usize
            invariant
                0 <= y <= data@.len(),
                height == data@.len(),
                width == data@[0]@.len(),
                forall|yy: int| 0 <= yy < data@.len() ==> #[trigger] data@[yy]@.len() == width,
                data@.len() * data@[0]@.len() <= u32::MAX,
                out@.len() == y * width,
                forall|xx: int, yy: int|
                    0 <= xx < width && 0 <= yy < y ==> #[trigger] out@[yy * width + xx]
                        == data@[yy]@[xx],
            decreases data@.len() - y,
        {
            let row = &data[y];
            let mut x: usize = 0;
            proof {
                assert((y + 1) * width <= data@.len() * width) by (nonlinear_arith)
                    requires y + 1 <= data@.len() && width >= 0;
            }
            while x < width as usize
                invariant
                    0 <= x <= width,
                    0 <= y < data@.len(),
                    width == data@[0]@.len(),
                    row == data@[y as int],
                    row@.len() == width,
                    forall|yy: int| 0 <= yy < data@.len() ==> #[trigger] data@[yy]@.len() == width,
                    (y + 1) * width <= u32::MAX,
                    out@.len() == y * width + x,
                    forall|xx: int, yy: int|
                        0 <= xx < width && 0 <= yy < y ==> #[trigger] out@[yy * width + xx]
                            == data@[yy]@[xx],
                    forall|xx: int| 0 <= xx < x ==> #[trigger] out@[y * width + xx] == data@[y as int]@[xx],
                decreases width - x,
            {
                out.push(row[x]);
                proof {
                    lemma_row_major_index(width, x as int, y as int);
                    assert forall|xx: int, yy: int|
                        0 <= xx < width && 0 <= yy < y implies #[trigger] out@[yy * width + xx]
                        == data@[yy]@[xx] by {
                        lemma_row_major_index(width, xx, yy);
                        assert((yy + 1) * width <= y * width) by (nonlinear_arith)
                            requires yy + 1 <= y && width >= 0;
                    }
                    assert forall|xx: int| 0 <= xx < x + 1 implies #[trigger] out@[y * width + xx]
                        == data@[y as int]@[xx] by {
                        lemma_row_major_index(width, xx, y as int);
                    }
                }
                x = x + 1;
            }
            y = y + 1;
            proof {
                assert(y * width == (y - 1) * width + width) by (nonlinear_arith);
            }
        }
        proof {
            assert(height * width == width * height) by (nonlinear_arith);
        }
        RasterImageBGR { width, height, data: out }
    }
}

impl ImageBGR for RasterImageBGR {
    closed spec fn spec_width(&self) -> u32 {
        self.width
    }

    closed spec fn spec_height(&self) -> u32 {
        self.height
    }

    closed spec fn spec_pixels(&self) -> Seq<BGR> {
        self.data@
    }

    open spec fn spec_valid(&self) -> bool {
        true
    }

    fn width(&self) -> (r: u32) {
        proof {
            use_type_invariant(self);
        }
        self.width
    }

    fn height(&self) -> (r: u32) {
        proof {
            use_type_invariant(self);
        }
        self.height
    }

    fn pixel(&self, x: u32, y: u32) -> (r: Result<BGR, ScreenCaptureError>) {
        if x < self.width && y < self.height {
            Ok(*self.data_rgb(x, y))
        } else {
            Err(ScreenCaptureError::Initialisation { msg: pixel_range_message() })
        }
    }

    fn data(&self) -> (r: Result<&[BGR], ScreenCaptureError>) {
        Ok(self.data.as_slice())
    }
}

/// The color the gradient fill puts at a rectangle coordinate: whole
/// 255ths of the distance across the rectangle, red rising rightward,
/// green rising downward, blue mirroring red.
pub open spec fn gradient_pixel(xx: int, yy: int, x_min: int, x_max: int, y_min: int, y_max: int) -> BGR {
    let r = (xx - x_min) * 255 / (x_max - x_min);
    let g = (yy - y_min) * 255 / (y_max - y_min);
    BGR { b: (255 - r) as u8, g: g as u8, r: r as u8 }
}

/// The message reported for an out-of-range pixel access.
fn pixel_range_message() -> String {
    "pixel coordinates out of range".to_string()
}

} // verus!
