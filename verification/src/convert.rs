//! Pixel-format conversion engine.
//!
//! Byte-order swap from the 3-channel capture order to 4-channel and
//! 3-channel interchange orders. The reference loop, the lane-structured
//! path modelled on a 32-byte shuffle kernel, and the reinterpretation
//! fast path each carry an exact byte-level contract; the reference and
//! lane-structured paths are proved to produce identical buffers.

use vstd::prelude::*;
use crate::{BGR, ImageBGR, ScreenCaptureError};

verus! {

/// An owned 4-channel interchange image of the image crate. The buffer
/// type carries a trait-bounded generic that cannot be declared here, so
/// the image is held behind this opaque wrapper; the public field hands
/// the real image buffer to ordinary callers.
#[verifier::external_body]
pub struct OwnedRgbaImage {
    pub image: image::RgbaImage,
}

/// An owned 3-channel interchange image of the image crate, held like
/// `OwnedRgbaImage`.
#[verifier::external_body]
pub struct OwnedRgbImage {
    pub image: image::RgbImage,
}

/// The raw bytes the held 4-channel image buffer consists of.
pub uninterp spec fn rgba_image_data(img: OwnedRgbaImage) -> Seq<u8>;

/// The width and height the held 4-channel image buffer reports.
pub uninterp spec fn rgba_image_dims(img: OwnedRgbaImage) -> (u32, u32);

/// The raw bytes the held 3-channel image buffer consists of.
pub uninterp spec fn rgb_image_data(img: OwnedRgbImage) -> Seq<u8>;

/// The width and height the held 3-channel image buffer reports.
pub uninterp spec fn rgb_image_dims(img: OwnedRgbImage) -> (u32, u32);

/// Relies on image::ImageBuffer::from_raw: it takes ownership of the byte
/// container as the image's raw data and keeps the given dimensions, and
/// yields an image whenever the container holds the four bytes per raster
/// pixel the 4-channel layout asks for.
#[verifier::external_body]
pub(crate) fn rgba_from_raw(width: u32, height: u32, data: Vec<u8>) -> (r: Option<OwnedRgbaImage>)
    ensures
        4 * (width as int) <= usize::MAX && 4 * (width as int) * (height as int) == data@.len()
            ==> r is Some,
        r matches Some(img) ==> rgba_image_data(img) == data@ && rgba_image_dims(img) == (
        width,
        height,
        ),
{
    image::RgbaImage::from_raw(width, height, data).map(|image| OwnedRgbaImage { image })
}

/// Relies on image::ImageBuffer::from_raw, as above, with the three bytes
/// per pixel of the 3-channel layout.
#[verifier::external_body]
pub(crate) fn rgb_from_raw(width: u32, height: u32, data: Vec<u8>) -> (r: Option<OwnedRgbImage>)
    ensures
        3 * (width as int) <= usize::MAX && 3 * (width as int) * (height as int) == data@.len()
            ==> r is Some,
        r matches Some(img) ==> rgb_image_data(img) == data@ && rgb_image_dims(img) == (
        width,
        height,
        ),
{
    image::RgbImage::from_raw(width, height, data).map(|image| OwnedRgbImage { image })
}

/// The canonical 4-channel interchange encoding: for every pixel the bytes
/// r, g, b followed by a fully opaque alpha byte.
pub open spec fn rgba_of(pixels: Seq<BGR>) -> Seq<u8> {
    Seq::new(
        pixels.len() * 4,
        |j: int|
            {
                let p = pixels[j / 4];
                if j % 4 == 0 {
                    p.r
                } else if j % 4 == 1 {
                    p.g
                } else if j % 4 == 2 {
                    p.b
                } else {
                    255u8
                }
            },
    )
}

/// The false-color 4-channel encoding produced by reinterpreting the native
/// buffer byte-for-byte: b, g, r and the unused fourth byte, which the
/// native capture buffers keep at zero, so the result is fully translucent
/// and has the red and blue channels swapped.
pub open spec fn rgba_false_of(pixels: Seq<BGR>) -> Seq<u8> {
    Seq::new(
        pixels.len() * 4,
        |j: int|
            {
                let p = pixels[j / 4];
                if j % 4 == 0 {
                    p.b
                } else if j % 4 == 1 {
                    p.g
                } else if j % 4 == 2 {
                    p.r
                } else {
                    0u8
                }
            },
    )
}

/// The packed 3-channel interchange encoding: r, g, b per pixel.
pub open spec fn rgb_of(pixels: Seq<BGR>) -> Seq<u8> {
    Seq::new(
        pixels.len() * 3,
        |j: int|
            {
                let p = pixels[j / 3];
                if j % 3 == 0 {
                    p.r
                } else if j % 3 == 1 {
                    p.g
                } else {
                    p.b
                }
            },
    )
}

/// Reference conversion to the opaque 4-channel order, one pixel at a time.
pub fn bgr_to_rgba_bytes(data: &[BGR]) -> (r: Vec<u8>)
    ensures
        r@ == rgba_of(data@),
{
    let n: usize = data.len();
    let mut out: Vec<u8> = Vec::new();
    let mut i: usize = 0;
    while i < n
        invariant
            0 <= i <= n,
            n == data@.len(),
            out@.len() == i * 4,
            forall|j: int| 0 <= j < i * 4 ==> out@[j] == rgba_of(data@)[j],
        decreases n - i,
    {
        let p = data[i];
        out.push(p.r);
        out.push(p.g);
        out.push(p.b);
        out.push(255);
        i = i + 1;
    }
    proof {
        assert(out@ =~= rgba_of(data@));
    }
    out
}

/// Byte-for-byte reinterpretation of the native layout, keeping the unused
/// fourth byte at its captured value of zero. Deliberately faster than a
/// channel swap but non-canonical: blue and red trade places and the alpha
/// channel stays fully translucent.
pub fn bgr_to_rgba_false_bytes(data: &[BGR]) -> (r: Vec<u8>)
    ensures
        r@ == rgba_false_of(data@),
{
    let n: usize = data.len();
    let mut out: Vec<u8> = Vec::new();
    let mut i: usize = 0;
    while i < n
        invariant
            0 <= i <= n,
            n == data@.len(),
            out@.len() == i * 4,
            forall|j: int| 0 <= j < i * 4 ==> out@[j] == rgba_false_of(data@)[j],
        decreases n - i,
    {
        let p = data[i];
        out.push(p.b);
        out.push(p.g);
        out.push(p.r);
        out.push(0);
        i = i + 1;
    }
    proof {
        assert(out@ =~= rgba_false_of(data@));
    }
    out
}

/// Conversion to the packed 3-channel order, one pixel at a time.
pub fn bgr_to_rgb_bytes(data: &[BGR]) -> (r: Vec<u8>)
    ensures
        r@ == rgb_of(data@),
{
    let n: usize = data.len();
    let mut out: Vec<u8> = Vec::new();
    let mut i: usize = 0;
    while i < n
        invariant
            0 <= i <= n,
            n == data@.len(),
            out@.len() == i * 3,
            forall|j: int| 0 <= j < i * 3 ==> out@[j] == rgb_of(data@)[j],
        decreases n - i,
    {
        let p = data[i];
        out.push(p.r);
        out.push(p.g);
        out.push(p.b);
        i = i + 1;
    }
    proof {
        assert(out@ =~= rgb_of(data@));
    }
    out
}

/// The 32-byte input lane holding 8 consecutive pixels in the native byte
/// order: b, g, r and a zero pad byte per pixel.
pub open spec fn lane_input(pixels: Seq<BGR>, base: int) -> Seq<u8> {
    Seq::new(
        32,
        |k: int|
            {
                let p = pixels[base + k / 4];
                if k % 4 == 0 {
                    p.b
                } else if k % 4 == 1 {
                    p.g
                } else if k % 4 == 2 {
                    p.r
                } else {
                    0u8
                }
            },
    )
}

/// The byte-shuffle table of the lane kernel, applied within each 16-byte
/// half of a lane: 2, 1, 0, 0, 6, 5, 4, 0, 10, 9, 8, 0, 14, 13, 12, 0.
pub open spec fn shuffle_index(m: int) -> int {
    if m % 4 == 0 {
        m + 2
    } else if m % 4 == 1 {
        m
    } else if m % 4 == 2 {
        m - 2
    } else {
        0
    }
}

/// The OR mask forcing the fourth byte of every 4-byte group opaque.
pub open spec fn alpha_mask(k: int) -> u8 {
    if k % 4 == 3 {
        255u8
    } else {
        0u8
    }
}

/// One output lane: every byte selected from the input lane through the
/// shuffle table within its 16-byte half, OR-ed with the alpha mask.
pub open spec fn lane_output(pixels: Seq<BGR>, base: int) -> Seq<u8> {
    Seq::new(
        32,
        |k: int| lane_input(pixels, base)[(k / 16) * 16 + shuffle_index(k % 16)] | alpha_mask(k),
    )
}

/// The lane-structured conversion: full 32-byte lanes of 8 pixels, then the
/// remaining pixels in the reference order.
pub open spec fn rgba_lanes_of(pixels: Seq<BGR>) -> Seq<u8> {
    Seq::new(
        pixels.len() * 4,
        |j: int|
            if j < (pixels.len() / 8) * 32 {
                lane_output(pixels, (j / 32) * 8)[j % 32]
            } else {
                rgba_of(pixels)[j]
            },
    )
}

proof fn lemma_or_zero(x: u8)
    ensures
        x | 0 == x,
{
    assert(x | 0 == x) by (bit_vector);
}

proof fn lemma_or_opaque(x: u8)
    ensures
        x | 255 == 255,
{
    assert(x | 255u8 == 255u8) by (bit_vector);
}

/// Scalar and lane-structured conversion paths produce byte-identical
/// interchange buffers for any input, including lengths not divisible by
/// the lane width.
pub proof fn lemma_lanes_agree(pixels: Seq<BGR>)
    ensures
        rgba_lanes_of(pixels) == rgba_of(pixels),
{
    let n = pixels.len() as int;
    assert forall|j: int| 0 <= j < n * 4 implies rgba_lanes_of(pixels)[j] == rgba_of(pixels)[j] by {
        if j < (n / 8) * 32 {
            let q = j / 32;
            let k = j % 32;
            let base = q * 8;
            assert(j == 32 * q + k && 0 <= k < 32) by (nonlinear_arith)
                requires q == j / 32 && k == j % 32 && j >= 0;
            assert((n / 8) * 32 <= n * 4) by (nonlinear_arith);
            let m = k % 16;
            let src = (k / 16) * 16 + shuffle_index(m);
            assert(k == (k / 16) * 16 + m && 0 <= m < 16) by (nonlinear_arith)
                requires m == k % 16 && 0 <= k < 32;
            assert(m % 4 == k % 4) by (nonlinear_arith)
                requires m == k % 16 && k >= 0;
            assert(j % 4 == k % 4) by (nonlinear_arith)
                requires j == 32 * q + k && k >= 0 && q >= 0;
            assert(j / 4 == 8 * q + k / 4) by (nonlinear_arith)
                requires j == 32 * q + k && 0 <= k < 32 && q >= 0;
            // the lane holds in-range pixels: base + 7 < n
            assert(base + 8 <= n) by (nonlinear_arith)
                requires base == q * 8 && q < n / 8 && q == j / 32 && 0 <= j && j < (n / 8) * 32;
            assert(q < n / 8) by (nonlinear_arith)
                requires q == j / 32 && 0 <= j && j < (n / 8) * 32;
            if k % 4 == 0 {
                assert(src == k + 2);
                assert(src / 4 == k / 4 && src % 4 == 2) by (nonlinear_arith)
                    requires src == k + 2 && k % 4 == 0 && k >= 0;
                lemma_or_zero(pixels[base + k / 4].r);
            } else if k % 4 == 1 {
                assert(src == k);
                lemma_or_zero(pixels[base + k / 4].g);
            } else if k % 4 == 2 {
                assert(src == k - 2);
                assert(src / 4 == k / 4 && src % 4 == 0) by (nonlinear_arith)
                    requires src == k - 2 && k % 4 == 2 && k >= 2;
                lemma_or_zero(pixels[base + k / 4].b);
            } else {
                assert(src == (k / 16) * 16);
                assert(src % 4 == 3 || src % 4 == 0) by (nonlinear_arith)
                    requires src == (k / 16) * 16 && 0 <= k < 32;
                lemma_or_opaque(lane_input(pixels, base)[src]);
            }
        }
    };
    assert(rgba_lanes_of(pixels) =~= rgba_of(pixels));
}

/// Lane-structured conversion to the opaque 4-channel order, modelled on a
/// 256-bit shuffle kernel: 8 pixels are gathered into a 32-byte lane, every
/// byte is selected through a fixed shuffle table within its 16-byte half
/// and OR-ed with an opacity mask, and a scalar tail handles any pixels
/// left over. Produces exactly the bytes of the reference loop.
pub fn bgr_to_rgba_bytes_lanes(data: &[BGR]) -> (r: Vec<u8>)
    ensures
        r@ == rgba_lanes_of(data@),
        r@ == rgba_of(data@),
{
    let n: usize = data.len();
    let chunks: usize = n / 8;
    let shuffle: Vec<usize> = vec![2, 1, 0, 0, 6, 5, 4, 0, 10, 9, 8, 0, 14, 13, 12, 0];
    proof {
        assert forall|m: int| 0 <= m < 16 implies shuffle@[m] == shuffle_index(m) by {
            if m == 0 || m == 4 || m == 8 || m == 12 {
            } else if m == 1 || m == 5 || m == 9 || m == 13 {
            } else if m == 2 || m == 6 || m == 10 || m == 14 {
            }
        }
        assert((n as int / 8) * 32 <= n as int * 4) by (nonlinear_arith);
    }
    let mut out: Vec<u8> = Vec::new();
    let mut step: usize = 0;
    while step < chunks
        invariant
            0 <= step <= chunks,
            chunks == n as int / 8,
            n == data@.len(),
            (n as int / 8) * 32 <= n as int * 4,
            shuffle@.len() == 16,
            forall|m: int| 0 <= m < 16 ==> shuffle@[m] == shuffle_index(m),
            out@.len() == step * 32,
            forall|j: int| 0 <= j < step * 32 ==> out@[j] == rgba_lanes_of(data@)[j],
        decreases chunks - step,
    {
        let base: usize = step * 8;
        proof {
            assert(base + 8 <= n) by (nonlinear_arith)
                requires base == step * 8 && step < n as int / 8;
            assert((step + 1) * 32 <= (n as int / 8) * 32) by (nonlinear_arith)
                requires step < n as int / 8;
        }
        // Gather the input lane: the native b, g, r, pad byte order.
        let mut lane: Vec<u8> = Vec::new();
        let mut q: usize = 0;
        while q < 8
            invariant
                0 <= q <= 8,
                n == data@.len(),
                base + 8 <= n,
                lane@.len() == q * 4,
                forall|k: int| 0 <= k < q * 4 ==> lane@[k] == lane_input(data@, base as int)[k],
            decreases 8 - q,
        {
            let p = data[base + q];
            lane.push(p.b);
            lane.push(p.g);
            lane.push(p.r);
            lane.push(0);
            q = q + 1;
        }
        proof {
            assert(lane@ =~= lane_input(data@, base as int));
        }
        // Shuffle each 16-byte half through the table, forcing the fourth
        // byte of every group opaque.
        let mut k: usize = 0;
        while k < 32
            invariant
                0 <= k <= 32,
                n == data@.len(),
                chunks == n as int / 8,
                step < chunks,
                base == step * 8,
                (n as int / 8) * 32 <= n as int * 4,
                lane@ == lane_input(data@, base as int),
                shuffle@.len() == 16,
                forall|m: int| 0 <= m < 16 ==> shuffle@[m] == shuffle_index(m),
                out@.len() == step * 32 + k,
                forall|j: int| 0 <= j < step * 32 ==> out@[j] == rgba_lanes_of(data@)[j],
                forall|j: int| step * 32 <= j < step * 32 + k ==> out@[j] == lane_output(
                    data@,
                    base as int,
                )[j - step * 32],
        decreases 32 - k,
        {
            let m: usize = k % 16;
            proof {
                assert(k as int == (k as int / 16) * 16 + m && 0 <= m < 16) by (nonlinear_arith)
                    requires m == k as int % 16 && 0 <= k < 32;
                assert(0 <= shuffle_index(m as int) < 16);
            }
            let src: usize = (k / 16) * 16 + shuffle[m];
            proof {
                assert(src < 32);
            }
            let byte = lane[src];
            let alpha: u8 = if k % 4 == 3 { 255 } else { 0 };
            proof {
                assert(alpha == alpha_mask(k as int)) by (nonlinear_arith)
                    requires
                        0 <= k < 32 && m == k as int % 16 && (alpha == if k as int % 4 == 3 { 255u8 } else { 0u8 });
            }
            out.push(byte | alpha);
            k = k + 1;
        }
        step = step + 1;
        proof {
            assert forall|j: int| 0 <= j < step * 32 implies out@[j] == rgba_lanes_of(data@)[j] by {
                if j >= (step - 1) * 32 {
                    let kk = j - (step - 1) * 32;
                    assert(j / 32 == step - 1 && j % 32 == kk) by (nonlinear_arith)
                        requires j == (step - 1) * 32 + kk && 0 <= kk < 32;
                    assert(j < (n as int / 8) * 32) by (nonlinear_arith)
                        requires j < step * 32 && step <= n as int / 8;
                }
            }
        }
    }
    // Handle any remaining pixels one at a time.
    let mut i: usize = chunks * 8;
    proof {
        assert(chunks * 8 <= n && chunks * 32 == (n as int / 8) * 32) by (nonlinear_arith)
            requires chunks == n as int / 8;
        assert(out@.len() == i * 4) by (nonlinear_arith)
            requires out@.len() == chunks * 32 && i == chunks * 8;
    }
    while i < n
        invariant
            chunks * 8 <= i <= n,
            n == data@.len(),
            chunks == n as int / 8,
            out@.len() == i * 4,
            forall|j: int| 0 <= j < chunks * 32 ==> out@[j] == rgba_lanes_of(data@)[j],
            forall|j: int| chunks * 32 <= j < i * 4 ==> out@[j] == rgba_of(data@)[j],
        decreases n - i,
    {
        let p = data[i];
        proof {
            assert(chunks * 32 <= i * 4) by (nonlinear_arith)
                requires chunks * 8 <= i;
        }
        out.push(p.r);
        out.push(p.g);
        out.push(p.b);
        out.push(255);
        i = i + 1;
    }
    proof {
        assert forall|j: int| 0 <= j < n as int * 4 implies out@[j] == rgba_lanes_of(data@)[j] by {
            if j >= chunks * 32 {
                assert(rgba_lanes_of(data@)[j] == rgba_of(data@)[j]);
            }
        }
        assert(out@ =~= rgba_lanes_of(data@));
        lemma_lanes_agree(data@);
    }
    out
}

/// An owned interchange image: a self-contained, fully opaque 4-channel
/// buffer in the canonical interchange order, independent of any backend
/// resource.
#[derive(Debug)]
pub struct RgbaBuffer {
    width: u32,
    height: u32,
    data: Vec<u8>,
}

impl Clone for RgbaBuffer {
    /// The clone carries the same dimensions and bytes.
    fn clone(&self) -> (r: Self)
        ensures
            r.spec_width() == self.spec_width(),
            r.spec_height() == self.spec_height(),
            r.spec_data() == self.spec_data(),
    {
        proof {
            use_type_invariant(self);
        }
        let mut data: Vec<u8> = Vec::new();
        let n: usize = self.data.len();
        let mut i: usize = 0;
        while i < n
            invariant
                0 <= i <= n,
                n == self.data@.len(),
                data@.len() == i,
                forall|j: int| 0 <= j < i ==> data@[j] == self.data@[j],
            decreases n - i,
        {
            data.push(self.data[i]);
            i = i + 1;
        }
        proof {
            assert(data@ =~= self.data@);
        }
        RgbaBuffer { width: self.width, height: self.height, data }
    }
}

impl RgbaBuffer {
    /// The byte buffer covers exactly four bytes per raster pixel.
    #[verifier::type_invariant]
    pub closed spec fn wf(self) -> bool {
        self.data@.len() == 4 * (self.width * self.height)
    }

    /// The width of the image, in pixels.
    pub closed spec fn spec_width(&self) -> u32 {
        self.width
    }

    /// The height of the image, in pixels.
    pub closed spec fn spec_height(&self) -> u32 {
        self.height
    }

    /// The interchange bytes, four per pixel in row-major order.
    pub closed spec fn spec_data(&self) -> Seq<u8> {
        self.data@
    }

    /// Convert an image into an owned interchange buffer, through the
    /// lane-structured conversion path. Fails only on a stale accessor.
    pub fn from_image<I: ImageBGR>(img: &I) -> (r: Result<RgbaBuffer, ScreenCaptureError>)
        ensures
            img.spec_valid() ==> r is Ok,
            r matches Ok(buf) ==> buf.spec_width() == img.spec_width() && buf.spec_height()
                == img.spec_height() && buf.spec_data() == rgba_of(img.spec_pixels()),
            r matches Err(e) ==> e is InvalidatedAccess,
    {
        let width = img.width();
        let height = img.height();
        let src = match img.data() {
            Ok(d) => d,
            Err(e) => {
                return Err(e);
            },
        };
        let data = bgr_to_rgba_bytes_lanes(src);
        Ok(RgbaBuffer { width, height, data })
    }

    pub fn width(&self) -> (r: u32)
        ensures
            r == self.spec_width(),
    {
        self.width
    }

    pub fn height(&self) -> (r: u32)
        ensures
            r == self.spec_height(),
    {
        self.height
    }

    /// The interchange bytes, four per pixel in row-major order.
    pub fn data(&self) -> (r: &[u8])
        ensures
            r@ == self.spec_data(),
            r@.len() == 4 * (self.spec_width() * self.spec_height()),
    {
        proof {
            use_type_invariant(self);
        }
        self.data.as_slice()
    }
}

/// False color conversion: the native bytes reinterpreted one for
/// one, which leaves blue and red swapped and the result fully
/// translucent. Deliberately faster and non-canonical.
pub fn to_rgba_false<I: ImageBGR>(img: &I) -> (r: Result<OwnedRgbaImage, ScreenCaptureError>)
    ensures
        img.spec_valid() ==> r is Ok,
        r matches Ok(out) ==> rgba_image_data(out) == rgba_false_of(img.spec_pixels()) && rgba_image_dims(out) == (
        if img.spec_width() == 0 || img.spec_height() == 0 {
            (0u32, 0u32)
        } else {
            (img.spec_width(), img.spec_height())
        }),
        r matches Err(e) ==> e is InvalidatedAccess,
{
    let h = img.height();
    let w = img.width();
    let d = match img.data() {
        Ok(d) => d,
        Err(e) => {
            return Err(e);
        },
    };
    let bytes = bgr_to_rgba_false_bytes(d);
    wrap_rgba_bytes(w, h, bytes, Ghost(img.spec_pixels().len()))
}

/// Convert the image to opaque rgba using the reference loop.
pub fn to_rgba_simple<I: ImageBGR>(img: &I) -> (r: Result<OwnedRgbaImage, ScreenCaptureError>)
    ensures
        img.spec_valid() ==> r is Ok,
        r matches Ok(out) ==> rgba_image_data(out) == rgba_of(img.spec_pixels()) && rgba_image_dims(out) == (
        if img.spec_width() == 0 || img.spec_height() == 0 {
            (0u32, 0u32)
        } else {
            (img.spec_width(), img.spec_height())
        }),
        r matches Err(e) ==> e is InvalidatedAccess,
{
    let h = img.height();
    let w = img.width();
    let d = match img.data() {
        Ok(d) => d,
        Err(e) => {
            return Err(e);
        },
    };
    let bytes = bgr_to_rgba_bytes(d);
    wrap_rgba_bytes(w, h, bytes, Ghost(img.spec_pixels().len()))
}

/// Convert the image to opaque rgba using the most efficient
/// conversion path available, the lane-structured one, which produces
/// exactly the bytes of the reference loop.
pub fn to_rgba<I: ImageBGR>(img: &I) -> (r: Result<OwnedRgbaImage, ScreenCaptureError>)
    ensures
        img.spec_valid() ==> r is Ok,
        r matches Ok(out) ==> rgba_image_data(out) == rgba_of(img.spec_pixels()) && rgba_image_dims(out) == (
        if img.spec_width() == 0 || img.spec_height() == 0 {
            (0u32, 0u32)
        } else {
            (img.spec_width(), img.spec_height())
        }),
        r matches Err(e) ==> e is InvalidatedAccess,
{
    let h = img.height();
    let w = img.width();
    let d = match img.data() {
        Ok(d) => d,
        Err(e) => {
            return Err(e);
        },
    };
    let bytes = bgr_to_rgba_bytes_lanes(d);
    wrap_rgba_bytes(w, h, bytes, Ghost(img.spec_pixels().len()))
}

/// Convert the image to packed rgb.
pub fn to_rgb<I: ImageBGR>(img: &I) -> (r: Result<OwnedRgbImage, ScreenCaptureError>)
    ensures
        img.spec_valid() ==> r is Ok,
        r matches Ok(out) ==> rgb_image_data(out) == rgb_of(img.spec_pixels()) && rgb_image_dims(out) == (
        if img.spec_width() == 0 || img.spec_height() == 0 {
            (0u32, 0u32)
        } else {
            (img.spec_width(), img.spec_height())
        }),
        r matches Err(e) ==> e is InvalidatedAccess,
{
    let h = img.height();
    let w = img.width();
    let d = match img.data() {
        Ok(d) => d,
        Err(e) => {
            return Err(e);
        },
    };
    let bytes = bgr_to_rgb_bytes(d);
    wrap_rgb_bytes(w, h, bytes, Ghost(img.spec_pixels().len()))
}

/// Hand converted 4-channel bytes to the image crate as an owned buffer.
/// An empty raster keeps zero dimensions so that the buffer check of the
/// image crate accepts it on any machine.
fn wrap_rgba_bytes(w: u32, h: u32, bytes: Vec<u8>, Ghost(n): Ghost<nat>) -> (r: Result<
    OwnedRgbaImage,
    ScreenCaptureError,
>)
    requires
        n == w * h,
        bytes@.len() == 4 * n,
    ensures
        r matches Ok(img) && rgba_image_data(img) == bytes@ && rgba_image_dims(img) == (
        if w == 0 || h == 0 {
            (0u32, 0u32)
        } else {
            (w, h)
        }),
{
    let blen: usize = bytes.len();
    proof {
        assert(blen == bytes@.len());
    }
    let opt = if h == 0 || w == 0 {
        proof {
            assert((w * h) as int == 0) by (nonlinear_arith)
                requires w == 0 || h == 0;
        }
        rgba_from_raw(0, 0, bytes)
    } else {
        proof {
            assert(4 * (w as int) <= 4 * (w as int) * (h as int) && 4 * (w as int) * (h as int)
                == 4 * ((w * h) as int)) by (nonlinear_arith)
                requires w >= 1 && h >= 1;
        }
        rgba_from_raw(w, h, bytes)
    };
    match opt {
        Some(img) => Ok(img),
        None => {
            proof {
                assert(false);
            }
            Err(ScreenCaptureError::Initialisation { msg: "image buffer rejected".to_string() })
        },
    }
}

/// Hand converted 3-channel bytes to the image crate as an owned buffer,
/// like `wrap_rgba_bytes`.
fn wrap_rgb_bytes(w: u32, h: u32, bytes: Vec<u8>, Ghost(n): Ghost<nat>) -> (r: Result<
    OwnedRgbImage,
    ScreenCaptureError,
>)
    requires
        n == w * h,
        bytes@.len() == 3 * n,
    ensures
        r matches Ok(img) && rgb_image_data(img) == bytes@ && rgb_image_dims(img) == (
        if w == 0 || h == 0 {
            (0u32, 0u32)
        } else {
            (w, h)
        }),
{
    let blen: usize = bytes.len();
    proof {
        assert(blen == bytes@.len());
    }
    let opt = if h == 0 || w == 0 {
        proof {
            assert((w * h) as int == 0) by (nonlinear_arith)
                requires w == 0 || h == 0;
        }
        rgb_from_raw(0, 0, bytes)
    } else {
        proof {
            assert(3 * (w as int) <= 3 * (w as int) * (h as int) && 3 * (w as int) * (h as int)
                == 3 * ((w * h) as int)) by (nonlinear_arith)
                requires w >= 1 && h >= 1;
        }
        rgb_from_raw(w, h, bytes)
    };
    match opt {
        Some(img) => Ok(img),
        None => {
            proof {
                assert(false);
            }
            Err(ScreenCaptureError::Initialisation { msg: "image buffer rejected".to_string() })
        },
    }
}

} // verus!
