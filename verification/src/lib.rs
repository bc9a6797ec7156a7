//! Access to the current contents of a display output.
//!
//! The crate is built around one capability contract for platform capture
//! backends, a read-only image accessor over a captured frame, pixel-format
//! conversion routines proved equivalent to a reference loop, a rule-based
//! matcher that turns a display resolution into a concrete capture region,
//! and the pure scheduling decisions of a rate-controlled capture worker.

use vstd::prelude::*;

pub mod border_detection;
pub mod capturer;
pub mod convert;
pub mod duplication;
pub mod memory_capture;
pub mod raster_image;
pub mod rectangle;
pub mod sampler;
pub mod util;

verus! {

/// The errors that may be returned; strings hold platform specific error messages.
#[derive(Debug, Eq, PartialEq, Ord, PartialOrd, Hash, Clone)]
pub enum ScreenCaptureError {
    /// An issue happened during initialisation.
    ///
    /// This points at a fundamental issue that needs to be resolved, like a
    /// missing capture extension, or capturing an image before preparing the
    /// capture. Fatal: the same backend instance must not be retried.
    Initialisation { msg: String },
    /// Permission to capture was denied.
    ///
    /// This may be temporary, for example during an elevation prompt; the
    /// caller should retry after a backoff.
    PermissionDenied { msg: String },
    /// A temporary failure; an immediate retry is appropriate.
    Transient { msg: String },
    /// The capture device, session or context was invalidated; the caller
    /// must fully recreate the backend, not just prepare it again.
    LostCapture { msg: String },
    /// An image accessor was used after being superseded by a newer snapshot
    /// or a backend teardown. A programming error, never retryable.
    InvalidatedAccess { msg: String },
}

/// Struct to represent a single pixel in BGR channel order, the native
/// capture order of every supported platform.
#[derive(Debug, Default, Copy, Clone, Eq, PartialEq, Structural)]
pub struct BGR {
    pub b: u8,
    pub g: u8,
    pub r: u8,
}

impl BGR {
    /// Extract a pixel from the low three bytes of a native 32-bit pixel
    /// value, laid out as `0x00RRGGBB`.
    pub fn from_i32(v: i32) -> (p: BGR)
        ensures
            p.r == (v >> 16) & 0xFF,
            p.g == (v >> 8) & 0xFF,
            p.b == v & 0xFF,
    {
        let r: i32 = (v >> 16) & 0xFF;
        let g: i32 = (v >> 8) & 0xFF;
        let b: i32 = v & 0xFF;
        assert(0 <= (v >> 16) & 0xFF < 256 && 0 <= (v >> 8) & 0xFF < 256 && 0 <= v & 0xFF < 256)
            by (bit_vector);
        BGR { r: r as u8, g: g as u8, b: b as u8 }
    }
}

/// Struct to represent the resolution of a display.
#[derive(Debug, Default, Copy, Clone, Eq, PartialEq, Structural)]
pub struct Resolution {
    pub width: u32,
    pub height: u32,
}

/// Trait for something that represents a BGR image: a read-only view over
/// one captured frame's pixels, in row-major order.
///
/// An accessor handed out by the shared-memory capture discipline is only
/// a view over a snapshot that the backend may supersede: such an accessor
/// answers `spec_valid() == false` and its read operations either return
/// the snapshot's true values or fail with an invalidated-access error once
/// a newer snapshot exists. Self-contained images always read successfully
/// and answer `spec_valid() == true`.
pub trait ImageBGR {
    /// The width of the image, in pixels.
    spec fn spec_width(&self) -> u32;

    /// The height of the image, in pixels.
    spec fn spec_height(&self) -> u32;

    /// The pixels of the image in row-major order.
    spec fn spec_pixels(&self) -> Seq<BGR>;

    /// Whether every read operation is promised to succeed.
    spec fn spec_valid(&self) -> bool;

    /// Returns the width of the image, along with the guarantee that the
    /// pixel sequence covers exactly the width times height raster and that
    /// the pixel count fits the 32-bit index arithmetic.
    fn width(&self) -> (r: u32)
        ensures
            r == self.spec_width(),
            self.spec_pixels().len() == self.spec_width() * self.spec_height(),
            self.spec_width() * self.spec_height() <= u32::MAX,
    ;

    /// Returns the height of the image, with the same raster guarantee as
    /// `width`.
    fn height(&self) -> (r: u32)
        ensures
            r == self.spec_height(),
            self.spec_pixels().len() == self.spec_width() * self.spec_height(),
            self.spec_width() * self.spec_height() <= u32::MAX,
    ;

    /// Returns a specific pixel's value. The x must be less than the width
    /// and y less than the height; a violation is reported as an
    /// initialisation error, never silently clamped. A stale accessor
    /// reports an invalidated access instead.
    fn pixel(&self, x: u32, y: u32) -> (r: Result<BGR, ScreenCaptureError>)
        ensures
            self.spec_valid() && x < self.spec_width() && y < self.spec_height() ==> r is Ok,
            r matches Ok(p) ==> x < self.spec_width() && y < self.spec_height() && p
                == self.spec_pixels()[y * self.spec_width() + x],
            x >= self.spec_width() || y >= self.spec_height() ==> r is Err,
            r matches Err(e) ==> ((e is Initialisation && (x >= self.spec_width() || y
                >= self.spec_height())) || e is InvalidatedAccess),
    ;

    /// Returns the raw data buffer behind this image, all pixels in
    /// row-major order. A stale accessor reports an invalidated access.
    fn data(&self) -> (r: Result<&[BGR], ScreenCaptureError>)
        ensures
            self.spec_valid() ==> r is Ok,
            r matches Ok(d) ==> d@ == self.spec_pixels(),
            r matches Err(e) ==> e is InvalidatedAccess,
    ;
}

/// A prepared capture region: offsets and size, clamped to lie within the
/// display geometry observed when it was prepared.
#[derive(Debug, Copy, Clone, PartialEq, Eq, Structural)]
pub struct CaptureRegion {
    pub x: u32,
    pub y: u32,
    pub width: u32,
    pub height: u32,
}

/// The clamping `prepare` applies to a requested region against the live
/// display geometry: offsets are clamped to the display, a zero width or
/// height means the remainder of the display from the offset, and the
/// size is clamped so the region never exceeds the display.
pub open spec fn spec_clamp_region(res: Resolution, x: u32, y: u32, width: u32, height: u32) -> CaptureRegion {
    let w0 = if width != 0 { width } else { res.width };
    let w1 = if w0 < res.width { w0 } else { res.width };
    let h0 = if height != 0 { height } else { res.height };
    let h1 = if h0 < res.height { h0 } else { res.height };
    let x1 = if x < res.width { x } else { res.width };
    let y1 = if y < res.height { y } else { res.height };
    let w2 = if w1 < res.width - x1 { w1 } else { (res.width - x1) as u32 };
    let h2 = if h1 < res.height - y1 { h1 } else { (res.height - y1) as u32 };
    CaptureRegion { x: x1, y: y1, width: w2, height: h2 }
}

/// Trait to which the desktop frame grabbers adhere: the capability
/// implemented once per platform. A backend is prepared for a capture
/// region, snapshots the display into an internal buffer, and hands out an
/// image accessor bound to the snapshot currently held.
pub trait Capture {
    /// The accessor type this backend hands out.
    type Img: ImageBGR;

    /// Whether a capture region has been prepared.
    spec fn spec_prepared(&self) -> bool;

    /// Whether a snapshot is currently held.
    spec fn spec_has_snapshot(&self) -> bool;

    /// The pixels of the held snapshot, in row-major order.
    spec fn spec_snapshot(&self) -> Seq<BGR>;

    /// The width of the held snapshot.
    spec fn spec_snapshot_width(&self) -> u32;

    /// The height of the held snapshot.
    spec fn spec_snapshot_height(&self) -> u32;

    /// The full display geometry the backend reports.
    spec fn spec_resolution(&self) -> Resolution;

    /// The capture region the backend was last prepared with, after the
    /// clamping against the display geometry.
    spec fn spec_region(&self) -> Option<CaptureRegion>;

    /// Capture the frame into the prepared internal buffer, creating a
    /// snapshot; accessors of the superseded snapshot are invalidated
    /// first. Capturing before preparing is an initialisation error.
    fn capture_image(&mut self) -> (r: Result<(), ScreenCaptureError>)
        ensures
            r is Ok ==> final(self).spec_has_snapshot(),
            !old(self).spec_prepared() ==> (r matches Err(e) && e is Initialisation),
            final(self).spec_prepared() == old(self).spec_prepared(),
            final(self).spec_region() == old(self).spec_region(),
            final(self).spec_resolution() == old(self).spec_resolution(),
    ;

    /// Retrieve an accessor bound to the snapshot currently held. Fails if
    /// no snapshot exists yet.
    fn image(&mut self) -> (r: Result<Self::Img, ScreenCaptureError>)
        ensures
            r matches Ok(img) ==> old(self).spec_has_snapshot() && img.spec_width() == old(
            self).spec_snapshot_width() && img.spec_height() == old(self).spec_snapshot_height()
                && img.spec_pixels() == old(self).spec_snapshot(),
            !old(self).spec_has_snapshot() ==> r is Err,
            final(self).spec_prepared() == old(self).spec_prepared(),
            final(self).spec_region() == old(self).spec_region(),
            final(self).spec_has_snapshot() == old(self).spec_has_snapshot(),
            final(self).spec_snapshot() == old(self).spec_snapshot(),
            final(self).spec_snapshot_width() == old(self).spec_snapshot_width(),
            final(self).spec_snapshot_height() == old(self).spec_snapshot_height(),
            final(self).spec_resolution() == old(self).spec_resolution(),
    ;

    /// Retrieve the current full display resolution, independent of the
    /// prepared capture region.
    fn resolution(&mut self) -> (r: Resolution)
        ensures
            r == final(self).spec_resolution(),
            final(self).spec_prepared() == old(self).spec_prepared(),
            final(self).spec_region() == old(self).spec_region(),
            final(self).spec_has_snapshot() == old(self).spec_has_snapshot(),
            final(self).spec_snapshot() == old(self).spec_snapshot(),
            final(self).spec_snapshot_width() == old(self).spec_snapshot_width(),
            final(self).spec_snapshot_height() == old(self).spec_snapshot_height(),
    ;

    /// Attempt to prepare capture for a subsection of the entire desktop.
    /// This MUST be called before trying to capture an image, as setup may
    /// happen here. Re-preparing tears down the previous snapshot resource
    /// and invalidates all prior accessors.
    fn prepare_capture(&mut self, display: u32, x: u32, y: u32, width: u32, height: u32) -> (r:
        Result<(), ScreenCaptureError>)
        ensures
            r is Ok ==> final(self).spec_prepared() && final(self).spec_region() == Some(
                spec_clamp_region(old(self).spec_resolution(), x, y, width, height),
            ),
            final(self).spec_resolution() == old(self).spec_resolution(),
    ;
}

/// The row-major position of a coordinate pair: with `0 <= x < width`, the
/// index `y * width + x` decomposes back into exactly that x and y.
pub proof fn lemma_row_major_index(width: u32, x: int, y: int)
    requires
        0 <= x < width,
        0 <= y,
    ensures
        (y * width + x) / (width as int) == y,
        (y * width + x) % (width as int) == x,
        y * width + x >= 0,
        y * width + x < (y + 1) * width,
{
    assert(0 <= y * width + x && y * width + x < (y + 1) * width && y * width + x == y * (
    width as int) + x) by (nonlinear_arith)
        requires
            0 <= x < width,
            0 <= y,
    ;
    vstd::arithmetic::div_mod::lemma_fundamental_div_mod_converse(
        y * (width as int) + x,
        width as int,
        y,
        x,
    );
}

} // verus!
