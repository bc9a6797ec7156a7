//! An in-memory capture backend following the shared-memory discipline.
//!
//! The backend snapshots a raster image it owns, crops it to the prepared
//! region, and hands out accessors that share a poison flag with the
//! snapshot they were derived from: the moment a newer snapshot is taken
//! or the backend is re-prepared, every accessor of the superseded
//! snapshot fails its reads with an invalidated-access error. Each new
//! snapshot allocates a fresh flag, so invalidation is scoped to exactly
//! the accessors that are now stale.

use vstd::prelude::*;
use std::sync::Arc;
use std::sync::atomic::{AtomicBool, Ordering};
use crate::{BGR, Capture, CaptureRegion, ImageBGR, Resolution, ScreenCaptureError, lemma_row_major_index, spec_clamp_region};
use crate::raster_image::RasterImageBGR;

verus! {

/// A boolean flag shared between a backend and every accessor derived from
/// one snapshot. Nothing is promised about the value a load observes: two
/// reads of the same flag may differ, which is exactly the situation of an
/// accessor whose backing snapshot another handle may supersede at any
/// moment. Everything built on top is therefore verified for every
/// possible observation.
pub struct SharedFlag {
    inner: Arc<AtomicBool>,
}

impl SharedFlag {
    /// A fresh flag, shared with nobody yet.
    pub fn new() -> (r: SharedFlag) {
        SharedFlag { inner: Arc::new(AtomicBool::new(false)) }
    }

    /// Another handle to the same flag. Relies on `Clone` for `Arc`: the
    /// clone is a new handle to the same allocation.
    #[verifier::external_body]
    pub fn share(&self) -> (r: SharedFlag) {
        SharedFlag { inner: self.inner.clone() }
    }

    /// Raise the flag, for every handle at once.
    pub fn set(&self) {
        (*self.inner).store(true, Ordering::Relaxed);
    }

    /// Observe the flag.
    pub fn is_set(&self) -> (r: bool) {
        (*self.inner).load(Ordering::Relaxed)
    }
}

/// An accessor bound to one snapshot of the in-memory backend. It carries
/// its own copy of the snapshot's pixels together with the poison flag of
/// that snapshot; every pixel or buffer read first checks the flag and
/// fails with an invalidated-access error once the snapshot has been
/// superseded, so that stale reads are a reported error, never silently
/// ignored.
pub struct SnapshotImageBGR {
    width: u32,
    height: u32,
    data: Vec<BGR>,
    poison: SharedFlag,
}

impl SnapshotImageBGR {
    /// The pixel buffer covers exactly the raster and the pixel count fits
    /// the 32-bit index arithmetic.
    #[verifier::type_invariant]
    pub closed spec fn wf(self) -> bool {
        &&& self.data@.len() == self.width * self.height
        &&& self.width * self.height <= u32::MAX
    }
}

impl ImageBGR for SnapshotImageBGR {
    closed spec fn spec_width(&self) -> u32 {
        self.width
    }

    closed spec fn spec_height(&self) -> u32 {
        self.height
    }

    closed spec fn spec_pixels(&self) -> Seq<BGR> {
        self.data@
    }

    open spec fn spec_valid(&self) -> bool {
        false
    }

    fn width(&self) -> (r: u32) {
        proof {
            use_type_invariant(self);
        }
        self.width
    }

    fn height(&self) -> (r: u32) {
        proof {
            use_type_invariant(self);
        }
        self.height
    }

    fn pixel(&self, x: u32, y: u32) -> (r: Result<BGR, ScreenCaptureError>) {
        proof {
            use_type_invariant(self);
        }
        if self.poison.is_set() {
            return Err(ScreenCaptureError::InvalidatedAccess { msg: stale_access_message() });
        }
        if x < self.width && y < self.height {
            proof {
                lemma_row_major_index(self.width, x as int, y as int);
                assert((y + 1) * self.width <= self.height * self.width) by (nonlinear_arith)
                    requires y < self.height;
                assert(self.height * self.width == self.width * self.height) by (nonlinear_arith);
            }
            Ok(self.data[(y * self.width + x) as usize])
        } else {
            Err(ScreenCaptureError::Initialisation { msg: pixel_range_message() })
        }
    }

    fn data(&self) -> (r: Result<&[BGR], ScreenCaptureError>) {
        if self.poison.is_set() {
            return Err(ScreenCaptureError::InvalidatedAccess { msg: stale_access_message() });
        }
        Ok(self.data.as_slice())
    }
}

/// The crop of a row-major pixel buffer with the given stride to a region.
pub open spec fn spec_crop(pixels: Seq<BGR>, stride: int, x: int, y: int, width: int, height: int) -> Seq<BGR> {
    Seq::new((width * height) as nat, |k: int| pixels[(y + k / width) * stride + x + k % width])
}

/// Capture backend over an in-memory display content, following the
/// shared-memory poisoning discipline.
pub struct MemoryCapture {
    content: RasterImageBGR,
    region: Option<CaptureRegion>,
    snapshot: Option<RasterImageBGR>,
    poison: SharedFlag,
}

impl MemoryCapture {
    /// The pixels the in-memory display currently shows.
    pub closed spec fn spec_content(&self) -> Seq<BGR> {
        self.content.spec_pixels()
    }

    /// A new backend showing the given content, with nothing prepared and
    /// no snapshot.
    pub fn new(content: RasterImageBGR) -> (r: MemoryCapture)
        ensures
            r.spec_content() == content.spec_pixels(),
            r.spec_region() is None,
            !r.spec_prepared(),
            !r.spec_has_snapshot(),
            r.spec_resolution() == (Resolution {
                width: content.spec_width(),
                height: content.spec_height(),
            }),
    {
        MemoryCapture { content, region: None, snapshot: None, poison: SharedFlag::new() }
    }

    /// Replace the displayed content, modelling a display change. The
    /// prepared region and the held snapshot are kept; a capture after a
    /// change of resolution fails until the backend is prepared again.
    pub fn set_content(&mut self, content: RasterImageBGR)
        ensures
            final(self).spec_content() == content.spec_pixels(),
            final(self).spec_region() == old(self).spec_region(),
            final(self).spec_prepared() == old(self).spec_prepared(),
            final(self).spec_has_snapshot() == old(self).spec_has_snapshot(),
            final(self).spec_snapshot() == old(self).spec_snapshot(),
            final(self).spec_snapshot_width() == old(self).spec_snapshot_width(),
            final(self).spec_snapshot_height() == old(self).spec_snapshot_height(),
            final(self).spec_resolution() == (Resolution {
                width: content.spec_width(),
                height: content.spec_height(),
            }),
    {
        self.content = content;
    }

    /// Invalidate every outstanding accessor of the current snapshot and
    /// start a fresh poison flag, scoped to the next snapshot: only
    /// accessors of the superseded snapshot fail, never future ones.
    pub fn poison_image(&mut self)
        ensures
            final(self).spec_content() == old(self).spec_content(),
            final(self).spec_region() == old(self).spec_region(),
            final(self).spec_prepared() == old(self).spec_prepared(),
            final(self).spec_has_snapshot() == old(self).spec_has_snapshot(),
            final(self).spec_snapshot() == old(self).spec_snapshot(),
            final(self).spec_snapshot_width() == old(self).spec_snapshot_width(),
            final(self).spec_snapshot_height() == old(self).spec_snapshot_height(),
            final(self).spec_resolution() == old(self).spec_resolution(),
    {
        self.poison.set();
        self.poison = SharedFlag::new();
    }

    /// Prepare the backend for a capture region, clamped against the live
    /// display geometry. Tears down the held snapshot and invalidates all
    /// prior accessors; always succeeds on this backend.
    pub fn prepare(&mut self, x: u32, y: u32, width: u32, height: u32) -> (r: Result<
        (),
        ScreenCaptureError,
    >)
        ensures
            r is Ok,
            final(self).spec_region() == Some(
                spec_clamp_region(old(self).spec_resolution(), x, y, width, height),
            ),
            !final(self).spec_has_snapshot(),
            final(self).spec_content() == old(self).spec_content(),
            final(self).spec_resolution() == old(self).spec_resolution(),
    {
        // Invalidate every accessor of the superseded snapshot and start a
        // fresh flag for the next one.
        self.poison_image();
        let res_width = self.content.width();
        let res_height = self.content.height();
        let w0 = if width != 0 { width } else { res_width };
        let w1 = if w0 < res_width { w0 } else { res_width };
        let h0 = if height != 0 { height } else { res_height };
        let h1 = if h0 < res_height { h0 } else { res_height };
        let x1 = if x < res_width { x } else { res_width };
        let y1 = if y < res_height { y } else { res_height };
        let w2 = if w1 < res_width - x1 { w1 } else { res_width - x1 };
        let h2 = if h1 < res_height - y1 { h1 } else { res_height - y1 };
        self.region = Some(CaptureRegion { x: x1, y: y1, width: w2, height: h2 });
        self.snapshot = None;
        Ok(())
    }
}

/// Whether a prepared region still lies within the display geometry.
pub open spec fn spec_region_fits(reg: CaptureRegion, res: Resolution) -> bool {
    &&& reg.x + reg.width <= res.width
    &&& reg.y + reg.height <= res.height
}

impl MemoryCapture {
    /// Take a new snapshot of the prepared region, invalidating every
    /// accessor of the superseded snapshot first. Capturing before
    /// preparing is an initialisation error; a region that no longer fits
    /// the display, after the content changed resolution, is a transient
    /// failure until the backend is prepared again.
    pub fn take_snapshot(&mut self) -> (r: Result<(), ScreenCaptureError>)
        ensures
            final(self).spec_region() == old(self).spec_region(),
            final(self).spec_content() == old(self).spec_content(),
            final(self).spec_resolution() == old(self).spec_resolution(),
            old(self).spec_region() is None ==> (r matches Err(e) && e is Initialisation)
                && final(self).spec_has_snapshot() == old(self).spec_has_snapshot(),
            old(self).spec_region() matches Some(reg) ==> (if spec_region_fits(
                reg,
                old(self).spec_resolution(),
            ) {
                &&& r is Ok
                &&& final(self).spec_has_snapshot()
                &&& final(self).spec_snapshot_width() == reg.width
                &&& final(self).spec_snapshot_height() == reg.height
                &&& final(self).spec_snapshot() == spec_crop(
                    old(self).spec_content(),
                    old(self).spec_resolution().width as int,
                    reg.x as int,
                    reg.y as int,
                    reg.width as int,
                    reg.height as int,
                )
            } else {
                &&& r matches Err(e) && e is Transient
                &&& final(self).spec_has_snapshot() == old(self).spec_has_snapshot()
            }),
    {
        // A new frame alters the shared snapshot storage: invalidate every
        // outstanding accessor first, then start a fresh flag scoped to
        // the new snapshot.
        self.poison_image();
        let reg = match self.region {
            Some(reg) => reg,
            None => {
                return Err(
                    ScreenCaptureError::Initialisation {
                        msg: "capturing an image before preparing the capture".to_string(),
                    },
                );
            },
        };
        let res_width = self.content.width();
        let res_height = self.content.height();
        if !(reg.x <= res_width && reg.width <= res_width - reg.x && reg.y <= res_height
            && reg.height <= res_height - reg.y) {
            return Err(
                ScreenCaptureError::Transient {
                    msg: "the display geometry changed, prepare the capture again".to_string(),
                },
            );
        }
        let ghost content_pixels = self.content.spec_pixels();
        let mut data: Vec<BGR> = Vec::new();
        let mut j: u32 = 0;
        while j < reg.height
            invariant
                0 <= j <= reg.height,
                reg.x + reg.width <= res_width,
                reg.y + reg.height <= res_height,
                res_width == self.content.spec_width(),
                res_height == self.content.spec_height(),
                content_pixels == self.content.spec_pixels(),
                content_pixels.len() == res_width * res_height,
                res_width * res_height <= u32::MAX,
                data@.len() == j * reg.width,
                forall|k: int| 0 <= k < j * reg.width ==> data@[k] == spec_crop(
                    content_pixels,
                    res_width as int,
                    reg.x as int,
                    reg.y as int,
                    reg.width as int,
                    reg.height as int,
                )[k],
            decreases reg.height - j,
        {
            let mut i: u32 = 0;
            proof {
                assert((j + 1) * reg.width <= reg.height * reg.width) by (nonlinear_arith)
                    requires j + 1 <= reg.height && reg.width >= 0;
                assert(reg.height * reg.width <= res_height * res_width) by (nonlinear_arith)
                    requires reg.height <= res_height && reg.width <= res_width;
                assert(res_height * res_width == res_width * res_height) by (nonlinear_arith);
            }
            while i < reg.width
                invariant
                    0 <= i <= reg.width,
                    0 <= j < reg.height,
                    reg.x + reg.width <= res_width,
                    reg.y + reg.height <= res_height,
                    res_width == self.content.spec_width(),
                    res_height == self.content.spec_height(),
                    content_pixels == self.content.spec_pixels(),
                    content_pixels.len() == res_width * res_height,
                    res_width * res_height <= u32::MAX,
                    (j + 1) * reg.width <= u32::MAX,
                    data@.len() == j * reg.width + i,
                    forall|k: int| 0 <= k < j * reg.width + i ==> data@[k] == spec_crop(
                        content_pixels,
                        res_width as int,
                        reg.x as int,
                        reg.y as int,
                        reg.width as int,
                        reg.height as int,
                    )[k],
                decreases reg.width - i,
            {
                let px = *self.content.data_rgb(reg.x + i, reg.y + j);
                data.push(px);
                proof {
                    lemma_row_major_index(reg.width, i as int, j as int);
                    assert((j * reg.width + i) < (j + 1) * reg.width) by (nonlinear_arith)
                        requires 0 <= i < reg.width && j >= 0;
                    assert((j + 1) * reg.width <= reg.height * reg.width) by (nonlinear_arith)
                        requires j + 1 <= reg.height && reg.width >= 0;
                    assert(reg.height * reg.width == reg.width * reg.height) by (nonlinear_arith);
                    assert(spec_crop(
                        content_pixels,
                        res_width as int,
                        reg.x as int,
                        reg.y as int,
                        reg.width as int,
                        reg.height as int,
                    )[j * reg.width + i] == content_pixels[(reg.y + j) * res_width + reg.x + i]);
                }
                i = i + 1;
            }
            j = j + 1;
            proof {
                assert(j * reg.width == (j - 1) * reg.width + reg.width) by (nonlinear_arith);
            }
        }
        proof {
            assert(reg.height * reg.width == reg.width * reg.height) by (nonlinear_arith);
            assert(reg.width * reg.height <= res_width * res_height) by (nonlinear_arith)
                requires reg.height <= res_height && reg.width <= res_width;
        }
        self.snapshot = Some(RasterImageBGR::from_raw_parts(reg.width, reg.height, data));
        Ok(())
    }

    /// Retrieve an accessor bound to the snapshot currently held: the
    /// accessor carries the snapshot's pixels and dimensions and shares
    /// the snapshot's poison flag. Succeeds exactly when a snapshot is
    /// held; requesting an accessor before a capture succeeded is an
    /// initialisation error. The backend state is untouched.
    pub fn snapshot_image(&mut self) -> (r: Result<SnapshotImageBGR, ScreenCaptureError>)
        ensures
            old(self).spec_has_snapshot() ==> (r matches Ok(img) && img.spec_width() == old(
            self).spec_snapshot_width() && img.spec_height() == old(self).spec_snapshot_height()
                && img.spec_pixels() == old(self).spec_snapshot()),
            !old(self).spec_has_snapshot() ==> (r matches Err(e) && e is Initialisation),
            final(self).spec_region() == old(self).spec_region(),
            final(self).spec_content() == old(self).spec_content(),
            final(self).spec_has_snapshot() == old(self).spec_has_snapshot(),
            final(self).spec_snapshot() == old(self).spec_snapshot(),
            final(self).spec_snapshot_width() == old(self).spec_snapshot_width(),
            final(self).spec_snapshot_height() == old(self).spec_snapshot_height(),
            final(self).spec_resolution() == old(self).spec_resolution(),
    {
        let snap = match &self.snapshot {
            Some(snap) => snap,
            None => {
                return Err(
                    ScreenCaptureError::Initialisation {
                        msg: "a capture needs to succeed before image retrieval".to_string(),
                    },
                );
            },
        };
        let width = snap.width();
        let height = snap.height();
        let src = match snap.data() {
            Ok(d) => d,
            Err(_) => {
                proof {
                    assert(false);
                }
                return Err(
                    ScreenCaptureError::Initialisation { msg: "unreachable".to_string() },
                );
            },
        };
        let n: usize = src.len();
        let mut data: Vec<BGR> = Vec::new();
        let mut i: usize = 0;
        while i < n
            invariant
                0 <= i <= n,
                n == src@.len(),
                data@.len() == i,
                forall|k: int| 0 <= k < i ==> data@[k] == src@[k],
            decreases n - i,
        {
            data.push(src[i]);
            i = i + 1;
        }
        proof {
            assert(data@ =~= src@);
        }
        Ok(SnapshotImageBGR { width, height, data, poison: self.poison.share() })
    }
}

impl Capture for MemoryCapture {
    type Img = SnapshotImageBGR;

    closed spec fn spec_prepared(&self) -> bool {
        self.region is Some
    }

    closed spec fn spec_region(&self) -> Option<CaptureRegion> {
        self.region
    }

    closed spec fn spec_has_snapshot(&self) -> bool {
        self.snapshot is Some
    }

    closed spec fn spec_snapshot(&self) -> Seq<BGR> {
        self.snapshot.unwrap().spec_pixels()
    }

    closed spec fn spec_snapshot_width(&self) -> u32 {
        self.snapshot.unwrap().spec_width()
    }

    closed spec fn spec_snapshot_height(&self) -> u32 {
        self.snapshot.unwrap().spec_height()
    }

    closed spec fn spec_resolution(&self) -> Resolution {
        Resolution { width: self.content.spec_width(), height: self.content.spec_height() }
    }

    fn capture_image(&mut self) -> (r: Result<(), ScreenCaptureError>) {
        self.take_snapshot()
    }

    fn image(&mut self) -> (r: Result<SnapshotImageBGR, ScreenCaptureError>) {
        self.snapshot_image()
    }

    fn resolution(&mut self) -> (r: Resolution) {
        Resolution { width: self.content.width(), height: self.content.height() }
    }

    fn prepare_capture(&mut self, display: u32, x: u32, y: u32, width: u32, height: u32) -> (r:
        Result<(), ScreenCaptureError>) {
        MemoryCapture::prepare(self, x, y, width, height)
    }
}

/// The message reported when a stale accessor is read.
fn stale_access_message() -> String {
    "interacting with a stale image, capture again first".to_string()
}

/// The message reported for an out-of-range pixel access.
fn pixel_range_message() -> String {
    "pixel coordinates out of range".to_string()
}

} // verus!
