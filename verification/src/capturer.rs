//! Selecting a capture region from the display resolution, the capture
//! orchestrator, and the scheduling decisions of the rate-controlled worker.

use vstd::prelude::*;
use crate::{Capture, ImageBGR, Resolution, ScreenCaptureError, spec_clamp_region};
use crate::convert::RgbaBuffer;

verus! {

/// Capture specification that conditionally applies.
///
/// If a `match_*` field is populated and matches the resolution's value it
/// will be considered to match and the capture will be set up according to
/// the other fields.
#[derive(Debug, PartialEq, Eq, Default, Copy, Clone)]
pub struct CaptureSpecification {
    /// The resolution's width to match to.
    pub match_width: Option<u32>,
    /// The resolution's height to match to.
    pub match_height: Option<u32>,
    /// The x offset to apply for this specification.
    pub x: u32,
    /// The y offset to apply for this specification.
    pub y: u32,
    /// The width to apply for this specification; resolved to the remaining
    /// width right of the x offset if zero.
    pub width: u32,
    /// The height to apply for this specification; resolved to the remaining
    /// height below the y offset if zero.
    pub height: u32,
    /// The display to set the capture up on.
    pub display: u32,
}

/// Whether a specification's populated match predicates all equal the
/// given resolution; an unpopulated predicate always matches.
pub open spec fn spec_matches(s: CaptureSpecification, width: u32, height: u32) -> bool {
    &&& (s.match_width matches Some(mw) ==> mw == width)
    &&& (s.match_height matches Some(mh) ==> mh == height)
}

/// A matched specification with its unset size fields resolved to the
/// remaining space after the offset; an offset beyond the resolution
/// resolves to zero remaining space.
pub open spec fn spec_resolve(s: CaptureSpecification, width: u32, height: u32) -> CaptureSpecification {
    CaptureSpecification {
        match_width: s.match_width,
        match_height: s.match_height,
        x: s.x,
        y: s.y,
        width: if s.width == 0 { if s.x <= width { (width - s.x) as u32 } else { 0u32 } } else { s.width },
        height: if s.height == 0 { if s.y <= height { (height - s.y) as u32 } else { 0u32 } } else { s.height },
        display: s.display,
    }
}

/// The fallback specification: the full resolution at offset (0, 0) on
/// display 0.
pub open spec fn spec_default_config(width: u32, height: u32) -> CaptureSpecification {
    CaptureSpecification {
        match_width: None,
        match_height: None,
        x: 0u32,
        y: 0u32,
        width: width,
        height: height,
        display: 0u32,
    }
}

/// First-match-wins scan of the rule list.
pub open spec fn spec_get_config(width: u32, height: u32, specs: Seq<CaptureSpecification>) -> CaptureSpecification
    decreases specs.len(),
{
    if specs.len() == 0 {
        spec_default_config(width, height)
    } else if spec_matches(specs[0], width, height) {
        spec_resolve(specs[0], width, height)
    } else {
        spec_get_config(width, height, specs.drop_first())
    }
}

impl CaptureSpecification {
    /// Iterates through the specs to find the first one that matches the
    /// resolution, resolves its missing or zero size values and returns it.
    /// Falls back to a full-resolution default when nothing matches; this
    /// function never fails.
    pub fn get_config(width: u32, height: u32, specs: &[CaptureSpecification]) -> (r: CaptureSpecification)
        ensures
            r == spec_get_config(width, height, specs@),
    {
        let n: usize = specs.len();
        let mut i: usize = 0;
        proof {
            assert(specs@.skip(0) =~= specs@);
        }
        while i < n
            invariant
                0 <= i <= n,
                n == specs@.len(),
                spec_get_config(width, height, specs@) == spec_get_config(width, height, specs@.skip(i as int)),
                forall|j: int| 0 <= j < i ==> !spec_matches(specs@[j], width, height),
            decreases n - i,
        {
            let spec = specs[i];
            let mut matches: bool = true;
            if let Some(match_width) = spec.match_width {
                matches = matches && match_width == width;
            }
            if let Some(match_height) = spec.match_height {
                matches = matches && match_height == height;
            }
            proof {
                assert(specs@.skip(i as int)[0] == specs@[i as int]);
                assert(specs@.skip(i as int).drop_first() =~= specs@.skip(i + 1));
            }
            if matches {
                // We found the best match, copy this and resolve what we can.
                let mut populated: CaptureSpecification = spec;
                populated.width = if populated.width == 0 {
                    if populated.x <= width { width - populated.x } else { 0 }
                } else {
                    populated.width
                };
                populated.height = if populated.height == 0 {
                    if populated.y <= height { height - populated.y } else { 0 }
                } else {
                    populated.height
                };
                return populated;
            }
            i = i + 1;
        }
        proof {
            assert(specs@.skip(n as int) =~= Seq::<CaptureSpecification>::empty());
        }
        // No capture match found... well, return some sane default then.
        CaptureSpecification {
            match_width: None,
            match_height: None,
            x: 0,
            y: 0,
            width,
            height,
            display: 0,
        }
    }
}

/// The matcher result for the first matching rule: the offsets and the
/// display pass through, an explicit size passes through unchanged, and a
/// resolved size never exceeds the resolution minus the offset.
pub proof fn lemma_matcher_first_match(width: u32, height: u32, specs: Seq<CaptureSpecification>, i: int)
    requires
        0 <= i < specs.len(),
        spec_matches(specs[i], width, height),
        forall|j: int| 0 <= j < i ==> !spec_matches(specs[j], width, height),
    ensures
        ({
            let r = spec_get_config(width, height, specs);
            &&& r == spec_resolve(specs[i], width, height)
            &&& r.x == specs[i].x && r.y == specs[i].y && r.display == specs[i].display
            &&& specs[i].width != 0 ==> r.width == specs[i].width
            &&& specs[i].height != 0 ==> r.height == specs[i].height
            &&& (specs[i].width == 0 && r.x <= width) ==> r.x + r.width <= width
            &&& (specs[i].width == 0 && r.x > width) ==> r.width == 0
            &&& (specs[i].height == 0 && r.y <= height) ==> r.y + r.height <= height
            &&& (specs[i].height == 0 && r.y > height) ==> r.height == 0
        }),
    decreases i,
{
    if i > 0 {
        lemma_matcher_first_match(width, height, specs.drop_first(), i - 1);
    }
}

/// Given no matching rule, the matcher returns the full-resolution default
/// specification at offset (0, 0) on display 0.
pub proof fn lemma_matcher_default(width: u32, height: u32, specs: Seq<CaptureSpecification>)
    requires
        forall|j: int| 0 <= j < specs.len() ==> !spec_matches(specs[j], width, height),
    ensures
        spec_get_config(width, height, specs) == spec_default_config(width, height),
    decreases specs.len(),
{
    if specs.len() > 0 {
        lemma_matcher_default(width, height, specs.drop_first());
    }
}

/// Configuration struct, specifying all the configurable properties of
/// the capturer.
#[derive(Debug, Clone, Default)]
pub struct CaptureConfig {
    /// A list of capture specifications; the first one to match is used.
    pub capture: Vec<CaptureSpecification>,
    /// The capture rate in captures per thousand seconds (millihertz),
    /// used only by the threaded capture worker. Zero disables capturing.
    pub rate_millihertz: u32,
}

/// Helper struct to use the capture backend to grab according to
/// configuration: it detects resolution changes, reconfigures the backend
/// through the specification matcher, and produces one accessor per call.
pub struct Capturer<B: Capture> {
    pub config: CaptureConfig,
    pub grabber: B,
    pub cached_resolution: Option<Resolution>,
}

impl<B: Capture> Capturer<B> {
    /// Instantiate a new capture helper around a backend, with
    /// configuration.
    pub fn new(config: CaptureConfig, grabber: B) -> (r: Capturer<B>)
        ensures
            r.config == config,
            r.grabber == grabber,
            r.cached_resolution is None,
    {
        Capturer { config, grabber, cached_resolution: None }
    }

    /// Update the capture region according to the latest resolution: when
    /// the backend reports a resolution different from the cached one, or
    /// none is cached yet, the specification matcher picks the region and
    /// the backend is prepared with it. This is the only path that ever
    /// prepares the backend.
    ///
    /// Returns whether the cached resolution changed.
    pub fn update_resolution(&mut self) -> (r: Result<bool, ScreenCaptureError>)
        ensures
            final(self).config == old(self).config,
            r matches Ok(changed) ==> final(self).cached_resolution == Some(
                final(self).grabber.spec_resolution(),
            ) && changed == (old(self).cached_resolution != final(self).cached_resolution),
            r is Ok && old(self).cached_resolution != Some(final(self).grabber.spec_resolution())
                ==> final(self).grabber.spec_prepared() && final(self).grabber.spec_region() == ({
                let res = final(self).grabber.spec_resolution();
                let cfg = spec_get_config(res.width, res.height, old(self).config.capture@);
                Some(spec_clamp_region(res, cfg.x, cfg.y, cfg.width, cfg.height))
            }),
            r is Ok && old(self).cached_resolution == Some(final(self).grabber.spec_resolution())
                ==> final(self).grabber.spec_region() == old(self).grabber.spec_region(),
            r is Err ==> final(self).cached_resolution == old(self).cached_resolution,
    {
        // First, check if the resolution of the desktop environment has
        // changed; if so, act.
        let current_resolution = self.grabber.resolution();
        let old_resolution = self.cached_resolution;

        let needs_update = match self.cached_resolution {
            None => true,
            Some(cached) => cached != current_resolution,
        };
        if needs_update {
            let width = current_resolution.width;
            let height = current_resolution.height;

            // The resolution has changed: figure out the best match among
            // the configured specifications and prepare the capture
            // accordingly.
            let config = CaptureSpecification::get_config(width, height, self.config.capture.as_slice());

            match self.grabber.prepare_capture(
                config.display,
                config.x,
                config.y,
                config.width,
                config.height,
            ) {
                Ok(_) => {},
                Err(e) => {
                    return Err(e);
                },
            }
            // Store the current resolution.
            self.cached_resolution = Some(current_resolution);
        }
        let changed = match self.cached_resolution {
            None => true,
            Some(cached) => match old_resolution {
                None => true,
                Some(o) => o != cached,
            },
        };
        proof {
            assert(self.cached_resolution == Some(current_resolution));
        }
        Ok(changed)
    }

    /// Set the configuration and clear the cached resolution, forcing
    /// reconfiguration on the next capture.
    pub fn set_config(&mut self, config: CaptureConfig)
        ensures
            final(self).config == config,
            final(self).cached_resolution is None,
            final(self).grabber == old(self).grabber,
    {
        self.cached_resolution = None;  // force reinitialisation.
        self.config = config;
    }

    /// Get a copy of the current config.
    pub fn config(&self) -> (r: CaptureConfig)
        ensures
            r.capture@ == self.config.capture@,
            r.rate_millihertz == self.config.rate_millihertz,
    {
        let n: usize = self.config.capture.len();
        let mut capture: Vec<CaptureSpecification> = Vec::new();
        let mut i: usize = 0;
        while i < n
            invariant
                0 <= i <= n,
                n == self.config.capture@.len(),
                capture@.len() == i,
                forall|j: int| 0 <= j < i ==> capture@[j] == self.config.capture@[j],
            decreases n - i,
        {
            capture.push(self.config.capture[i]);
            i = i + 1;
        }
        proof {
            assert(capture@ =~= self.config.capture@);
        }
        CaptureConfig { capture, rate_millihertz: self.config.rate_millihertz }
    }

    /// Update the resolution and capture a new image: snapshot, then hand
    /// out the accessor bound to that snapshot. Errors from either step
    /// propagate unchanged.
    pub fn capture(&mut self) -> (r: Result<B::Img, ScreenCaptureError>)
        ensures
            final(self).config == old(self).config,
            r matches Ok(img) ==> final(self).grabber.spec_has_snapshot() && img.spec_width()
                == final(self).grabber.spec_snapshot_width() && img.spec_height() == final(self).grabber.spec_snapshot_height() && img.spec_pixels() == final(self).grabber.spec_snapshot() && final(self).cached_resolution is Some,
    {
        match self.update_resolution() {
            Ok(_) => {},
            Err(e) => {
                return Err(e);
            },
        }

        // Now we are ready to try and get the image:
        match self.grabber.capture_image() {
            Ok(_) => {},
            Err(e) => {
                return Err(e);
            },
        }

        // Then, we can grab the actual image.
        self.grabber.image()
    }

    /// One complete capture attempt: capture and convert the accessor to
    /// an owned interchange image, as the worker records it.
    pub fn capture_rgba(&mut self) -> (r: Result<RgbaBuffer, ScreenCaptureError>)
        ensures
            final(self).config == old(self).config,
            r matches Ok(buf) ==> final(self).grabber.spec_has_snapshot() && buf.spec_width()
                == final(self).grabber.spec_snapshot_width() && buf.spec_height() == final(self).grabber.spec_snapshot_height() && buf.spec_data() == crate::convert::rgba_of(
                final(self).grabber.spec_snapshot(),
            ),
    {
        let img = match self.capture() {
            Ok(img) => img,
            Err(e) => {
                return Err(e);
            },
        };
        RgbaBuffer::from_image(&img)
    }
}

/// The bounded wait of the capture worker, in microseconds: the cap on
/// every sleep of the scheduler, so that new configuration or shutdown is
/// noticed promptly.
pub const WORKER_WAIT_CAP_MICROS: u64 = 100000;

/// What the capture worker does next in one loop iteration.
#[derive(Debug, Copy, Clone, PartialEq, Eq, Structural)]
pub enum WorkerAction {
    /// The rate is not strictly positive: capture is disabled, block on
    /// configuration updates, up to the bounded wait.
    AwaitConfig { max_wait_micros: u64 },
    /// The next capture is not due yet: sleep for this long, capped at
    /// the bounded wait, then decide again.
    Sleep { micros: u64 },
    /// Start a capture now.
    Capture,
}

/// The scheduling state of the rate-controlled capture worker: the
/// sequence counter of the last started capture and the end time and
/// processing duration of the previous capture.
#[derive(Debug, Copy, Clone, PartialEq, Eq, Structural)]
pub struct WorkerSchedule {
    /// The sequence counter of the capture started last; increases by one
    /// for every capture.
    pub counter: u64,
    /// When the previous capture finished, in microseconds on the worker
    /// clock.
    pub last_end_micros: u64,
    /// How long the previous capture took, in microseconds.
    pub last_duration_micros: u64,
}

/// The capture interval for a rate in millihertz, in microseconds.
pub open spec fn spec_interval_micros(rate_millihertz: u32) -> int {
    1000000000int / (rate_millihertz as int)
}

/// The desired start time of the next capture: the previous end plus the
/// interval, net of the time the previous capture actually took, kept
/// within the clock's range.
pub open spec fn spec_next_start_micros(s: WorkerSchedule, rate_millihertz: u32) -> int {
    let t = if s.last_end_micros + spec_interval_micros(rate_millihertz) > u64::MAX {
        u64::MAX as int
    } else {
        s.last_end_micros + spec_interval_micros(rate_millihertz)
    };
    if t >= s.last_duration_micros {
        t - s.last_duration_micros
    } else {
        0
    }
}

/// The scheduling decision of one worker iteration at the given time.
pub open spec fn spec_decide(s: WorkerSchedule, rate_millihertz: u32, now_micros: u64) -> WorkerAction {
    if rate_millihertz == 0 {
        WorkerAction::AwaitConfig { max_wait_micros: WORKER_WAIT_CAP_MICROS }
    } else {
        let start = spec_next_start_micros(s, rate_millihertz);
        if now_micros < start {
            let wait = start - now_micros;
            WorkerAction::Sleep {
                micros: if wait < WORKER_WAIT_CAP_MICROS {
                    wait as u64
                } else {
                    WORKER_WAIT_CAP_MICROS
                },
            }
        } else {
            WorkerAction::Capture
        }
    }
}

/// The schedule after one more capture was started.
pub open spec fn spec_begin(s: WorkerSchedule) -> WorkerSchedule {
    WorkerSchedule {
        counter: (s.counter + 1) as u64,
        last_end_micros: s.last_end_micros,
        last_duration_micros: s.last_duration_micros,
    }
}

impl WorkerSchedule {
    /// The schedule of a worker that has not captured yet, started at the
    /// given time.
    pub fn new(now_micros: u64) -> (r: WorkerSchedule)
        ensures
            r.counter == 0,
            r.last_end_micros == now_micros,
            r.last_duration_micros == 0,
    {
        WorkerSchedule { counter: 0, last_end_micros: now_micros, last_duration_micros: 0 }
    }

    /// Decide what the worker does next at the given time under the given
    /// rate.
    pub fn decide(&self, rate_millihertz: u32, now_micros: u64) -> (r: WorkerAction)
        ensures
            r == spec_decide(*self, rate_millihertz, now_micros),
    {
        if rate_millihertz == 0 {
            return WorkerAction::AwaitConfig { max_wait_micros: WORKER_WAIT_CAP_MICROS };
        }
        let interval: u64 = 1000000000 / (rate_millihertz as u64);
        let t: u64 = if self.last_end_micros > u64::MAX - interval {
            u64::MAX
        } else {
            self.last_end_micros + interval
        };
        let start: u64 = if t >= self.last_duration_micros {
            t - self.last_duration_micros
        } else {
            0
        };
        if now_micros < start {
            let wait = start - now_micros;
            WorkerAction::Sleep {
                micros: if wait < WORKER_WAIT_CAP_MICROS {
                    wait
                } else {
                    WORKER_WAIT_CAP_MICROS
                },
            }
        } else {
            WorkerAction::Capture
        }
    }

    /// Start the next capture: the sequence counter increases by exactly
    /// one and its new value numbers the capture.
    pub fn begin_capture(&mut self) -> (c: u64)
        requires
            old(self).counter < u64::MAX,
        ensures
            c == old(self).counter + 1,
            *final(self) == spec_begin(*old(self)),
    {
        self.counter = self.counter + 1;
        self.counter
    }

    /// Record when the capture finished and how long it took, for the next
    /// scheduling decision.
    pub fn finish_capture(&mut self, end_micros: u64, duration_micros: u64)
        ensures
            final(self).counter == old(self).counter,
            final(self).last_end_micros == end_micros,
            final(self).last_duration_micros == duration_micros,
    {
        self.last_end_micros = end_micros;
        self.last_duration_micros = duration_micros;
    }
}

/// A rate of zero never schedules a capture: whatever the schedule state
/// and the time, the worker blocks awaiting configuration instead, until
/// a later configuration restores a strictly positive rate.
pub proof fn lemma_zero_rate_awaits_config(s: WorkerSchedule, now_micros: u64)
    ensures
        spec_decide(s, 0, now_micros) == (WorkerAction::AwaitConfig {
            max_wait_micros: WORKER_WAIT_CAP_MICROS,
        }),
{
}

/// Capture attempts are numbered consecutively: each started capture is
/// numbered exactly one above the previous one, whatever happens to the
/// timing state in between.
pub proof fn lemma_capture_numbers_consecutive(s: WorkerSchedule, end_micros: u64, duration_micros: u64)
    requires
        s.counter + 2 <= u64::MAX,
    ensures
        spec_begin(s).counter == s.counter + 1,
        spec_begin(
            WorkerSchedule {
                counter: spec_begin(s).counter,
                last_end_micros: end_micros,
                last_duration_micros: duration_micros,
            },
        ).counter == s.counter + 2,
{
}

/// One immutable record per completed capture attempt: the result as an
/// owned interchange image or the error, the wall-clock trigger time, the
/// processing duration, and the sequence counter of the attempt.
#[derive(Debug)]
pub struct CaptureInfo {
    /// The result of the capture.
    pub result: Result<RgbaBuffer, ScreenCaptureError>,
    /// The wall-clock time at which the capture was triggered, in
    /// microseconds since the epoch.
    pub time_micros: u64,
    /// The duration it took to capture and process the image combined, in
    /// microseconds.
    pub duration_micros: u64,
    /// The frame identifier as a counter; this increases for each capture
    /// attempt.
    pub counter: u64,
}

impl Clone for CaptureInfo {
    /// The clone carries the same record: the same counter and timing, a
    /// successful result with the same interchange bytes, or a failure of
    /// the same attempt.
    fn clone(&self) -> (r: Self)
        ensures
            r.counter == self.counter,
            r.time_micros == self.time_micros,
            r.duration_micros == self.duration_micros,
            r.result is Ok <==> self.result is Ok,
            self.result matches Ok(b) ==> (r.result matches Ok(c) && c.spec_width()
                == b.spec_width() && c.spec_height() == b.spec_height() && c.spec_data()
                == b.spec_data()),
    {
        let result = match &self.result {
            Ok(b) => Ok(b.clone()),
            Err(e) => Err(e.clone()),
        };
        CaptureInfo {
            result,
            time_micros: self.time_micros,
            duration_micros: self.duration_micros,
            counter: self.counter,
        }
    }
}

impl CaptureInfo {
    /// The record readers see before the first capture completes: an
    /// initialisation failure at counter zero.
    pub fn initial(time_micros: u64) -> (r: CaptureInfo)
        ensures
            r.result matches Err(e) && e is Initialisation,
            r.time_micros == time_micros,
            r.duration_micros == 0,
            r.counter == 0,
    {
        CaptureInfo {
            result: Err(ScreenCaptureError::Initialisation { msg: "not initialised".to_string() }),
            time_micros,
            duration_micros: 0,
            counter: 0,
        }
    }
}

impl Default for CaptureInfo {
    /// The initialisation-failure record at time zero.
    fn default() -> (r: CaptureInfo)
        ensures
            r.result matches Err(e) && e is Initialisation,
            r.time_micros == 0,
            r.duration_micros == 0,
            r.counter == 0,
    {
        CaptureInfo::initial(0)
    }
}

} // verus!
