use screen_capture::{BGR, Capture, ImageBGR, ScreenCaptureError};
use screen_capture::capturer::{CaptureConfig, CaptureSpecification, Capturer};
use screen_capture::memory_capture::MemoryCapture;
use screen_capture::raster_image::RasterImageBGR;
use screen_capture::duplication::{decide_acquire, AcquireEvent, FrameUse};

fn content_10x10() -> RasterImageBGR {
    let mut img = RasterImageBGR::filled(10, 10, BGR { b: 1, g: 2, r: 3 });
    img.set_pixel(4, 4, BGR { b: 40, g: 41, r: 42 });
    img
}

#[test]
fn capture_before_prepare_is_an_initialisation_error() {
    let mut cap = MemoryCapture::new(content_10x10());
    let r = cap.capture_image();
    assert!(matches!(r, Err(ScreenCaptureError::Initialisation { .. })));
}

#[test]
fn image_before_capture_fails() {
    let mut cap = MemoryCapture::new(content_10x10());
    cap.prepare_capture(0, 0, 0, 0, 0).unwrap();
    let r = cap.image();
    assert!(r.is_err());
}

#[test]
fn snapshot_reflects_the_prepared_region() {
    let mut cap = MemoryCapture::new(content_10x10());
    // zero width/height means the remainder of the display from the offset
    cap.prepare_capture(0, 2, 3, 0, 0).unwrap();
    cap.capture_image().unwrap();
    let img = cap.image().unwrap();
    assert_eq!(img.width(), 8);
    assert_eq!(img.height(), 7);
    // pixel (2, 1) of the crop is pixel (4, 4) of the content
    assert_eq!(img.pixel(2, 1).unwrap(), BGR { b: 40, g: 41, r: 42 });
    assert_eq!(img.pixel(0, 0).unwrap(), BGR { b: 1, g: 2, r: 3 });
}

#[test]
fn prepare_clamps_the_requested_region() {
    let mut cap = MemoryCapture::new(content_10x10());
    cap.prepare_capture(0, 6, 6, 100, 100).unwrap();
    cap.capture_image().unwrap();
    let img = cap.image().unwrap();
    assert_eq!(img.width(), 4);
    assert_eq!(img.height(), 4);
}

#[test]
fn resolution_reports_the_content_geometry() {
    let mut cap = MemoryCapture::new(content_10x10());
    let r = cap.resolution();
    assert_eq!((r.width, r.height), (10, 10));
}

#[test]
fn stale_accessor_fails_every_read() {
    let mut cap = MemoryCapture::new(content_10x10());
    cap.prepare_capture(0, 0, 0, 0, 0).unwrap();
    cap.capture_image().unwrap();
    let first = cap.image().unwrap();
    assert!(first.pixel(0, 0).is_ok());

    // the second capture supersedes the first snapshot
    cap.capture_image().unwrap();
    assert!(matches!(
        first.pixel(0, 0),
        Err(ScreenCaptureError::InvalidatedAccess { .. })
    ));
    assert!(matches!(first.data(), Err(ScreenCaptureError::InvalidatedAccess { .. })));

    // an accessor of the second snapshot keeps working until a third capture
    let second = cap.image().unwrap();
    assert!(second.pixel(0, 0).is_ok());
    assert!(second.data().is_ok());
    cap.capture_image().unwrap();
    assert!(matches!(
        second.pixel(0, 0),
        Err(ScreenCaptureError::InvalidatedAccess { .. })
    ));
}

#[test]
fn re_preparing_invalidates_prior_accessors() {
    let mut cap = MemoryCapture::new(content_10x10());
    cap.prepare_capture(0, 0, 0, 0, 0).unwrap();
    cap.capture_image().unwrap();
    let img = cap.image().unwrap();
    cap.prepare_capture(0, 0, 0, 0, 0).unwrap();
    assert!(matches!(img.pixel(0, 0), Err(ScreenCaptureError::InvalidatedAccess { .. })));
}

#[test]
fn resolution_change_makes_the_capture_transient_until_reprepared() {
    let mut cap = MemoryCapture::new(content_10x10());
    cap.prepare_capture(0, 0, 0, 10, 10).unwrap();
    cap.capture_image().unwrap();
    cap.set_content(RasterImageBGR::filled(4, 4, BGR { b: 0, g: 0, r: 0 }));
    let r = cap.capture_image();
    assert!(matches!(r, Err(ScreenCaptureError::Transient { .. })));
    cap.prepare_capture(0, 0, 0, 0, 0).unwrap();
    assert!(cap.capture_image().is_ok());
}

#[test]
fn capturer_prepares_once_and_recaptures() {
    let backend = MemoryCapture::new(content_10x10());
    let config = CaptureConfig { capture: vec![], rate_millihertz: 0 };
    let mut capturer = Capturer::new(config, backend);
    let img = capturer.capture().unwrap();
    assert_eq!(img.width(), 10);
    assert_eq!(img.height(), 10);
    assert_eq!(img.pixel(4, 4).unwrap(), BGR { b: 40, g: 41, r: 42 });
    // a second capture succeeds and supersedes the first accessor
    let img2 = capturer.capture().unwrap();
    assert!(matches!(img.pixel(0, 0), Err(ScreenCaptureError::InvalidatedAccess { .. })));
    assert!(img2.pixel(0, 0).is_ok());
}

#[test]
fn capturer_applies_the_matching_specification() {
    let backend = MemoryCapture::new(content_10x10());
    let config = CaptureConfig {
        capture: vec![CaptureSpecification {
            match_width: Some(10),
            match_height: None,
            x: 4,
            y: 4,
            width: 0,
            height: 0,
            display: 0,
        }],
        rate_millihertz: 0,
    };
    let mut capturer = Capturer::new(config, backend);
    let img = capturer.capture().unwrap();
    assert_eq!(img.width(), 6);
    assert_eq!(img.height(), 6);
    assert_eq!(img.pixel(0, 0).unwrap(), BGR { b: 40, g: 41, r: 42 });
}

#[test]
fn set_config_forces_reconfiguration() {
    let backend = MemoryCapture::new(content_10x10());
    let mut capturer = Capturer::new(CaptureConfig { capture: vec![], rate_millihertz: 0 }, backend);
    capturer.capture().unwrap();
    assert!(capturer.cached_resolution.is_some());
    let narrow = CaptureConfig {
        capture: vec![CaptureSpecification {
            match_width: None,
            match_height: None,
            x: 0,
            y: 0,
            width: 3,
            height: 2,
            display: 0,
        }],
        rate_millihertz: 0,
    };
    capturer.set_config(narrow);
    assert!(capturer.cached_resolution.is_none());
    let img = capturer.capture().unwrap();
    assert_eq!((img.width(), img.height()), (3, 2));
    let copy = capturer.config();
    assert_eq!(copy.capture.len(), 1);
    assert_eq!(copy.capture[0].width, 3);
}

#[test]
fn capture_rgba_yields_the_interchange_bytes() {
    let backend = MemoryCapture::new(RasterImageBGR::filled(2, 1, BGR { b: 1, g: 2, r: 3 }));
    let mut capturer = Capturer::new(CaptureConfig { capture: vec![], rate_millihertz: 0 }, backend);
    let buf = capturer.capture_rgba().unwrap();
    assert_eq!((buf.width(), buf.height()), (2, 1));
    assert_eq!(buf.data(), &[3, 2, 1, 255, 3, 2, 1, 255]);
}

#[test]
fn acquire_decisions_follow_the_taxonomy() {
    // capturing before preparing
    assert!(matches!(
        decide_acquire(AcquireEvent::FrameAcquired, false, false),
        Err(ScreenCaptureError::Initialisation { .. })
    ));
    // a fresh frame is kept
    assert_eq!(decide_acquire(AcquireEvent::FrameAcquired, true, false).unwrap(), FrameUse::NewFrame);
    // device loss must recreate the backend
    assert!(matches!(
        decide_acquire(AcquireEvent::AccessLost, true, true),
        Err(ScreenCaptureError::LostCapture { .. })
    ));
    assert!(matches!(
        decide_acquire(AcquireEvent::InvalidCall, true, true),
        Err(ScreenCaptureError::LostCapture { .. })
    ));
    // a timeout reuses the previous snapshot, or is transient without one
    assert_eq!(decide_acquire(AcquireEvent::TimedOut, true, true).unwrap(), FrameUse::KeepPrevious);
    assert!(matches!(
        decide_acquire(AcquireEvent::TimedOut, true, false),
        Err(ScreenCaptureError::Transient { .. })
    ));
    assert!(matches!(
        decide_acquire(AcquireEvent::Failed, true, true),
        Err(ScreenCaptureError::Initialisation { .. })
    ));
}
