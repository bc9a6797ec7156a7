use screen_capture::capturer::CaptureSpecification;

fn spec(
    match_width: Option<u32>,
    match_height: Option<u32>,
    x: u32,
    y: u32,
    width: u32,
    height: u32,
    display: u32,
) -> CaptureSpecification {
    CaptureSpecification { match_width, match_height, x, y, width, height, display }
}

#[test]
fn matcher_no_rules_gives_full_default() {
    let r = CaptureSpecification::get_config(1920, 1080, &[]);
    assert_eq!(r.x, 0);
    assert_eq!(r.y, 0);
    assert_eq!(r.width, 1920);
    assert_eq!(r.height, 1080);
    assert_eq!(r.display, 0);
    assert_eq!(r.match_width, None);
    assert_eq!(r.match_height, None);
}

#[test]
fn matcher_no_matching_rule_gives_full_default() {
    let rules = [
        spec(Some(1280), None, 5, 5, 10, 10, 1),
        spec(None, Some(720), 7, 7, 20, 20, 2),
    ];
    let r = CaptureSpecification::get_config(1920, 1080, &rules);
    assert_eq!((r.x, r.y, r.width, r.height, r.display), (0, 0, 1920, 1080, 0));
}

#[test]
fn matcher_first_match_wins() {
    let rules = [
        spec(Some(1280), None, 0, 0, 0, 0, 1),
        spec(Some(1920), Some(1080), 100, 200, 0, 0, 2),
        spec(None, None, 1, 1, 1, 1, 3),
    ];
    let r = CaptureSpecification::get_config(1920, 1080, &rules);
    assert_eq!(r.display, 2);
    assert_eq!(r.x, 100);
    assert_eq!(r.y, 200);
    // resolved sizes are the remainder after the offset
    assert_eq!(r.width, 1920 - 100);
    assert_eq!(r.height, 1080 - 200);
}

#[test]
fn matcher_explicit_sizes_pass_through() {
    let rules = [spec(None, None, 10, 20, 300, 400, 0)];
    let r = CaptureSpecification::get_config(1920, 1080, &rules);
    assert_eq!((r.x, r.y, r.width, r.height), (10, 20, 300, 400));
}

#[test]
fn matcher_resolved_size_never_exceeds_resolution_minus_offset() {
    for x in [0u32, 1, 500, 1919, 1920] {
        let rules = [spec(None, None, x, 0, 0, 0, 0)];
        let r = CaptureSpecification::get_config(1920, 1080, &rules);
        assert!(r.x as u64 + r.width as u64 <= 1920);
        assert_eq!(r.width, 1920 - x);
    }
    // an offset beyond the resolution resolves to zero remaining space
    let rules = [spec(None, None, 5000, 0, 0, 0, 0)];
    let r = CaptureSpecification::get_config(1920, 1080, &rules);
    assert_eq!(r.width, 0);
}

#[test]
fn matcher_unpopulated_predicate_always_matches() {
    let rules = [spec(None, Some(1080), 0, 0, 0, 0, 7)];
    let r = CaptureSpecification::get_config(640, 1080, &rules);
    assert_eq!(r.display, 7);
    assert_eq!(r.width, 640);
}
