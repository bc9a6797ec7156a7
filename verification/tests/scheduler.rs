use screen_capture::ScreenCaptureError;
use screen_capture::capturer::{CaptureInfo, WorkerAction, WorkerSchedule, WORKER_WAIT_CAP_MICROS};

// Drive the scheduling decisions against a simulated clock: every action
// advances simulated time exactly as the worker loop would.
fn run_simulated(rate_millihertz: u32, duration_micros: u64, capture_cost_micros: u64) -> Vec<u64> {
    let mut sched = WorkerSchedule::new(0);
    let mut now: u64 = 0;
    let mut counters: Vec<u64> = Vec::new();
    while now < duration_micros {
        match sched.decide(rate_millihertz, now) {
            WorkerAction::AwaitConfig { max_wait_micros } => {
                now += max_wait_micros;
            }
            WorkerAction::Sleep { micros } => {
                now += micros;
            }
            WorkerAction::Capture => {
                let c = sched.begin_capture();
                counters.push(c);
                now += capture_cost_micros;
                sched.finish_capture(now, capture_cost_micros);
            }
        }
    }
    counters
}

#[test]
fn rate_is_kept_over_a_duration() {
    // 5 Hz for 2 seconds: floor(R * D) = 10, allow one either way.
    let counters = run_simulated(5_000, 2_000_000, 10_000);
    assert!(counters.len() >= 9 && counters.len() <= 11, "got {}", counters.len());
    // counter sequence strictly increasing by 1 each time
    for (i, c) in counters.iter().enumerate() {
        assert_eq!(*c, i as u64 + 1);
    }
}

#[test]
fn slow_captures_do_not_halve_the_rate() {
    // the next start is scheduled net of the previous processing time
    let counters = run_simulated(10_000, 1_000_000, 60_000);
    assert!(counters.len() >= 9 && counters.len() <= 11, "got {}", counters.len());
}

#[test]
fn zero_rate_never_captures() {
    let counters = run_simulated(0, 2_000_000, 10_000);
    assert!(counters.is_empty());
}

#[test]
fn zero_rate_blocks_with_the_bounded_wait() {
    let sched = WorkerSchedule::new(123);
    match sched.decide(0, 456) {
        WorkerAction::AwaitConfig { max_wait_micros } => {
            assert_eq!(max_wait_micros, WORKER_WAIT_CAP_MICROS);
        }
        other => panic!("expected AwaitConfig, got {:?}", other),
    }
}

#[test]
fn restored_rate_resumes_capturing() {
    let mut sched = WorkerSchedule::new(0);
    let mut now: u64 = 0;
    // disabled: only configuration waits
    for _ in 0..5 {
        match sched.decide(0, now) {
            WorkerAction::AwaitConfig { max_wait_micros } => now += max_wait_micros,
            other => panic!("expected AwaitConfig, got {:?}", other),
        }
    }
    // a positive rate takes effect at the next decision
    let mut captured = false;
    for _ in 0..100 {
        match sched.decide(2_000, now) {
            WorkerAction::Sleep { micros } => now += micros,
            WorkerAction::Capture => {
                let c = sched.begin_capture();
                assert_eq!(c, 1);
                captured = true;
                break;
            }
            other => panic!("unexpected action {:?}", other),
        }
    }
    assert!(captured);
}

#[test]
fn sleep_is_capped_for_responsiveness() {
    // a 0.1 Hz rate asks for a 10 second interval, but no single sleep may
    // exceed the bounded wait
    let mut sched = WorkerSchedule::new(0);
    sched.finish_capture(0, 0);
    match sched.decide(100, 1) {
        WorkerAction::Sleep { micros } => assert_eq!(micros, WORKER_WAIT_CAP_MICROS),
        other => panic!("expected Sleep, got {:?}", other),
    }
}

#[test]
fn exact_scheduling_decision_values() {
    // rate 2 Hz -> interval 500 ms; previous capture ended at 1 s taking 20 ms
    let mut sched = WorkerSchedule::new(0);
    sched.finish_capture(1_000_000, 20_000);
    // desired start: 1_000_000 + 500_000 - 20_000 = 1_480_000
    match sched.decide(2_000, 1_450_000) {
        WorkerAction::Sleep { micros } => assert_eq!(micros, 30_000),
        other => panic!("expected Sleep, got {:?}", other),
    }
    match sched.decide(2_000, 1_480_000) {
        WorkerAction::Capture => {}
        other => panic!("expected Capture, got {:?}", other),
    }
}

#[test]
fn initial_capture_info_is_an_initialisation_failure() {
    let info = CaptureInfo::default();
    assert!(matches!(info.result, Err(ScreenCaptureError::Initialisation { .. })));
    assert_eq!(info.counter, 0);
    assert_eq!(info.duration_micros, 0);
    let later = CaptureInfo::initial(55);
    assert_eq!(later.time_micros, 55);
    let copy = later.clone();
    assert_eq!(copy.counter, later.counter);
    assert!(copy.result.is_err());
}
