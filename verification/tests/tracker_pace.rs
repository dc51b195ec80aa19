use zm_aidect::detect::{class_name, describe, filter_detections, format_timestamp, resolve_tuning};
use zm_aidect::conf::ConfigError;
use zm_aidect::pace::{watchdog_timeout_us, RealtimePacemaker};
use zm_aidect::tracker::{Detection, EventTracker, Rect};
use zm_aidect::zone::ZoneConfig;

fn det(confidence_permille: u32, class_id: i32, x: i32, y: i32, w: i32, h: i32) -> Detection {
    Detection {
        confidence_permille,
        class_id,
        bounding_box: Rect {
            x,
            y,
            width: w,
            height: h,
        },
    }
}

// Event coalescing: pushes under one event return nothing; a push under a
// new event flushes the best of the old one; a clear flushes what is left.
#[test]
fn event_coalescing() {
    let a = det(700, 1, 0, 0, 10, 10);
    let b = det(900, 1, 1, 1, 10, 10);
    let c = det(500, 3, 2, 2, 10, 10);
    let mut tracker = EventTracker::new();
    assert!(tracker.push_detection(a, 5).is_none());
    assert!(tracker.push_detection(b, 5).is_none());
    let update = tracker.push_detection(c, 6).unwrap();
    assert_eq!(update.event_id, 5);
    assert_eq!(update.detection, b);
    let update = tracker.clear().unwrap();
    assert_eq!(update.event_id, 6);
    assert_eq!(update.detection, c);
    assert!(tracker.clear().is_none());
}

// Ties go to the first detection seen.
#[test]
fn coalescing_tie_keeps_first() {
    let a = det(800, 1, 0, 0, 10, 10);
    let b = det(800, 3, 1, 1, 10, 10);
    let mut tracker = EventTracker::new();
    assert!(tracker.push_detection(a, 9).is_none());
    assert!(tracker.push_detection(b, 9).is_none());
    let update = tracker.clear().unwrap();
    assert_eq!(update.detection, a);
}

// Pacemaker convergence: a 100 ms workload against a 250 ms target settles
// on 250 ms ticks well within fifteen rounds.
#[test]
fn pacemaker_converges() {
    let mut pm = RealtimePacemaker::new(4000);
    assert_eq!(pm.target_interval_us, 250_000);
    let mut now: u64 = 0;
    let sleep = pm.tick(now);
    assert_eq!(sleep, 0);
    pm.settle(now);
    for _ in 0..15 {
        now += 100_000;
        let sleep = pm.tick(now);
        now += sleep;
        pm.settle(now);
    }
    let interval = pm.current_interval_us();
    assert!(
        (245_000..=255_000).contains(&interval),
        "interval {} off target",
        interval
    );
    assert_eq!(pm.current_frequency_millihertz(), 1_000_000_000 / interval);
}

#[test]
fn watchdog_timeout_is_twenty_intervals() {
    assert_eq!(watchdog_timeout_us(250_000), Some(5_000_000));
    assert_eq!(watchdog_timeout_us(u64::MAX / 2), None);
}

#[test]
fn describe_detection() {
    let d = det(880, 1, 300, 200, 60, 120);
    assert_eq!(describe(&d), "Human (88.0%) 60x120 (=7200) at 300x200");
    let d = det(505, 17, 4, 8, 15, 16);
    assert_eq!(describe(&d), "Dog (50.5%) 15x16 (=240) at 4x8");
}

#[test]
fn class_whitelist() {
    assert_eq!(class_name(1), Some("Human"));
    assert_eq!(class_name(3), Some("Car"));
    assert_eq!(class_name(15), Some("Bird"));
    assert_eq!(class_name(16), Some("Cat"));
    assert_eq!(class_name(17), Some("Dog"));
    assert_eq!(class_name(2), None);
}

// The filter drops irrelevant classes and small boxes, and moves the kept
// boxes back into frame coordinates.
#[test]
fn filter_translates_and_drops() {
    let keep = det(900, 1, 10, 20, 30, 40);
    let small = det(900, 1, 0, 0, 2, 2);
    let wrong_class = det(900, 2, 0, 0, 30, 40);
    let r = filter_detections(&vec![keep, small, wrong_class], 100, 5, 7);
    assert_eq!(r.len(), 1);
    assert_eq!(r[0].bounding_box, Rect { x: 15, y: 27, width: 30, height: 40 });
    assert_eq!(r[0].confidence_permille, 900);
}

#[test]
fn video_timestamps() {
    assert_eq!(format_timestamp(0), "00:00:000");
    assert_eq!(format_timestamp(61_205), "01:01:205");
    assert_eq!(format_timestamp(3_600_000), "60:00:000");
}

#[test]
fn tuning_defaults_and_overrides() {
    let zone = ZoneConfig {
        size: Some(128),
        threshold: None,
        shape: Vec::new(),
        trigger: None,
        fps: Some(4),
        min_area: Some(900),
    };
    let t = resolve_tuning(&zone, 6, None).unwrap();
    assert_eq!(t.size, 128);
    assert_eq!(t.threshold_percent, 50);
    assert_eq!(t.trigger_id, 6);
    assert_eq!(t.max_fps_millihertz, 4000);
    assert_eq!(t.min_area, 900);

    let bare = ZoneConfig {
        size: None,
        threshold: None,
        shape: Vec::new(),
        trigger: Some(9),
        fps: None,
        min_area: None,
    };
    let t = resolve_tuning(&bare, 6, Some(2500)).unwrap();
    assert_eq!(t.size, 256);
    assert_eq!(t.trigger_id, 9);
    assert_eq!(t.max_fps_millihertz, 2500);
    assert_eq!(resolve_tuning(&bare, 6, None), Err(ConfigError::NoFpsLimit));
}
