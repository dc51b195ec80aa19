use zm_aidect::tracker::Rect;
use zm_aidect::zone::{Bounding, ZoneConfig};

#[test]
fn test_parse_zone_name_basic() {
    let zone_name = "aidect";
    let parsed = ZoneConfig::parse_zone_name(zone_name);
    assert_eq!(parsed.shape.len(), 0);
    assert_eq!(parsed.threshold, None);
    assert_eq!(parsed.size, None);
}

#[test]
fn test_parse_zone_name() {
    let zone_name = "aidect Size=128 Threshold=50";
    let parsed = ZoneConfig::parse_zone_name(zone_name);
    assert_eq!(parsed.shape.len(), 0);
    assert_eq!(parsed.threshold, Some(50));
    assert_eq!(parsed.size, Some(128));
}

#[test]
fn test_parse_zone_coords() {
    let coords = "123,56 899,41 687,425";
    let parsed = ZoneConfig::parse_zone_coords(coords);
    assert_eq!(parsed, vec![(123, 56), (899, 41), (687, 425)]);
}

// Zone name parse with every recognised option present, and the bounding box
// of the example polygon.
#[test]
fn zone_name_and_bounding_box() {
    let parsed = ZoneConfig::parse_zone_name("aidect Size=128 Threshold=50 MinArea=900");
    assert_eq!(parsed.size, Some(128));
    assert_eq!(parsed.threshold, Some(50));
    assert_eq!(parsed.min_area, Some(900));
    assert_eq!(parsed.trigger, None);
    assert_eq!(parsed.fps, None);

    let shape = ZoneConfig::parse_zone_coords("123,56 899,41 687,425");
    assert_eq!(shape, vec![(123, 56), (899, 41), (687, 425)]);
    assert_eq!(
        shape.bounding_box(),
        Rect {
            x: 123,
            y: 41,
            width: 776,
            height: 384,
        }
    );
}

// A later duplicate option wins, as collecting key-value pairs into a map
// makes it.
#[test]
fn zone_name_later_option_wins() {
    let parsed = ZoneConfig::parse_zone_name("aidect Size=64 Size=128");
    assert_eq!(parsed.size, Some(128));
}

// Round trip: serialising a configuration to a zone name and parsing it back
// gives the configuration.
#[test]
fn zone_name_round_trip() {
    let z = ZoneConfig {
        size: Some(128),
        threshold: Some(50),
        shape: Vec::new(),
        trigger: None,
        fps: Some(10),
        min_area: Some(900),
    };
    let name = z.zone_name();
    assert_eq!(name, "aidect Size=128 Threshold=50 FPS=10 MinArea=900");
    let parsed = ZoneConfig::parse_zone_name(&name);
    assert_eq!(parsed, z);

    let sparse = ZoneConfig {
        size: None,
        threshold: None,
        shape: Vec::new(),
        trigger: Some(6),
        fps: None,
        min_area: None,
    };
    let parsed = ZoneConfig::parse_zone_name(&sparse.zone_name());
    assert_eq!(parsed, sparse);
}

#[test]
fn zone_full_parse() {
    let z = ZoneConfig::parse("aidect Trigger=6 FPS=4", "1,2 3,4 5,6");
    assert_eq!(z.trigger, Some(6));
    assert_eq!(z.fps, Some(4));
    assert_eq!(z.size, None);
    assert_eq!(z.shape, vec![(1, 2), (3, 4), (5, 6)]);
}
