use zm_aidect::conf::{ConfigError, ZoneMinderConf};
use zm_aidect::events::{Event, Storage, StorageScheme};
use zm_aidect::ports::SimTriggerPort;
use zm_aidect::vio::VideoProperties;
use zm_aidect::zmtrigger::{parse_trigger_reply, trigger_autocancel, trigger_resume, trigger_suspend};

#[test]
fn test_parse_zm_conf() {
    let conf = "# ZoneMinder database hostname or ip address and optionally port or unix socket
# Acceptable formats include hostname[:port], ip_address[:port], or
# localhost:/path/to/unix_socket
ZM_DB_HOST=localhost

# ZoneMinder database name
ZM_DB_NAME=zm

# ZoneMinder database user
ZM_DB_USER=zmuser

# ZoneMinder database password
ZM_DB_PASS=zmpass

ZM_PATH_MAP=/dev/shm
";

    let parsed = ZoneMinderConf::parse_zm_conf(conf).unwrap();
    assert_eq!(parsed.db_host, b"localhost".to_vec());
    assert_eq!(parsed.db_name, b"zm".to_vec());
    assert_eq!(parsed.db_user, b"zmuser".to_vec());
    assert_eq!(parsed.db_password, b"zmpass".to_vec());
    assert_eq!(parsed.mmap_path, b"/dev/shm".to_vec());
}

#[test]
fn conf_missing_key_is_config_error() {
    let r = ZoneMinderConf::parse_zm_conf("ZM_DB_HOST=localhost\n");
    assert_eq!(r, Err(ConfigError::MissingKey));
}

#[test]
fn mmap_path_is_under_map_directory() {
    let conf = ZoneMinderConf::parse_zm_conf(
        "ZM_DB_HOST=h\nZM_DB_NAME=n\nZM_DB_USER=u\nZM_DB_PASS=p\nZM_PATH_MAP=/dev/shm\n",
    )
    .unwrap();
    assert_eq!(conf.mmap_path_for(4), b"/dev/shm/zm.mmap.4".to_vec());
}

fn sample_event(scheme: StorageScheme, storage_type: &[u8]) -> Event {
    Event {
        id: 100,
        monitor_id: 6,
        name: b"Event 100".to_vec(),
        max_score: 10,
        avg_score: 5,
        total_score: 50,
        default_video: b"100-video.mp4".to_vec(),
        start_datetime: b"2022-01-27 18:45:59".to_vec(),
        storage: Storage {
            id: 1,
            name: b"Default".to_vec(),
            path: b"/var/cache/zoneminder/events".to_vec(),
            storage_type: storage_type.to_vec(),
            scheme,
        },
    }
}

#[test]
fn video_path_by_scheme() {
    assert_eq!(
        sample_event(StorageScheme::Deep, b"local").video_path().unwrap(),
        b"/var/cache/zoneminder/events/6/2022/01/27/18/45/59/100/100-video.mp4".to_vec()
    );
    assert_eq!(
        sample_event(StorageScheme::Medium, b"local").video_path().unwrap(),
        b"/var/cache/zoneminder/events/6/2022-01-27/100/100-video.mp4".to_vec()
    );
    assert_eq!(
        sample_event(StorageScheme::Shallow, b"local").video_path().unwrap(),
        b"/var/cache/zoneminder/events/6/100/100-video.mp4".to_vec()
    );
    assert_eq!(
        sample_event(StorageScheme::Deep, b"s3").video_path(),
        Err(ConfigError::NotLocalStorage)
    );
}

#[test]
fn storage_scheme_names() {
    assert_eq!(StorageScheme::parse("Deep"), Ok(StorageScheme::Deep));
    assert_eq!(StorageScheme::parse("Medium"), Ok(StorageScheme::Medium));
    assert_eq!(StorageScheme::parse("Shallow"), Ok(StorageScheme::Shallow));
    assert_eq!(StorageScheme::parse("Other"), Err(ConfigError::UnknownScheme));
}

#[test]
fn autocancel_command_and_reply() {
    let mut port = SimTriggerPort::new(vec![b"6|on|100\n".to_vec()]);
    let event_id = trigger_autocancel(&mut port, 6, "aidect", "test trigger", 30).unwrap();
    assert_eq!(event_id, 100);
    assert_eq!(port.sent_log, vec![b"6|on+30|1|aidect|test trigger|".to_vec()]);
}

#[test]
fn suspend_and_resume_commands() {
    let mut port = SimTriggerPort::new(Vec::new());
    trigger_suspend(&mut port, 6).unwrap();
    trigger_resume(&mut port, 6).unwrap();
    assert_eq!(
        port.sent_log,
        vec![b"6|disable|0|||".to_vec(), b"6|enable|0|||".to_vec()]
    );
}

#[test]
fn trigger_reply_parsing() {
    assert_eq!(parse_trigger_reply(b"6|on|123\n"), Some(123));
    assert_eq!(parse_trigger_reply(b"77\n"), Some(77));
    assert_eq!(parse_trigger_reply(b"6|on|oops\n"), None);
    assert_eq!(parse_trigger_reply(b""), None);
}

#[test]
fn fps_fraction() {
    let props = VideoProperties {
        codec_name: b"h264".to_vec(),
        avg_frame_rate: b"2248/74".to_vec(),
        width: 1920,
        height: 1080,
    };
    assert_eq!(props.fps_millihertz().unwrap(), 2248 * 1000 / 74);
    let bad = VideoProperties {
        codec_name: b"h264".to_vec(),
        avg_frame_rate: b"0/0".to_vec(),
        width: 1,
        height: 1,
    };
    assert_eq!(bad.fps_millihertz(), Err(ConfigError::BadValue));
}
