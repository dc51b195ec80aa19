use zm_aidect::layout::{read_memory_pm, Struct};
use zm_aidect::pipeline::run_tick;
use zm_aidect::tracker::{Detection, EventTracker, Rect};
use zm_aidect::monitor::{
    check_monitor_layout, decode_snapshot, snapshot_is_idle, stale_verdict, Monitor,
    MonitorState, RunState, SubpixelOrder,
};
use zm_aidect::ports::{ScriptStep, ShmError, SimPort};
use zm_aidect::shm::{find_field_index, MonitorShm};
use zm_aidect::stream::{frame_geometry_ok, fresh_slot};

const DESCRIPTOR: &str = "our $mem_seq = 0;

our $mem_data = {
  shared_data => { type=>'SharedData', seq=>$mem_seq++, contents=> {
    size             => { type=>'uint32', seq=>$mem_seq++ },
    last_write_index => { type=>'int32', seq=>$mem_seq++ },
    last_read_index  => { type=>'int32', seq=>$mem_seq++ },
    state            => { type=>'uint32', seq=>$mem_seq++ },
    last_event       => { type=>'uint64', seq=>$mem_seq++ },
    valid            => { type=>'uint8', seq=>$mem_seq++ },
    active           => { type=>'uint8', seq=>$mem_seq++ },
    signal           => { type=>'uint8', seq=>$mem_seq++ },
    format           => { type=>'uint8', seq=>$mem_seq++ },
    imagesize        => { type=>'uint32', seq=>$mem_seq++ },
  }
  },
  trigger_data => { type=>'TriggerData', seq=>$mem_seq++, 'contents'=> {
    size             => { type=>'uint32', seq=>$mem_seq++ },
    trigger_state    => { type=>'uint32', seq=>$mem_seq++ },
    trigger_score    => { type=>'uint32', seq=>$mem_seq++ },
    padding          => { type=>'uint32', seq=>$mem_seq++ },
    trigger_cause    => { type=>'int8[32]', seq=>$mem_seq++ },
    trigger_text     => { type=>'int8[256]', seq=>$mem_seq++ },
    trigger_showtext => { type=>'int8[256]', seq=>$mem_seq++ },
  }
  },
  end => { seq=>$mem_seq++, size=>0 }
};
";

fn layout() -> Struct {
    read_memory_pm(DESCRIPTOR).unwrap()
}

fn off(layout: &Struct, name: &str) -> usize {
    let i = find_field_index(layout, name.as_bytes()).unwrap();
    layout.fields[i].offset
}

fn size_of_field(layout: &Struct, name: &str) -> usize {
    let i = find_field_index(layout, name.as_bytes()).unwrap();
    layout.fields[i].typ.size
}

fn put_u32(bytes: &mut Vec<u8>, at: usize, v: u32) {
    bytes[at..at + 4].copy_from_slice(&v.to_le_bytes());
}

/// A quiescent, valid region: idle, gray frames of 4 x 2 pixels, three ring
/// slots.
fn fresh_region(l: &Struct) -> Vec<u8> {
    let mut bytes = vec![0u8; 4096];
    bytes[off(l, "SharedData::valid")] = 1;
    put_u32(&mut bytes, off(l, "SharedData::state"), 1);
    put_u32(&mut bytes, off(l, "SharedData::last_write_index"), 1);
    bytes[off(l, "SharedData::format")] = 2;
    put_u32(&mut bytes, off(l, "SharedData::imagesize"), 8);
    put_u32(&mut bytes, off(l, "VideoStoreData::size"), 4);
    bytes
}

#[test]
fn layout_supports_monitor() {
    let l = layout();
    assert!(check_monitor_layout(&l));
}

#[test]
fn typed_access_checks_size_and_alignment() {
    let l = layout();
    let bytes = fresh_region(&l);
    let shm = MonitorShm::new(SimPort::new(bytes, 1), l.clone()).unwrap();
    let i = find_field_index(&l, b"SharedData::state").unwrap();
    let state_field = &l.fields[i];
    assert!(shm.typecheck::<u32>(state_field));
    assert!(!shm.typecheck::<u8>(state_field));
    assert!(!shm.typecheck::<u64>(state_field));
    let j = find_field_index(&l, b"SharedData::valid").unwrap();
    let valid_field = &l.fields[j];
    assert!(shm.typecheck::<u8>(valid_field));
    assert!(!shm.typecheck::<u32>(valid_field));
    // An array field never matches its element scalar.
    let k = find_field_index(&l, b"TriggerData::trigger_cause").unwrap();
    assert!(!shm.typecheck::<i8>(&l.fields[k]));
}

#[test]
fn invalid_region_is_rejected() {
    let l = layout();
    let mut bytes = fresh_region(&l);
    bytes[off(&l, "SharedData::valid")] = 0;
    let mut mon = Monitor::connect(SimPort::new(bytes, 1), l, 1).unwrap();
    assert_eq!(mon.read().unwrap_err(), ShmError::Invalid);
}

// Stale mapping: once the path resolves to a new inode, the next read fails
// with the stale error.
#[test]
fn stale_mapping_detected() {
    let l = layout();
    let bytes = fresh_region(&l);
    let mut port = SimPort::new(bytes, 1);
    // After the first full snapshot (one setup read plus six field reads),
    // the file is replaced: the inode the path resolves to becomes 2.
    port.inode_script.push((8, 2));
    let mut mon = Monitor::connect(port, l, 1).unwrap();
    let first = mon.read().unwrap();
    assert_eq!(first.state, RunState::Idle);
    assert_eq!(mon.read().unwrap_err(), ShmError::Stale);
}

// Trigger handshake on an idle monitor: the publisher walks idle, prealarm,
// alarm while the client polls; the call returns the new event id, and the
// trigger fields are left cancelled and zeroed.
#[test]
fn trigger_handshake_on_idle_monitor() {
    let l = layout();
    let bytes = fresh_region(&l);
    let state_off = off(&l, "SharedData::state");
    let le_off = off(&l, "SharedData::last_event");
    let mut port = SimPort::new(bytes, 1);
    port.script.push(ScriptStep {
        at_read: 2,
        offset: le_off,
        bytes: 33u64.to_le_bytes().to_vec(),
    });
    port.script.push(ScriptStep {
        at_read: 4,
        offset: state_off,
        bytes: 2u32.to_le_bytes().to_vec(),
    });
    port.script.push(ScriptStep {
        at_read: 10,
        offset: state_off,
        bytes: 3u32.to_le_bytes().to_vec(),
    });
    let mut mon = Monitor::connect(port, l.clone(), 1).unwrap();
    let event_id = mon
        .trigger("aidect", "Human (88.0%) 60x120 (=7200) at 300x200", 88)
        .unwrap();
    assert_eq!(event_id, 33);
    assert!(event_id > 0);

    // The reset left the trigger cancelled and the text fields zeroed.
    let cause_off = off(&l, "TriggerData::trigger_cause");
    let cause_size = size_of_field(&l, "TriggerData::trigger_cause");
    let text_off = off(&l, "TriggerData::trigger_text");
    let text_size = size_of_field(&l, "TriggerData::trigger_text");
    let tstate_off = off(&l, "TriggerData::trigger_state");
    let b = &mon.shm.port.bytes;
    assert_eq!(&b[tstate_off..tstate_off + 4], &0u32.to_le_bytes());
    assert!(b[cause_off..cause_off + cause_size].iter().all(|&x| x == 0));
    assert!(b[text_off..text_off + text_size].iter().all(|&x| x == 0));

    // Auxiliary-before-state: in the captured write trace the cause, text
    // and score offsets come strictly before the arming state write, and the
    // reset's state write comes last.
    let score_off = off(&l, "TriggerData::trigger_score");
    let log = &mon.shm.port.write_log;
    assert_eq!(log.len(), 10);
    assert_eq!(log[0].0, cause_off);
    assert_eq!(log[0].1, b"aidect\0".to_vec());
    assert_eq!(log[1].0, text_off);
    assert_eq!(log[3].0, score_off);
    assert_eq!(log[3].1, 88u32.to_le_bytes().to_vec());
    assert_eq!(log[4].0, tstate_off);
    assert_eq!(log[4].1, 1u32.to_le_bytes().to_vec());
    for i in 0..4 {
        assert_ne!(log[i].0, tstate_off);
    }
    for i in 5..9 {
        assert_ne!(log[i].0, tstate_off);
    }
    assert_eq!(log[9].0, tstate_off);
    assert_eq!(log[9].1, 0u32.to_le_bytes().to_vec());
}

// Index monotonicity: a frame arrives only when the write index moves to a
// slot that is neither the one read last nor the sentinel, and each returned
// frame changes the read index.
#[test]
fn image_stream_skips_to_newest_unread() {
    let l = layout();
    let mut bytes = fresh_region(&l);
    // Lay out the ring exactly as the stream derives it.
    let vs_off = off(&l, "VideoStoreData::size");
    let ts_off = vs_off + 4;
    let unaligned = ts_off + 3 * 16;
    let imgs_off = if unaligned % 64 == 0 {
        unaligned
    } else {
        unaligned + 64 - unaligned % 64
    };
    for slot in 0..3usize {
        for i in 0..8usize {
            bytes[imgs_off + slot * 8 + i] = (slot * 10 + i) as u8;
        }
    }
    let lwi_off = off(&l, "SharedData::last_write_index");
    let mut mon = Monitor::connect(SimPort::new(bytes, 1), l, 1).unwrap();
    let mut stream = mon.stream_images(4, 2, 3).unwrap();
    assert_eq!(stream.last_read_index, 3);
    assert_eq!(stream.shared_images_offset, imgs_off);

    let img = stream.poll_image(&mut mon).unwrap().unwrap();
    assert_eq!(stream.last_read_index, 1);
    assert_eq!(img.width, 4);
    assert_eq!(img.height, 2);
    assert_eq!(img.data, vec![10, 11, 12, 13, 14, 15, 16, 17]);

    // No new frame: the write index still names the slot read last.
    assert!(stream.poll_image(&mut mon).unwrap().is_none());
    assert_eq!(stream.last_read_index, 1);

    // The publisher advances twice; the reader takes the newest.
    put_u32(&mut mon.shm.port.bytes, lwi_off, 0);
    put_u32(&mut mon.shm.port.bytes, lwi_off, 2);
    let img = stream.poll_image(&mut mon).unwrap().unwrap();
    assert_eq!(stream.last_read_index, 2);
    assert_eq!(img.data, vec![20, 21, 22, 23, 24, 25, 26, 27]);
}

#[test]
fn write_string_terminates_and_preserves_tail() {
    let l = layout();
    let bytes = fresh_region(&l);
    let cause_off = off(&l, "TriggerData::trigger_cause");
    let mut shm = MonitorShm::new(SimPort::new(bytes, 1), l).unwrap();
    shm.port.bytes[cause_off + 3] = 9;
    shm.write_string("TriggerData::trigger_cause", "ab").unwrap();
    assert_eq!(&shm.port.bytes[cause_off..cause_off + 4], &[b'a', b'b', 0, 9]);
}

#[test]
fn out_of_range_access_is_io_error() {
    let l = layout();
    // A region far too small for the resolved layout: the first read runs
    // off its end.
    let r = MonitorShm::new(SimPort::new(vec![0u8; 8], 1), l);
    assert!(matches!(r, Err(ShmError::Io)));
}

// One pipeline tick end to end over a simulated region: a detection
// triggers the host, the tracker starts an event, and — the host being idle
// again — the event is flushed for persisting.
#[test]
fn pipeline_tick_triggers_and_flushes() {
    let l = layout();
    let bytes = fresh_region(&l);
    let le_off = off(&l, "SharedData::last_event");
    let state_off = off(&l, "SharedData::state");
    let mut port = SimPort::new(bytes, 1);
    // The publisher reacts at once: alarm and a fresh event id before the
    // first poll of the handshake.
    port.script.push(ScriptStep {
        at_read: 1,
        offset: le_off,
        bytes: 7u64.to_le_bytes().to_vec(),
    });
    port.script.push(ScriptStep {
        at_read: 1,
        offset: state_off,
        bytes: 3u32.to_le_bytes().to_vec(),
    });
    let mut mon = Monitor::connect(port, l.clone(), 1).unwrap();
    let mut tracker = EventTracker::new();
    let detection = Detection {
        confidence_permille: 880,
        class_id: 1,
        bounding_box: Rect { x: 300, y: 200, width: 60, height: 120 },
    };

    // The host is still alarmed, so nothing is flushed yet.
    let outcome = run_tick(&mut mon, &mut tracker, &vec![detection], 100_000, 250_000).unwrap();
    assert_eq!(outcome.triggered_event, Some(7));
    assert!(outcome.updates.is_empty());
    assert!(!outcome.overrun);
    // The armed trigger carried the description of the best detection.
    assert_eq!(
        mon.shm.port.write_log[1].1,
        b"Human (88.0%) 60x120 (=7200) at 300x200\0".to_vec()
    );

    // Next tick: no detections, host back to idle; the tracked event is
    // flushed with its best detection.
    put_u32(&mut mon.shm.port.bytes, state_off, 1);
    let outcome = run_tick(&mut mon, &mut tracker, &Vec::new(), 300_000, 250_000).unwrap();
    assert_eq!(outcome.triggered_event, None);
    assert_eq!(outcome.updates.len(), 1);
    assert_eq!(outcome.updates[0].event_id, 7);
    assert_eq!(outcome.updates[0].detection, detection);
    assert!(outcome.overrun);
}

// The snapshot decode is exact per value: a zero valid byte or an unknown
// format byte is the invalid-region fault; anything else is the snapshot of
// exactly the read values.
#[test]
fn snapshot_decode_per_value() {
    assert_eq!(decode_snapshot(0, 1, 1, 9, 2, 8), Err(ShmError::Invalid));
    assert_eq!(decode_snapshot(1, 1, 1, 9, 0, 8), Err(ShmError::Invalid));
    assert_eq!(decode_snapshot(1, 1, 1, 9, 11, 8), Err(ShmError::Invalid));
    let snap = decode_snapshot(1, 5, 3, 42, 7, 1024).unwrap();
    assert_eq!(
        snap,
        MonitorState {
            last_write_index: 5,
            state: RunState::Alarm,
            last_event_id: 42,
            format: SubpixelOrder::Bgra,
            imagesize: 1024,
        }
    );
    assert!(!snapshot_is_idle(&snap));
    let idle = decode_snapshot(1, 0, 1, 0, 2, 8).unwrap();
    assert_eq!(idle.state, RunState::Idle);
    assert!(snapshot_is_idle(&idle));
    // An unknown state word decodes to the unknown state, not an error.
    assert_eq!(decode_snapshot(1, 0, 99, 0, 2, 8).unwrap().state, RunState::Unknown);
}

#[test]
fn stale_verdict_compares_inodes() {
    assert_eq!(stale_verdict(7, 7), Ok(()));
    assert_eq!(stale_verdict(8, 7), Err(ShmError::Stale));
}

#[test]
fn fresh_slot_and_geometry_decisions() {
    assert!(fresh_slot(2, 1, 3));
    assert!(!fresh_slot(1, 1, 3));
    assert!(!fresh_slot(3, 1, 3));

    assert!(frame_geometry_ok(8, 4, 2, SubpixelOrder::Gray));
    assert!(frame_geometry_ok(24, 4, 2, SubpixelOrder::Rgb));
    assert!(frame_geometry_ok(32, 4, 2, SubpixelOrder::Rgba));
    assert!(!frame_geometry_ok(8, 4, 2, SubpixelOrder::Rgb));
}

// Typed round trip through the region: a written scalar reads back as
// itself, little-endian at the field's resolved offset.
#[test]
fn read_field_returns_stored_values() {
    let l = layout();
    let bytes = fresh_region(&l);
    let score_off = off(&l, "TriggerData::trigger_score");
    let mut shm = MonitorShm::new(SimPort::new(bytes, 1), l.clone()).unwrap();
    shm.write_field::<u32>("TriggerData::trigger_score", &0xA1B2_C3D4).unwrap();
    assert_eq!(
        &shm.port.bytes[score_off..score_off + 4],
        &0xA1B2_C3D4u32.to_le_bytes()
    );
    assert_eq!(
        shm.read_field::<u32>("TriggerData::trigger_score").unwrap(),
        0xA1B2_C3D4
    );
    assert_eq!(
        shm.read_field::<i32>("SharedData::last_write_index").unwrap(),
        1
    );
    assert_eq!(shm.read_field::<u8>("SharedData::valid").unwrap(), 1);
}
