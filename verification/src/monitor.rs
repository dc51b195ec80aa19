//! The monitor client: consistent state snapshots and the trigger/alarm
//! handshake over one shared-memory region.

use vstd::prelude::*;

verus! {

use vstd::string::StringSliceAdditionalSpecFns;
use crate::layout::{ShmScalar, Struct};
use crate::ports::{ShmError, ShmPort};
use crate::shm::{
    spec_cstr, spec_field_is, spec_field_offset_of, spec_field_size_of, spec_find_field,
    spec_zeros, MonitorShm,
};

/// The host's run state for a monitor.
#[derive(Clone, Copy, Debug, PartialEq, Eq, Structural)]
pub enum RunState {
    Unknown,
    Idle,
    Prealarm,
    Alarm,
    Alert,
    Tape,
}

/// The run state a raw `state` word denotes; unknown words map to
/// `Unknown`.
pub open spec fn spec_run_state(v: u32) -> RunState {
    if v == 1 {
        RunState::Idle
    } else if v == 2 {
        RunState::Prealarm
    } else if v == 3 {
        RunState::Alarm
    } else if v == 4 {
        RunState::Alert
    } else if v == 5 {
        RunState::Tape
    } else {
        RunState::Unknown
    }
}

pub fn run_state_from_u32(v: u32) -> (r: RunState)
    ensures
        r == spec_run_state(v),
{
    if v == 1 {
        RunState::Idle
    } else if v == 2 {
        RunState::Prealarm
    } else if v == 3 {
        RunState::Alarm
    } else if v == 4 {
        RunState::Alert
    } else if v == 5 {
        RunState::Tape
    } else {
        RunState::Unknown
    }
}

/// The channel order of raw pixels in the image ring.
#[derive(Clone, Copy, Debug, PartialEq, Eq, Structural)]
pub enum SubpixelOrder {
    Gray,
    Rgb,
    Bgr,
    Bgra,
    Rgba,
    Abgr,
    Argb,
}

/// The subpixel order a raw `format` byte denotes.
pub open spec fn spec_subpixel_order(v: u8) -> Option<SubpixelOrder> {
    if v == 2 {
        Some(SubpixelOrder::Gray)
    } else if v == 6 {
        Some(SubpixelOrder::Rgb)
    } else if v == 5 {
        Some(SubpixelOrder::Bgr)
    } else if v == 7 {
        Some(SubpixelOrder::Bgra)
    } else if v == 8 {
        Some(SubpixelOrder::Rgba)
    } else if v == 9 {
        Some(SubpixelOrder::Abgr)
    } else if v == 10 {
        Some(SubpixelOrder::Argb)
    } else {
        None
    }
}

pub fn subpixel_order_from_u8(v: u8) -> (r: Option<SubpixelOrder>)
    ensures
        r == spec_subpixel_order(v),
{
    if v == 2 {
        Some(SubpixelOrder::Gray)
    } else if v == 6 {
        Some(SubpixelOrder::Rgb)
    } else if v == 5 {
        Some(SubpixelOrder::Bgr)
    } else if v == 7 {
        Some(SubpixelOrder::Bgra)
    } else if v == 8 {
        Some(SubpixelOrder::Rgba)
    } else if v == 9 {
        Some(SubpixelOrder::Abgr)
    } else if v == 10 {
        Some(SubpixelOrder::Argb)
    } else {
        None
    }
}

impl SubpixelOrder {
    /// How many bytes one pixel occupies.
    pub open spec fn spec_channels(&self) -> u32 {
        match *self {
            SubpixelOrder::Gray => 1,
            SubpixelOrder::Rgb => 3,
            SubpixelOrder::Bgr => 3,
            _ => 4,
        }
    }

    pub fn channels(&self) -> (r: u32)
        ensures
            r == self.spec_channels(),
    {
        match *self {
            SubpixelOrder::Gray => 1,
            SubpixelOrder::Rgb => 3,
            SubpixelOrder::Bgr => 3,
            _ => 4,
        }
    }
}

/// The host's trigger command word.
#[derive(Clone, Copy, Debug, PartialEq, Eq, Structural)]
pub enum TriggerState {
    Cancel,
    On,
    Off,
}

impl TriggerState {
    /// The raw word the host reads for this command.
    pub open spec fn spec_code(&self) -> u32 {
        match *self {
            TriggerState::Cancel => 0,
            TriggerState::On => 1,
            TriggerState::Off => 2,
        }
    }

    pub fn code(&self) -> (r: u32)
        ensures
            r == self.spec_code(),
    {
        match *self {
            TriggerState::Cancel => 0,
            TriggerState::On => 1,
            TriggerState::Off => 2,
        }
    }
}

/// One consistent snapshot of a monitor's shared state.
#[derive(Clone, Copy, Debug, PartialEq, Eq, Structural)]
pub struct MonitorState {
    pub last_write_index: i32,
    pub state: RunState,
    pub last_event_id: u64,
    pub format: SubpixelOrder,
    pub imagesize: u32,
}

/// Assemble a snapshot from the six raw field values, fixed per value: a
/// zero valid byte is the invalid-region fault, as is a format byte that
/// denotes no subpixel order; any other values decode to exactly their
/// snapshot.
pub fn decode_snapshot(
    valid: u8,
    last_write_index: i32,
    state_raw: u32,
    last_event_id: u64,
    format_raw: u8,
    imagesize: u32,
) -> (r: Result<MonitorState, ShmError>)
    ensures
        valid == 0 ==> r == Err::<MonitorState, ShmError>(ShmError::Invalid),
        valid != 0 && spec_subpixel_order(format_raw) is None ==> r == Err::<
            MonitorState,
            ShmError,
        >(ShmError::Invalid),
        valid != 0 && spec_subpixel_order(format_raw) is Some ==> r == Ok::<
            MonitorState,
            ShmError,
        >(
            (MonitorState {
                last_write_index,
                state: spec_run_state(state_raw),
                last_event_id,
                format: spec_subpixel_order(format_raw)->Some_0,
                imagesize,
            }),
        ),
{
    if valid == 0 {
        return Err(ShmError::Invalid);
    }
    let format = match subpixel_order_from_u8(format_raw) {
        Some(f) => f,
        None => {
            return Err(ShmError::Invalid);
        },
    };
    Ok(
        MonitorState {
            last_write_index,
            state: run_state_from_u32(state_raw),
            last_event_id,
            format,
            imagesize,
        },
    )
}

/// The staleness verdict over the path's current inode and the inode
/// recorded at connect: equal is fine, anything else is the stale-mapping
/// fault.
pub fn stale_verdict(ino_now: u64, recorded: u64) -> (r: Result<(), ShmError>)
    ensures
        r == if ino_now == recorded {
            Ok::<(), ShmError>(())
        } else {
            Err::<(), ShmError>(ShmError::Stale)
        },
{
    if ino_now == recorded {
        Ok(())
    } else {
        Err(ShmError::Stale)
    }
}

/// Whether a snapshot reports the idle run state.
pub fn snapshot_is_idle(s: &MonitorState) -> (r: bool)
    ensures
        r == (s.state == RunState::Idle),
{
    s.state == RunState::Idle
}

/// The layout facts the monitor client relies on: every field it touches
/// exists with the expected scalar type, the text fields can hold at least
/// a terminator, and the five trigger fields live at pairwise distinct
/// offsets.
pub open spec fn monitor_layout_wf(layout: Struct) -> bool {
    &&& spec_field_is::<u8>(layout, "SharedData::valid".spec_bytes())
    &&& spec_field_is::<i32>(layout, "SharedData::last_write_index".spec_bytes())
    &&& spec_field_is::<u32>(layout, "SharedData::state".spec_bytes())
    &&& spec_field_is::<u64>(layout, "SharedData::last_event".spec_bytes())
    &&& spec_field_is::<u8>(layout, "SharedData::format".spec_bytes())
    &&& spec_field_is::<u32>(layout, "SharedData::imagesize".spec_bytes())
    &&& spec_field_is::<u32>(layout, "TriggerData::trigger_state".spec_bytes())
    &&& spec_field_is::<u32>(layout, "TriggerData::trigger_score".spec_bytes())
    &&& spec_field_is::<u32>(layout, "VideoStoreData::size".spec_bytes())
    &&& spec_find_field(layout.fields@, "TriggerData::trigger_cause".spec_bytes()) is Some
    &&& spec_find_field(layout.fields@, "TriggerData::trigger_text".spec_bytes()) is Some
    &&& spec_find_field(
        layout.fields@,
        "TriggerData::trigger_showtext".spec_bytes(),
    ) is Some
    &&& spec_field_size_of(layout, "TriggerData::trigger_cause".spec_bytes()) >= 1
    &&& spec_field_size_of(layout, "TriggerData::trigger_text".spec_bytes()) >= 1
    &&& spec_field_size_of(layout, "TriggerData::trigger_showtext".spec_bytes()) >= 1
    &&& trigger_offsets_distinct(layout)
}

/// The five trigger fields occupy pairwise distinct offsets.
pub open spec fn trigger_offsets_distinct(layout: Struct) -> bool {
    let c = spec_field_offset_of(layout, "TriggerData::trigger_cause".spec_bytes());
    let t = spec_field_offset_of(layout, "TriggerData::trigger_text".spec_bytes());
    let sh = spec_field_offset_of(layout, "TriggerData::trigger_showtext".spec_bytes());
    let sc = spec_field_offset_of(layout, "TriggerData::trigger_score".spec_bytes());
    let st = spec_field_offset_of(layout, "TriggerData::trigger_state".spec_bytes());
    c != t && c != sh && c != sc && c != st && t != sh && t != sc && t != st && sh != sc
        && sh != st && sc != st
}

fn field_is<T: crate::layout::ShmScalar>(layout: &Struct, name: &str) -> (r: bool)
    ensures
        r == spec_field_is::<T>(*layout, name.spec_bytes()),
{
    match crate::shm::find_field_index(layout, name.as_bytes()) {
        Some(i) => {
            let f = &layout.fields[i];
            f.typ.size == T::exec_size() && f.typ.alignment == T::exec_align()
        },
        None => false,
    }
}

fn field_size(layout: &Struct, name: &str) -> (r: usize)
    requires
        spec_find_field(layout.fields@, name.spec_bytes()) is Some,
    ensures
        r == spec_field_size_of(*layout, name.spec_bytes()),
{
    let i = crate::shm::find_field_index(layout, name.as_bytes()).unwrap();
    layout.fields[i].typ.size
}

fn field_offset(layout: &Struct, name: &str) -> (r: usize)
    requires
        spec_find_field(layout.fields@, name.spec_bytes()) is Some,
    ensures
        r == spec_field_offset_of(*layout, name.spec_bytes()),
{
    let i = crate::shm::find_field_index(layout, name.as_bytes()).unwrap();
    layout.fields[i].offset
}

/// Whether the resolved layout carries everything the monitor client needs.
/// The embedding program checks this once after resolving the descriptor,
/// before connecting.
pub fn check_monitor_layout(layout: &Struct) -> (r: bool)
    ensures
        r == monitor_layout_wf(*layout),
{
    if !field_is::<u8>(layout, "SharedData::valid") {
        return false;
    }
    if !field_is::<i32>(layout, "SharedData::last_write_index") {
        return false;
    }
    if !field_is::<u32>(layout, "SharedData::state") {
        return false;
    }
    if !field_is::<u64>(layout, "SharedData::last_event") {
        return false;
    }
    if !field_is::<u8>(layout, "SharedData::format") {
        return false;
    }
    if !field_is::<u32>(layout, "SharedData::imagesize") {
        return false;
    }
    if !field_is::<u32>(layout, "TriggerData::trigger_state") {
        return false;
    }
    if !field_is::<u32>(layout, "TriggerData::trigger_score") {
        return false;
    }
    if !field_is::<u32>(layout, "VideoStoreData::size") {
        return false;
    }
    let cause = crate::shm::find_field_index(layout, "TriggerData::trigger_cause".as_bytes());
    let text_ = crate::shm::find_field_index(layout, "TriggerData::trigger_text".as_bytes());
    let show = crate::shm::find_field_index(
        layout,
        "TriggerData::trigger_showtext".as_bytes(),
    );
    let (ci, ti, shi) = match (cause, text_, show) {
        (Some(c), Some(t), Some(sh)) => (c, t, sh),
        _ => {
            return false;
        },
    };
    if layout.fields[ci].typ.size < 1 || layout.fields[ti].typ.size < 1
        || layout.fields[shi].typ.size < 1 {
        return false;
    }
    let c = layout.fields[ci].offset;
    let t = layout.fields[ti].offset;
    let sh = layout.fields[shi].offset;
    let sc = field_offset(layout, "TriggerData::trigger_score");
    let st = field_offset(layout, "TriggerData::trigger_state");
    c != t && c != sh && c != sc && c != st && t != sh && t != sc && t != st && sh != sc
        && sh != st && sc != st
}

/// The five writes arming the trigger: cause, text, cleared show-text and
/// score first, then the state word — so a racing publisher that sees the
/// state change also sees consistent auxiliary data.
pub open spec fn spec_arm_writes(layout: Struct, cause: Seq<u8>, text_: Seq<u8>, score: u32) -> Seq<
    (usize, Seq<u8>),
> {
    seq![
        (
            spec_field_offset_of(layout, "TriggerData::trigger_cause".spec_bytes()),
            spec_cstr(
                cause,
                spec_field_size_of(layout, "TriggerData::trigger_cause".spec_bytes()) as int,
            ),
        ),
        (
            spec_field_offset_of(layout, "TriggerData::trigger_text".spec_bytes()),
            spec_cstr(
                text_,
                spec_field_size_of(layout, "TriggerData::trigger_text".spec_bytes()) as int,
            ),
        ),
        (
            spec_field_offset_of(layout, "TriggerData::trigger_showtext".spec_bytes()),
            spec_zeros(
                spec_field_size_of(
                    layout,
                    "TriggerData::trigger_showtext".spec_bytes(),
                ) as int,
            ),
        ),
        (
            spec_field_offset_of(layout, "TriggerData::trigger_score".spec_bytes()),
            score.as_le_bytes(),
        ),
        (
            spec_field_offset_of(layout, "TriggerData::trigger_state".spec_bytes()),
            1u32.as_le_bytes(),
        ),
    ]
}

/// The five writes of the reset: the auxiliary fields are cleared first,
/// the state word goes back to cancel last. The reset stops further frames
/// from being marked; the alarm frames already captured stand.
pub open spec fn spec_reset_writes(layout: Struct) -> Seq<(usize, Seq<u8>)> {
    seq![
        (
            spec_field_offset_of(layout, "TriggerData::trigger_cause".spec_bytes()),
            spec_zeros(
                spec_field_size_of(layout, "TriggerData::trigger_cause".spec_bytes()) as int,
            ),
        ),
        (
            spec_field_offset_of(layout, "TriggerData::trigger_text".spec_bytes()),
            spec_zeros(
                spec_field_size_of(layout, "TriggerData::trigger_text".spec_bytes()) as int,
            ),
        ),
        (
            spec_field_offset_of(layout, "TriggerData::trigger_showtext".spec_bytes()),
            spec_zeros(
                spec_field_size_of(
                    layout,
                    "TriggerData::trigger_showtext".spec_bytes(),
                ) as int,
            ),
        ),
        (
            spec_field_offset_of(layout, "TriggerData::trigger_score".spec_bytes()),
            0u32.as_le_bytes(),
        ),
        (
            spec_field_offset_of(layout, "TriggerData::trigger_state".spec_bytes()),
            0u32.as_le_bytes(),
        ),
    ]
}

/// Every write one full trigger invocation issues, in order.
pub open spec fn spec_trigger_writes(
    layout: Struct,
    cause: Seq<u8>,
    text_: Seq<u8>,
    score: u32,
) -> Seq<(usize, Seq<u8>)> {
    spec_arm_writes(layout, cause, text_, score) + spec_reset_writes(layout)
}

/// `after` extends `before` by some prefix of the planned writes `w`.
pub open spec fn writes_prefix(
    before: Seq<(usize, Seq<u8>)>,
    after: Seq<(usize, Seq<u8>)>,
    w: Seq<(usize, Seq<u8>)>,
) -> bool {
    exists|n: int| 0 <= n <= w.len() && after == before + #[trigger] w.take(n)
}

/// Trigger auxiliary-before-state: in the write sequence of every trigger
/// invocation, the cause, text and score fields are written strictly before
/// the state word that arms the trigger, and in the reset half the state
/// word again comes last. Because the trace only ever extends by prefixes
/// of this sequence, the order holds in every partial run too.
pub proof fn lemma_trigger_aux_before_state(
    layout: Struct,
    cause: Seq<u8>,
    text_: Seq<u8>,
    score: u32,
)
    requires
        monitor_layout_wf(layout),
    ensures
        ({
            let w = spec_trigger_writes(layout, cause, text_, score);
            let st = spec_field_offset_of(layout, "TriggerData::trigger_state".spec_bytes());
            &&& w.len() == 10
            &&& w[4].0 == st
            &&& w[9].0 == st
            &&& forall|i: int| 0 <= i < 4 ==> (#[trigger] w[i]).0 != st
            &&& forall|i: int| 5 <= i < 9 ==> (#[trigger] w[i]).0 != st
        }),
{
}

/// A connected monitor client: typed shared-memory access plus the recorded
/// inode of the mapped file, for staleness detection.
pub struct Monitor<P: ShmPort> {
    pub monitor_id: u32,
    pub shm: MonitorShm<P>,
    pub ino: u64,
}

impl<P: ShmPort> Monitor<P> {
    /// The layout facts all methods rely on.
    pub open spec fn wf(&self) -> bool {
        monitor_layout_wf(self.shm.layout)
    }

    /// The positional writes issued so far.
    pub open spec fn writes(&self) -> Seq<(usize, Seq<u8>)> {
        self.shm.writes()
    }

    /// Identity, layout and recorded inode never change after `connect`.
    pub open spec fn same_frame(&self, other: &Self) -> bool {
        self.monitor_id == other.monitor_id && self.ino == other.ino
            && self.shm.same_frame(&other.shm)
    }

    /// Connect over an already-opened port: record the inode and read the
    /// host's video-store struct size.
    pub fn connect(port: P, layout: Struct, monitor_id: u32) -> (r: Result<
        Monitor<P>,
        ShmError,
    >)
        requires
            monitor_layout_wf(layout),
        ensures
            r is Ok ==> r->Ok_0.wf() && r->Ok_0.monitor_id == monitor_id
                && r->Ok_0.writes() == port.writes(),
    {
        let mut port = port;
        let ino = match port.inode() {
            Ok(v) => v,
            Err(e) => {
                return Err(e);
            },
        };
        let shm = match MonitorShm::new(port, layout) {
            Ok(s) => s,
            Err(e) => {
                return Err(e);
            },
        };
        Ok(Monitor { monitor_id, shm, ino })
    }

    /// Fail with `Stale` when the mapped path no longer names the file this
    /// client connected to. The verdict over the two inodes is
    /// `stale_verdict`; only fetching the current inode is outside work.
    pub fn check_file_stale(&mut self) -> (r: Result<(), ShmError>)
        ensures
            final(self).same_frame(old(self)),
            final(self).writes() == old(self).writes(),
    {
        let ino_now = match self.shm.port.inode() {
            Ok(v) => v,
            Err(e) => {
                return Err(e);
            },
        };
        stale_verdict(ino_now, self.ino)
    }

    /// Read one snapshot: the six fields are read at their resolved,
    /// type-checked offsets; what is returned for the values that came back
    /// is fixed by `decode_snapshot` — `Invalid` for a zero valid byte or an
    /// unknown format byte, otherwise exactly their snapshot — and the
    /// mapping's freshness by `stale_verdict`. The region itself is never
    /// written.
    pub fn read(&mut self) -> (r: Result<MonitorState, ShmError>)
        requires
            old(self).wf(),
        ensures
            final(self).same_frame(old(self)),
            final(self).writes() == old(self).writes(),
    {
        let valid = match self.shm.read_field::<u8>("SharedData::valid") {
            Ok(v) => v,
            Err(e) => {
                return Err(e);
            },
        };
        let last_write_index = match self.shm.read_field::<i32>(
            "SharedData::last_write_index",
        ) {
            Ok(v) => v,
            Err(e) => {
                return Err(e);
            },
        };
        let state_raw = match self.shm.read_field::<u32>("SharedData::state") {
            Ok(v) => v,
            Err(e) => {
                return Err(e);
            },
        };
        let last_event_id = match self.shm.read_field::<u64>("SharedData::last_event") {
            Ok(v) => v,
            Err(e) => {
                return Err(e);
            },
        };
        let format_raw = match self.shm.read_field::<u8>("SharedData::format") {
            Ok(v) => v,
            Err(e) => {
                return Err(e);
            },
        };
        let imagesize = match self.shm.read_field::<u32>("SharedData::imagesize") {
            Ok(v) => v,
            Err(e) => {
                return Err(e);
            },
        };
        let snapshot = match decode_snapshot(
            valid,
            last_write_index,
            state_raw,
            last_event_id,
            format_raw,
            imagesize,
        ) {
            Ok(s) => s,
            Err(e) => {
                return Err(e);
            },
        };
        match self.check_file_stale() {
            Ok(()) => {},
            Err(e) => {
                return Err(e);
            },
        }
        Ok(snapshot)
    }

    /// Arm the trigger: write cause, text, cleared show-text and score, in
    /// that order, then the state word. Text payloads are truncated to their
    /// field's capacity less the terminator.
    fn set_trigger(&mut self, cause: &[u8], description: &[u8], score: u32) -> (r: Result<
        (),
        ShmError,
    >)
        requires
            old(self).wf(),
        ensures
            final(self).same_frame(old(self)),
            writes_prefix(
                old(self).writes(),
                final(self).writes(),
                spec_arm_writes(old(self).shm.layout, cause@, description@, score),
            ),
            r is Ok ==> final(self).writes() == old(self).writes() + spec_arm_writes(
                old(self).shm.layout,
                cause@,
                description@,
                score,
            ),
    {
        let ghost w = spec_arm_writes(old(self).shm.layout, cause@, description@, score);
        let ghost base = old(self).writes();
        let cap_c = field_size(&self.shm.layout, "TriggerData::trigger_cause");
        let tc: usize = if cause.len() < cap_c {
            cause.len()
        } else {
            cap_c - 1
        };
        let cause_trunc = vstd::slice::slice_subrange(cause, 0, tc);
        proof {
            if cause@.len() + 1 <= cap_c {
                assert(cause_trunc@ =~= cause@);
            }
            assert(cause_trunc@.push(0) == spec_cstr(cause@, cap_c as int));
        }
        match self.shm.write_cstr("TriggerData::trigger_cause", cause_trunc) {
            Ok(()) => {
                proof {
                    assert(self.writes() =~= base + w.take(1));
                }
            },
            Err(e) => {
                proof {
                    assert(self.writes() =~= base + w.take(0));
                }
                return Err(e);
            },
        }
        let cap_t = field_size(&self.shm.layout, "TriggerData::trigger_text");
        let tt: usize = if description.len() < cap_t {
            description.len()
        } else {
            cap_t - 1
        };
        let text_trunc = vstd::slice::slice_subrange(description, 0, tt);
        proof {
            if description@.len() + 1 <= cap_t {
                assert(text_trunc@ =~= description@);
            }
            assert(text_trunc@.push(0) == spec_cstr(description@, cap_t as int));
        }
        match self.shm.write_cstr("TriggerData::trigger_text", text_trunc) {
            Ok(()) => {
                proof {
                    assert(self.writes() =~= base + w.take(2));
                }
            },
            Err(e) => {
                return Err(e);
            },
        }
        match self.shm.write_zeros("TriggerData::trigger_showtext") {
            Ok(()) => {
                proof {
                    assert(self.writes() =~= base + w.take(3));
                }
            },
            Err(e) => {
                return Err(e);
            },
        }
        match self.shm.write_field::<u32>("TriggerData::trigger_score", &score) {
            Ok(()) => {
                proof {
                    assert(self.writes() =~= base + w.take(4));
                }
            },
            Err(e) => {
                return Err(e);
            },
        }
        let on = TriggerState::On.code();
        match self.shm.write_field::<u32>("TriggerData::trigger_state", &on) {
            Ok(()) => {
                proof {
                    assert(self.writes() =~= base + w.take(5));
                    assert(w.take(5) =~= w);
                }
            },
            Err(e) => {
                return Err(e);
            },
        }
        Ok(())
    }

    /// Reset the trigger: clear the auxiliary fields and the score, then
    /// write the cancel word.
    fn reset_trigger(&mut self) -> (r: Result<(), ShmError>)
        requires
            old(self).wf(),
        ensures
            final(self).same_frame(old(self)),
            writes_prefix(
                old(self).writes(),
                final(self).writes(),
                spec_reset_writes(old(self).shm.layout),
            ),
            r is Ok ==> final(self).writes() == old(self).writes() + spec_reset_writes(
                old(self).shm.layout,
            ),
    {
        let ghost w = spec_reset_writes(old(self).shm.layout);
        let ghost base = old(self).writes();
        match self.shm.write_zeros("TriggerData::trigger_cause") {
            Ok(()) => {
                proof {
                    assert(self.writes() =~= base + w.take(1));
                }
            },
            Err(e) => {
                proof {
                    assert(self.writes() =~= base + w.take(0));
                }
                return Err(e);
            },
        }
        match self.shm.write_zeros("TriggerData::trigger_text") {
            Ok(()) => {
                proof {
                    assert(self.writes() =~= base + w.take(2));
                }
            },
            Err(e) => {
                return Err(e);
            },
        }
        match self.shm.write_zeros("TriggerData::trigger_showtext") {
            Ok(()) => {
                proof {
                    assert(self.writes() =~= base + w.take(3));
                }
            },
            Err(e) => {
                return Err(e);
            },
        }
        let zero: u32 = 0;
        match self.shm.write_field::<u32>("TriggerData::trigger_score", &zero) {
            Ok(()) => {
                proof {
                    assert(self.writes() =~= base + w.take(4));
                }
            },
            Err(e) => {
                return Err(e);
            },
        }
        let cancel = TriggerState::Cancel.code();
        match self.shm.write_field::<u32>("TriggerData::trigger_state", &cancel) {
            Ok(()) => {
                proof {
                    assert(self.writes() =~= base + w.take(5));
                    assert(w.take(5) =~= w);
                }
            },
            Err(e) => {
                return Err(e);
            },
        }
        Ok(())
    }

    /// Mark at least one frame as an alarm frame with the given score: arm
    /// the trigger, poll every 10 ms until the host reports the alarm run
    /// state — giving up after five seconds, best effort — then reset the
    /// trigger and return the host's last event id. The write trace grows by
    /// exactly the planned trigger sequence on success, and by a prefix of
    /// it on failure. The call borrows the client exclusively, so no second
    /// trigger can be outstanding on the same client while one runs.
    #[verifier::rlimit(60)]
    pub fn trigger(&mut self, cause: &str, description: &str, score: u32) -> (r: Result<
        u64,
        ShmError,
    >)
        requires
            old(self).wf(),
        ensures
            final(self).same_frame(old(self)),
            writes_prefix(
                old(self).writes(),
                final(self).writes(),
                spec_trigger_writes(
                    old(self).shm.layout,
                    cause.spec_bytes(),
                    description.spec_bytes(),
                    score,
                ),
            ),
            r is Ok ==> final(self).writes() == old(self).writes() + spec_trigger_writes(
                old(self).shm.layout,
                cause.spec_bytes(),
                description.spec_bytes(),
                score,
            ),
    {
        let ghost layout = old(self).shm.layout;
        let ghost w = spec_trigger_writes(
            layout,
            cause.spec_bytes(),
            description.spec_bytes(),
            score,
        );
        let ghost arm = spec_arm_writes(layout, cause.spec_bytes(), description.spec_bytes(), score);
        let ghost rst = spec_reset_writes(layout);
        let ghost base = old(self).writes();
        match self.set_trigger(cause.as_bytes(), description.as_bytes(), score) {
            Ok(()) => {
                proof {
                    assert(self.writes() =~= base + w.take(5)) by {
                        assert(w.take(5) =~= arm);
                    }
                }
            },
            Err(e) => {
                proof {
                    assert(writes_prefix(base, self.writes(), arm));
                    let n = choose|n: int|
                        0 <= n <= arm.len() && self.writes() == base + #[trigger] arm.take(
                            n,
                        );
                    assert(0 <= n <= arm.len() && self.writes() == base + arm.take(n));
                    assert(w.take(n) =~= arm.take(n));
                    assert(self.writes() == base + w.take(n));
                    assert(writes_prefix(base, self.writes(), w));
                }
                return Err(e);
            },
        }
        let mut polls: u32 = 0;
        loop
            invariant
                self.wf(),
                self.same_frame(old(self)),
                base == old(self).writes(),
                w == spec_trigger_writes(
                    old(self).shm.layout,
                    cause.spec_bytes(),
                    description.spec_bytes(),
                    score,
                ),
                w.len() == 10,
                self.writes() == base + w.take(5),
                polls <= 500,
            decreases 501 - polls,
        {
            let st = match self.read() {
                Ok(s) => s,
                Err(e) => {
                    proof {
                        assert(writes_prefix(base, self.writes(), w));
                    }
                    return Err(e);
                },
            };
            if st.state == RunState::Alarm {
                break;
            }
            if polls == 500 {
                break;
            }
            self.shm.port.sleep_ms(10);
            polls = polls + 1;
        }
        match self.reset_trigger() {
            Ok(()) => {
                proof {
                    assert(self.writes() =~= base + w.take(10)) by {
                        assert((base + w.take(5)) + rst =~= base + (w.take(5) + rst));
                        assert(w.take(5) + rst =~= w.take(10));
                    }
                }
            },
            Err(e) => {
                proof {
                    let n = choose|n: int|
                        0 <= n <= rst.len() && self.writes() == (base + w.take(5))
                            + #[trigger] rst.take(n);
                    assert(w.take(5 + n) =~= w.take(5) + rst.take(n));
                    assert(self.writes() =~= base + w.take(5 + n));
                }
                return Err(e);
            },
        }
        let st = match self.read() {
            Ok(s) => s,
            Err(e) => {
                proof {
                    assert(self.writes() =~= base + w.take(10));
                }
                return Err(e);
            },
        };
        proof {
            assert(self.writes() =~= base + w.take(10));
            assert(w.take(10) =~= w);
        }
        Ok(st.last_event_id)
    }

    /// Whether the host currently reports the idle run state: the snapshot
    /// comes from `read`, the comparison is `snapshot_is_idle`, and errors
    /// of the read pass through unchanged.
    pub fn is_idle(&mut self) -> (r: Result<bool, ShmError>)
        requires
            old(self).wf(),
        ensures
            final(self).same_frame(old(self)),
            final(self).writes() == old(self).writes(),
    {
        let st = match self.read() {
            Ok(s) => s,
            Err(e) => {
                return Err(e);
            },
        };
        Ok(snapshot_is_idle(&st))
    }
}

} // verus!
