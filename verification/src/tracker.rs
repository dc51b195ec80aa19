//! Detections, and the tracker coalescing a run of detections that share a
//! host event into one best description.

use vstd::prelude::*;

verus! {

/// An axis-aligned box in frame coordinates.
#[derive(Clone, Copy, Debug, PartialEq, Eq, Structural)]
pub struct Rect {
    pub x: i32,
    pub y: i32,
    pub width: i32,
    pub height: i32,
}

/// One detector hit. Confidence is carried in permille — the floor of a
/// thousand times the detector's unit-interval confidence — so that scores
/// and comparisons are exact.
#[derive(Clone, Copy, Debug, PartialEq, Eq, Structural)]
pub struct Detection {
    pub confidence_permille: u32,
    pub class_id: i32,
    pub bounding_box: Rect,
}

/// A flushed event: persist `detection` as the event's description.
#[derive(Clone, Copy, Debug, PartialEq, Eq, Structural)]
pub struct UpdateEvent {
    pub event_id: u64,
    pub detection: Detection,
}

/// The run of detections currently sharing one host event.
pub struct TrackedEvent {
    pub event_id: u64,
    pub detections: Vec<Detection>,
}

/// Coalesces detections per host event and flushes a best detection when
/// the event changes or the tracker is cleared.
pub struct EventTracker {
    pub current_event: Option<TrackedEvent>,
}

/// Index of the best detection seen among the first `upto`: maximal
/// confidence, ties broken in favour of the earliest.
pub open spec fn spec_best_index(s: Seq<Detection>, upto: int) -> int
    decreases upto,
{
    if upto <= 1 {
        0
    } else {
        let b = spec_best_index(s, upto - 1);
        if s[upto - 1].confidence_permille > s[b].confidence_permille {
            upto - 1
        } else {
            b
        }
    }
}

/// The first detection of maximal confidence.
pub open spec fn spec_best(s: Seq<Detection>) -> Detection {
    s[spec_best_index(s, s.len() as int)]
}

/// The best index is in range, maximal, and the first of its confidence.
pub proof fn lemma_best_index(s: Seq<Detection>, upto: int)
    requires
        1 <= upto <= s.len(),
    ensures
        0 <= spec_best_index(s, upto) < upto,
        forall|j: int|
            0 <= j < upto ==> (#[trigger] s[j]).confidence_permille <= s[spec_best_index(
                s,
                upto,
            )].confidence_permille,
        forall|j: int|
            0 <= j < spec_best_index(s, upto) ==> (#[trigger] s[j]).confidence_permille
                < s[spec_best_index(s, upto)].confidence_permille,
    decreases upto,
{
    if upto > 1 {
        lemma_best_index(s, upto - 1);
    }
}

/// The tracker as a value: the live event's id and its detections.
pub open spec fn spec_model(t: &EventTracker) -> Option<(u64, Seq<Detection>)> {
    match t.current_event {
        Option::None => Option::None,
        Option::Some(ref te) => Option::Some((te.event_id, te.detections@)),
    }
}

/// A live event always holds at least one detection.
pub open spec fn spec_tracker_wf(m: Option<(u64, Seq<Detection>)>) -> bool {
    m is Some ==> m->Some_0.1.len() >= 1
}

/// What one `push` does: start an event, extend the current one, or flush
/// it and start over.
pub open spec fn spec_push(
    m: Option<(u64, Seq<Detection>)>,
    d: Detection,
    event_id: u64,
) -> (Option<(u64, Seq<Detection>)>, Option<UpdateEvent>) {
    match m {
        Option::None => (Option::Some((event_id, seq![d])), Option::None),
        Option::Some((cur, ds)) => {
            if cur == event_id {
                (Option::Some((cur, ds.push(d))), Option::None)
            } else {
                (
                    Option::Some((event_id, seq![d])),
                    Option::Some(UpdateEvent { event_id: cur, detection: spec_best(ds) }),
                )
            }
        },
    }
}

/// What `clear` does: flush the live event, if any.
pub open spec fn spec_clear(m: Option<(u64, Seq<Detection>)>) -> (
    Option<(u64, Seq<Detection>)>,
    Option<UpdateEvent>,
) {
    match m {
        Option::None => (Option::None, Option::None),
        Option::Some((cur, ds)) => (
            Option::None,
            Option::Some(UpdateEvent { event_id: cur, detection: spec_best(ds) }),
        ),
    }
}

/// Flush law, first half: a push under event `e` followed by a push under a
/// different event `e2` always flushes on the second push, and the flushed
/// update carries `e`.
pub proof fn lemma_flush_on_event_change(
    m: Option<(u64, Seq<Detection>)>,
    d: Detection,
    e: u64,
    d2: Detection,
    e2: u64,
)
    requires
        spec_tracker_wf(m),
        e2 != e,
    ensures
        ({
            let (m1, r1) = spec_push(m, d, e);
            let (m2, r2) = spec_push(m1, d2, e2);
            r2 is Some && r2->Some_0.event_id == e
        }),
{
}

/// Flush law, second half: after any run of pushes under one event `e`, a
/// clear returns an update exactly when at least one push happened since
/// the last flush or clear, and the update carries `e`.
pub proof fn lemma_clear_flushes(m: Option<(u64, Seq<Detection>)>, d: Detection, e: u64)
    requires
        spec_tracker_wf(m),
    ensures
        spec_clear(Option::None).1 is None,
        ({
            let (m1, r1) = spec_push(m, d, e);
            spec_clear(m1).1 is Some && spec_clear(m1).1->Some_0.event_id == e
        }),
{
}

/// The first detection of maximal confidence among `s`.
fn best_of(s: &Vec<Detection>) -> (r: Detection)
    requires
        s@.len() >= 1,
    ensures
        r == spec_best(s@),
{
    let mut bi: usize = 0;
    let mut i: usize = 1;
    while i < s.len()
        invariant
            1 <= i <= s@.len(),
            s@.len() >= 1,
            bi < i,
            bi == spec_best_index(s@, i as int),
        decreases s@.len() - i,
    {
        if s[i].confidence_permille > s[bi].confidence_permille {
            bi = i;
        }
        i = i + 1;
    }
    s[bi]
}

impl EventTracker {
    /// An idle tracker with no live event.
    pub fn new() -> (r: EventTracker)
        ensures
            spec_model(&r) is None,
    {
        EventTracker { current_event: Option::None }
    }

    /// Feed one detection observed under `event_id`.
    pub fn push_detection(&mut self, d: Detection, event_id: u64) -> (r: Option<
        UpdateEvent,
    >)
        requires
            spec_tracker_wf(spec_model(old(self))),
        ensures
            spec_tracker_wf(spec_model(final(self))),
            (spec_model(final(self)), r) == spec_push(spec_model(old(self)), d, event_id),
    {
        let same: bool = match &self.current_event {
            Option::Some(te) => te.event_id == event_id,
            Option::None => false,
        };
        if same {
            match &mut self.current_event {
                Option::Some(te) => {
                    te.detections.push(d);
                },
                Option::None => {},
            }
            Option::None
        } else {
            let flushed: Option<UpdateEvent> = match &self.current_event {
                Option::Some(te) => Option::Some(
                    UpdateEvent { event_id: te.event_id, detection: best_of(&te.detections) },
                ),
                Option::None => Option::None,
            };
            let mut ds: Vec<Detection> = Vec::new();
            ds.push(d);
            self.current_event = Option::Some(TrackedEvent { event_id, detections: ds });
            proof {
                assert(ds@ =~= seq![d]);
            }
            flushed
        }
    }

    /// Flush the live event, if any.
    pub fn clear(&mut self) -> (r: Option<UpdateEvent>)
        requires
            spec_tracker_wf(spec_model(old(self))),
        ensures
            spec_tracker_wf(spec_model(final(self))),
            (spec_model(final(self)), r) == spec_clear(spec_model(old(self))),
    {
        match self.current_event.take() {
            Option::None => Option::None,
            Option::Some(te) => {
                let best = best_of(&te.detections);
                Option::Some(UpdateEvent { event_id: te.event_id, detection: best })
            },
        }
    }
}

} // verus!
