//! One tick of the analysis pipeline: the decisions between a frame's
//! detections and the host — trigger, coalesce, flush — stated as a
//! function of the tick's inputs.

use vstd::prelude::*;

verus! {

use vstd::string::StringSliceAdditionalSpecFns;
use crate::detect::{describe, spec_describe_bytes, spec_is_relevant_class};
use crate::monitor::{writes_prefix, spec_trigger_writes, Monitor};
use crate::ports::{ShmError, ShmPort};
use crate::text;
use crate::tracker::{
    spec_best, spec_clear, spec_model, spec_push, spec_tracker_wf, Detection, EventTracker,
    UpdateEvent,
};

/// What one tick decided: the host event extended by a trigger, the event
/// notes to persist, and whether the workload overran the target interval.
pub struct TickOutcome {
    pub triggered_event: Option<u64>,
    pub updates: Vec<UpdateEvent>,
    pub overrun: bool,
}

/// A flushed update as the sequence it contributes to the tick's output.
pub open spec fn opt_update(o: Option<UpdateEvent>) -> Seq<UpdateEvent> {
    match o {
        None => Seq::empty(),
        Some(u) => seq![u],
    }
}

/// Every detection can be described and scored.
pub open spec fn spec_detections_ok(ds: Seq<Detection>) -> bool {
    forall|i: int|
        0 <= i < ds.len() ==> spec_is_relevant_class((#[trigger] ds[i]).class_id) && 0 <= ds[
            i
        ].bounding_box.width * ds[i].bounding_box.height
}

/// The first detection of maximal confidence among `ds`.
pub fn best_detection(ds: &Vec<Detection>) -> (r: Detection)
    requires
        ds@.len() >= 1,
    ensures
        r == spec_best(ds@),
{
    let mut bi: usize = 0;
    let mut i: usize = 1;
    while i < ds.len()
        invariant
            1 <= i <= ds@.len(),
            bi < i,
            bi == crate::tracker::spec_best_index(ds@, i as int),
        decreases ds@.len() - i,
    {
        if ds[i].confidence_permille > ds[bi].confidence_permille {
            bi = i;
        }
        i = i + 1;
    }
    ds[bi]
}

/// Run the decisions of one pipeline tick over the frame's already-filtered
/// detections: when any are present, trigger the host with the best one's
/// description and feed the tracker under the returned event; when the host
/// has gone idle, flush the tracker. Every flushed update is handed back
/// for the embedding program to persist; the trace of shared-memory writes
/// grows only by trigger sequences.
pub fn run_tick<P: ShmPort>(
    trigger_monitor: &mut Monitor<P>,
    tracker: &mut EventTracker,
    detections: &Vec<Detection>,
    inference_duration_us: u64,
    target_interval_us: u64,
) -> (r: Result<TickOutcome, ShmError>)
    requires
        old(trigger_monitor).wf(),
        spec_tracker_wf(spec_model(old(tracker))),
        spec_detections_ok(detections@),
    ensures
        final(trigger_monitor).same_frame(old(trigger_monitor)),
        spec_tracker_wf(spec_model(final(tracker))),
        detections@.len() == 0 ==> final(trigger_monitor).writes() == old(
            trigger_monitor,
        ).writes(),
        detections@.len() > 0 ==> writes_prefix(
            old(trigger_monitor).writes(),
            final(trigger_monitor).writes(),
            spec_trigger_writes(
                old(trigger_monitor).shm.layout,
                "aidect".spec_bytes(),
                spec_describe_bytes(spec_best(detections@)),
                spec_best(detections@).confidence_permille / 10,
            ),
        ),
        r is Ok ==> ({
            let out = r->Ok_0;
            &&& out.overrun == (inference_duration_us > target_interval_us)
            &&& detections@.len() == 0 ==> out.triggered_event is None && ((spec_model(
                final(tracker),
            ) == spec_model(old(tracker)) && out.updates@ == Seq::<UpdateEvent>::empty())
                || (spec_model(final(tracker)) is None && out.updates@ == opt_update(
                spec_clear(spec_model(old(tracker))).1,
            )))
            &&& detections@.len() > 0 ==> out.triggered_event is Some && ({
                let pushed = spec_push(
                    spec_model(old(tracker)),
                    spec_best(detections@),
                    out.triggered_event->Some_0,
                );
                (spec_model(final(tracker)) == pushed.0 && out.updates@ == opt_update(
                    pushed.1,
                )) || (spec_model(final(tracker)) is None && out.updates@ == opt_update(
                    pushed.1,
                ) + opt_update(spec_clear(pushed.0).1))
            })
        }),
{
    let mut updates: Vec<UpdateEvent> = Vec::new();
    let mut triggered_event: Option<u64> = None;
    if detections.len() > 0 {
        let best = best_detection(detections);
        proof {
            crate::tracker::lemma_best_index(detections@, detections@.len() as int);
            assert(spec_is_relevant_class(best.class_id) && 0 <= best.bounding_box.width
                * best.bounding_box.height);
        }
        let score = best.confidence_permille / 10;
        let description = describe(&best);
        let description_str: &str = description.as_str();
        proof {
            crate::detect::lemma_describe_ascii(best);
            text::lemma_ascii_string_bytes(description_str, spec_describe_bytes(best));
        }
        let event_id = match trigger_monitor.trigger("aidect", description_str, score) {
            Ok(e) => e,
            Err(e) => {
                return Err(e);
            },
        };
        triggered_event = Some(event_id);
        match tracker.push_detection(best, event_id) {
            Some(u) => {
                updates.push(u);
            },
            None => {},
        }
    }
    let idle = match trigger_monitor.is_idle() {
        Ok(b) => b,
        Err(e) => {
            return Err(e);
        },
    };
    if idle {
        match tracker.clear() {
            Some(u) => {
                updates.push(u);
            },
            None => {},
        }
    }
    Ok(
        TickOutcome {
            triggered_event,
            updates,
            overrun: inference_duration_us > target_interval_us,
        },
    )
}

} // verus!
