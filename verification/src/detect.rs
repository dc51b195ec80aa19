//! Detection post-processing: the relevant-class whitelist, the area
//! filter, the translation back to frame coordinates, and the one-line
//! description of a detection.

use vstd::prelude::*;

verus! {

use vstd::string::StringSliceAdditionalSpecFns;
use crate::text;
use crate::tracker::{Detection, Rect};

/// The detector classes this system reacts to.
pub open spec fn spec_is_relevant_class(class_id: i32) -> bool {
    class_id == 1 || class_id == 3 || class_id == 15 || class_id == 16 || class_id == 17
}

/// The label of one relevant class.
pub fn class_name(class_id: i32) -> (r: Option<&'static str>)
    ensures
        r is Some <==> spec_is_relevant_class(class_id),
        class_id == 1 ==> r is Some && r->Some_0.spec_bytes() == "Human".spec_bytes(),
        class_id == 3 ==> r is Some && r->Some_0.spec_bytes() == "Car".spec_bytes(),
        class_id == 15 ==> r is Some && r->Some_0.spec_bytes() == "Bird".spec_bytes(),
        class_id == 16 ==> r is Some && r->Some_0.spec_bytes() == "Cat".spec_bytes(),
        class_id == 17 ==> r is Some && r->Some_0.spec_bytes() == "Dog".spec_bytes(),
{
    if class_id == 1 {
        Some("Human")
    } else if class_id == 3 {
        Some("Car")
    } else if class_id == 15 {
        Some("Bird")
    } else if class_id == 16 {
        Some("Cat")
    } else if class_id == 17 {
        Some("Dog")
    } else {
        None
    }
}

/// The label's bytes, for stating what `describe` produces.
pub open spec fn spec_class_bytes(class_id: i32) -> Seq<u8> {
    if class_id == 1 {
        "Human".spec_bytes()
    } else if class_id == 3 {
        "Car".spec_bytes()
    } else if class_id == 15 {
        "Bird".spec_bytes()
    } else if class_id == 16 {
        "Cat".spec_bytes()
    } else {
        "Dog".spec_bytes()
    }
}

/// Arithmetic on a detection's box stays in range once these hold; the
/// detector's coordinates are frame-bounded, so the embedding program can
/// check them cheaply.
pub open spec fn spec_det_ok(d: Detection, zone_x: int, zone_y: int) -> bool {
    &&& 0 <= d.bounding_box.width * d.bounding_box.height <= i32::MAX
    &&& i32::MIN <= d.bounding_box.x + zone_x <= i32::MAX
    &&& i32::MIN <= d.bounding_box.y + zone_y <= i32::MAX
}

/// Whether a detection survives the class and area filter.
pub open spec fn spec_det_kept(d: Detection, min_area: u32) -> bool {
    spec_is_relevant_class(d.class_id) && d.bounding_box.width * d.bounding_box.height
        > min_area
}

/// The detection moved from zone-crop coordinates back to the frame.
pub open spec fn spec_det_translated(d: Detection, zone_x: int, zone_y: int) -> Detection {
    Detection {
        confidence_permille: d.confidence_permille,
        class_id: d.class_id,
        bounding_box: Rect {
            x: (d.bounding_box.x + zone_x) as i32,
            y: (d.bounding_box.y + zone_y) as i32,
            width: d.bounding_box.width,
            height: d.bounding_box.height,
        },
    }
}

/// The kept detections, translated, in order.
pub open spec fn spec_filtered(
    ds: Seq<Detection>,
    min_area: u32,
    zone_x: int,
    zone_y: int,
) -> Seq<Detection>
    decreases ds.len(),
{
    if ds.len() == 0 {
        Seq::empty()
    } else {
        spec_filtered(ds.drop_last(), min_area, zone_x, zone_y) + (if spec_det_kept(
            ds.last(),
            min_area,
        ) {
            seq![spec_det_translated(ds.last(), zone_x, zone_y)]
        } else {
            Seq::empty()
        })
    }
}

/// Keep the relevant detections whose box area exceeds `min_area`, and move
/// their boxes from the zone crop back into frame coordinates.
pub fn filter_detections(ds: &Vec<Detection>, min_area: u32, zone_x: i32, zone_y: i32) -> (r:
    Vec<Detection>)
    requires
        forall|i: int| 0 <= i < ds@.len() ==> spec_det_ok(
            #[trigger] ds@[i],
            zone_x as int,
            zone_y as int,
        ),
    ensures
        r@ == spec_filtered(ds@, min_area, zone_x as int, zone_y as int),
{
    let mut r: Vec<Detection> = Vec::new();
    let mut i: usize = 0;
    proof {
        assert(r@ =~= spec_filtered(
            ds@.take(0),
            min_area,
            zone_x as int,
            zone_y as int,
        ));
    }
    while i < ds.len()
        invariant
            i <= ds@.len(),
            forall|j: int| 0 <= j < ds@.len() ==> spec_det_ok(
                #[trigger] ds@[j],
                zone_x as int,
                zone_y as int,
            ),
            r@ == spec_filtered(ds@.take(i as int), min_area, zone_x as int, zone_y as int),
        decreases ds@.len() - i,
    {
        proof {
            assert(ds@.take(i as int + 1).drop_last() =~= ds@.take(i as int));
            assert(ds@.take(i as int + 1).last() == ds@[i as int]);
        }
        let d = ds[i];
        let relevant = match class_name(d.class_id) {
            Some(_) => true,
            None => false,
        };
        if relevant {
            let area_wide: i64 = (d.bounding_box.width as i64) * (d.bounding_box.height
                as i64);
            if area_wide > (min_area as i64) {
                r.push(
                    Detection {
                        confidence_permille: d.confidence_permille,
                        class_id: d.class_id,
                        bounding_box: Rect {
                            x: d.bounding_box.x + zone_x,
                            y: d.bounding_box.y + zone_y,
                            width: d.bounding_box.width,
                            height: d.bounding_box.height,
                        },
                    },
                );
                proof {
                    assert(r@ =~= spec_filtered(
                        ds@.take(i as int + 1),
                        min_area,
                        zone_x as int,
                        zone_y as int,
                    ));
                }
            } else {
                proof {
                    assert(r@ =~= spec_filtered(
                        ds@.take(i as int + 1),
                        min_area,
                        zone_x as int,
                        zone_y as int,
                    ));
                }
            }
        } else {
            proof {
                assert(r@ =~= spec_filtered(
                    ds@.take(i as int + 1),
                    min_area,
                    zone_x as int,
                    zone_y as int,
                ));
            }
        }
        i = i + 1;
    }
    proof {
        assert(ds@.take(ds@.len() as int) =~= ds@);
    }
    r
}

/// The one-line description of a detection: label, confidence with one
/// decimal, box extent, area, and position.
pub open spec fn spec_describe_bytes(d: Detection) -> Seq<u8> {
    spec_class_bytes(d.class_id) + " (".spec_bytes() + text::spec_u64_digits(
        (d.confidence_permille / 10) as nat,
    ) + ".".spec_bytes() + text::spec_u64_digits((d.confidence_permille % 10) as nat)
        + "%) ".spec_bytes() + text::spec_i64_digits(d.bounding_box.width as int)
        + "x".spec_bytes() + text::spec_i64_digits(d.bounding_box.height as int)
        + " (=".spec_bytes() + text::spec_i64_digits(
        d.bounding_box.width * d.bounding_box.height,
    ) + ") at ".spec_bytes() + text::spec_i64_digits(d.bounding_box.x as int)
        + "x".spec_bytes() + text::spec_i64_digits(d.bounding_box.y as int)
}

/// The concrete bytes of the class labels, pinned for the ASCII conversion.
proof fn lemma_class_literals()
    ensures
        "Human".spec_bytes() =~= seq![72u8, 117, 109, 97, 110],
        "Car".spec_bytes() =~= seq![67u8, 97, 114],
        "Bird".spec_bytes() =~= seq![66u8, 105, 114, 100],
        "Cat".spec_bytes() =~= seq![67u8, 97, 116],
        "Dog".spec_bytes() =~= seq![68u8, 111, 103],
        " (".spec_bytes() =~= seq![32u8, 40],
        ".".spec_bytes() =~= seq![46u8],
        "%) ".spec_bytes() =~= seq![37u8, 41, 32],
        "x".spec_bytes() =~= seq![120u8],
        " (=".spec_bytes() =~= seq![32u8, 40, 61],
        ") at ".spec_bytes() =~= seq![41u8, 32, 97, 116, 32],
{
    reveal_strlit("Human");
    reveal_strlit("Car");
    reveal_strlit("Bird");
    reveal_strlit("Cat");
    reveal_strlit("Dog");
    reveal_strlit(" (");
    reveal_strlit(".");
    reveal_strlit("%) ");
    reveal_strlit("x");
    reveal_strlit(" (=");
    reveal_strlit(") at ");
    text::lemma_literal_bytes("Human", seq![72u8, 117, 109, 97, 110]);
    text::lemma_literal_bytes("Car", seq![67u8, 97, 114]);
    text::lemma_literal_bytes("Bird", seq![66u8, 105, 114, 100]);
    text::lemma_literal_bytes("Cat", seq![67u8, 97, 116]);
    text::lemma_literal_bytes("Dog", seq![68u8, 111, 103]);
    text::lemma_literal_bytes(" (", seq![32u8, 40]);
    text::lemma_literal_bytes(".", seq![46u8]);
    text::lemma_literal_bytes("%) ", seq![37u8, 41, 32]);
    text::lemma_literal_bytes("x", seq![120u8]);
    text::lemma_literal_bytes(" (=", seq![32u8, 40, 61]);
    text::lemma_literal_bytes(") at ", seq![41u8, 32, 97, 116, 32]);
}

proof fn lemma_i64_digits_ascii(v: int)
    ensures
        text::all_ascii(text::spec_i64_digits(v)),
{
    if v < 0 {
        text::lemma_u64_digits_are_digits((-v) as nat);
        let s = text::spec_i64_digits(v);
        assert forall|i: int| 0 <= i < s.len() implies #[trigger] s[i] < 128 by {
            if i > 0 {
                assert(s[i] == text::spec_u64_digits((-v) as nat)[i - 1]);
                assert(text::is_digit(s[i]));
            }
        }
    } else {
        text::lemma_u64_digits_are_digits(v as nat);
        let s = text::spec_i64_digits(v);
        assert forall|i: int| 0 <= i < s.len() implies #[trigger] s[i] < 128 by {
            assert(text::is_digit(s[i]));
        }
    }
}

/// Describe one detection for the event notes.
pub fn describe(d: &Detection) -> (r: String)
    requires
        spec_is_relevant_class(d.class_id),
        0 <= d.bounding_box.width * d.bounding_box.height,
    ensures
        r@ == text::chars_of_bytes(spec_describe_bytes(*d)),
{
    let mut out: Vec<u8> = Vec::new();
    let name = class_name(d.class_id).unwrap();
    text::append_bytes(&mut out, name.as_bytes());
    text::append_bytes(&mut out, " (".as_bytes());
    let c1 = text::u64_digits((d.confidence_permille / 10) as u64);
    text::append_bytes(&mut out, c1.as_slice());
    text::append_bytes(&mut out, ".".as_bytes());
    let c2 = text::u64_digits((d.confidence_permille % 10) as u64);
    text::append_bytes(&mut out, c2.as_slice());
    text::append_bytes(&mut out, "%) ".as_bytes());
    let wd = text::i64_digits(d.bounding_box.width as i64);
    text::append_bytes(&mut out, wd.as_slice());
    text::append_bytes(&mut out, "x".as_bytes());
    let hd = text::i64_digits(d.bounding_box.height as i64);
    text::append_bytes(&mut out, hd.as_slice());
    text::append_bytes(&mut out, " (=".as_bytes());
    proof {
        let w = d.bounding_box.width as int;
        let h = d.bounding_box.height as int;
        assert(i64::MIN < w * h <= i64::MAX) by (nonlinear_arith)
            requires
                -0x8000_0000 <= w <= 0x7fff_ffff,
                -0x8000_0000 <= h <= 0x7fff_ffff,
        ;
    }
    let area: i64 = (d.bounding_box.width as i64) * (d.bounding_box.height as i64);
    let ad = text::i64_digits(area);
    text::append_bytes(&mut out, ad.as_slice());
    text::append_bytes(&mut out, ") at ".as_bytes());
    let xd = text::i64_digits(d.bounding_box.x as i64);
    text::append_bytes(&mut out, xd.as_slice());
    text::append_bytes(&mut out, "x".as_bytes());
    let yd = text::i64_digits(d.bounding_box.y as i64);
    text::append_bytes(&mut out, yd.as_slice());
    proof {
        assert(out@ =~= spec_describe_bytes(*d));
        lemma_describe_ascii(*d);
    }
    text::ascii_to_string(out)
}

pub proof fn lemma_describe_ascii(d: Detection)
    requires
        spec_is_relevant_class(d.class_id),
    ensures
        text::all_ascii(spec_describe_bytes(d)),
{
    lemma_class_literals();
    text::lemma_u64_digits_are_digits((d.confidence_permille / 10) as nat);
    text::lemma_u64_digits_are_digits((d.confidence_permille % 10) as nat);
    lemma_i64_digits_ascii(d.bounding_box.width as int);
    lemma_i64_digits_ascii(d.bounding_box.height as int);
    lemma_i64_digits_ascii(d.bounding_box.x as int);
    lemma_i64_digits_ascii(d.bounding_box.y as int);
    lemma_i64_digits_ascii(d.bounding_box.width * d.bounding_box.height);
    let s = spec_describe_bytes(d);
    let p0 = spec_class_bytes(d.class_id);
    let p1 = " (".spec_bytes();
    let p2 = text::spec_u64_digits((d.confidence_permille / 10) as nat);
    let p3 = ".".spec_bytes();
    let p4 = text::spec_u64_digits((d.confidence_permille % 10) as nat);
    let p5 = "%) ".spec_bytes();
    let p6 = text::spec_i64_digits(d.bounding_box.width as int);
    let p7 = "x".spec_bytes();
    let p8 = text::spec_i64_digits(d.bounding_box.height as int);
    let p9 = " (=".spec_bytes();
    let p10 = text::spec_i64_digits(d.bounding_box.width * d.bounding_box.height);
    let p11 = ") at ".spec_bytes();
    let p12 = text::spec_i64_digits(d.bounding_box.x as int);
    let p13 = text::spec_i64_digits(d.bounding_box.y as int);
    assert forall|i: int| 0 <= i < s.len() implies #[trigger] s[i] < 128 by {
        let l0 = p0.len() as int;
        let l1 = l0 + p1.len();
        let l2 = l1 + p2.len();
        let l3 = l2 + p3.len();
        let l4 = l3 + p4.len();
        let l5 = l4 + p5.len();
        let l6 = l5 + p6.len();
        let l7 = l6 + p7.len();
        let l8 = l7 + p8.len();
        let l9 = l8 + p9.len();
        let l10 = l9 + p10.len();
        let l11 = l10 + p11.len();
        let l12 = l11 + p12.len();
        let l13 = l12 + p7.len();
        if i < l0 {
            assert(s[i] == p0[i]);
        } else if i < l1 {
            assert(s[i] == p1[i - l0]);
        } else if i < l2 {
            assert(s[i] == p2[i - l1]);
            assert(text::is_digit(s[i]));
        } else if i < l3 {
            assert(s[i] == p3[i - l2]);
        } else if i < l4 {
            assert(s[i] == p4[i - l3]);
            assert(text::is_digit(s[i]));
        } else if i < l5 {
            assert(s[i] == p5[i - l4]);
        } else if i < l6 {
            assert(s[i] == p6[i - l5]);
        } else if i < l7 {
            assert(s[i] == p7[i - l6]);
        } else if i < l8 {
            assert(s[i] == p8[i - l7]);
        } else if i < l9 {
            assert(s[i] == p9[i - l8]);
        } else if i < l10 {
            assert(s[i] == p10[i - l9]);
        } else if i < l11 {
            assert(s[i] == p11[i - l10]);
        } else if i < l12 {
            assert(s[i] == p12[i - l11]);
        } else if i < l13 {
            assert(s[i] == p7[i - l12]);
        } else {
            assert(s[i] == p13[i - l13]);
        }
    }
}

/// A video position as `mm:ss:mmm`, minutes and seconds two digits wide,
/// milliseconds three.
pub open spec fn spec_timestamp_bytes(total_ms: nat) -> Seq<u8> {
    let mins = total_ms / 60000;
    let secs = (total_ms / 1000) % 60;
    let frac = total_ms % 1000;
    text::spec_padded_digits(mins, 2) + ":".spec_bytes() + text::spec_padded_digits(secs, 2)
        + ":".spec_bytes() + text::spec_padded_digits(frac, 3)
}

/// Format a video position for the offline re-analysis report.
pub fn format_timestamp(total_ms: u64) -> (r: String)
    ensures
        r@ == text::chars_of_bytes(spec_timestamp_bytes(total_ms as nat)),
{
    let mut out: Vec<u8> = Vec::new();
    let m = text::padded_digits(total_ms / 60000, 2);
    text::append_bytes(&mut out, m.as_slice());
    text::append_bytes(&mut out, ":".as_bytes());
    let s = text::padded_digits((total_ms / 1000) % 60, 2);
    text::append_bytes(&mut out, s.as_slice());
    text::append_bytes(&mut out, ":".as_bytes());
    let f = text::padded_digits(total_ms % 1000, 3);
    text::append_bytes(&mut out, f.as_slice());
    proof {
        reveal_strlit(":");
        text::lemma_literal_bytes(":", seq![58u8]);
        assert(out@ =~= spec_timestamp_bytes(total_ms as nat));
        lemma_timestamp_ascii(total_ms as nat);
    }
    text::ascii_to_string(out)
}

proof fn lemma_padded_ascii(v: nat, width: int)
    ensures
        text::all_ascii(text::spec_padded_digits(v, width)),
{
    text::lemma_u64_digits_are_digits(v);
    let s = text::spec_padded_digits(v, width);
    let d = text::spec_u64_digits(v);
    assert forall|i: int| 0 <= i < s.len() implies #[trigger] s[i] < 128 by {
        if d.len() >= width {
            assert(text::is_digit(s[i]));
        } else {
            if i >= width - d.len() {
                assert(s[i] == d[i - (width - d.len())]);
                assert(text::is_digit(s[i]));
            } else {
                assert(s[i] == 48u8);
            }
        }
    }
}

proof fn lemma_timestamp_ascii(total_ms: nat)
    ensures
        text::all_ascii(spec_timestamp_bytes(total_ms)),
{
    reveal_strlit(":");
    text::lemma_literal_bytes(":", seq![58u8]);
    lemma_padded_ascii(total_ms / 60000, 2);
    lemma_padded_ascii((total_ms / 1000) % 60, 2);
    lemma_padded_ascii(total_ms % 1000, 3);
    let s = spec_timestamp_bytes(total_ms);
    let p0 = text::spec_padded_digits(total_ms / 60000, 2);
    let p1 = ":".spec_bytes();
    let p2 = text::spec_padded_digits((total_ms / 1000) % 60, 2);
    let p3 = text::spec_padded_digits(total_ms % 1000, 3);
    assert forall|i: int| 0 <= i < s.len() implies #[trigger] s[i] < 128 by {
        let l0 = p0.len() as int;
        let l1 = l0 + p1.len();
        let l2 = l1 + p2.len();
        let l3 = l2 + p1.len();
        if i < l0 {
            assert(s[i] == p0[i]);
        } else if i < l1 {
            assert(s[i] == p1[i - l0]);
        } else if i < l2 {
            assert(s[i] == p2[i - l1]);
        } else if i < l3 {
            assert(s[i] == p1[i - l2]);
        } else {
            assert(s[i] == p3[i - l3]);
        }
    }
}

/// The effective per-zone tuning after defaults are applied.
#[derive(Clone, Copy, Debug, PartialEq, Eq, Structural)]
pub struct Tuning {
    /// Detector input edge; defaults to 256.
    pub size: u32,
    /// Confidence threshold in percent; defaults to 50.
    pub threshold_percent: u32,
    /// The monitor whose event to extend; defaults to the monitor itself.
    pub trigger_id: u32,
    /// The analysis rate in thousandths of a frame per second.
    pub max_fps_millihertz: u64,
    /// Minimum detection area; defaults to 0.
    pub min_area: u32,
}

/// Resolve a zone's tuning: zone options override the host's analysis rate
/// limit; an unset rate anywhere is a configuration fault.
pub fn resolve_tuning(
    zone: &crate::zone::ZoneConfig,
    monitor_id: u32,
    analysis_fps_limit_millihertz: Option<u64>,
) -> (r: Result<Tuning, crate::conf::ConfigError>)
    ensures
        zone.fps is None && analysis_fps_limit_millihertz is None ==> r == Err::<
            Tuning,
            crate::conf::ConfigError,
        >(crate::conf::ConfigError::NoFpsLimit),
        zone.fps is Some || analysis_fps_limit_millihertz is Some ==> r is Ok && ({
            let t = r->Ok_0;
            &&& t.size == zone.size.unwrap_or(256)
            &&& t.threshold_percent == zone.threshold.unwrap_or(50)
            &&& t.trigger_id == zone.trigger.unwrap_or(monitor_id)
            &&& t.min_area == zone.min_area.unwrap_or(0)
            &&& t.max_fps_millihertz == match zone.fps {
                Some(f) => (f * 1000) as int,
                None => analysis_fps_limit_millihertz->Some_0 as int,
            }
        }),
{
    let max_fps_millihertz: u64 = match zone.fps {
        Some(f) => (f as u64) * 1000,
        None => match analysis_fps_limit_millihertz {
            Some(l) => l,
            None => {
                return Err(crate::conf::ConfigError::NoFpsLimit);
            },
        },
    };
    Ok(
        Tuning {
            size: match zone.size {
                Some(s) => s,
                None => 256,
            },
            threshold_percent: match zone.threshold {
                Some(t) => t,
                None => 50,
            },
            trigger_id: match zone.trigger {
                Some(t) => t,
                None => monitor_id,
            },
            max_fps_millihertz,
            min_area: match zone.min_area {
                Some(m) => m,
                None => 0,
            },
        },
    )
}

} // verus!
