//! Zone configuration: per-zone detector tuning parsed from the zone row's
//! name, and the polygon parsed from its coordinate list.

use vstd::prelude::*;

verus! {

use vstd::string::StringSliceAdditionalSpecFns;
use crate::text;
use crate::tracker::Rect;

/// A polygon as an ordered list of frame coordinates.
pub type ZoneShape = Vec<(i32, i32)>;

/// Smallest x among the points.
pub open spec fn spec_min_x(s: Seq<(i32, i32)>) -> int
    decreases s.len(),
{
    if s.len() <= 1 {
        s[0].0 as int
    } else if s.last().0 < spec_min_x(s.drop_last()) {
        s.last().0 as int
    } else {
        spec_min_x(s.drop_last())
    }
}

pub open spec fn spec_max_x(s: Seq<(i32, i32)>) -> int
    decreases s.len(),
{
    if s.len() <= 1 {
        s[0].0 as int
    } else if s.last().0 > spec_max_x(s.drop_last()) {
        s.last().0 as int
    } else {
        spec_max_x(s.drop_last())
    }
}

pub open spec fn spec_min_y(s: Seq<(i32, i32)>) -> int
    decreases s.len(),
{
    if s.len() <= 1 {
        s[0].1 as int
    } else if s.last().1 < spec_min_y(s.drop_last()) {
        s.last().1 as int
    } else {
        spec_min_y(s.drop_last())
    }
}

pub open spec fn spec_max_y(s: Seq<(i32, i32)>) -> int
    decreases s.len(),
{
    if s.len() <= 1 {
        s[0].1 as int
    } else if s.last().1 > spec_max_y(s.drop_last()) {
        s.last().1 as int
    } else {
        spec_max_y(s.drop_last())
    }
}

/// Provides the axis-aligned bounding box of a shape.
pub trait Bounding {
    /// Whether the box is defined and its extents fit the coordinate type.
    spec fn spec_can_bound(&self) -> bool;

    /// The box: minimal corner, extents to the maximal corner.
    spec fn spec_bounding_box(&self) -> Rect;

    fn bounding_box(&self) -> (r: Rect)
        requires
            self.spec_can_bound(),
        ensures
            r == self.spec_bounding_box(),
    ;
}

impl Bounding for ZoneShape {
    open spec fn spec_can_bound(&self) -> bool {
        self@.len() >= 1 && spec_max_x(self@) - spec_min_x(self@) <= i32::MAX && spec_max_y(
            self@,
        ) - spec_min_y(self@) <= i32::MAX
    }

    open spec fn spec_bounding_box(&self) -> Rect {
        Rect {
            x: spec_min_x(self@) as i32,
            y: spec_min_y(self@) as i32,
            width: (spec_max_x(self@) - spec_min_x(self@)) as i32,
            height: (spec_max_y(self@) - spec_min_y(self@)) as i32,
        }
    }

    fn bounding_box(&self) -> (r: Rect) {
        let mut min_x: i32 = self[0].0;
        let mut max_x: i32 = self[0].0;
        let mut min_y: i32 = self[0].1;
        let mut max_y: i32 = self[0].1;
        let mut i: usize = 1;
        proof {
            assert(self@.take(1).len() == 1);
            assert(self@.take(1)[0] == self@[0]);
        }
        while i < self.len()
            invariant
                1 <= i <= self@.len(),
                self@.len() >= 1,
                min_x == spec_min_x(self@.take(i as int)),
                max_x == spec_max_x(self@.take(i as int)),
                min_y == spec_min_y(self@.take(i as int)),
                max_y == spec_max_y(self@.take(i as int)),
            decreases self@.len() - i,
        {
            proof {
                assert(self@.take(i as int + 1).drop_last() =~= self@.take(i as int));
                assert(self@.take(i as int + 1).last() == self@[i as int]);
            }
            let (x, y) = self[i];
            if x < min_x {
                min_x = x;
            }
            if x > max_x {
                max_x = x;
            }
            if y < min_y {
                min_y = y;
            }
            if y > max_y {
                max_y = y;
            }
            i = i + 1;
        }
        proof {
            assert(self@.take(self@.len() as int) =~= self@);
        }
        Rect { x: min_x, y: min_y, width: max_x - min_x, height: max_y - min_y }
    }
}

/// The tuning and shape of one detection zone. The integer tuning values
/// are exact: the confidence threshold is carried as a percentage.
#[derive(Debug, Clone, PartialEq, Eq)]
pub struct ZoneConfig {
    /// Detector input edge in pixels.
    pub size: Option<u32>,
    /// Confidence threshold as an integer percentage.
    pub threshold: Option<u32>,
    pub shape: ZoneShape,
    /// A foreign monitor id whose event to extend instead of this one's.
    pub trigger: Option<u32>,
    /// Overrides the host's analysis rate limit.
    pub fps: Option<u32>,
    /// Minimum bounding-box area in pixels for a detection to count.
    pub min_area: Option<u32>,
}

/// The `Key=Value` tokens of a zone name: every whitespace-separated token
/// after the leading zone tag.
pub open spec fn spec_zone_options(b: Seq<u8>) -> Seq<Seq<u8>> {
    let toks = text::spec_tokens(b);
    if toks.len() == 0 {
        toks
    } else {
        toks.drop_first()
    }
}

/// The value of the last `key=value` token carrying `key`, searching from
/// the end — a later option wins, as collecting into a map does.
pub open spec fn spec_kv_lookup(toks: Seq<Seq<u8>>, key: Seq<u8>) -> Option<Seq<u8>>
    decreases toks.len(),
{
    if toks.len() == 0 {
        None
    } else {
        match text::spec_split_once(toks.last(), 61) {
            Some((k, v)) => if k == key {
                Some(v)
            } else {
                spec_kv_lookup(toks.drop_last(), key)
            },
            None => spec_kv_lookup(toks.drop_last(), key),
        }
    }
}

/// The integer value of a zone option: the looked-up value, trimmed, as a
/// decimal `u32`; absent or unparseable values yield nothing.
pub open spec fn spec_zone_int(toks: Seq<Seq<u8>>, key: Seq<u8>) -> Option<u32> {
    match spec_kv_lookup(toks, key) {
        None => None,
        Some(v) => match text::spec_parse_u64(text::spec_trim(v)) {
            Some(n) => if n <= u32::MAX {
                Some(n as u32)
            } else {
                None
            },
            None => None,
        },
    }
}

/// Look one key up among the option tokens and parse its value.
fn zone_int(toks: &Vec<Vec<u8>>, key: &str) -> (r: Option<u32>)
    ensures
        r == spec_zone_int(toks@.map_values(|t: Vec<u8>| t@), key.spec_bytes()),
{
    let ghost tm = toks@.map_values(|t: Vec<u8>| t@);
    let mut acc: Option<u32> = None;
    let mut i: usize = 0;
    proof {
        assert(tm.take(0) =~= Seq::<Seq<u8>>::empty());
    }
    while i < toks.len()
        invariant
            i <= toks@.len(),
            tm == toks@.map_values(|t: Vec<u8>| t@),
            acc == spec_zone_int(tm.take(i as int), key.spec_bytes()),
        decreases toks@.len() - i,
    {
        proof {
            assert(tm.take(i as int + 1).drop_last() =~= tm.take(i as int));
            assert(tm.take(i as int + 1).last() == tm[i as int]);
        }
        match text::split_once(toks[i].as_slice(), 61) {
            Some((k, v)) => {
                if text::bytes_eq(k, key.as_bytes()) {
                    let vt = text::trim(v);
                    acc = match text::parse_u64(vt) {
                        Some(n) => if n <= 0xffff_ffffu64 {
                            Some(n as u32)
                        } else {
                            None
                        },
                        None => None,
                    };
                }
            },
            None => {},
        }
        i = i + 1;
    }
    proof {
        assert(tm.take(tm.len() as int) =~= tm);
    }
    acc
}

impl ZoneConfig {
    /// Parse the tuning options of a zone name: the first token is the zone
    /// tag, every further `Key=Value` token sets an option, later wins.
    pub fn parse_zone_name(zone_name: &str) -> (r: ZoneConfig)
        ensures
            ({
                let opts = spec_zone_options(zone_name.spec_bytes());
                &&& r.size == spec_zone_int(opts, "Size".spec_bytes())
                &&& r.threshold == spec_zone_int(opts, "Threshold".spec_bytes())
                &&& r.trigger == spec_zone_int(opts, "Trigger".spec_bytes())
                &&& r.fps == spec_zone_int(opts, "FPS".spec_bytes())
                &&& r.min_area == spec_zone_int(opts, "MinArea".spec_bytes())
                &&& r.shape@ == Seq::<(i32, i32)>::empty()
            }),
    {
        let toks = text::tokens(zone_name.as_bytes());
        let mut opts = toks;
        if opts.len() > 0 {
            opts.remove(0);
        }
        proof {
            let whole = text::spec_tokens(zone_name.spec_bytes());
            if whole.len() > 0 {
                assert(opts@.map_values(|t: Vec<u8>| t@) =~= whole.drop_first());
            } else {
                assert(opts@.map_values(|t: Vec<u8>| t@) =~= whole);
            }
        }
        let shape: ZoneShape = Vec::new();
        ZoneConfig {
            size: zone_int(&opts, "Size"),
            threshold: zone_int(&opts, "Threshold"),
            shape,
            trigger: zone_int(&opts, "Trigger"),
            fps: zone_int(&opts, "FPS"),
            min_area: zone_int(&opts, "MinArea"),
        }
    }
}

/// The comma-split coordinate pairs among the tokens; tokens without a
/// comma are dropped.
pub open spec fn spec_coord_pairs(toks: Seq<Seq<u8>>) -> Seq<(Seq<u8>, Seq<u8>)>
    decreases toks.len(),
{
    if toks.len() == 0 {
        Seq::empty()
    } else {
        spec_coord_pairs(toks.drop_last()) + (match text::spec_split_once(toks.last(), 44) {
            Some(p) => seq![p],
            None => Seq::empty(),
        })
    }
}

/// Every comma-carrying token splits into two parseable signed decimals.
pub open spec fn spec_coords_ok(toks: Seq<Seq<u8>>) -> bool {
    forall|i: int|
        0 <= i < toks.len() ==> match text::spec_split_once(#[trigger] toks[i], 44) {
            Some((a, b)) => text::spec_parse_i32(text::spec_trim(a)) is Some
                && text::spec_parse_i32(text::spec_trim(b)) is Some,
            None => true,
        }
}

/// The parsed polygon points, in token order.
pub open spec fn spec_parsed_coords(toks: Seq<Seq<u8>>) -> Seq<(i32, i32)>
    decreases toks.len(),
{
    if toks.len() == 0 {
        Seq::empty()
    } else {
        spec_parsed_coords(toks.drop_last()) + (match text::spec_split_once(
            toks.last(),
            44,
        ) {
            Some((a, b)) => seq![
                (
                    text::spec_parse_i32(text::spec_trim(a))->Some_0,
                    text::spec_parse_i32(text::spec_trim(b))->Some_0,
                ),
            ],
            None => Seq::empty(),
        })
    }
}

impl ZoneConfig {
    /// Parse a coordinate list: whitespace-separated `x,y` pairs of signed
    /// decimals. Values the host's schema cannot produce are excluded.
    pub fn parse_zone_coords(coords: &str) -> (r: ZoneShape)
        requires
            spec_coords_ok(text::spec_tokens(coords.spec_bytes())),
        ensures
            r@ == spec_parsed_coords(text::spec_tokens(coords.spec_bytes())),
    {
        let toks = text::tokens(coords.as_bytes());
        let ghost tm = text::spec_tokens(coords.spec_bytes());
        let mut r: ZoneShape = Vec::new();
        let mut i: usize = 0;
        proof {
            assert(r@ =~= spec_parsed_coords(tm.take(0)));
        }
        while i < toks.len()
            invariant
                i <= toks@.len(),
                tm == text::spec_tokens(coords.spec_bytes()),
                toks@.len() == tm.len(),
                forall|j: int| 0 <= j < tm.len() ==> (#[trigger] toks@[j])@ == tm[j],
                spec_coords_ok(tm),
                r@ == spec_parsed_coords(tm.take(i as int)),
            decreases toks@.len() - i,
        {
            proof {
                assert(tm.take(i as int + 1).drop_last() =~= tm.take(i as int));
                assert(tm.take(i as int + 1).last() == tm[i as int]);
                assert(toks@[i as int]@ == tm[i as int]);
            }
            match text::split_once(toks[i].as_slice(), 44) {
                Some((a, b)) => {
                    let x = text::parse_i32(text::trim(a)).unwrap();
                    let y = text::parse_i32(text::trim(b)).unwrap();
                    r.push((x, y));
                    proof {
                        assert(r@ =~= spec_parsed_coords(tm.take(i as int + 1)));
                    }
                },
                None => {
                    proof {
                        assert(r@ =~= spec_parsed_coords(tm.take(i as int + 1)));
                    }
                },
            }
            i = i + 1;
        }
        proof {
            assert(tm.take(tm.len() as int) =~= tm);
        }
        r
    }

    /// Parse a zone row: tuning from the name, shape from the coordinates.
    pub fn parse(name: &str, coords: &str) -> (r: ZoneConfig)
        requires
            spec_coords_ok(text::spec_tokens(coords.spec_bytes())),
        ensures
            ({
                let opts = spec_zone_options(name.spec_bytes());
                &&& r.size == spec_zone_int(opts, "Size".spec_bytes())
                &&& r.threshold == spec_zone_int(opts, "Threshold".spec_bytes())
                &&& r.trigger == spec_zone_int(opts, "Trigger".spec_bytes())
                &&& r.fps == spec_zone_int(opts, "FPS".spec_bytes())
                &&& r.min_area == spec_zone_int(opts, "MinArea".spec_bytes())
                &&& r.shape@ == spec_parsed_coords(
                    text::spec_tokens(coords.spec_bytes()),
                )
            }),
    {
        let mut r = ZoneConfig::parse_zone_name(name);
        r.shape = ZoneConfig::parse_zone_coords(coords);
        r
    }
}

/// Whether a coordinate list satisfies what `parse_zone_coords` demands:
/// the embedding program checks this before parsing and treats a failure as
/// the configuration fault it is.
pub fn zone_coords_ok(coords: &str) -> (r: bool)
    ensures
        r == spec_coords_ok(text::spec_tokens(coords.spec_bytes())),
{
    let toks = text::tokens(coords.as_bytes());
    let ghost tm = text::spec_tokens(coords.spec_bytes());
    let mut i: usize = 0;
    while i < toks.len()
        invariant
            i <= toks@.len(),
            tm == text::spec_tokens(coords.spec_bytes()),
            toks@.len() == tm.len(),
            forall|j: int| 0 <= j < tm.len() ==> (#[trigger] toks@[j])@ == tm[j],
            forall|j: int|
                0 <= j < i ==> match text::spec_split_once(#[trigger] tm[j], 44) {
                    Some((a, b)) => text::spec_parse_i32(text::spec_trim(a)) is Some
                        && text::spec_parse_i32(text::spec_trim(b)) is Some,
                    None => true,
                },
        decreases toks@.len() - i,
    {
        proof {
            assert(toks@[i as int]@ == tm[i as int]);
        }
        match text::split_once(toks[i].as_slice(), 44) {
            Some((a, b)) => {
                let xa = text::parse_i32(text::trim(a));
                let xb = text::parse_i32(text::trim(b));
                if xa.is_none() || xb.is_none() {
                    proof {
                        assert(text::spec_split_once(tm[i as int], 44) == Some((a@, b@)));
                        assert(!spec_coords_ok(tm));
                    }
                    return false;
                }
            },
            None => {},
        }
        i = i + 1;
    }
    true
}

/// One serialised option token: the key, an equals sign, the decimal value.
pub open spec fn spec_kv_token(key: Seq<u8>, n: u32) -> Seq<u8> {
    key + seq![61u8] + text::spec_u64_digits(n as nat)
}

/// One serialised option with its separating space, or nothing.
pub open spec fn spec_opt_kv(key: Seq<u8>, o: Option<u32>) -> Seq<u8> {
    match o {
        None => Seq::empty(),
        Some(n) => seq![32u8] + spec_kv_token(key, n),
    }
}

/// The zone name a configuration serialises to: the zone tag, then each set
/// option in a fixed order.
pub open spec fn spec_zone_name_bytes(z: &ZoneConfig) -> Seq<u8> {
    "aidect".spec_bytes() + spec_opt_kv("Size".spec_bytes(), z.size) + spec_opt_kv(
        "Threshold".spec_bytes(),
        z.threshold,
    ) + spec_opt_kv("Trigger".spec_bytes(), z.trigger) + spec_opt_kv(
        "FPS".spec_bytes(),
        z.fps,
    ) + spec_opt_kv("MinArea".spec_bytes(), z.min_area)
}

/// The concrete bytes of the zone grammar's fixed words.
proof fn lemma_zone_literals()
    ensures
        "aidect".spec_bytes() =~= seq![97u8, 105, 100, 101, 99, 116],
        "Size".spec_bytes() =~= seq![83u8, 105, 122, 101],
        "Threshold".spec_bytes() =~= seq![84u8, 104, 114, 101, 115, 104, 111, 108, 100],
        "Trigger".spec_bytes() =~= seq![84u8, 114, 105, 103, 103, 101, 114],
        "FPS".spec_bytes() =~= seq![70u8, 80, 83],
        "MinArea".spec_bytes() =~= seq![77u8, 105, 110, 65, 114, 101, 97],
{
    reveal_strlit("aidect");
    reveal_strlit("Size");
    reveal_strlit("Threshold");
    reveal_strlit("Trigger");
    reveal_strlit("FPS");
    reveal_strlit("MinArea");
    text::lemma_literal_bytes("aidect", seq![97u8, 105, 100, 101, 99, 116]);
    text::lemma_literal_bytes("Size", seq![83u8, 105, 122, 101]);
    text::lemma_literal_bytes(
        "Threshold",
        seq![84u8, 104, 114, 101, 115, 104, 111, 108, 100],
    );
    text::lemma_literal_bytes("Trigger", seq![84u8, 114, 105, 103, 103, 101, 114]);
    text::lemma_literal_bytes("FPS", seq![70u8, 80, 83]);
    text::lemma_literal_bytes("MinArea", seq![77u8, 105, 110, 65, 114, 101, 97]);
}

fn push_kv(out: &mut Vec<u8>, key: &str, n: u32)
    ensures
        final(out)@ == old(out)@ + spec_opt_kv(key.spec_bytes(), Some(n)),
{
    out.push(32);
    text::append_bytes(out, key.as_bytes());
    out.push(61);
    let d = text::u64_digits(n as u64);
    text::append_bytes(out, d.as_slice());
    proof {
        assert(out@ =~= old(out)@ + spec_opt_kv(key.spec_bytes(), Some(n)));
    }
}

impl ZoneConfig {
    /// Serialise the tuning back to a zone name; `parse_zone_name` reads it
    /// back exactly.
    pub fn zone_name(&self) -> (r: String)
        ensures
            r@ == text::chars_of_bytes(spec_zone_name_bytes(self)),
            text::all_ascii(spec_zone_name_bytes(self)),
    {
        let mut out: Vec<u8> = Vec::new();
        text::append_bytes(&mut out, "aidect".as_bytes());
        match self.size {
            Some(n) => push_kv(&mut out, "Size", n),
            None => {},
        }
        match self.threshold {
            Some(n) => push_kv(&mut out, "Threshold", n),
            None => {},
        }
        match self.trigger {
            Some(n) => push_kv(&mut out, "Trigger", n),
            None => {},
        }
        match self.fps {
            Some(n) => push_kv(&mut out, "FPS", n),
            None => {},
        }
        match self.min_area {
            Some(n) => push_kv(&mut out, "MinArea", n),
            None => {},
        }
        proof {
            assert(out@ =~= spec_zone_name_bytes(self));
            lemma_zone_literals();
            lemma_all_ascii_zone_name(self);
        }
        text::ascii_to_string(out)
    }
}

/// Keys, separators and digits are all seven-bit.
proof fn lemma_all_ascii_kv(key: Seq<u8>, o: Option<u32>)
    requires
        text::all_ascii(key),
    ensures
        text::all_ascii(spec_opt_kv(key, o)),
{
    match o {
        None => {},
        Some(n) => {
            text::lemma_u64_digits_are_digits(n as nat);
            let s = spec_opt_kv(key, Some(n));
            assert forall|i: int| 0 <= i < s.len() implies #[trigger] s[i] < 128 by {
                if i == 0 {
                } else if i <= key.len() {
                    assert(s[i] == key[i - 1]);
                } else if i == key.len() + 1 {
                    assert(s[i] == 61u8);
                } else {
                    assert(s[i] == text::spec_u64_digits(n as nat)[i - key.len() - 2]);
                    assert(text::is_digit(text::spec_u64_digits(n as nat)[i - key.len()
                        - 2]));
                }
            }
        },
    }
}

proof fn lemma_all_ascii_zone_name(z: &ZoneConfig)
    ensures
        text::all_ascii(spec_zone_name_bytes(z)),
{
    lemma_zone_literals();
    lemma_all_ascii_kv("Size".spec_bytes(), z.size);
    lemma_all_ascii_kv("Threshold".spec_bytes(), z.threshold);
    lemma_all_ascii_kv("Trigger".spec_bytes(), z.trigger);
    lemma_all_ascii_kv("FPS".spec_bytes(), z.fps);
    lemma_all_ascii_kv("MinArea".spec_bytes(), z.min_area);
    let s = spec_zone_name_bytes(z);
    let p0 = "aidect".spec_bytes();
    let p1 = spec_opt_kv("Size".spec_bytes(), z.size);
    let p2 = spec_opt_kv("Threshold".spec_bytes(), z.threshold);
    let p3 = spec_opt_kv("Trigger".spec_bytes(), z.trigger);
    let p4 = spec_opt_kv("FPS".spec_bytes(), z.fps);
    let p5 = spec_opt_kv("MinArea".spec_bytes(), z.min_area);
    assert forall|i: int| 0 <= i < s.len() implies #[trigger] s[i] < 128 by {
        let l0 = p0.len() as int;
        let l1 = l0 + p1.len();
        let l2 = l1 + p2.len();
        let l3 = l2 + p3.len();
        let l4 = l3 + p4.len();
        if i < l0 {
            assert(s[i] == p0[i]);
        } else if i < l1 {
            assert(s[i] == p1[i - l0]);
        } else if i < l2 {
            assert(s[i] == p2[i - l1]);
        } else if i < l3 {
            assert(s[i] == p3[i - l2]);
        } else if i < l4 {
            assert(s[i] == p4[i - l3]);
        } else {
            assert(s[i] == p5[i - l4]);
        }
    }
}

/// The key of a `key=value` token, if it has one.
pub open spec fn spec_token_key(t: Seq<u8>) -> Option<Seq<u8>> {
    match text::spec_split_once(t, 61) {
        Some((k, v)) => Some(k),
        None => None,
    }
}

/// Tokens that never carry `key` do not affect its lookup.
proof fn lemma_kv_append_no_key(a: Seq<Seq<u8>>, b: Seq<Seq<u8>>, key: Seq<u8>)
    requires
        forall|i: int| 0 <= i < b.len() ==> spec_token_key(#[trigger] b[i]) != Some(key),
    ensures
        spec_kv_lookup(a + b, key) == spec_kv_lookup(a, key),
    decreases b.len(),
{
    if b.len() == 0 {
        assert(a + b =~= a);
    } else {
        let whole = a + b;
        assert(whole.last() == b.last());
        assert(whole.drop_last() =~= a + b.drop_last());
        assert(spec_token_key(b.last()) != Some(key));
        lemma_kv_append_no_key(a, b.drop_last(), key);
    }
}

/// The lookup of a key finds the token just appended under that key.
proof fn lemma_kv_hit(a: Seq<Seq<u8>>, t: Seq<u8>, key: Seq<u8>, v: Seq<u8>)
    requires
        text::spec_split_once(t, 61) == Some((key, v)),
    ensures
        spec_kv_lookup(a.push(t), key) == Some(v),
{
    assert(a.push(t).last() == t);
}

/// A serialised option token splits at its equals sign into key and digits.
proof fn lemma_kv_token_split(key: Seq<u8>, n: u32)
    requires
        forall|i: int| 0 <= i < key.len() ==> #[trigger] key[i] != 61,
    ensures
        text::spec_split_once(spec_kv_token(key, n), 61) == Some(
            (key, text::spec_u64_digits(n as nat)),
        ),
{
    let d = text::spec_u64_digits(n as nat);
    let t = spec_kv_token(key, n);
    text::lemma_u64_digits_are_digits(n as nat);
    assert forall|j: int| 0 <= j < key.len() implies t[j] != 61 by {
        assert(t[j] == key[j]);
    }
    assert(t[key.len() as int] == 61);
    text::lemma_find_first_byte_is(t, 61, key.len() as int);
    assert(t.take(key.len() as int) =~= key);
    assert(t.skip(key.len() as int + 1) =~= d);
}

/// A serialised option token holds no whitespace.
proof fn lemma_kv_token_no_ws(key: Seq<u8>, n: u32)
    requires
        forall|i: int| 0 <= i < key.len() ==> !text::is_ws(#[trigger] key[i]),
    ensures
        spec_kv_token(key, n).len() >= 1,
        forall|i: int|
            0 <= i < spec_kv_token(key, n).len() ==> !text::is_ws(
                #[trigger] spec_kv_token(key, n)[i],
            ),
{
    let d = text::spec_u64_digits(n as nat);
    let t = spec_kv_token(key, n);
    text::lemma_u64_digits_are_digits(n as nat);
    assert forall|i: int| 0 <= i < t.len() implies !text::is_ws(t[i]) by {
        if i < key.len() {
            assert(t[i] == key[i]);
        } else if i == key.len() {
            assert(t[i] == 61u8);
        } else {
            assert(t[i] == d[i - key.len() - 1]);
            assert(text::is_digit(d[i - key.len() - 1]));
        }
    }
}

/// The zone grammar's fixed words are pairwise distinct, whitespace-free
/// and free of equals signs.
proof fn lemma_zone_keys_facts()
    ensures
        "Size".spec_bytes() != "Threshold".spec_bytes(),
        "Size".spec_bytes() != "Trigger".spec_bytes(),
        "Size".spec_bytes() != "FPS".spec_bytes(),
        "Size".spec_bytes() != "MinArea".spec_bytes(),
        "Threshold".spec_bytes() != "Trigger".spec_bytes(),
        "Threshold".spec_bytes() != "FPS".spec_bytes(),
        "Threshold".spec_bytes() != "MinArea".spec_bytes(),
        "Trigger".spec_bytes() != "FPS".spec_bytes(),
        "Trigger".spec_bytes() != "MinArea".spec_bytes(),
        "FPS".spec_bytes() != "MinArea".spec_bytes(),
        forall|i: int|
            0 <= i < "aidect".spec_bytes().len() ==> !text::is_ws(
                #[trigger] "aidect".spec_bytes()[i],
            ) && "aidect".spec_bytes()[i] != 61,
        "aidect".spec_bytes().len() == 6,
        forall|i: int|
            0 <= i < "Size".spec_bytes().len() ==> !text::is_ws(
                #[trigger] "Size".spec_bytes()[i],
            ) && "Size".spec_bytes()[i] != 61,
        forall|i: int|
            0 <= i < "Threshold".spec_bytes().len() ==> !text::is_ws(
                #[trigger] "Threshold".spec_bytes()[i],
            ) && "Threshold".spec_bytes()[i] != 61,
        forall|i: int|
            0 <= i < "Trigger".spec_bytes().len() ==> !text::is_ws(
                #[trigger] "Trigger".spec_bytes()[i],
            ) && "Trigger".spec_bytes()[i] != 61,
        forall|i: int|
            0 <= i < "FPS".spec_bytes().len() ==> !text::is_ws(
                #[trigger] "FPS".spec_bytes()[i],
            ) && "FPS".spec_bytes()[i] != 61,
        forall|i: int|
            0 <= i < "MinArea".spec_bytes().len() ==> !text::is_ws(
                #[trigger] "MinArea".spec_bytes()[i],
            ) && "MinArea".spec_bytes()[i] != 61,
{
    lemma_zone_literals();
    assert("Trigger".spec_bytes()[0] == 84);
    assert("MinArea".spec_bytes()[0] == 77);
}

/// The option tokens a serialised option contributes: none or one.
pub open spec fn spec_opt_token(key: Seq<u8>, o: Option<u32>) -> Seq<Seq<u8>> {
    match o {
        None => Seq::empty(),
        Some(n) => seq![spec_kv_token(key, n)],
    }
}

/// The serialised zone name tokenises into the zone tag followed by one
/// token per set option, in serialisation order.
#[verifier::rlimit(80)]
proof fn lemma_zone_name_tokens(z: &ZoneConfig)
    ensures
        text::spec_tokens(spec_zone_name_bytes(z)) == seq!["aidect".spec_bytes()]
            + spec_opt_token("Size".spec_bytes(), z.size) + spec_opt_token(
            "Threshold".spec_bytes(),
            z.threshold,
        ) + spec_opt_token("Trigger".spec_bytes(), z.trigger) + spec_opt_token(
            "FPS".spec_bytes(),
            z.fps,
        ) + spec_opt_token("MinArea".spec_bytes(), z.min_area),
{
    lemma_zone_keys_facts();
    let a0 = "aidect".spec_bytes();
    text::lemma_tokens_single(a0);
    let b1 = a0 + spec_opt_kv("Size".spec_bytes(), z.size);
    let t1 = seq![a0] + spec_opt_token("Size".spec_bytes(), z.size);
    match z.size {
        None => {
            assert(b1 =~= a0);
            assert(t1 =~= seq![a0]);
        },
        Some(n) => {
            lemma_kv_token_no_ws("Size".spec_bytes(), n);
            text::lemma_tokens_append_word(a0, spec_kv_token("Size".spec_bytes(), n));
            assert(b1 =~= a0 + seq![32u8] + spec_kv_token("Size".spec_bytes(), n));
            assert(t1 =~= text::spec_tokens(a0).push(spec_kv_token("Size".spec_bytes(), n)));
        },
    }
    assert(text::spec_tokens(b1) == t1);
    let b2 = b1 + spec_opt_kv("Threshold".spec_bytes(), z.threshold);
    let t2 = t1 + spec_opt_token("Threshold".spec_bytes(), z.threshold);
    match z.threshold {
        None => {
            assert(b2 =~= b1);
            assert(t2 =~= t1);
        },
        Some(n) => {
            lemma_kv_token_no_ws("Threshold".spec_bytes(), n);
            text::lemma_tokens_append_word(b1, spec_kv_token("Threshold".spec_bytes(), n));
            assert(b2 =~= b1 + seq![32u8] + spec_kv_token("Threshold".spec_bytes(), n));
            assert(t2 =~= text::spec_tokens(b1).push(
                spec_kv_token("Threshold".spec_bytes(), n),
            ));
        },
    }
    assert(text::spec_tokens(b2) == t2);
    let b3 = b2 + spec_opt_kv("Trigger".spec_bytes(), z.trigger);
    let t3 = t2 + spec_opt_token("Trigger".spec_bytes(), z.trigger);
    match z.trigger {
        None => {
            assert(b3 =~= b2);
            assert(t3 =~= t2);
        },
        Some(n) => {
            lemma_kv_token_no_ws("Trigger".spec_bytes(), n);
            text::lemma_tokens_append_word(b2, spec_kv_token("Trigger".spec_bytes(), n));
            assert(b3 =~= b2 + seq![32u8] + spec_kv_token("Trigger".spec_bytes(), n));
            assert(t3 =~= text::spec_tokens(b2).push(
                spec_kv_token("Trigger".spec_bytes(), n),
            ));
        },
    }
    assert(text::spec_tokens(b3) == t3);
    let b4 = b3 + spec_opt_kv("FPS".spec_bytes(), z.fps);
    let t4 = t3 + spec_opt_token("FPS".spec_bytes(), z.fps);
    match z.fps {
        None => {
            assert(b4 =~= b3);
            assert(t4 =~= t3);
        },
        Some(n) => {
            lemma_kv_token_no_ws("FPS".spec_bytes(), n);
            text::lemma_tokens_append_word(b3, spec_kv_token("FPS".spec_bytes(), n));
            assert(b4 =~= b3 + seq![32u8] + spec_kv_token("FPS".spec_bytes(), n));
            assert(t4 =~= text::spec_tokens(b3).push(spec_kv_token("FPS".spec_bytes(), n)));
        },
    }
    assert(text::spec_tokens(b4) == t4);
    let b5 = b4 + spec_opt_kv("MinArea".spec_bytes(), z.min_area);
    let t5 = t4 + spec_opt_token("MinArea".spec_bytes(), z.min_area);
    match z.min_area {
        None => {
            assert(b5 =~= b4);
            assert(t5 =~= t4);
        },
        Some(n) => {
            lemma_kv_token_no_ws("MinArea".spec_bytes(), n);
            text::lemma_tokens_append_word(b4, spec_kv_token("MinArea".spec_bytes(), n));
            assert(b5 =~= b4 + seq![32u8] + spec_kv_token("MinArea".spec_bytes(), n));
            assert(t5 =~= text::spec_tokens(b4).push(
                spec_kv_token("MinArea".spec_bytes(), n),
            ));
        },
    }
    assert(text::spec_tokens(b5) == t5);
    assert(b5 =~= spec_zone_name_bytes(z));
    assert(t5 =~= seq![a0] + spec_opt_token("Size".spec_bytes(), z.size) + spec_opt_token(
        "Threshold".spec_bytes(),
        z.threshold,
    ) + spec_opt_token("Trigger".spec_bytes(), z.trigger) + spec_opt_token(
        "FPS".spec_bytes(),
        z.fps,
    ) + spec_opt_token("MinArea".spec_bytes(), z.min_area));
}

/// Looking one key up among the serialised option tokens gives back exactly
/// that option's value.
proof fn lemma_zone_lookup_one(
    pre: Seq<Seq<u8>>,
    key: Seq<u8>,
    o: Option<u32>,
    post: Seq<Seq<u8>>,
)
    requires
        forall|i: int| 0 <= i < pre.len() ==> spec_token_key(#[trigger] pre[i]) != Some(key),
        forall|i: int| 0 <= i < post.len() ==> spec_token_key(#[trigger] post[i]) != Some(
            key,
        ),
        forall|i: int| 0 <= i < key.len() ==> #[trigger] key[i] != 61,
    ensures
        spec_zone_int(pre + spec_opt_token(key, o) + post, key) == o,
{
    match o {
        None => {
            assert(pre + spec_opt_token(key, o) + post =~= pre + (spec_opt_token(key, o)
                + post));
            assert forall|i: int|
                0 <= i < (spec_opt_token(key, o) + post).len() implies spec_token_key(
                #[trigger] (spec_opt_token(key, o) + post)[i],
            ) != Some(key) by {
                assert((spec_opt_token(key, o) + post)[i] == post[i]);
            }
            lemma_kv_append_no_key(pre, spec_opt_token(key, o) + post, key);
            lemma_kv_append_no_key(Seq::empty(), pre, key);
            assert(Seq::<Seq<u8>>::empty() + pre =~= pre);
        },
        Some(n) => {
            let tok = spec_kv_token(key, n);
            lemma_kv_token_split(key, n);
            assert(pre + spec_opt_token(key, o) + post =~= (pre.push(tok)) + post);
            lemma_kv_append_no_key(pre.push(tok), post, key);
            lemma_kv_hit(pre, tok, key, text::spec_u64_digits(n as nat));
            text::lemma_u64_digits_are_digits(n as nat);
            text::lemma_trim_digits(text::spec_u64_digits(n as nat));
            text::lemma_u64_digits_roundtrip(n as u64);
        },
    }
}

/// Round-trip law: a configuration serialised to a zone name parses back to
/// itself — for each tuning option, reading the serialised name yields
/// exactly the option that was set. The name carries no shape, so the
/// parsed shape is empty.
#[verifier::rlimit(80)]
pub proof fn lemma_zone_name_roundtrip(z: &ZoneConfig)
    ensures
        ({
            let opts = spec_zone_options(spec_zone_name_bytes(z));
            &&& spec_zone_int(opts, "Size".spec_bytes()) == z.size
            &&& spec_zone_int(opts, "Threshold".spec_bytes()) == z.threshold
            &&& spec_zone_int(opts, "Trigger".spec_bytes()) == z.trigger
            &&& spec_zone_int(opts, "FPS".spec_bytes()) == z.fps
            &&& spec_zone_int(opts, "MinArea".spec_bytes()) == z.min_area
        }),
{
    lemma_zone_name_tokens(z);
    lemma_zone_keys_facts();
    let ksize = "Size".spec_bytes();
    let kth = "Threshold".spec_bytes();
    let ktr = "Trigger".spec_bytes();
    let kfps = "FPS".spec_bytes();
    let kma = "MinArea".spec_bytes();
    let s1 = spec_opt_token(ksize, z.size);
    let s2 = spec_opt_token(kth, z.threshold);
    let s3 = spec_opt_token(ktr, z.trigger);
    let s4 = spec_opt_token(kfps, z.fps);
    let s5 = spec_opt_token(kma, z.min_area);
    let toks = text::spec_tokens(spec_zone_name_bytes(z));
    let opts = spec_zone_options(spec_zone_name_bytes(z));
    assert(toks.len() >= 1);
    assert(opts =~= s1 + s2 + s3 + s4 + s5);
    if z.size is Some {
        lemma_kv_token_split(ksize, z.size->Some_0);
    }
    if z.threshold is Some {
        lemma_kv_token_split(kth, z.threshold->Some_0);
    }
    if z.trigger is Some {
        lemma_kv_token_split(ktr, z.trigger->Some_0);
    }
    if z.fps is Some {
        lemma_kv_token_split(kfps, z.fps->Some_0);
    }
    if z.min_area is Some {
        lemma_kv_token_split(kma, z.min_area->Some_0);
    }
    assert(opts =~= Seq::<Seq<u8>>::empty() + s1 + (s2 + s3 + s4 + s5));
    lemma_zone_lookup_one(Seq::empty(), ksize, z.size, s2 + s3 + s4 + s5);
    assert(opts =~= s1 + s2 + (s3 + s4 + s5));
    lemma_zone_lookup_one(s1, kth, z.threshold, s3 + s4 + s5);
    assert(opts =~= (s1 + s2) + s3 + (s4 + s5));
    lemma_zone_lookup_one(s1 + s2, ktr, z.trigger, s4 + s5);
    assert(opts =~= (s1 + s2 + s3) + s4 + s5);
    lemma_zone_lookup_one(s1 + s2 + s3, kfps, z.fps, s5);
    assert(opts =~= (s1 + s2 + s3 + s4) + s5 + Seq::<Seq<u8>>::empty());
    lemma_zone_lookup_one(s1 + s2 + s3 + s4, kma, z.min_area, Seq::empty());
}

} // verus!
