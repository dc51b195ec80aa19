//! Stored events: the storage scheme and the path a recorded event's video
//! lives at.

use vstd::prelude::*;

verus! {

use vstd::string::StringSliceAdditionalSpecFns;
use crate::conf::ConfigError;
use crate::text;

/// How the host lays event directories out under a storage area.
#[derive(Clone, Copy, Debug, PartialEq, Eq, Structural)]
pub enum StorageScheme {
    Deep,
    Medium,
    Shallow,
}

impl StorageScheme {
    /// The scheme a storage row's `Scheme` column names.
    pub fn parse(input: &str) -> (r: Result<StorageScheme, ConfigError>)
        ensures
            r == if input.spec_bytes() == "Deep".spec_bytes() {
                Ok::<StorageScheme, ConfigError>(StorageScheme::Deep)
            } else if input.spec_bytes() == "Medium".spec_bytes() {
                Ok::<StorageScheme, ConfigError>(StorageScheme::Medium)
            } else if input.spec_bytes() == "Shallow".spec_bytes() {
                Ok::<StorageScheme, ConfigError>(StorageScheme::Shallow)
            } else {
                Err::<StorageScheme, ConfigError>(ConfigError::UnknownScheme)
            },
    {
        let b = input.as_bytes();
        if text::bytes_eq(b, "Deep".as_bytes()) {
            Ok(StorageScheme::Deep)
        } else if text::bytes_eq(b, "Medium".as_bytes()) {
            Ok(StorageScheme::Medium)
        } else if text::bytes_eq(b, "Shallow".as_bytes()) {
            Ok(StorageScheme::Shallow)
        } else {
            Err(ConfigError::UnknownScheme)
        }
    }
}

/// One storage area of the host.
#[derive(Debug, Clone, PartialEq, Eq)]
pub struct Storage {
    pub id: u64,
    pub name: Vec<u8>,
    pub path: Vec<u8>,
    pub storage_type: Vec<u8>,
    pub scheme: StorageScheme,
}

/// One recorded event, as the configuration store describes it.
#[derive(Debug, Clone, PartialEq, Eq)]
pub struct Event {
    pub id: u64,
    pub monitor_id: u32,
    pub name: Vec<u8>,
    pub max_score: u32,
    pub avg_score: u32,
    pub total_score: u32,
    /// The recording's file name.
    pub default_video: Vec<u8>,
    /// Local time, as `2022-01-27 18:45:59`.
    pub start_datetime: Vec<u8>,
    pub storage: Storage,
}

/// A datetime with every dash, colon and space turned into a path
/// separator, as the deep storage scheme nests directories.
pub open spec fn spec_slashed(s: Seq<u8>) -> Seq<u8> {
    s.map(
        |i: int, b: u8|
            if b == 45 || b == 58 || b == 32 {
                47u8
            } else {
                b
            },
    )
}

fn slashed(s: &[u8]) -> (r: Vec<u8>)
    ensures
        r@ == spec_slashed(s@),
{
    let mut r: Vec<u8> = Vec::new();
    let mut i: usize = 0;
    while i < s.len()
        invariant
            i <= s@.len(),
            r@ == spec_slashed(s@.take(i as int)),
        decreases s@.len() - i,
    {
        let b = s[i];
        if b == 45 || b == 58 || b == 32 {
            r.push(47);
        } else {
            r.push(b);
        }
        proof {
            assert(r@ =~= spec_slashed(s@.take(i as int + 1)));
        }
        i = i + 1;
    }
    proof {
        assert(s@.take(s@.len() as int) =~= s@);
    }
    r
}

/// The event directory under the monitor directory, by scheme.
pub open spec fn spec_event_dir(e: &Event) -> Seq<u8> {
    match e.storage.scheme {
        StorageScheme::Deep => spec_slashed(e.start_datetime@) + "/".spec_bytes()
            + text::spec_u64_digits(e.id as nat),
        StorageScheme::Medium => text::spec_split_once(e.start_datetime@, 32)->Some_0.0
            + "/".spec_bytes() + text::spec_u64_digits(e.id as nat),
        StorageScheme::Shallow => text::spec_u64_digits(e.id as nat),
    }
}

/// The full path of the event's recording: storage path, monitor id, the
/// scheme's event directory, then the video file name, joined by slashes.
pub open spec fn spec_video_path(e: &Event) -> Seq<u8> {
    e.storage.path@ + "/".spec_bytes() + text::spec_u64_digits(e.monitor_id as nat)
        + "/".spec_bytes() + spec_event_dir(e) + "/".spec_bytes() + e.default_video@
}

impl Event {
    /// Where the event's recording lives, when its storage is local. The
    /// medium scheme derives the directory from the date half of the start
    /// time, so that start time must hold a space.
    pub fn video_path(&self) -> (r: Result<Vec<u8>, ConfigError>)
        requires
            self.storage.scheme is Medium ==> text::spec_split_once(
                self.start_datetime@,
                32,
            ) is Some,
        ensures
            self.storage.storage_type@ != "local".spec_bytes() ==> r == Err::<
                Vec<u8>,
                ConfigError,
            >(ConfigError::NotLocalStorage),
            self.storage.storage_type@ == "local".spec_bytes() ==> r is Ok && r->Ok_0@
                == spec_video_path(self),
    {
        if !text::bytes_eq(self.storage.storage_type.as_slice(), "local".as_bytes()) {
            return Err(ConfigError::NotLocalStorage);
        }
        let mut event_dir: Vec<u8> = Vec::new();
        match self.storage.scheme {
            StorageScheme::Deep => {
                let s = slashed(self.start_datetime.as_slice());
                text::append_bytes(&mut event_dir, s.as_slice());
                text::append_bytes(&mut event_dir, "/".as_bytes());
                let d = text::u64_digits(self.id);
                text::append_bytes(&mut event_dir, d.as_slice());
            },
            StorageScheme::Medium => {
                let (date, _) = text::split_once(self.start_datetime.as_slice(), 32).unwrap();
                text::append_bytes(&mut event_dir, date);
                text::append_bytes(&mut event_dir, "/".as_bytes());
                let d = text::u64_digits(self.id);
                text::append_bytes(&mut event_dir, d.as_slice());
            },
            StorageScheme::Shallow => {
                let d = text::u64_digits(self.id);
                text::append_bytes(&mut event_dir, d.as_slice());
            },
        }
        proof {
            assert(Seq::<u8>::empty() + spec_event_dir(self) =~= spec_event_dir(self));
            assert(event_dir@ =~= spec_event_dir(self));
        }
        let mut out: Vec<u8> = Vec::new();
        text::append_bytes(&mut out, self.storage.path.as_slice());
        text::append_bytes(&mut out, "/".as_bytes());
        let m = text::u64_digits(self.monitor_id as u64);
        text::append_bytes(&mut out, m.as_slice());
        text::append_bytes(&mut out, "/".as_bytes());
        text::append_bytes(&mut out, event_dir.as_slice());
        text::append_bytes(&mut out, "/".as_bytes());
        text::append_bytes(&mut out, self.default_video.as_slice());
        proof {
            assert(out@ =~= spec_video_path(self));
        }
        Ok(out)
    }
}

} // verus!
