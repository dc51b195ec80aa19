//! The host's configuration file: `KEY=VALUE` lines, and the path of a
//! monitor's mapped region.

use vstd::prelude::*;

verus! {

use vstd::string::StringSliceAdditionalSpecFns;
use crate::text;

/// Configuration faults: surfaced immediately, not retryable.
#[derive(Clone, Copy, Debug, PartialEq, Eq, Structural)]
pub enum ConfigError {
    /// A required `ZM_…` key is missing from the host configuration.
    MissingKey,
    /// A value does not parse as the expected number or word.
    BadValue,
    /// No analysis rate limit is configured anywhere.
    NoFpsLimit,
    /// A storage row names a scheme this client does not know.
    UnknownScheme,
    /// The event's storage is not local, so no file path exists for it.
    NotLocalStorage,
}

/// The value of `key` among the configuration lines: the last trimmed line
/// that starts with `ZM_` and splits as `key=value` wins.
pub open spec fn spec_conf_lookup(ls: Seq<Seq<u8>>, key: Seq<u8>) -> Option<Seq<u8>>
    decreases ls.len(),
{
    if ls.len() == 0 {
        None
    } else {
        let t = text::spec_trim(ls.last());
        let zm = "ZM_".spec_bytes();
        if t.len() >= zm.len() && t.take(zm.len() as int) == zm {
            match text::spec_split_once(t, 61) {
                Some((k, v)) => if k == key {
                    Some(v)
                } else {
                    spec_conf_lookup(ls.drop_last(), key)
                },
                None => spec_conf_lookup(ls.drop_last(), key),
            }
        } else {
            spec_conf_lookup(ls.drop_last(), key)
        }
    }
}

/// Look one key up among the configuration lines.
fn conf_value(ls: &Vec<Vec<u8>>, key: &str) -> (r: Option<Vec<u8>>)
    ensures
        ({
            let lm = ls@.map_values(|l: Vec<u8>| l@);
            match r {
                Some(v) => spec_conf_lookup(lm, key.spec_bytes()) == Some(v@),
                None => spec_conf_lookup(lm, key.spec_bytes()) is None,
            }
        }),
{
    let ghost lm = ls@.map_values(|l: Vec<u8>| l@);
    let mut acc: Option<Vec<u8>> = None;
    let mut i: usize = 0;
    proof {
        assert(lm.take(0) =~= Seq::<Seq<u8>>::empty());
    }
    while i < ls.len()
        invariant
            i <= ls@.len(),
            lm == ls@.map_values(|l: Vec<u8>| l@),
            match acc {
                Some(v) => spec_conf_lookup(lm.take(i as int), key.spec_bytes()) == Some(
                    v@,
                ),
                None => spec_conf_lookup(lm.take(i as int), key.spec_bytes()) is None,
            },
        decreases ls@.len() - i,
    {
        proof {
            assert(lm.take(i as int + 1).drop_last() =~= lm.take(i as int));
            assert(lm.take(i as int + 1).last() == lm[i as int]);
        }
        let t = text::trim(ls[i].as_slice());
        if text::starts_with_bytes(t, "ZM_".as_bytes()) {
            match text::split_once(t, 61) {
                Some((k, v)) => {
                    if text::bytes_eq(k, key.as_bytes()) {
                        acc = Some(vstd::slice::slice_to_vec(v));
                    }
                },
                None => {},
            }
        }
        i = i + 1;
    }
    proof {
        assert(lm.take(lm.len() as int) =~= lm);
    }
    acc
}

/// The host's connection settings, read from its configuration file.
#[derive(Debug, Clone, PartialEq, Eq)]
pub struct ZoneMinderConf {
    pub db_host: Vec<u8>,
    pub db_name: Vec<u8>,
    pub db_user: Vec<u8>,
    pub db_password: Vec<u8>,
    pub mmap_path: Vec<u8>,
}

impl ZoneMinderConf {
    /// Parse the configuration text: each setting is the value of its
    /// `ZM_…=value` line, the last line winning; a missing required key is
    /// a configuration fault.
    pub fn parse_zm_conf(zm_conf_contents: &str) -> (r: Result<ZoneMinderConf, ConfigError>)
        ensures
            ({
                let lm = text::spec_lines(zm_conf_contents.spec_bytes());
                let host = spec_conf_lookup(lm, "ZM_DB_HOST".spec_bytes());
                let name = spec_conf_lookup(lm, "ZM_DB_NAME".spec_bytes());
                let user = spec_conf_lookup(lm, "ZM_DB_USER".spec_bytes());
                let pass = spec_conf_lookup(lm, "ZM_DB_PASS".spec_bytes());
                let map = spec_conf_lookup(lm, "ZM_PATH_MAP".spec_bytes());
                if host is Some && name is Some && user is Some && pass is Some
                    && map is Some {
                    r is Ok && r->Ok_0.db_host@ == host->Some_0 && r->Ok_0.db_name@
                        == name->Some_0 && r->Ok_0.db_user@ == user->Some_0
                        && r->Ok_0.db_password@ == pass->Some_0 && r->Ok_0.mmap_path@
                        == map->Some_0
                } else {
                    r == Err::<ZoneMinderConf, ConfigError>(ConfigError::MissingKey)
                }
            }),
    {
        let ls = text::lines(zm_conf_contents.as_bytes());
        proof {
            assert(ls@.map_values(|l: Vec<u8>| l@) =~= text::spec_lines(
                zm_conf_contents.spec_bytes(),
            ));
        }
        let host = conf_value(&ls, "ZM_DB_HOST");
        let name = conf_value(&ls, "ZM_DB_NAME");
        let user = conf_value(&ls, "ZM_DB_USER");
        let pass = conf_value(&ls, "ZM_DB_PASS");
        let map = conf_value(&ls, "ZM_PATH_MAP");
        match (host, name, user, pass, map) {
            (Some(db_host), Some(db_name), Some(db_user), Some(db_password), Some(
                mmap_path,
            )) => Ok(ZoneMinderConf { db_host, db_name, db_user, db_password, mmap_path }),
            _ => Err(ConfigError::MissingKey),
        }
    }

    /// The path of a monitor's mapped region under the host's map
    /// directory.
    pub fn mmap_path_for(&self, monitor_id: u32) -> (r: Vec<u8>)
        ensures
            r@ == self.mmap_path@ + "/zm.mmap.".spec_bytes() + text::spec_u64_digits(
                monitor_id as nat,
            ),
    {
        let mut out: Vec<u8> = Vec::new();
        text::append_bytes(&mut out, self.mmap_path.as_slice());
        text::append_bytes(&mut out, "/zm.mmap.".as_bytes());
        let d = text::u64_digits(monitor_id as u64);
        text::append_bytes(&mut out, d.as_slice());
        out
    }
}

} // verus!
