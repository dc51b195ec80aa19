//! Properties of a stored recording, as the probe of the video toolchain
//! reports them.

use vstd::prelude::*;

verus! {

use crate::conf::ConfigError;
use crate::text;

/// One video stream's properties. The frame rate is kept as the probe's
/// exact fraction.
#[derive(Debug, Clone, PartialEq, Eq)]
pub struct VideoProperties {
    pub codec_name: Vec<u8>,
    /// The average frame rate as `numerator/denominator`.
    pub avg_frame_rate: Vec<u8>,
    pub width: u32,
    pub height: u32,
}

/// The frame rate in thousandths of a frame per second, rounded down.
pub open spec fn spec_fps_millihertz(rate: Seq<u8>) -> Option<u64> {
    match text::spec_split_once(rate, 47) {
        None => None,
        Some((a, b)) => match (text::spec_parse_u64(a), text::spec_parse_u64(b)) {
            (Some(num), Some(den)) => if den > 0 && num * 1000 <= u64::MAX {
                Some(((num * 1000) / (den as int)) as u64)
            } else {
                None
            },
            _ => None,
        },
    }
}

impl VideoProperties {
    /// The average frame rate in thousandths of a frame per second.
    pub fn fps_millihertz(&self) -> (r: Result<u64, ConfigError>)
        ensures
            r == match spec_fps_millihertz(self.avg_frame_rate@) {
                Some(v) => Ok::<u64, ConfigError>(v),
                None => Err::<u64, ConfigError>(ConfigError::BadValue),
            },
    {
        match text::split_once(self.avg_frame_rate.as_slice(), 47) {
            None => Err(ConfigError::BadValue),
            Some((a, b)) => {
                let num = match text::parse_u64(a) {
                    Some(n) => n,
                    None => {
                        return Err(ConfigError::BadValue);
                    },
                };
                let den = match text::parse_u64(b) {
                    Some(n) => n,
                    None => {
                        return Err(ConfigError::BadValue);
                    },
                };
                if den == 0 {
                    return Err(ConfigError::BadValue);
                }
                let scaled = match num.checked_mul(1000) {
                    Some(v) => v,
                    None => {
                        return Err(ConfigError::BadValue);
                    },
                };
                proof {
                    vstd::arithmetic::div_mod::lemma_div_pos_is_pos(
                        scaled as int,
                        den as int,
                    );
                    vstd::arithmetic::div_mod::lemma_div_nonincreasing(
                        scaled as int,
                        den as int,
                    );
                }
                Ok(scaled / den)
            },
        }
    }
}

} // verus!
