//! Resolution of the two runtime settings. The environment is read at the
//! edge of the program; the raw values land here, where the defaults and
//! the parse rules are fixed.

use crate::numerals::{parse_u64, spec_parse_u64};
use vstd::prelude::*;

verus! {

/// The per-channel log cap when nothing overrides it.
pub const DEFAULT_LOG_LIMIT: usize = 50;

/// The metrics port when nothing overrides it.
pub const DEFAULT_METRICS_PORT: u16 = 6770;

/// The log cap a raw override resolves to: the parsed value when it is a
/// number that fits, the default otherwise.
pub open spec fn spec_log_limit(raw: Option<Seq<char>>) -> usize {
    match raw {
        None => DEFAULT_LOG_LIMIT,
        Some(s) => match spec_parse_u64(s) {
            Some(v) => if v <= usize::MAX as u64 {
                v as usize
            } else {
                DEFAULT_LOG_LIMIT
            },
            None => DEFAULT_LOG_LIMIT,
        },
    }
}

/// See `spec_log_limit`.
pub fn resolve_log_limit(raw: Option<String>) -> (r: usize)
    ensures
        r == spec_log_limit(
            match raw {
                Some(s) => Some(s@),
                None => None::<Seq<char>>,
            },
        ),
{
    match raw {
        None => DEFAULT_LOG_LIMIT,
        Some(s) => match parse_u64(s.as_str()) {
            Some(v) => {
                if v <= usize::MAX as u64 {
                    v as usize
                } else {
                    DEFAULT_LOG_LIMIT
                }
            },
            None => DEFAULT_LOG_LIMIT,
        },
    }
}

/// The metrics port a raw override resolves to: the parsed value when it
/// fits a port number, the default otherwise.
pub open spec fn spec_metrics_port(raw: Option<Seq<char>>) -> u16 {
    match raw {
        None => DEFAULT_METRICS_PORT,
        Some(s) => match spec_parse_u64(s) {
            Some(v) => if v <= u16::MAX as u64 {
                v as u16
            } else {
                DEFAULT_METRICS_PORT
            },
            None => DEFAULT_METRICS_PORT,
        },
    }
}

/// See `spec_metrics_port`.
pub fn resolve_metrics_port(raw: Option<String>) -> (r: u16)
    ensures
        r == spec_metrics_port(
            match raw {
                Some(s) => Some(s@),
                None => None::<Seq<char>>,
            },
        ),
{
    match raw {
        None => DEFAULT_METRICS_PORT,
        Some(s) => match parse_u64(s.as_str()) {
            Some(v) => {
                if v <= u16::MAX as u64 {
                    v as u16
                } else {
                    DEFAULT_METRICS_PORT
                }
            },
            None => DEFAULT_METRICS_PORT,
        },
    }
}

} // verus!
