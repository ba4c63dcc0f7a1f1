//! The verbosity levels that the programs map their `-v` counts onto.

use vstd::prelude::*;

verus! {

/// The most verbose level of log records that is shown.
#[derive(Debug, Clone, Copy, PartialEq, Eq)]
pub enum LevelFilter {
    Error,
    Warn,
    Info,
    Debug,
    Trace,
}

/// The level shown at verbosity `v`: errors only at 0, one level more per step, trace from 4.
pub open spec fn spec_level_for_verbosity(v: u64) -> LevelFilter {
    if v == 0 {
        LevelFilter::Error
    } else if v == 1 {
        LevelFilter::Warn
    } else if v == 2 {
        LevelFilter::Info
    } else if v == 3 {
        LevelFilter::Debug
    } else {
        LevelFilter::Trace
    }
}

/// The level shown at verbosity `v`.
pub fn level_for_verbosity(v: u64) -> (r: LevelFilter)
    ensures
        r == spec_level_for_verbosity(v),
{
    match v {
        0 => LevelFilter::Error,
        1 => LevelFilter::Warn,
        2 => LevelFilter::Info,
        3 => LevelFilter::Debug,
        _ => LevelFilter::Trace,
    }
}

/// Whether a test record is logged at every level on start-up (verbosity above 4).
pub fn should_print_test_logging(v: u64) -> (r: bool)
    ensures
        r == (4 < v),
{
    4 < v
}

} // verus!
