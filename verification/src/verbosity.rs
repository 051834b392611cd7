use vstd::prelude::*;

verus! {

/// The log level a verbosity setting selects. Plain data standing
/// for the logging backend's level filter; the logging setup itself
/// lives outside the core.
#[derive(Clone, Copy, Debug, PartialEq, Eq, Structural)]
pub enum LogLevel {
    Off,
    Error,
    Warn,
    Info,
    Debug,
    Trace,
}

/// Command-line verbosity switches: `quiet` silences all output;
/// each repetition of the verbose switch raises the level.
#[derive(Clone, Copy, Debug)]
pub struct Verbosity {
    pub quiet: bool,
    pub verbose: u64,
}

pub open spec fn level_filter_spec(v: Verbosity) -> LogLevel {
    if v.quiet {
        LogLevel::Off
    } else if v.verbose == 0 {
        LogLevel::Error
    } else if v.verbose == 1 {
        LogLevel::Warn
    } else if v.verbose == 2 {
        LogLevel::Info
    } else if v.verbose == 3 {
        LogLevel::Debug
    } else {
        LogLevel::Trace
    }
}

impl Verbosity {
    /// The level these switches select: quiet wins over everything;
    /// otherwise the level climbs from error to trace with each
    /// repetition.
    pub fn level_filter(&self) -> (l: LogLevel)
        ensures
            l == level_filter_spec(*self),
    {
        if self.quiet {
            LogLevel::Off
        } else {
            match self.verbose {
                0 => LogLevel::Error,
                1 => LogLevel::Warn,
                2 => LogLevel::Info,
                3 => LogLevel::Debug,
                _ => LogLevel::Trace,
            }
        }
    }
}

} // verus!
