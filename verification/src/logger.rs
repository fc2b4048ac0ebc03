//! Verbosity flags and the log level filter they select.

use vstd::prelude::*;

verus! {

/// A threshold on log output, from silent to most verbose.
#[derive(Clone, Copy, Debug, PartialEq, Eq, Structural)]
pub enum LevelFilter {
    Off,
    Error,
    Warn,
    Info,
    Debug,
    Trace,
}

impl LevelFilter {
    /// Position of the filter in the order `Off < Error < Warn < Info < Debug < Trace`.
    pub open spec fn rank(self) -> int {
        match self {
            LevelFilter::Off => 0,
            LevelFilter::Error => 1,
            LevelFilter::Warn => 2,
            LevelFilter::Info => 3,
            LevelFilter::Debug => 4,
            LevelFilter::Trace => 5,
        }
    }

    /// The filter at a position; positions outside `0..=5` saturate at either end.
    pub open spec fn at(index: int) -> LevelFilter {
        if index <= 0 {
            LevelFilter::Off
        } else if index == 1 {
            LevelFilter::Error
        } else if index == 2 {
            LevelFilter::Warn
        } else if index == 3 {
            LevelFilter::Info
        } else if index == 4 {
            LevelFilter::Debug
        } else {
            LevelFilter::Trace
        }
    }

    /// The less verbose of two filters.
    pub open spec fn spec_min(self, other: LevelFilter) -> LevelFilter {
        if self.rank() <= other.rank() {
            self
        } else {
            other
        }
    }

    /// Position of the filter, `0` for `Off` up to `5` for `Trace`.
    pub fn index(self) -> (res: u8)
        ensures
            res == self.rank(),
    {
        match self {
            LevelFilter::Off => 0,
            LevelFilter::Error => 1,
            LevelFilter::Warn => 2,
            LevelFilter::Info => 3,
            LevelFilter::Debug => 4,
            LevelFilter::Trace => 5,
        }
    }

    /// The filter at `index`, the most verbose one for any index past the end.
    pub fn from_index(index: u8) -> (res: LevelFilter)
        ensures
            res == LevelFilter::at(index as int),
    {
        if index == 0 {
            LevelFilter::Off
        } else if index == 1 {
            LevelFilter::Error
        } else if index == 2 {
            LevelFilter::Warn
        } else if index == 3 {
            LevelFilter::Info
        } else if index == 4 {
            LevelFilter::Debug
        } else {
            LevelFilter::Trace
        }
    }

    /// The less verbose of two filters.
    pub fn min(self, other: LevelFilter) -> (res: LevelFilter)
        ensures
            res == self.spec_min(other),
    {
        if self.index() <= other.index() {
            self
        } else {
            other
        }
    }
}

/// Whether terminal output is coloured.
#[derive(Clone, Copy, Debug, PartialEq, Eq, Structural)]
pub enum ColorMode {
    Auto,
    Always,
    Never,
}

/// The logging options of the command line: how often verbosity was raised
/// and lowered, and the colour mode.
#[derive(Clone, Copy, Debug)]
pub struct LoggerConfig {
    pub verbose: u8,
    pub quiet: u8,
    pub color: ColorMode,
}

impl LoggerConfig {
    /// The filter in force when verbosity is neither raised nor lowered.
    pub open spec fn default_level_filter() -> LevelFilter {
        LevelFilter::Info
    }

    /// The filter for this library's own messages: each `verbose` moves one
    /// step towards `Trace`, each `quiet` one step towards `Off`, starting
    /// from the default and stopping at either end.
    pub open spec fn spec_level_filter(&self) -> LevelFilter {
        LevelFilter::at(Self::default_level_filter().rank() + self.verbose - self.quiet)
    }

    /// The filter for messages of other crates: never more verbose than `Warn`.
    pub open spec fn spec_dependency_level_filter(&self) -> LevelFilter {
        self.spec_level_filter().spec_min(LevelFilter::Warn)
    }

    pub fn level_filter(&self) -> (res: LevelFilter)
        ensures
            res == self.spec_level_filter(),
    {
        let default_index: i16 = LevelFilter::Info.index() as i16;
        let index: i16 = default_index + self.verbose as i16 - self.quiet as i16;
        if index <= 0 {
            LevelFilter::Off
        } else if index >= 5 {
            LevelFilter::Trace
        } else {
            LevelFilter::from_index(index as u8)
        }
    }

    pub fn dependency_level_filter(&self) -> (res: LevelFilter)
        ensures
            res == self.spec_dependency_level_filter(),
    {
        self.level_filter().min(LevelFilter::Warn)
    }
}

} // verus!
