//! The five severities by which events are bucketed.

use vstd::prelude::*;

verus! {

/// Severity of a captured event, from the most verbose to the most severe.
#[derive(Clone, Copy, Debug, PartialEq, Eq, Structural, Hash)]
pub enum Level {
    Trace,
    Debug,
    Info,
    Warn,
    Error,
}

/// Number of severities, and so of buckets.
pub const LEVEL_COUNT: usize = 5;

impl Level {
    /// Position of the severity in a table of all five.
    pub open spec fn spec_index(self) -> int {
        match self {
            Level::Trace => 0,
            Level::Debug => 1,
            Level::Info => 2,
            Level::Warn => 3,
            Level::Error => 4,
        }
    }

    /// The severity that stands at position `i`; `Error` from 4 upwards.
    pub open spec fn spec_from_index(i: int) -> Level {
        if i <= 0 {
            Level::Trace
        } else if i == 1 {
            Level::Debug
        } else if i == 2 {
            Level::Info
        } else if i == 3 {
            Level::Warn
        } else {
            Level::Error
        }
    }

    /// Position of the severity in a table of all five.
    pub fn index(self) -> (i: usize)
        ensures
            i == self.spec_index(),
            i < LEVEL_COUNT,
    {
        match self {
            Level::Trace => 0,
            Level::Debug => 1,
            Level::Info => 2,
            Level::Warn => 3,
            Level::Error => 4,
        }
    }

    /// The severity at position `i`, if there is one.
    pub fn from_index(i: usize) -> (level: Option<Level>)
        ensures
            i < LEVEL_COUNT ==> level == Some(Level::spec_from_index(i as int)),
            i >= LEVEL_COUNT ==> level.is_none(),
    {
        if i == 0 {
            Some(Level::Trace)
        } else if i == 1 {
            Some(Level::Debug)
        } else if i == 2 {
            Some(Level::Info)
        } else if i == 3 {
            Some(Level::Warn)
        } else if i == 4 {
            Some(Level::Error)
        } else {
            None
        }
    }

    /// The name under which the severity appears in a label selector.
    pub open spec fn spec_name(self) -> Seq<char> {
        match self {
            Level::Trace => "trace"@,
            Level::Debug => "debug"@,
            Level::Info => "info"@,
            Level::Warn => "warn"@,
            Level::Error => "error"@,
        }
    }

    /// The name under which the severity appears in a label selector.
    pub fn name(self) -> (name: &'static str)
        ensures
            name@ == self.spec_name(),
    {
        match self {
            Level::Trace => "trace",
            Level::Debug => "debug",
            Level::Info => "info",
            Level::Warn => "warn",
            Level::Error => "error",
        }
    }
}

/// Every position below five belongs to exactly one severity.
pub proof fn lemma_index_round_trip(level: Level)
    ensures
        0 <= level.spec_index() < LEVEL_COUNT,
        Level::spec_from_index(level.spec_index()) == level,
{
}

/// Every position below five is the position of the severity found there.
pub proof fn lemma_from_index_round_trip(i: int)
    requires
        0 <= i < LEVEL_COUNT,
    ensures
        Level::spec_from_index(i).spec_index() == i,
{
}

} // verus!
