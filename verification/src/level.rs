//! Severity levels of captured log records.
//!
//! Levels are ordered by severity: trace < debug < info < warn < error.
//! The filter threshold keeps a record when its severity is at or above
//! the threshold, and a batch of drained records is summarised by its
//! most severe member.

use vstd::prelude::*;

verus! {

#[derive(Clone, Copy, PartialEq, Eq, Structural, Debug, Hash)]
pub enum Level {
    Trace,
    Debug,
    Info,
    Warn,
    Error,
}

/// Rank of a level on the severity order: trace is lowest, error highest.
pub open spec fn severity(l: Level) -> int {
    match l {
        Level::Trace => 0,
        Level::Debug => 1,
        Level::Info => 2,
        Level::Warn => 3,
        Level::Error => 4,
    }
}

/// The more severe of two levels.
pub open spec fn spec_worst(a: Level, b: Level) -> Level {
    if severity(a) >= severity(b) {
        a
    } else {
        b
    }
}

impl Level {
    /// The severity rank as a machine integer.
    pub fn rank(&self) -> (r: u8)
        ensures
            r as int == severity(*self),
    {
        match self {
            Level::Trace => 0,
            Level::Debug => 1,
            Level::Info => 2,
            Level::Warn => 3,
            Level::Error => 4,
        }
    }

    /// Whether this level is at least as severe as `other`.
    pub fn at_least(&self, other: &Level) -> (b: bool)
        ensures
            b == (severity(*self) >= severity(*other)),
    {
        self.rank() >= other.rank()
    }
}

/// The more severe of two levels.
pub fn worst(a: Level, b: Level) -> (r: Level)
    ensures
        r == spec_worst(a, b),
{
    if a.at_least(&b) {
        a
    } else {
        b
    }
}

/// A fixed short name for each level.
pub fn level_label(l: Level) -> (s: &'static str)
    ensures
        l == Level::Trace ==> s@ == "Trace"@,
        l == Level::Debug ==> s@ == "Debug"@,
        l == Level::Info ==> s@ == "Info"@,
        l == Level::Warn ==> s@ == "Warn"@,
        l == Level::Error ==> s@ == "Error"@,
{
    match l {
        Level::Trace => "Trace",
        Level::Debug => "Debug",
        Level::Info => "Info",
        Level::Warn => "Warn",
        Level::Error => "Error",
    }
}

} // verus!
