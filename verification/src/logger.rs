//! Which log records the kernel prints, and the coloured tag that starts each line.
use vstd::prelude::*;

verus! {

/// The severity of a log record, most severe first.
#[derive(Debug, Clone, Copy, PartialEq, Eq, Structural)]
pub enum LogLevel {
    Error,
    Warn,
    Info,
    Debug,
    Trace,
}

/// Records up to `Debug` are printed; `Trace` records are dropped.
pub open spec fn spec_level_enabled(level: LogLevel) -> bool {
    level != LogLevel::Trace
}

/// Errors, warnings, information and debug records are printed; only trace
/// records are dropped.
pub proof fn lemma_levels_printed()
    ensures
        spec_level_enabled(LogLevel::Error),
        spec_level_enabled(LogLevel::Warn),
        spec_level_enabled(LogLevel::Info),
        spec_level_enabled(LogLevel::Debug),
        !spec_level_enabled(LogLevel::Trace),
{
}

/// Whether a record of `level` is printed.
pub fn level_enabled(level: LogLevel) -> (r: bool)
    ensures
        r == spec_level_enabled(level),
{
    match level {
        LogLevel::Trace => false,
        _ => true,
    }
}

/// The tag that prefixes a printed record: the level's name in bold, red for
/// errors, yellow for warnings and green otherwise.
pub open spec fn spec_level_tag(level: LogLevel) -> Seq<char> {
    match level {
        LogLevel::Error => "\x1b[1;31mERROR\x1b[0m"@,
        LogLevel::Warn => "\x1b[1;33mWARN\x1b[0m"@,
        LogLevel::Info => "\x1b[1;32mINFO\x1b[0m"@,
        LogLevel::Debug => "\x1b[1;32mDEBUG\x1b[0m"@,
        LogLevel::Trace => "\x1b[1;32mTRACE\x1b[0m"@,
    }
}

/// The coloured tag for `level`.
pub fn level_tag(level: LogLevel) -> (r: &'static str)
    ensures
        r@ == spec_level_tag(level),
{
    match level {
        LogLevel::Error => "\x1b[1;31mERROR\x1b[0m",
        LogLevel::Warn => "\x1b[1;33mWARN\x1b[0m",
        LogLevel::Info => "\x1b[1;32mINFO\x1b[0m",
        LogLevel::Debug => "\x1b[1;32mDEBUG\x1b[0m",
        LogLevel::Trace => "\x1b[1;32mTRACE\x1b[0m",
    }
}

} // verus!
