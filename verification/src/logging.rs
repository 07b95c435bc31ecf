//! Logging levels and the level-gated log buffer.  Writing the buffered
//! entries to their destination is the embedder's concern.

use vstd::prelude::*;

verus! {

/// Verbosity levels, from silence to full tracing.
#[allow(non_camel_case_types)]
#[derive(Clone, Copy, Debug, PartialEq, Eq, Structural, Hash)]
pub enum LoggingLevel {
    OFF,
    FATAL,
    ERROR,
    WARN,
    INFO,
    DEBUG,
    TRACE,
}

/// The numeric rank of a level; higher is more verbose.
pub open spec fn level_rank(l: LoggingLevel) -> int {
    match l {
        LoggingLevel::OFF => 0,
        LoggingLevel::FATAL => 1,
        LoggingLevel::ERROR => 2,
        LoggingLevel::WARN => 3,
        LoggingLevel::INFO => 4,
        LoggingLevel::DEBUG => 5,
        LoggingLevel::TRACE => 6,
    }
}

impl LoggingLevel {
    pub fn rank(self) -> (r: u8)
        ensures
            r == level_rank(self),
    {
        match self {
            LoggingLevel::OFF => 0,
            LoggingLevel::FATAL => 1,
            LoggingLevel::ERROR => 2,
            LoggingLevel::WARN => 3,
            LoggingLevel::INFO => 4,
            LoggingLevel::DEBUG => 5,
            LoggingLevel::TRACE => 6,
        }
    }
}

impl Default for LoggingLevel {
    fn default() -> (r: Self)
        ensures
            r == LoggingLevel::INFO,
    {
        LoggingLevel::INFO
    }
}

/// The log: a threshold level and the entries accepted so far, oldest
/// first.
#[derive(Debug)]
pub struct Logger {
    pub level: LoggingLevel,
    pub entries: Vec<String>,
}

impl Logger {
    pub fn new() -> (r: Logger)
        ensures
            r.level == LoggingLevel::INFO,
            r.entries@.len() == 0,
    {
        Logger { level: LoggingLevel::INFO, entries: Vec::new() }
    }
}

/// Record `val` exactly when its level is within the logger's threshold.
pub fn log(logger: &mut Logger, val: &str, level: LoggingLevel)
    ensures
        final(logger).level == old(logger).level,
        level_rank(level) <= level_rank(old(logger).level) ==> ({
            &&& final(logger).entries@.len() == old(logger).entries@.len() + 1
            &&& final(logger).entries@.last()@ == val@
            &&& final(logger).entries@.subrange(0, old(logger).entries@.len() as int) == old(
                logger,
            ).entries@
        }),
        level_rank(level) > level_rank(old(logger).level) ==> final(logger).entries@ == old(
            logger,
        ).entries@,
{
    if level.rank() <= logger.level.rank() {
        let owned = val.to_owned();
        logger.entries.push(owned);
        proof {
            assert(logger.entries@.subrange(0, old(logger).entries@.len() as int) =~= old(
                logger,
            ).entries@);
        }
    }
}

/// The current threshold.
pub fn get_log_level(logger: &Logger) -> (r: LoggingLevel)
    ensures
        r == logger.level,
{
    logger.level
}

/// Change the threshold; buffered entries stay.
pub fn change_log_level(logger: &mut Logger, new_val: LoggingLevel)
    ensures
        final(logger).level == new_val,
        final(logger).entries@ == old(logger).entries@,
{
    logger.level = new_val;
}

} // verus!
