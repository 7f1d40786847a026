use vstd::prelude::*;

use crate::result::{Error, Result};
use vstd::string::StringSliceAdditionalSpecFns;

verus! {

/// Supported log levels, from less verbose to more verbose; `Off` keeps
/// no message.
///
/// A message is kept when its level is not above the logger's level.
#[derive(Clone, Copy, Debug, PartialEq, Eq, Structural, PartialOrd, Ord)]
pub enum LogLevel {
    Off,
    Warn,
    Info,
    Debug,
    Trace,
}

impl LogLevel {
    /// The position of the level in the order of verbosity.
    pub open spec fn rank(self) -> nat {
        match self {
            LogLevel::Off => 0,
            LogLevel::Warn => 1,
            LogLevel::Info => 2,
            LogLevel::Debug => 3,
            LogLevel::Trace => 4,
        }
    }

    pub fn as_u8(&self) -> (r: u8)
        ensures
            r == self.rank(),
    {
        match self {
            LogLevel::Off => 0,
            LogLevel::Warn => 1,
            LogLevel::Info => 2,
            LogLevel::Debug => 3,
            LogLevel::Trace => 4,
        }
    }
}

/// The level that a name spells, by its UTF-8 bytes: "none", "warn",
/// "info", "debug" or "trace".
pub open spec fn level_named(name: Seq<u8>) -> Option<LogLevel> {
    if name == seq![110u8, 111u8, 110u8, 101u8] {
        Some(LogLevel::Off)
    } else if name == seq![119u8, 97u8, 114u8, 110u8] {
        Some(LogLevel::Warn)
    } else if name == seq![105u8, 110u8, 102u8, 111u8] {
        Some(LogLevel::Info)
    } else if name == seq![100u8, 101u8, 98u8, 117u8, 103u8] {
        Some(LogLevel::Debug)
    } else if name == seq![116u8, 114u8, 97u8, 99u8, 101u8] {
        Some(LogLevel::Trace)
    } else {
        None
    }
}

/// A logger passed to whoever logs: its level, and the messages it kept
/// until they are taken out.
pub struct Logger {
    pub level: LogLevel,
    pub messages: Vec<(LogLevel, String)>,
}

impl Logger {
    /// A logger at `level` holding no messages.
    pub fn with_level(level: LogLevel) -> (r: Logger)
        ensures
            r.level == level,
            r.messages@.len() == 0,
    {
        Logger { level, messages: Vec::new() }
    }

    /// Whether a message at `level` is kept.
    pub fn enabled(&self, level: LogLevel) -> (r: bool)
        ensures
            r == (level != LogLevel::Off && level.rank() <= self.level.rank()),
    {
        let l = level.as_u8();
        l != 0 && l <= self.level.as_u8()
    }

    /// Keeps `msg` when a message at `level` is enabled.
    pub fn log(&mut self, level: LogLevel, msg: String)
        ensures
            final(self).level == old(self).level,
            final(self).messages@ == if level != LogLevel::Off && level.rank() <= old(
                self,
            ).level.rank() {
                old(self).messages@.push((level, msg))
            } else {
                old(self).messages@
            },
    {
        if self.enabled(level) {
            self.messages.push((level, msg));
        }
    }

    /// Hands out the kept messages, oldest first, and empties the buffer.
    pub fn take_messages(&mut self) -> (r: Vec<(LogLevel, String)>)
        ensures
            r@ == old(self).messages@,
            final(self).level == old(self).level,
            final(self).messages@.len() == 0,
    {
        let mut taken: Vec<(LogLevel, String)> = Vec::new();
        taken.append(&mut self.messages);
        taken
    }
}

/// A logger at the level that `log_level` names.
pub fn init(log_level: &str) -> (r: Result<Logger>)
    ensures
        match level_named(log_level.spec_bytes()) {
            Some(l) => r is Ok && r->Ok_0.level == l && r->Ok_0.messages@.len() == 0,
            None => r is Err && r->Err_0 is UnknownLogLevel && r->Err_0->UnknownLogLevel_0@ == log_level@,
        },
{
    let b = log_level.as_bytes();
    let n = b.len();
    let level = if n == 4 && b[0] == 110u8 && b[1] == 111u8 && b[2] == 110u8 && b[3] == 101u8 {
        assert(b@ =~= seq![110u8, 111u8, 110u8, 101u8]);
        LogLevel::Off
    } else if n == 4 && b[0] == 119u8 && b[1] == 97u8 && b[2] == 114u8 && b[3] == 110u8 {
        assert(b@ =~= seq![119u8, 97u8, 114u8, 110u8]);
        LogLevel::Warn
    } else if n == 4 && b[0] == 105u8 && b[1] == 110u8 && b[2] == 102u8 && b[3] == 111u8 {
        assert(b@ =~= seq![105u8, 110u8, 102u8, 111u8]);
        LogLevel::Info
    } else if n == 5 && b[0] == 100u8 && b[1] == 101u8 && b[2] == 98u8 && b[3] == 117u8 && b[4]
        == 103u8 {
        assert(b@ =~= seq![100u8, 101u8, 98u8, 117u8, 103u8]);
        LogLevel::Debug
    } else if n == 5 && b[0] == 116u8 && b[1] == 114u8 && b[2] == 97u8 && b[3] == 99u8 && b[4]
        == 101u8 {
        assert(b@ =~= seq![116u8, 114u8, 97u8, 99u8, 101u8]);
        LogLevel::Trace
    } else {
        return Err(Error::UnknownLogLevel(log_level.to_owned()));
    };
    Ok(Logger::with_level(level))
}

pub fn set_level_none(logger: &mut Logger)
    ensures
        final(logger).level == LogLevel::Off,
        final(logger).messages@ == old(logger).messages@,
{
    logger.level = LogLevel::Off;
}

pub fn set_level_warn(logger: &mut Logger)
    ensures
        final(logger).level == LogLevel::Warn,
        final(logger).messages@ == old(logger).messages@,
{
    logger.level = LogLevel::Warn;
}

pub fn set_level_info(logger: &mut Logger)
    ensures
        final(logger).level == LogLevel::Info,
        final(logger).messages@ == old(logger).messages@,
{
    logger.level = LogLevel::Info;
}

pub fn set_level_debug(logger: &mut Logger)
    ensures
        final(logger).level == LogLevel::Debug,
        final(logger).messages@ == old(logger).messages@,
{
    logger.level = LogLevel::Debug;
}

pub fn set_level_trace(logger: &mut Logger)
    ensures
        final(logger).level == LogLevel::Trace,
        final(logger).messages@ == old(logger).messages@,
{
    logger.level = LogLevel::Trace;
}

pub fn get_level(logger: &Logger) -> (r: LogLevel)
    ensures
        r == logger.level,
{
    logger.level
}

} // verus!
