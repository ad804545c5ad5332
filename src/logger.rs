//! The log levels the configuration file can name, and the `log` crate's
//! level each stands for.
use vstd::prelude::*;
use log::Level;

verus! {

#[verifier::external_type_specification]
#[verifier::external_body]
pub struct ExLevel(Level);

/// The name `Level::as_str` gives a level.
pub uninterp spec fn level_name(l: Level) -> Seq<char>;

/// Relies on `Level::as_str`: the level's name, as in `LOG_LEVEL_NAMES`.
pub assume_specification[ Level::as_str ](l: &Level) -> (r: &'static str)
    ensures
        r@ == level_name(*l),
;

/// Relies on `Level::max`, which returns `Level::Trace`.
pub assume_specification[ Level::max ]() -> (r: Level)
    ensures
        level_name(r) == "TRACE"@,
;

/// Relies on `Level::decrement_severity`: the next less verbose level
/// (`from_usize(current - 1)`), in the order of `LOG_LEVEL_NAMES`.
pub assume_specification[ Level::decrement_severity ](l: &Level) -> (r: Level)
    ensures
        level_name(*l) == "TRACE"@ ==> level_name(r) == "DEBUG"@,
        level_name(*l) == "DEBUG"@ ==> level_name(r) == "INFO"@,
        level_name(*l) == "INFO"@ ==> level_name(r) == "WARN"@,
        level_name(*l) == "WARN"@ ==> level_name(r) == "ERROR"@,
;

/// How much the client logs.
#[derive(Debug, Clone, Copy, PartialEq, Eq, Structural)]
pub enum CodeLogLevel {
    Error,
    Warn,
    Info,
    Debug,
    Trace,
}

pub open spec fn code_level_name(c: CodeLogLevel) -> Seq<char> {
    match c {
        CodeLogLevel::Error => "ERROR"@,
        CodeLogLevel::Warn => "WARN"@,
        CodeLogLevel::Info => "INFO"@,
        CodeLogLevel::Debug => "DEBUG"@,
        CodeLogLevel::Trace => "TRACE"@,
    }
}

impl CodeLogLevel {
    /// The `log` crate's level of the same name.
    pub fn as_log_level(&self) -> (r: Level)
        ensures
            level_name(r) == code_level_name(*self),
    {
        let trace = Level::max();
        match *self {
            CodeLogLevel::Trace => trace,
            CodeLogLevel::Debug => trace.decrement_severity(),
            CodeLogLevel::Info => trace.decrement_severity().decrement_severity(),
            CodeLogLevel::Warn => trace.decrement_severity().decrement_severity().decrement_severity(),
            CodeLogLevel::Error => trace.decrement_severity().decrement_severity().decrement_severity().decrement_severity(),
        }
    }

    /// The name of the level, as the `log` crate writes it.
    pub fn name(&self) -> (r: &'static str)
        ensures
            r@ == code_level_name(*self),
    {
        self.as_log_level().as_str()
    }
}

} // verus!
