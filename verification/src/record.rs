//! The log record that the runtime routes, formats and writes.

use vstd::prelude::*;
use crate::value::Json;

verus! {

/// The severity of a record, most severe first.
#[derive(Clone, Copy, PartialEq, Eq, Structural, Debug)]
pub enum Level {
    Error,
    Warn,
    Info,
    Debug,
    Trace,
}

impl Level {
    /// The upper-case name of the level.
    pub open spec fn spec_name(self) -> Seq<char> {
        match self {
            Level::Error => "ERROR"@,
            Level::Warn => "WARN"@,
            Level::Info => "INFO"@,
            Level::Debug => "DEBUG"@,
            Level::Trace => "TRACE"@,
        }
    }

    pub fn as_str(&self) -> (out: &'static str)
        ensures
            out@ == self.spec_name(),
    {
        match self {
            Level::Error => "ERROR",
            Level::Warn => "WARN",
            Level::Info => "INFO",
            Level::Debug => "DEBUG",
            Level::Trace => "TRACE",
        }
    }
}

/// One structured attribute of a record: its key, the text it prints as, and
/// its structured form, or the reason why it has none.
#[derive(Debug)]
pub struct KeyValue {
    pub key: String,
    pub text: String,
    pub structure: Result<Json, String>,
}

/// A log record. Attribute keys are unique within one record.
#[derive(Debug)]
pub struct Record {
    pub level: Level,
    pub target: String,
    pub module: Option<String>,
    pub line: Option<u32>,
    pub message: String,
    pub key_values: Vec<KeyValue>,
}

} // verus!
