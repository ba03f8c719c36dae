//! The console target.

use vstd::prelude::*;
use vstd::string::*;
use crate::error::Error;
use crate::loggers::target::{DynTarget, LoggerTarget, LoggerTargetBuilder};
use crate::loggers::writer::{LoggerWriter, Resource};
use crate::placeholder::{DynPlaceholder, DynPlaceholderBuilder};
use crate::record::Record;
use crate::value::Json;

verus! {

pub struct ConsoleLoggerBuilder {}

impl LoggerTargetBuilder<DynPlaceholder, DynPlaceholderBuilder, DynTarget> for ConsoleLoggerBuilder {
    open spec fn answers_to(&self, name: Seq<char>) -> bool {
        name == "console"@
    }

    /// Whatever the properties and the registry, the builder makes a target
    /// that writes to the standard output, whatever the record, and has
    /// nothing to do when its writer comes back.
    open spec fn builds(
        &self,
        config: Json,
        placeholders: Seq<DynPlaceholderBuilder>,
        out: Result<DynTarget, Error>,
    ) -> bool {
        out matches Ok(target) && target.quiet_return() && forall|
            record: Record,
            answer: Result<LoggerWriter, Error>,
        | #[trigger]
            target.acquires(record, answer) <==> (answer matches Ok(writer)
                && writer.resource is Console)
    }

    fn name(&self) -> (out: &'static str)
        ensures
            out@ == "console"@,
    {
        "console"
    }

    /// The console target has no properties of its own: whatever is given is
    /// accepted.
    fn build(&self, config: Json, placeholders: &[DynPlaceholderBuilder]) -> (out: Result<
        DynTarget,
        Error,
    >) {
        let logger = ConsoleLogger { format: ConsoleConfig::default().format };
        Ok(Box::new(logger))
    }
}

/// Writes to the standard output of the process.
#[derive(Debug)]
pub struct ConsoleLogger {
    pub format: String,
}

impl ConsoleLogger {
    pub fn init(config: ConsoleConfig) -> (out: Result<ConsoleLogger, Error>)
        ensures
            out matches Ok(logger) && logger.format == config.format,
    {
        let logger = ConsoleLogger { format: config.format };
        Ok(logger)
    }
}

impl Default for ConsoleLogger {
    fn default() -> (out: Self)
        ensures
            out.format@ == "%module% %level%: %message%"@,
    {
        ConsoleLogger { format: ConsoleConfig::default().format }
    }
}

impl LoggerTarget for ConsoleLogger {
    open spec fn acquires(&self, record: Record, out: Result<LoggerWriter, Error>) -> bool {
        out matches Ok(writer) && writer.resource is Console
    }

    open spec fn quiet_return(&self) -> bool {
        true
    }

    fn start_write(&self, record: &Record) -> (out: Result<LoggerWriter, Error>)
        ensures
            out matches Ok(writer) && writer.resource is Console,
    {
        Ok(LoggerWriter { resource: Resource::Console })
    }
}

#[derive(Debug)]
pub struct ConsoleConfig {
    pub format: String,
}

impl Default for ConsoleConfig {
    fn default() -> (out: Self)
        ensures
            out.format@ == "%module% %level%: %message%"@,
    {
        ConsoleConfig { format: String::from_str("%module% %level%: %message%") }
    }
}

} // verus!
