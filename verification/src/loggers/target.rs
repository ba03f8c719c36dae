//! Targets: the sinks that a logger writes to, and the builders that make
//! them from configuration.

use vstd::prelude::*;
use crate::error::Error;
use crate::loggers::console::ConsoleLoggerBuilder;
use crate::loggers::file::FileLoggerBuilder;
use crate::loggers::writer::LoggerWriter;
use crate::placeholder::{
    empty_registry, register, DynPlaceholder, DynPlaceholderBuilder, Placeholder,
    PlaceholderBuilder,
};
use crate::record::Record;
use crate::value::Json;

verus! {

/// A target of any kind.
pub type DynTarget = Box<dyn LoggerTarget>;

/// The registry of target builders for loggers whose placeholders and
/// targets are of any kind. It is searched in order and the first builder of
/// a name wins.
pub type LoggerTargetBuilders = Vec<
    Box<dyn LoggerTargetBuilder<DynPlaceholder, DynPlaceholderBuilder, DynTarget>>,
>;

/// Whether a registry is the standard one: the builders of the console
/// target and of the file target, in this order, each answering and building
/// as that builder does.
pub open spec fn standard_targets(
    registry: Seq<Box<dyn LoggerTargetBuilder<DynPlaceholder, DynPlaceholderBuilder, DynTarget>>>,
) -> bool {
    &&& registry.len() == 2
    &&& forall|name: Seq<char>| #[trigger]
        registry[0].answers_to(name) <==> (ConsoleLoggerBuilder {  }).answers_to(name)
    &&& forall|
        config: Json,
        placeholders: Seq<DynPlaceholderBuilder>,
        out: Result<DynTarget, Error>,
    | #[trigger]
        registry[0].builds(config, placeholders, out) <==> (ConsoleLoggerBuilder {  }).builds(
            config,
            placeholders,
            out,
        )
    &&& forall|name: Seq<char>| #[trigger]
        registry[1].answers_to(name) <==> (FileLoggerBuilder {  }).answers_to(name)
    &&& forall|
        config: Json,
        placeholders: Seq<DynPlaceholderBuilder>,
        out: Result<DynTarget, Error>,
    | #[trigger]
        registry[1].builds(config, placeholders, out) <==> (FileLoggerBuilder {  }).builds(
            config,
            placeholders,
            out,
        )
}

/// The builders of the console target and of the file target, in this
/// order.
pub fn default_logger_targets() -> (out: LoggerTargetBuilders)
    ensures
        standard_targets(out@),
{
    let logger_targets: LoggerTargetBuilders = empty_registry();
    let logger_targets = register(logger_targets, Box::new(ConsoleLoggerBuilder {  }));
    register(logger_targets, Box::new(FileLoggerBuilder {  }))
}

/// Makes targets of one type from their properties, once, when the
/// configuration is loaded.
///
/// What a builder promises of its methods it says in `answers_to` and
/// `builds`. A builder that says nothing promises nothing.
pub trait LoggerTargetBuilder<P: Placeholder, B: PlaceholderBuilder<P>, T> {
    /// Whether `name` may be the name that the builder gives.
    open spec fn answers_to(&self, name: Seq<char>) -> bool {
        true
    }

    /// Whether `out` may be what the builder makes of the properties
    /// `config` with the registry `placeholders`.
    open spec fn builds(&self, config: Json, placeholders: Seq<B>, out: Result<T, Error>) -> bool {
        true
    }

    /// The name of the target type.
    fn name(&self) -> (out: &'static str)
        ensures
            self.answers_to(out@),
    ;

    /// Checks the properties and creates a target; `placeholders` is the
    /// registry that templates among the properties are compiled against.
    fn build(&self, config: Json, placeholders: &[B]) -> (out: Result<T, Error>)
        ensures
            self.builds(config, placeholders@, out),
    ;
}

/// A configured sink. It holds no open resource between log calls: each call
/// acquires a writer and hands it back.
///
/// What a target promises of its methods it says in `acquires` and
/// `quiet_return`. A target that says nothing promises nothing.
pub trait LoggerTarget: Send + Sync {
    /// Whether `out` may be what the target answers when it is asked for the
    /// writer of `record`.
    open spec fn acquires(&self, record: Record, out: Result<LoggerWriter, Error>) -> bool {
        true
    }

    /// Whether taking a writer back is nothing to the target: there is
    /// nothing to be done and nothing that can fail. A target that keeps
    /// `return_write` as it comes may say so.
    open spec fn quiet_return(&self) -> bool {
        false
    }

    /// Names the resource that the writer for this record is acquired from.
    fn start_write(&self, record: &Record) -> (out: Result<LoggerWriter, Error>)
        ensures
            self.acquires(*record, out),
    ;

    /// Takes the writer back once the call is through with it. By default
    /// this does nothing and succeeds.
    fn return_write(&self, writer: LoggerWriter) -> (out: Result<(), Error>)
        ensures
            self.quiet_return() ==> out is Ok,
    {
        Ok(())
    }
}

/// A boxed target is the target in the box: it promises what that one
/// promises and answers what that one answers.
impl LoggerTarget for Box<dyn LoggerTarget> {
    open spec fn acquires(&self, record: Record, out: Result<LoggerWriter, Error>) -> bool {
        (**self).acquires(record, out)
    }

    open spec fn quiet_return(&self) -> bool {
        (**self).quiet_return()
    }

    fn start_write(&self, record: &Record) -> (out: Result<LoggerWriter, Error>) {
        (**self).start_write(record)
    }

    fn return_write(&self, writer: LoggerWriter) -> (out: Result<(), Error>) {
        (**self).return_write(writer)
    }
}

/// A boxed builder is the builder in the box.
impl<P: Placeholder, B: PlaceholderBuilder<P>, T> LoggerTargetBuilder<P, B, T> for Box<
    dyn LoggerTargetBuilder<P, B, T>,
> {
    open spec fn answers_to(&self, name: Seq<char>) -> bool {
        (**self).answers_to(name)
    }

    open spec fn builds(&self, config: Json, placeholders: Seq<B>, out: Result<T, Error>) -> bool {
        (**self).builds(config, placeholders, out)
    }

    fn name(&self) -> (out: &'static str) {
        (**self).name()
    }

    fn build(&self, config: Json, placeholders: &[B]) -> (out: Result<T, Error>) {
        (**self).build(config, placeholders)
    }
}

} // verus!
