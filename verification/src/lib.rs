//! A hierarchical logging runtime: module-path routing, template formats and
//! the writer protocol, with every rule stated as a contract.
//!
//! The library decides and renders; it opens nothing. A log call names the
//! actions that are due, and whoever drives it performs them.

use vstd::prelude::*;
use crate::loggers::target::{default_logger_targets, standard_targets, LoggerTargetBuilders};
use crate::loggers::tree::{loggers_of, segments, LoggerTree};
use crate::loggers::writer::{start, LogCall};
use crate::loggers::Logger;
use crate::placeholder::{default_placeholders, standard_registry, PlaceHolders, Placeholder};
use crate::record::{Level, Record};

pub mod config;
pub mod error;
pub mod format;
pub mod kv;
pub mod loggers;
pub mod placeholder;
pub mod record;
pub mod text;
pub mod value;

verus! {

/// The registries that a configuration is loaded with.
pub struct LoggerBuilders {
    pub placeholders: PlaceHolders,
    pub targets: LoggerTargetBuilders,
}

impl Default for LoggerBuilders {
    /// The registries of the builders that come with the library.
    fn default() -> (out: Self)
        ensures
            standard_registry(out.placeholders@),
            standard_targets(out.targets@),
    {
        LoggerBuilders { placeholders: default_placeholders(), targets: default_logger_targets() }
    }
}

/// The logging runtime: it owns the tree of loggers and starts the log calls
/// of a record.
pub struct NitroLogger<P, T> {
    pub loggers: LoggerTree<P, T>,
}

/// The loggers among `found` that accept `level`, in order.
pub open spec fn accepting<P, T>(found: Seq<Logger<P, T>>, level: Level) -> Seq<Logger<P, T>> {
    found.filter(|logger: Logger<P, T>| logger.levels@.contains(level))
}

/// The module path that a record is routed by: its module, or the empty
/// path where it has none.
pub open spec fn route(record: Record) -> Seq<char> {
    match record.module {
        Some(module) => module@,
        None => Seq::empty(),
    }
}

/// Whether `call` is the log call of `logger` for `record`, at its start.
pub open spec fn begins<P: Placeholder, T>(
    call: LogCall<P, T>,
    logger: Logger<P, T>,
    record: Record,
) -> bool {
    &&& call.sound()
    &&& *call.record() == record
    &&& *call.logger() == logger
    &&& call@ == start(logger.targets@.len() as nat)
}

impl<P: Placeholder, T> NitroLogger<P, T> {
    /// A runtime over a tree of loggers.
    pub fn new(loggers: LoggerTree<P, T>) -> (out: Self)
        ensures
            out.loggers == loggers,
    {
        NitroLogger { loggers }
    }

    /// Every record is let through to the loggers: levels are tested logger
    /// by logger when the record is logged.
    pub fn enabled(&self, level: Level, target: &str) -> (out: bool)
        ensures
            out,
    {
        true
    }

    /// The loggers that a record goes to: those that apply to its module and
    /// accept its level, the most specific first.
    pub fn select<'a>(&'a self, record: &Record) -> (out: Vec<&'a Logger<P, T>>)
        ensures
            loggers_of(out@) == accepting(
                self.loggers@.resolve(segments(route(*record))),
                record.level,
            ),
    {
        let found = match &record.module {
            Some(module) => self.loggers.find_logger(module.as_str()),
            None => {
                proof {
                    reveal_strlit("");
                    assert(""@ =~= Seq::<char>::empty());
                }
                self.loggers.find_logger("")
            },
        };
        let found = match found {
            Some(found) => found,
            None => Vec::new(),
        };
        let ghost all = loggers_of(found@);
        let mut out: Vec<&'a Logger<P, T>> = Vec::new();
        let mut i: usize = 0;
        proof {
            reveal(Seq::filter);
            assert(all.take(0) =~= Seq::empty());
            assert(loggers_of(out@) =~= Seq::empty());
        }
        while i < found.len()
            invariant
                i <= found.len(),
                all == loggers_of(found@),
                loggers_of(out@) == accepting(all.take(i as int), record.level),
            decreases found.len() - i,
        {
            let ghost before = out@;
            proof {
                reveal(Seq::filter);
                let upto = all.take(i + 1);
                assert(upto.drop_last() =~= all.take(i as int));
                assert(upto.last() == *found@[i as int]);
            }
            if found[i].accepts(record.level) {
                out.push(found[i]);
                assert(loggers_of(out@) =~= loggers_of(before).push(*found@[i as int]));
            }
            i += 1;
        }
        assert(all.take(i as int) =~= all);
        out
    }

    /// Starts the log calls of a record, one for each logger that it goes
    /// to, in order.
    pub fn log<'a>(&'a self, record: &'a Record) -> (out: Vec<LogCall<'a, P, T>>)
        ensures
            out@.len() == accepting(
                self.loggers@.resolve(segments(route(*record))),
                record.level,
            ).len(),
            forall|i: int|
                0 <= i < out@.len() ==> begins(
                    #[trigger] out@[i],
                    accepting(self.loggers@.resolve(segments(route(*record))), record.level)[i],
                    *record,
                ),
    {
        let selected = self.select(record);
        let mut out: Vec<LogCall<'a, P, T>> = Vec::new();
        let mut i: usize = 0;
        while i < selected.len()
            invariant
                i <= selected.len(),
                out@.len() == i,
                forall|j: int|
                    0 <= j < i ==> begins(#[trigger] out@[j], loggers_of(selected@)[j], *record),
            decreases selected.len() - i,
        {
            let call = selected[i].log(record);
            out.push(call);
            i += 1;
        }
        out
    }
}

} // verus!
