//! Loggers: the rules that bind a module, a set of levels, a format and the
//! targets that receive what the format renders.

use vstd::prelude::*;
use vstd::string::*;
use crate::format::Format;
use crate::kv::default_structure_dump::{dump_of, DefaultStructureDump};
use crate::loggers::writer::LogCall;
use crate::placeholder::Placeholder;
use crate::record::{Level, Record};
use crate::text::{same_text, texts};

pub mod console;
pub mod file;
pub mod target;
pub mod tree;
pub mod writer;

verus! {

/// A configured logging rule. It owns its targets and its compiled format.
pub struct Logger<P, T> {
    /// The module path that the logger is registered at; `None` only for the
    /// default loggers at the root.
    pub module: Option<String>,
    /// The levels that the logger accepts.
    pub levels: Vec<Level>,
    pub targets: Vec<T>,
    /// Whether the logger also applies to every module below its own.
    pub always_execute: bool,
    /// Whether every attribute of a record is written out after the message.
    pub structure_dump: bool,
    pub format: Format<P>,
}

impl<P, T> Logger<P, T> {
    /// Whether the logger is registered at exactly this module path.
    pub fn module_matches(&self, module: &str) -> (out: bool)
        ensures
            out == (self.module matches Some(own) && own@ == module@),
    {
        match &self.module {
            Some(own) => same_text(own.as_str(), module),
            None => false,
        }
    }

    /// Whether the logger accepts records of this level.
    pub fn accepts(&self, level: Level) -> (out: bool)
        ensures
            out == self.levels@.contains(level),
    {
        let mut i: usize = 0;
        while i < self.levels.len()
            invariant
                i <= self.levels.len(),
                forall|j: int| 0 <= j < i ==> self.levels@[j] != level,
            decreases self.levels.len() - i,
        {
            if self.levels[i] == level {
                return true;
            }
            i += 1;
        }
        false
    }
}

impl<P: Placeholder, T> Logger<P, T> {
    /// What follows the rendered sections of a message: the dump of the
    /// attributes, where the logger asks for one, and the line break that
    /// ends the message.
    pub open spec fn tail(&self, record: Record) -> Seq<Seq<char>> {
        if self.structure_dump {
            dump_of(record.key_values@) + seq!["\n"@]
        } else {
            seq!["\n"@]
        }
    }

    /// The number of fragments that the message of a record has.
    pub open spec fn fragment_count(&self, record: Record) -> nat {
        self.format.format@.len() + self.tail(record).len()
    }

    /// `fragments` is a message of the logger for the record: a rendering of
    /// each section of its format, in order, and then the tail.
    pub open spec fn writes(&self, record: Record, fragments: Seq<Seq<char>>) -> bool {
        let sections = self.format.format@.len() as int;
        &&& fragments.len() == self.fragment_count(record)
        &&& self.format.renders(record, fragments.take(sections))
        &&& fragments.skip(sections) == self.tail(record)
    }

    /// Renders the message of a record, fragment by fragment. Every target of
    /// the logger receives these same fragments.
    pub fn message(&self, record: &Record) -> (out: Vec<String>)
        ensures
            self.writes(*record, texts(out@)),
    {
        let mut out = self.format.fragments(record);
        let ghost rendered = texts(out@);
        let ghost sections = self.format.format@.len() as int;
        if self.structure_dump {
            let mut dump = DefaultStructureDump { write: out };
            let mut i: usize = 0;
            assert(record.key_values@.take(0) =~= Seq::empty());
            assert(rendered + dump_of(record.key_values@.take(0)) =~= rendered);
            while i < record.key_values.len()
                invariant
                    i <= record.key_values.len(),
                    texts(dump.write@) == rendered + dump_of(record.key_values@.take(i as int)),
                decreases record.key_values.len() - i,
            {
                proof {
                    let upto = record.key_values@.take(i + 1);
                    assert(upto.drop_last() =~= record.key_values@.take(i as int));
                    assert(upto.last() == record.key_values@[i as int]);
                    assert(rendered + dump_of(upto) =~= (rendered + dump_of(upto.drop_last()))
                        + seq!["\n"@, crate::kv::default_structure_dump::dump_line(upto.last())]);
                }
                dump.visit_pair(&record.key_values[i]);
                i += 1;
            }
            assert(record.key_values@.take(i as int) =~= record.key_values@);
            out = dump.write;
        }
        let ghost before = texts(out@);
        out.push(String::from_str("\n"));
        proof {
            let all = texts(out@);
            assert(all =~= before.push("\n"@));
            assert(all =~= rendered + self.tail(*record));
            assert(all.take(sections) =~= rendered);
            assert(all.skip(sections) =~= self.tail(*record));
        }
        out
    }

    /// Starts the log call of this logger for a record. The caller performs
    /// the actions that the call names, one after the other.
    pub fn log<'a>(&'a self, record: &'a Record) -> (out: LogCall<'a, P, T>)
        ensures
            out.sound(),
            out@ == crate::loggers::writer::start(self.targets@.len() as nat),
            out.logger() == self,
            out.record() == record,
            out.message() == Seq::<Seq<char>>::empty(),
    {
        LogCall::new(self, record)
    }
}

} // verus!
