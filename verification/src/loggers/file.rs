//! The file target: every record goes to the file that a template names for
//! it.

use vstd::prelude::*;
use vstd::string::*;
use crate::config::FormatConfig;
use crate::error::Error;
use crate::format::{
    concat, format_made, lemma_variables_are_made, only_variables, Format, FormatError,
};
use crate::loggers::target::{DynTarget, LoggerTarget, LoggerTargetBuilder};
use crate::loggers::writer::{LoggerWriter, Resource};
use crate::placeholder::{DynPlaceholder, DynPlaceholderBuilder, Placeholder};
use crate::record::Record;
use crate::value::{entries, Json, JsonView};

verus! {

pub struct FileLoggerBuilder {}

impl LoggerTargetBuilder<DynPlaceholder, DynPlaceholderBuilder, DynTarget> for FileLoggerBuilder {
    open spec fn answers_to(&self, name: Seq<char>) -> bool {
        name == "file_logger"@
    }

    /// Properties without a template are refused as unreadable. With a
    /// template, the builder compiles it against the registry for a file
    /// path: an error is that of the template, and the target that is built
    /// answers every record with the file whose path the compiled template
    /// renders for it, and has nothing to do when its writer comes back. So
    /// a template of text and variables alone is accepted whatever the
    /// registry holds.
    open spec fn builds(
        &self,
        config: Json,
        placeholders: Seq<DynPlaceholderBuilder>,
        out: Result<DynTarget, Error>,
    ) -> bool {
        match FileConfig::reads(config@) {
            None => out is Err && out->Err_0 is SerdeJson,
            Some(read) => match out {
                Ok(target) => target.quiet_return() && exists|format: Format<DynPlaceholder>|
                    #[trigger] format_made(
                        placeholders,
                        read.0,
                        read.1,
                        true,
                        Ok::<Format<DynPlaceholder>, FormatError>(format),
                    ) && forall|record: Record, answer: Result<LoggerWriter, Error>| #[trigger]
                        target.acquires(record, answer) <==> opens_file(format, record, answer),
                Err(error) => error is FormatGeneration && format_made(
                    placeholders,
                    read.0,
                    read.1,
                    true,
                    Err::<Format<DynPlaceholder>, FormatError>(error->FormatGeneration_0),
                ),
            },
        }
    }

    fn name(&self) -> (out: &'static str)
        ensures
            out@ == "file_logger"@,
    {
        "file_logger"
    }

    /// Reads the `file` property and compiles it as a template whose
    /// placeholders render for a file path. Properties without a template
    /// are refused; a template of text and variables alone is accepted
    /// whatever the registry holds.
    fn build(&self, config: Json, placeholders: &[DynPlaceholderBuilder]) -> (out: Result<
        DynTarget,
        Error,
    >)
        ensures
            FileConfig::reads(config@) is None ==> out is Err,
            FileConfig::reads(config@) matches Some(read) && only_variables(read.0) ==> out is Ok,
    {
        let ghost read = FileConfig::reads(config@);
        let ghost template = match read {
            Some(found) => found.0,
            None => Seq::empty(),
        };
        let ghost named = match read {
            Some(found) => found.1,
            None => Seq::empty(),
        };
        let ghost registry = placeholders@;
        let file_config = match FileConfig::from_json(&config) {
            Ok(file_config) => file_config,
            Err(error) => {
                return Err(error);
            },
        };
        let made = Format::<DynPlaceholder>::new(placeholders, file_config.file, true);
        proof {
            if only_variables(template) {
                lemma_variables_are_made(registry, template, named, true, made);
            }
        }
        match made {
            Ok(file_format) => {
                let ghost format = file_format;
                let out: Result<DynTarget, Error> = Ok(Box::new(FileLogger { file_format }));
                assert(format_made(
                    registry,
                    template,
                    named,
                    true,
                    Ok::<Format<DynPlaceholder>, FormatError>(format),
                ));
                assert(forall|record: Record, answer: Result<LoggerWriter, Error>| #[trigger]
                    out->Ok_0.acquires(record, answer) <==> opens_file(format, record, answer));
                out
            },
            Err(error) => Err(Error::FormatGeneration(error)),
        }
    }
}

/// Appends to the file whose path its template renders for the record.
pub struct FileLogger<P> {
    pub file_format: Format<P>,
}

/// Whether `answer` names the file whose path `format` renders for
/// `record`.
pub open spec fn opens_file<P: Placeholder>(
    format: Format<P>,
    record: Record,
    answer: Result<LoggerWriter, Error>,
) -> bool {
    answer matches Ok(writer) && writer.resource matches Resource::File(path) && exists|
        fragments: Seq<Seq<char>>,
    |
        format.renders(record, fragments) && path@ == concat(fragments)
}

impl<P: Placeholder> LoggerTarget for FileLogger<P> {
    open spec fn acquires(&self, record: Record, out: Result<LoggerWriter, Error>) -> bool {
        opens_file(self.file_format, record, out)
    }

    open spec fn quiet_return(&self) -> bool {
        true
    }

    /// The path is rendered anew for every record.
    fn start_write(&self, record: &Record) -> (out: Result<LoggerWriter, Error>)
        ensures
            out matches Ok(writer) && writer.resource matches Resource::File(path) && exists|
                fragments: Seq<Seq<char>>,
            |
                self.file_format.renders(*record, fragments) && path@ == concat(fragments),
    {
        Ok(LoggerWriter { resource: Resource::File(generate_path(&self.file_format, record)) })
    }
}

/// The properties of a file target.
pub struct FileConfig {
    /// The template of the file path.
    pub file: FormatConfig,
}

impl FileConfig {
    /// The template that the properties of a file target give. The member
    /// `file` holds it, as a text or as an object of its own.
    pub open spec fn reads(config: JsonView) -> Option<(Seq<char>, Seq<(Seq<char>, JsonView)>)> {
        match config.get("file"@) {
            Some(file) => FormatConfig::reads(file),
            None => None,
        }
    }

    /// Reads the properties of a file target.
    pub fn from_json(config: &Json) -> (out: Result<FileConfig, Error>)
        ensures
            match out {
                Ok(read) => FileConfig::reads(config@) == Some(
                    (read.file.format@, entries(read.file.placeholders@)),
                ),
                Err(error) => FileConfig::reads(config@) is None && error is SerdeJson,
            },
    {
        match config.get("file") {
            Some(file) => match FormatConfig::from_json(file) {
                Some(file) => Ok(FileConfig { file }),
                None => Err(Error::SerdeJson(String::from_str("invalid type: expected string or map"))),
            },
            None => Err(Error::SerdeJson(String::from_str("missing field `file`"))),
        }
    }
}

/// The path of the file that a record goes to: the rendering of the path
/// template against the record.
pub fn generate_path<P: Placeholder>(format: &Format<P>, record: &Record) -> (out: String)
    ensures
        exists|fragments: Seq<Seq<char>>|
            format.renders(*record, fragments) && out@ == concat(fragments),
{
    format.render(record)
}

} // verus!
