//! The placeholders that every registry starts with: the message of a
//! record, its level and its module, and a value read from the environment
//! when the configuration was loaded.

use vstd::prelude::*;
use vstd::string::*;
use crate::error::Error;
use crate::placeholder::{DynPlaceholder, Placeholder, PlaceholderBuilder};
use crate::record::Record;
use crate::text::{join_with, joined, split, split_text};
use crate::value::{Json, JsonView, Member};

verus! {

pub struct MessagePlaceholderBuilder {}

impl PlaceholderBuilder<DynPlaceholder> for MessagePlaceholderBuilder {
    open spec fn answers_to(&self, name: Seq<char>) -> bool {
        name == "message"@
    }

    /// Whatever the settings, the builder makes a placeholder that renders
    /// every record as its message and has no settings to show.
    open spec fn builds(&self, value: Option<Json>, out: Result<DynPlaceholder, Error>) -> bool {
        &&& out is Ok
        &&& forall|record: Record, text: Seq<char>| #[trigger]
            out->Ok_0.renders(record, text) <==> text == record.message@
        &&& forall|kept: Option<Json>| #[trigger] out->Ok_0.keeps(kept) <==> kept is None
    }

    fn name(&self) -> (out: &'static str)
        ensures
            out@ == "message"@,
    {
        "message"
    }

    fn build(&self, _value: Option<Json>) -> (out: Result<DynPlaceholder, Error>) {
        Ok(Box::new(MessagePlaceholder {  }))
    }
}

/// Renders the message of the record.
#[derive(Debug)]
pub struct MessagePlaceholder {}

impl Placeholder for MessagePlaceholder {
    open spec fn renders(&self, record: Record, out: Seq<char>) -> bool {
        out == record.message@
    }

    open spec fn keeps(&self, out: Option<Json>) -> bool {
        out is None
    }

    fn build_message(&self, record: &Record) -> (out: String)
        ensures
            out@ == record.message@,
    {
        record.message.clone()
    }

    fn settings(&self) -> (out: Option<Json>)
        ensures
            out is None,
    {
        None
    }
}

pub struct LevelPlaceHolderBuilder {}

impl PlaceholderBuilder<DynPlaceholder> for LevelPlaceHolderBuilder {
    open spec fn answers_to(&self, name: Seq<char>) -> bool {
        name == "level"@
    }

    /// Whatever the settings, the builder makes a placeholder that renders
    /// every record as the upper-case name of its level and has no settings
    /// to show.
    open spec fn builds(&self, value: Option<Json>, out: Result<DynPlaceholder, Error>) -> bool {
        &&& out is Ok
        &&& forall|record: Record, text: Seq<char>| #[trigger]
            out->Ok_0.renders(record, text) <==> text == record.level.spec_name()
        &&& forall|kept: Option<Json>| #[trigger] out->Ok_0.keeps(kept) <==> kept is None
    }

    fn name(&self) -> (out: &'static str)
        ensures
            out@ == "level"@,
    {
        "level"
    }

    fn build(&self, _value: Option<Json>) -> (out: Result<DynPlaceholder, Error>) {
        Ok(Box::new(LevelPlaceHolder {  }))
    }
}

/// The settings of the level placeholder.
#[derive(Debug)]
pub struct LevelPlaceholderSettings {
    /// Whether the level is rendered for a file path.
    pub path: bool,
}

impl Default for LevelPlaceholderSettings {
    fn default() -> (out: Self)
        ensures
            !out.path,
    {
        LevelPlaceholderSettings { path: false }
    }
}

/// Renders the upper-case name of the level of the record.
#[derive(Debug)]
pub struct LevelPlaceHolder {}

impl Placeholder for LevelPlaceHolder {
    open spec fn renders(&self, record: Record, out: Seq<char>) -> bool {
        out == record.level.spec_name()
    }

    open spec fn keeps(&self, out: Option<Json>) -> bool {
        out is None
    }

    fn build_message(&self, record: &Record) -> (out: String)
        ensures
            out@ == record.level.spec_name(),
    {
        String::from_str(record.level.as_str())
    }

    fn settings(&self) -> (out: Option<Json>)
        ensures
            out is None,
    {
        None
    }
}

/// Whether settings ask for a rendering that is fit for a file path: they
/// are there and their member `path` is `true`.
pub open spec fn asks_for_path(value: Option<Json>) -> bool {
    value matches Some(settings) && settings@.get("path"@) == Some(JsonView::Bool(true))
}

/// Whether the settings ask for a rendering that is fit for a file path.
pub fn path_requested(value: &Option<Json>) -> (out: bool)
    ensures
        out == asks_for_path(*value),
{
    match value {
        Some(settings) => match settings.get("path") {
            Some(flag) => match flag.as_bool() {
                Some(path) => path,
                None => false,
            },
            None => false,
        },
        None => false,
    }
}

pub struct ModulePlaceHolderBuilder {}

/// What the module placeholder that was built from the settings `value`
/// renders a record as: the module path with `/` in place of every `::`
/// where the settings ask for a path, the module path as it is otherwise.
pub open spec fn module_rendering(value: Option<Json>, record: Record) -> Seq<char> {
    if asks_for_path(value) {
        joined(split_text(module_text(record), "::"@), '/')
    } else {
        module_text(record)
    }
}

impl PlaceholderBuilder<DynPlaceholder> for ModulePlaceHolderBuilder {
    open spec fn answers_to(&self, name: Seq<char>) -> bool {
        name == "module"@
    }

    /// The builder always succeeds. What it makes renders the module of every
    /// record as the settings ask and has no settings to show.
    open spec fn builds(&self, value: Option<Json>, out: Result<DynPlaceholder, Error>) -> bool {
        &&& out is Ok
        &&& forall|record: Record, text: Seq<char>| #[trigger]
            out->Ok_0.renders(record, text) <==> text == module_rendering(value, record)
        &&& forall|kept: Option<Json>| #[trigger] out->Ok_0.keeps(kept) <==> kept is None
    }

    fn name(&self) -> (out: &'static str)
        ensures
            out@ == "module"@,
    {
        "module"
    }

    /// Settings that ask for a path give the placeholder that renders the
    /// module as a path, with `/` between its segments; any others, and
    /// none, give the plain one.
    fn build(&self, value: Option<Json>) -> (out: Result<DynPlaceholder, Error>) {
        if path_requested(&value) {
            return Ok(Box::new(PathModulePlaceHolder { separator: '/' }));
        }
        Ok(Box::new(ModulePlaceHolder {  }))
    }
}

/// The text of the module of a record; empty where the record has none.
pub open spec fn module_text(record: Record) -> Seq<char> {
    match record.module {
        Some(module) => module@,
        None => Seq::empty(),
    }
}

/// Renders the module path of the record.
#[derive(Debug)]
pub struct ModulePlaceHolder {}

impl Placeholder for ModulePlaceHolder {
    open spec fn renders(&self, record: Record, out: Seq<char>) -> bool {
        out == module_text(record)
    }

    open spec fn keeps(&self, out: Option<Json>) -> bool {
        out is None
    }

    fn build_message(&self, record: &Record) -> (out: String)
        ensures
            out@ == module_text(*record),
    {
        match &record.module {
            Some(module) => module.clone(),
            None => String::new(),
        }
    }

    fn settings(&self) -> (out: Option<Json>)
        ensures
            out is None,
    {
        None
    }
}

/// Renders the module path of the record with `separator` in place of every
/// `::`, so that each segment becomes a directory.
#[derive(Debug)]
pub struct PathModulePlaceHolder {
    pub separator: char,
}

impl Placeholder for PathModulePlaceHolder {
    open spec fn renders(&self, record: Record, out: Seq<char>) -> bool {
        out == joined(split_text(module_text(record), "::"@), self.separator)
    }

    open spec fn keeps(&self, out: Option<Json>) -> bool {
        out is None
    }

    fn build_message(&self, record: &Record) -> (out: String)
        ensures
            out@ == joined(split_text(module_text(*record), "::"@), self.separator),
    {
        let segments = match &record.module {
            Some(module) => split(module.as_str(), "::"),
            None => split("", "::"),
        };
        proof {
            reveal_strlit("");
            assert(""@ =~= Seq::<char>::empty());
        }
        join_with(&segments, self.separator)
    }

    fn settings(&self) -> (out: Option<Json>)
        ensures
            out is None,
    {
        None
    }
}

/// The settings of the environment placeholder.
#[derive(Debug)]
pub struct EnvironmentPlaceholderSettings {
    /// The name of the environment variable.
    pub key: String,
    /// Whether the value is read once, when the placeholder is built, and
    /// kept.
    pub save: bool,
}

impl EnvironmentPlaceholderSettings {
    /// The settings that a value gives: an object whose member `key` is a
    /// text and whose member `save`, if it is there, is a flag. Without
    /// `save` the value is not kept.
    pub open spec fn reads(value: JsonView) -> Option<(Seq<char>, bool)> {
        match value.get("key"@) {
            Some(JsonView::Text(key)) => match value.get("save"@) {
                Some(JsonView::Bool(save)) => Some((key, save)),
                None => Some((key, false)),
                _ => None,
            },
            _ => None,
        }
    }

    /// Reads the settings of an environment placeholder, which must be
    /// there.
    pub fn from_json(value: &Option<Json>) -> (out: Result<EnvironmentPlaceholderSettings, Error>)
        ensures
            match out {
                Ok(settings) => value matches Some(given) && EnvironmentPlaceholderSettings::reads(
                    given@,
                ) == Some((settings.key@, settings.save)),
                Err(error) => error is ConfigError && !(value matches Some(given)
                    && EnvironmentPlaceholderSettings::reads(given@) is Some),
            },
    {
        let given = match value {
            Some(given) => given,
            None => {
                return Err(
                    Error::ConfigError(
                        String::from_str("Placeholder"),
                        String::from_str("Missing Placeholder config"),
                    ),
                );
            },
        };
        let key = match given.get("key") {
            Some(Json::Text(key)) => key.clone(),
            _ => {
                return Err(
                    Error::ConfigError(
                        String::from_str("Placeholder"),
                        String::from_str("missing field `key`"),
                    ),
                );
            },
        };
        let save = match given.get("save") {
            Some(Json::Bool(save)) => *save,
            None => false,
            _ => {
                return Err(
                    Error::ConfigError(
                        String::from_str("Placeholder"),
                        String::from_str("invalid type: expected a boolean"),
                    ),
                );
            },
        };
        Ok(EnvironmentPlaceholderSettings { key, save })
    }
}

/// Whether a character may not stand in a file name.
pub open spec fn unfit_for_file_name(c: char) -> bool {
    c == '/' || c == '?' || c == '<' || c == '>' || c == '\\' || c == ':' || c == '*' || c == '|'
        || c == '"'
}

/// Calls `sanitize_filename::sanitize`, which takes out of a name the
/// characters that no file name may hold and cuts the rest to 255 bytes. What
/// else it takes out depends on the machine.
#[verifier::external_body]
fn sanitize(name: &str) -> (out: String)
    ensures
        out@.len() <= 255,
        forall|i: int| 0 <= i < out@.len() ==> !unfit_for_file_name(#[trigger] out@[i]),
{
    sanitize_filename::sanitize(name)
}

/// Renders a value that was read from the environment when the placeholder
/// was built.
#[derive(Debug)]
pub struct SavedEnvVariable(pub String);

impl SavedEnvVariable {
    /// Keeps `value`; where it is to be rendered for a file path, what no
    /// file name may hold is taken out of it first.
    pub fn new(value: String, path_safe: bool) -> (out: SavedEnvVariable)
        ensures
            !path_safe ==> out.0@ == value@,
            path_safe ==> out.0@.len() <= 255 && forall|i: int|
                0 <= i < out.0@.len() ==> !unfit_for_file_name(#[trigger] out.0@[i]),
    {
        if path_safe {
            SavedEnvVariable(sanitize(value.as_str()))
        } else {
            SavedEnvVariable(value)
        }
    }
}

impl Placeholder for SavedEnvVariable {
    open spec fn renders(&self, record: Record, out: Seq<char>) -> bool {
        out == self.0@
    }

    open spec fn keeps(&self, out: Option<Json>) -> bool {
        out matches Some(settings) && EnvironmentPlaceholderSettings::reads(settings@) == Some(
            (self.0@, true),
        )
    }

    fn build_message(&self, _record: &Record) -> (out: String)
        ensures
            out@ == self.0@,
    {
        self.0.clone()
    }

    /// The settings that give this placeholder again: what it keeps, and
    /// that it is kept.
    fn settings(&self) -> (out: Option<Json>)
        ensures
            out matches Some(settings) && EnvironmentPlaceholderSettings::reads(settings@) == Some(
                (self.0@, true),
            ),
    {
        let mut members: Vec<Member> = Vec::new();
        members.push(Member { key: String::from_str("key"), value: Json::Text(self.0.clone()) });
        members.push(Member { key: String::from_str("save"), value: Json::Bool(true) });
        let settings = Json::Object(members);
        proof {
            reveal_strlit("key");
            reveal_strlit("save");
            assert("key"@.len() != "save"@.len());
            crate::value::lemma_entries(members@);
            crate::value::lemma_member_of_index(crate::value::entries(members@), "key"@, 0);
            crate::value::lemma_member_of_index(crate::value::entries(members@), "save"@, 1);
        }
        Some(settings)
    }
}

} // verus!
