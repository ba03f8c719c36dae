//! Templates: the compiler from a template text to its sections, and the
//! rendering of the sections against a record.
//!
//! A template is literal text with expressions between `{{` and `}}`. An
//! expression with a settings clause, `{{name(settings)}}`, calls the
//! placeholder registered as `name`; the clause is empty, an inline JSON
//! object, or the name of an entry in the settings table that comes with the
//! template. An expression without a clause is a variable: `{{ key }}` reads
//! the attribute `key` of the record, `{{ key.a.b }}` follows the path `a`,
//! `b` inside the structure of the attribute `key`.

use vstd::prelude::*;
use vstd::string::*;
use regex::Regex;
use crate::config::FormatConfig;
use crate::error::Error;
use crate::kv::Variable;
use crate::placeholder::{Placeholder, PlaceholderBuilder};
use crate::record::Record;
use crate::text::{braced, has_char, is_braced, same_text, split, split_text, texts, trim, trimmed};
use crate::value::{entries, json_document, member_of, Json, JsonView, Member};

verus! {

/// Why a template did not compile.
#[derive(Debug)]
pub enum FormatError {
    /// Settings that are no JSON object, or that a builder turned down.
    SettingParseError(String),
    /// A name that nothing is registered under.
    MissingKey(String),
}

impl FormatError {
    /// The text that the error prints as.
    pub open spec fn spec_message(&self) -> Seq<char> {
        match self {
            FormatError::SettingParseError(reason) => reason@,
            FormatError::MissingKey(name) => "Missing Key "@ + name@,
        }
    }

    /// The text that the error prints as.
    pub fn message(&self) -> (out: String)
        ensures
            out@ == self.spec_message(),
    {
        match self {
            FormatError::SettingParseError(reason) => reason.clone(),
            FormatError::MissingKey(name) => {
                let mut out = String::from_str("Missing Key ");
                out.append(name.as_str());
                out
            },
        }
    }
}

/// A compiled template: literal text and expressions in turn, starting and
/// ending with text, which may be empty.
pub struct Format<P> {
    pub format: Vec<FormatSection<P>>,
}

pub enum FormatSection<P> {
    /// Literal text.
    Text(String),
    /// A record attribute, read when the section is rendered.
    Variable(Variable),
    /// A placeholder, built when the template was compiled.
    Placeholder(P),
}

/// One expression of a template as the scanner read it: the text before the
/// settings clause, whether there is such a clause, and what stands between
/// its brackets.
#[derive(Debug)]
pub struct Expression {
    pub key: Option<String>,
    pub call: bool,
    pub settings: Option<String>,
}

pub struct ExpressionView {
    pub key: Option<Seq<char>>,
    pub call: bool,
    pub settings: Option<Seq<char>>,
}

impl View for Expression {
    type V = ExpressionView;

    open spec fn view(&self) -> ExpressionView {
        ExpressionView {
            key: match self.key {
                Some(key) => Some(key@),
                None => None,
            },
            call: self.call,
            settings: match self.settings {
                Some(settings) => Some(settings@),
                None => None,
            },
        }
    }
}

/// The views of a list of expressions.
pub open spec fn expression_views(expressions: Seq<Expression>) -> Seq<ExpressionView> {
    expressions.map_values(|e: Expression| e@)
}

/// The pattern of an expression: `{{`, a key, an optional settings clause in
/// round brackets, and `}}`. The key and the settings are as short as they
/// can be, and a clause without settings is read as such.
pub const EXPRESSION: &'static str =
    "\\{\\{(?P<key>.+?)(?P<PlaceHolder>[(](?P<settings>.+?)??[)])?}}+";

/// The group of the pattern that holds the key of an expression.
pub const KEY: &'static str = "key";

/// The group of the pattern that holds the settings clause with its
/// brackets.
pub const CLAUSE: &'static str = "PlaceHolder";

/// The group of the pattern that holds what stands between the brackets.
pub const SETTINGS: &'static str = "settings";

/// What stands before, between and after the matches of the regular
/// expression `pattern` in `text`; none where `pattern` is no regular
/// expression.
pub uninterp spec fn pattern_texts(pattern: Seq<char>, text: Seq<char>) -> Option<Seq<Seq<char>>>;

/// The matches of the regular expression `pattern` in `text`, in order: of
/// each, what its group `key` holds, whether its group `clause` took part,
/// and what its group `settings` holds. None where `pattern` is no regular
/// expression.
pub uninterp spec fn pattern_matches(
    pattern: Seq<char>,
    key: Seq<char>,
    clause: Seq<char>,
    settings: Seq<char>,
    text: Seq<char>,
) -> Option<Seq<ExpressionView>>;

/// Splits a text with `Regex::new` and `Regex::split`, which hands out the
/// parts of the text that no match covers. The pattern of an expression is
/// a regular expression.
#[verifier::external_body]
fn split_by(pattern: &str, text: &str) -> (out: Option<Vec<String>>)
    ensures
        match out {
            Some(pieces) => pattern_texts(pattern@, text@) == Some(texts(pieces@)),
            None => pattern_texts(pattern@, text@) is None,
        },
        pattern@ == EXPRESSION@ ==> out is Some,
{
    let scanner = Regex::new(pattern).ok()?;
    Some(scanner.split(text).map(|piece| piece.to_string()).collect())
}

/// Reads the matches in a text with `Regex::new` and `Regex::captures_iter`,
/// which hands out the successive matches; of each, the three named groups
/// are kept. There is one match less than there are parts of the text that
/// no match covers.
#[verifier::external_body]
fn matches_of(pattern: &str, key: &str, clause: &str, settings: &str, text: &str) -> (out: Option<
    Vec<Expression>,
>)
    ensures
        match out {
            Some(found) => pattern_matches(pattern@, key@, clause@, settings@, text@) == Some(
                expression_views(found@),
            ) && pattern_texts(pattern@, text@) is Some && pattern_texts(pattern@, text@)->0.len()
                == found@.len() + 1,
            None => pattern_matches(pattern@, key@, clause@, settings@, text@) is None,
        },
        pattern@ == EXPRESSION@ ==> out is Some,
{
    let scanner = Regex::new(pattern).ok()?;
    Some(scanner.captures_iter(text).map(|found| Expression {
        key: found.name(key).map(|part| part.as_str().to_string()),
        call: found.name(clause).is_some(),
        settings: found.name(settings).map(|part| part.as_str().to_string()),
    }).collect())
}

/// The literal texts of a template: what stands before, between and after
/// its expressions.
pub open spec fn template_texts(template: Seq<char>) -> Seq<Seq<char>> {
    match pattern_texts(EXPRESSION@, template) {
        Some(pieces) => pieces,
        None => seq![template],
    }
}

/// The expressions of a template, in order.
pub open spec fn template_expressions(template: Seq<char>) -> Seq<ExpressionView> {
    match pattern_matches(EXPRESSION@, KEY@, CLAUSE@, SETTINGS@, template) {
        Some(found) => found,
        None => Seq::empty(),
    }
}

/// Scans a template: its literal texts and the expressions between them.
pub fn scan(template: &str) -> (out: (Vec<String>, Vec<Expression>))
    ensures
        texts(out.0@) == template_texts(template@),
        expression_views(out.1@) == template_expressions(template@),
        out.0@.len() == out.1@.len() + 1,
{
    let pieces = match split_by(EXPRESSION, template) {
        Some(pieces) => pieces,
        None => unreached(),
    };
    let expressions = match matches_of(EXPRESSION, KEY, CLAUSE, SETTINGS, template) {
        Some(expressions) => expressions,
        None => unreached(),
    };
    (pieces, expressions)
}

/// Where a settings clause takes its settings from: its own text when that is
/// an inline object, the settings table otherwise.
pub open spec fn settings_source(text: Seq<char>, named: Seq<(Seq<char>, JsonView)>) -> Option<
    JsonView,
> {
    if braced(text) {
        json_document(text)
    } else {
        member_of(named, text)
    }
}

/// Whether a settings clause resolves: its source is there and is an object.
pub open spec fn settings_resolve(text: Seq<char>, named: Seq<(Seq<char>, JsonView)>) -> bool {
    settings_source(text, named) matches Some(found) && found is Object
}

/// `out` is `settings` with the member `path` set to `path_safe`.
pub open spec fn with_path(settings: JsonView, path_safe: bool, out: JsonView) -> bool {
    out == settings.with_member("path"@, JsonView::Bool(path_safe))
}

/// The error of a settings clause that does not resolve: a missing key where
/// the clause names an entry that the table lacks; a parse error otherwise,
/// with the parser's message for an inline object that is not well formed.
pub open spec fn settings_error(
    text: Seq<char>,
    named: Seq<(Seq<char>, JsonView)>,
    error: FormatError,
) -> bool {
    if !braced(text) && member_of(named, text) is None {
        error matches FormatError::MissingKey(name) && name@ == "Missing Setting for "@ + text
    } else if settings_source(text, named) is Some {
        error matches FormatError::SettingParseError(reason) && reason@
            == "Settings are not an object"@
    } else {
        error is SettingParseError
    }
}

/// Resolves a settings clause and marks the settings with `path_safe`.
pub fn resolve_settings(text: &str, named: &Vec<Member>, path_safe: bool) -> (out: Result<
    Json,
    FormatError,
>)
    ensures
        out is Ok <==> settings_resolve(text@, entries(named@)),
        out matches Ok(settings) ==> with_path(
            settings_source(text@, entries(named@))->0,
            path_safe,
            settings@,
        ),
        out matches Err(error) ==> settings_error(text@, entries(named@), error),
{
    let found = if is_braced(text) {
        match Json::parse(text) {
            Ok(value) => value,
            Err(reason) => {
                return Err(FormatError::SettingParseError(reason));
            },
        }
    } else {
        match find_setting(named, text) {
            Some(value) => value.copy(),
            None => {
                let mut name = String::from_str("Missing Setting for ");
                name.append(text);
                return Err(FormatError::MissingKey(name));
            },
        }
    };
    if !found.is_object() {
        return Err(FormatError::SettingParseError(String::from_str("Settings are not an object")));
    }
    Ok(found.with_member(String::from_str("path"), Json::Bool(path_safe)))
}

/// The first entry of the settings table under `name`.
pub fn find_setting<'a>(named: &'a Vec<Member>, name: &str) -> (out: Option<&'a Json>)
    ensures
        match out {
            Some(found) => member_of(entries(named@), name@) == Some(found@),
            None => member_of(entries(named@), name@) is None,
        },
{
    proof {
        crate::value::lemma_entries(named@);
    }
    let mut i: usize = 0;
    while i < named.len()
        invariant
            i <= named.len(),
            entries(named@).len() == named@.len(),
            forall|j: int|
                0 <= j < named@.len() ==> (#[trigger] entries(named@)[j]) == (
                    named@[j].key@,
                    named@[j].value@,
                ),
            forall|j: int| 0 <= j < i ==> named@[j].key@ != name@,
        decreases named.len() - i,
    {
        if same_text(named[i].key.as_str(), name) {
            proof {
                crate::value::lemma_member_of_index(entries(named@), name@, i as int);
            }
            return Some(&named[i].value);
        }
        i += 1;
    }
    proof {
        crate::value::lemma_member_of_absent(entries(named@), name@);
    }
    None
}

/// `index` is the first place where `names` holds `key`.
pub open spec fn first_index(names: Seq<Seq<char>>, key: Seq<char>, index: int) -> bool {
    &&& 0 <= index < names.len()
    &&& names[index] == key
    &&& forall|j: int| 0 <= j < index ==> names[j] != key
}

/// Searches the names of a registry for `key`; the first match wins.
pub fn find_name(names: &Vec<String>, key: &str) -> (out: Option<usize>)
    ensures
        match out {
            Some(index) => first_index(texts(names@), key@, index as int),
            None => !texts(names@).contains(key@),
        },
{
    let mut i: usize = 0;
    while i < names.len()
        invariant
            i <= names.len(),
            forall|j: int| 0 <= j < i ==> texts(names@)[j] != key@,
        decreases names.len() - i,
    {
        if same_text(names[i].as_str(), key) {
            return Some(i);
        }
        i += 1;
    }
    None
}

/// `variable` is what the expression text `key` names: a path variable when
/// the text holds a dot, with the trimmed text split at its dots into the
/// attribute key and the path; the trimmed text as a key otherwise.
pub open spec fn names_variable(key: Seq<char>, variable: Variable) -> bool {
    if key.contains('.') {
        variable matches Variable::PathVariable(top, path) && top@ == split_text(
            trimmed(key),
            "."@,
        )[0] && texts(path@) == split_text(trimmed(key), "."@).skip(1)
    } else {
        variable matches Variable::SinglePartVariable(name) && name@ == trimmed(key)
    }
}

/// The variable that an expression without a settings clause names.
pub fn variable_for(key: &str) -> (out: Variable)
    ensures
        names_variable(key@, out),
{
    if has_char(key, '.') {
        let short = trim(key);
        let mut parts = split(short.as_str(), ".");
        let ghost all = texts(parts@);
        let top = parts.remove(0);
        assert(texts(parts@) =~= all.skip(1));
        Variable::PathVariable(top, parts)
    } else {
        Variable::SinglePartVariable(trim(key))
    }
}

/// Whether compiling an expression fails: it has no key, or it is a call
/// whose settings clause does not resolve or whose name is not registered.
pub open spec fn expression_fails(
    e: ExpressionView,
    names: Seq<Seq<char>>,
    named: Seq<(Seq<char>, JsonView)>,
) -> bool {
    e.key is None || (e.call && ((e.settings matches Some(text) && !settings_resolve(text, named))
        || !names.contains(e.key->0)))
}

/// The error of an expression that fails. The settings clause is looked at
/// before the name.
pub open spec fn expression_error(
    e: ExpressionView,
    names: Seq<Seq<char>>,
    named: Seq<(Seq<char>, JsonView)>,
    error: FormatError,
) -> bool {
    if e.key is None {
        error matches FormatError::MissingKey(name) && name@ == "Missing Key"@
    } else if e.settings is Some && !settings_resolve(e.settings->0, named) {
        settings_error(e.settings->0, named, error)
    } else {
        error matches FormatError::MissingKey(name) && name@ == "Missing Placeholder "@ + e.key->0
    }
}

/// The settings that a call hands to its builder: none for an empty clause,
/// the resolved settings with the `path` mark otherwise.
pub open spec fn settings_given(
    clause: Option<Seq<char>>,
    named: Seq<(Seq<char>, JsonView)>,
    path_safe: bool,
    settings: Option<Json>,
) -> bool {
    match clause {
        None => settings is None,
        Some(text) => settings matches Some(given) && with_path(
            settings_source(text, named)->0,
            path_safe,
            given@,
        ),
    }
}

/// What an expression compiles to, before any builder is called.
pub enum Planned {
    /// A variable section.
    Variable(Variable),
    /// A call of the builder at this index of the registry, with these
    /// settings.
    Placeholder(usize, Option<Json>),
}

/// Decides what one expression compiles to, given the names of the registry
/// and the settings table.
pub fn plan(expression: &Expression, names: &Vec<String>, named: &Vec<Member>, path_safe: bool) -> (out:
    Result<Planned, FormatError>)
    ensures
        out is Err <==> expression_fails(expression@, texts(names@), entries(named@)),
        out matches Err(error) ==> expression_error(
            expression@,
            texts(names@),
            entries(named@),
            error,
        ),
        out matches Ok(Planned::Variable(variable)) ==> !expression@.call && names_variable(
            expression@.key->0,
            variable,
        ),
        out matches Ok(Planned::Placeholder(index, settings)) ==> expression@.call && first_index(
            texts(names@),
            expression@.key->0,
            index as int,
        ) && settings_given(expression@.settings, entries(named@), path_safe, settings),
{
    let key = match &expression.key {
        Some(key) => key,
        None => {
            return Err(FormatError::MissingKey(String::from_str("Missing Key")));
        },
    };
    if expression.call {
        let settings = match &expression.settings {
            Some(text) => match resolve_settings(text.as_str(), named, path_safe) {
                Ok(settings) => Some(settings),
                Err(error) => {
                    return Err(error);
                },
            },
            None => None,
        };
        match find_name(names, key.as_str()) {
            Some(index) => Ok(Planned::Placeholder(index, settings)),
            None => {
                let mut name = String::from_str("Missing Placeholder ");
                name.append(key.as_str());
                Err(FormatError::MissingKey(name))
            },
        }
    } else {
        Ok(Planned::Variable(variable_for(key.as_str())))
    }
}

/// What a section renders as against a record: literal text as it is, a
/// variable as the value of the attribute, a placeholder as what it says it
/// renders.
pub open spec fn section_renders<P: Placeholder>(
    section: FormatSection<P>,
    record: Record,
    out: Seq<char>,
) -> bool {
    match section {
        FormatSection::Text(text) => out == text@,
        FormatSection::Variable(variable) => out == variable.spec_value(record.key_values@),
        FormatSection::Placeholder(placeholder) => placeholder.renders(record, out),
    }
}

/// Whether `out` may be what compiling the call `e` gives: the answer of the
/// first builder under the name of the call to the settings of the call.
pub open spec fn call_built<P: Placeholder, B: PlaceholderBuilder<P>>(
    builders: Seq<B>,
    e: ExpressionView,
    names: Seq<Seq<char>>,
    named: Seq<(Seq<char>, JsonView)>,
    path_safe: bool,
    out: Result<P, Error>,
) -> bool {
    exists|index: int, settings: Option<Json>|
        first_index(names, e.key->0, index) && index < builders.len() && settings_given(
            e.settings,
            named,
            path_safe,
            settings,
        ) && #[trigger] builders[index].builds(settings, out)
}

/// Whether a section is what the expression `e` compiles to: the variable
/// that it names, or the placeholder that its builder built.
pub open spec fn section_reads<P: Placeholder, B: PlaceholderBuilder<P>>(
    builders: Seq<B>,
    section: FormatSection<P>,
    e: ExpressionView,
    names: Seq<Seq<char>>,
    named: Seq<(Seq<char>, JsonView)>,
    path_safe: bool,
) -> bool {
    if e.call {
        section matches FormatSection::Placeholder(placeholder) && call_built(
            builders,
            e,
            names,
            named,
            path_safe,
            Ok(placeholder),
        )
    } else {
        section matches FormatSection::Variable(variable) && e.key is Some && names_variable(
            e.key->0,
            variable,
        )
    }
}

/// Whether `error` is the error that compiling the expression `e` ends in:
/// its own error where it fails, and else the refusal of the builder that it
/// calls, with the message of the refusal as the reason.
pub open spec fn explains<P: Placeholder, B: PlaceholderBuilder<P>>(
    builders: Seq<B>,
    e: ExpressionView,
    names: Seq<Seq<char>>,
    named: Seq<(Seq<char>, JsonView)>,
    path_safe: bool,
    error: FormatError,
) -> bool {
    if expression_fails(e, names, named) {
        expression_error(e, names, named, error)
    } else {
        e.call && error is SettingParseError && exists|refusal: Error|
            #[trigger] call_built::<P, B>(builders, e, names, named, path_safe, Err(refusal))
                && error->SettingParseError_0@ == refusal.spec_message()
    }
}

/// All of `fragments`, one after the other.
pub open spec fn concat(fragments: Seq<Seq<char>>) -> Seq<char>
    decreases fragments.len(),
{
    if fragments.len() == 0 {
        Seq::empty()
    } else {
        concat(fragments.drop_last()) + fragments.last()
    }
}

impl<P: Placeholder> FormatSection<P> {
    /// Renders the section against a record.
    pub fn render(&self, record: &Record) -> (out: String)
        ensures
            section_renders(*self, *record, out@),
    {
        match self {
            FormatSection::Text(text) => text.clone(),
            FormatSection::Variable(variable) => variable.get_value(&record.key_values),
            FormatSection::Placeholder(placeholder) => placeholder.build_message(record),
        }
    }
}

impl<P: Placeholder> Format<P> {
    /// Text and expressions take turns, and text comes first and last.
    pub open spec fn well_formed(&self) -> bool {
        &&& self.format@.len() % 2 == 1
        &&& forall|k: int|
            0 <= k < self.format@.len() ==> (k % 2 == 0 <==> (#[trigger] self.format@[k]) is Text)
    }

    /// The sections are the literal texts `pieces` with the expressions
    /// `expressions` between them, each compiled.
    pub open spec fn compiled_from<B: PlaceholderBuilder<P>>(
        &self,
        builders: Seq<B>,
        pieces: Seq<Seq<char>>,
        expressions: Seq<ExpressionView>,
        names: Seq<Seq<char>>,
        named: Seq<(Seq<char>, JsonView)>,
        path_safe: bool,
    ) -> bool {
        &&& pieces.len() == expressions.len() + 1
        &&& self.format@.len() == pieces.len() + expressions.len()
        &&& forall|k: int|
            0 <= k < self.format@.len() ==> if k % 2 == 0 {
                (#[trigger] self.format@[k]) matches FormatSection::Text(text) && text@
                    == pieces[k / 2]
            } else {
                !(self.format@[k] is Text) && section_reads(
                    builders,
                    self.format@[k],
                    expressions[k / 2],
                    names,
                    named,
                    path_safe,
                )
            }
    }

    /// `fragments` are renderings of the sections, one each and in order.
    pub open spec fn renders(&self, record: Record, fragments: Seq<Seq<char>>) -> bool {
        &&& fragments.len() == self.format@.len()
        &&& forall|k: int|
            0 <= k < fragments.len() ==> section_renders(
                self.format@[k],
                record,
                #[trigger] fragments[k],
            )
    }

    /// Renders every section against the record, in order.
    pub fn fragments(&self, record: &Record) -> (out: Vec<String>)
        ensures
            self.renders(*record, texts(out@)),
    {
        let mut out: Vec<String> = Vec::new();
        let mut i: usize = 0;
        while i < self.format.len()
            invariant
                i <= self.format.len(),
                out@.len() == i,
                forall|k: int|
                    0 <= k < i ==> section_renders(
                        self.format@[k],
                        *record,
                        #[trigger] texts(out@)[k],
                    ),
            decreases self.format.len() - i,
        {
            let fragment = self.format[i].render(record);
            let ghost before = texts(out@);
            out.push(fragment);
            assert(texts(out@) =~= before.push(fragment@));
            i += 1;
        }
        out
    }

    /// The rendered message: the renderings of all sections, concatenated in
    /// order.
    pub fn render(&self, record: &Record) -> (out: String)
        ensures
            exists|fragments: Seq<Seq<char>>|
                self.renders(*record, fragments) && out@ == concat(fragments),
    {
        let fragments = self.fragments(record);
        let out = join(&fragments);
        assert(self.renders(*record, texts(fragments@)) && out@ == concat(texts(fragments@)));
        out
    }

    /// Compiles a template against a registry of placeholder builders.
    /// `path_safe` tells the placeholders whether what they render must be
    /// fit for a file name; it is handed on as the `path` member of their
    /// settings. Every builder is asked for its name first, and the template
    /// is compiled against those names.
    pub fn new<B: PlaceholderBuilder<P>>(placeholders: &[B], format: FormatConfig, path_safe: bool) -> (out:
        Result<Format<P>, FormatError>)
        ensures
            format_made(
                placeholders@,
                format.format@,
                entries(format.placeholders@),
                path_safe,
                out,
            ),
            out matches Ok(compiled) ==> compiled.well_formed(),
    {
        let names = builder_names(placeholders);
        let ghost template = format.format@;
        let ghost named = entries(format.placeholders@);
        let out = Format::<P>::with_names(placeholders, &names, format, path_safe);
        assert(answer(placeholders@, texts(names@)) && compiles(
            placeholders@,
            template,
            texts(names@),
            named,
            path_safe,
            out,
        ));
        out
    }

    /// Compiles a template against a registry whose builders answer to
    /// `names`, index by index.
    pub fn with_names<B: PlaceholderBuilder<P>>(
        placeholders: &[B],
        names: &Vec<String>,
        format: FormatConfig,
        path_safe: bool,
    ) -> (out: Result<Format<P>, FormatError>)
        requires
            names@.len() == placeholders@.len(),
        ensures
            compiles(
                placeholders@,
                format.format@,
                texts(names@),
                entries(format.placeholders@),
                path_safe,
                out,
            ),
            out matches Ok(compiled) ==> compiled.well_formed(),
    {
        let (pieces, expressions) = scan(format.format.as_str());
        Format::<P>::assemble(
            placeholders,
            names,
            &pieces,
            &expressions,
            &format.placeholders,
            path_safe,
        )
    }

    /// Puts a format together from the literal texts of a template and the
    /// expressions between them, compiling each expression in turn. The
    /// first expression that fails and the first builder that refuses end it
    /// with their error.
    pub fn assemble<B: PlaceholderBuilder<P>>(
        placeholders: &[B],
        names: &Vec<String>,
        pieces: &Vec<String>,
        expressions: &Vec<Expression>,
        named: &Vec<Member>,
        path_safe: bool,
    ) -> (out: Result<Format<P>, FormatError>)
        requires
            names@.len() == placeholders@.len(),
            pieces@.len() == expressions@.len() + 1,
        ensures
            assembles(
                placeholders@,
                texts(pieces@),
                expression_views(expressions@),
                texts(names@),
                entries(named@),
                path_safe,
                out,
            ),
            out matches Ok(compiled) ==> compiled.well_formed(),
    {
        let ghost all = expression_views(expressions@);
        let ghost known = texts(names@);
        let ghost table = entries(named@);
        let ghost builders = placeholders@;
        let mut sections: Vec<FormatSection<P>> = Vec::new();
        let mut i: usize = 0;
        while i < expressions.len()
            invariant
                i <= expressions.len(),
                names@.len() == placeholders@.len(),
                builders == placeholders@,
                known == texts(names@),
                table == entries(named@),
                all == expression_views(expressions@),
                pieces@.len() == expressions@.len() + 1,
                sections@.len() == 2 * i,
                forall|k: int|
                    0 <= k < sections@.len() ==> if k % 2 == 0 {
                        (#[trigger] sections@[k]) matches FormatSection::Text(text) && text@
                            == texts(pieces@)[k / 2]
                    } else {
                        !(sections@[k] is Text) && section_reads(
                            builders,
                            sections@[k],
                            all[k / 2],
                            known,
                            table,
                            path_safe,
                        )
                    },
                forall|j: int| 0 <= j < i ==> !expression_fails(#[trigger] all[j], known, table),
            decreases expressions.len() - i,
        {
            assert(all[i as int] == expressions@[i as int]@);
            assert(texts(pieces@)[i as int] == pieces@[i as int]@);
            let text: FormatSection<P> = FormatSection::Text(pieces[i].clone());
            let section = match plan(&expressions[i], names, named, path_safe) {
                Err(error) => {
                    let out = Err(error);
                    assert(assembles(builders, texts(pieces@), all, known, table, path_safe, out))
                        by {
                        assert(expression_fails(all[i as int], known, table));
                        assert(explains(builders, all[i as int], known, table, path_safe, error));
                    }
                    return out;
                },
                Ok(Planned::Variable(variable)) => FormatSection::Variable(variable),
                Ok(Planned::Placeholder(index, settings)) => {
                    let ghost given = settings;
                    match placeholders[index].build(settings) {
                        Ok(placeholder) => {
                            assert(call_built(
                                builders,
                                all[i as int],
                                known,
                                table,
                                path_safe,
                                Ok::<P, Error>(placeholder),
                            )) by {
                                assert(builders[index as int].builds(
                                    given,
                                    Ok::<P, Error>(placeholder),
                                ));
                            }
                            FormatSection::Placeholder(placeholder)
                        },
                        Err(refusal) => {
                            let out = Err(FormatError::SettingParseError(refusal.message()));
                            assert(assembles(
                                builders,
                                texts(pieces@),
                                all,
                                known,
                                table,
                                path_safe,
                                out,
                            )) by {
                                assert(all[i as int].call);
                                assert(call_built(
                                    builders,
                                    all[i as int],
                                    known,
                                    table,
                                    path_safe,
                                    Err::<P, Error>(refusal),
                                )) by {
                                    assert(builders[index as int].builds(
                                        given,
                                        Err::<P, Error>(refusal),
                                    ));
                                }
                                assert(explains(
                                    builders,
                                    all[i as int],
                                    known,
                                    table,
                                    path_safe,
                                    out->Err_0,
                                ));
                            }
                            return out;
                        },
                    }
                },
            };
            let ghost before = sections@;
            sections.push(text);
            sections.push(section);
            assert(sections@ =~= before.push(text).push(section));
            i += 1;
        }
        assert(texts(pieces@)[i as int] == pieces@[i as int]@);
        sections.push(FormatSection::Text(pieces[i].clone()));
        let out = Format { format: sections };
        assert(out.compiled_from(builders, texts(pieces@), all, known, table, path_safe));
        assert(out.well_formed());
        Ok(out)
    }
}

/// Whether the builders of a registry may answer to `names`, index by
/// index.
pub open spec fn answer<P: Placeholder, B: PlaceholderBuilder<P>>(
    builders: Seq<B>,
    names: Seq<Seq<char>>,
) -> bool {
    names.len() == builders.len() && forall|j: int|
        0 <= j < names.len() ==> (#[trigger] builders[j]).answers_to(names[j])
}

/// Asks every builder of a registry for its name.
pub fn builder_names<P: Placeholder, B: PlaceholderBuilder<P>>(placeholders: &[B]) -> (out: Vec<
    String,
>)
    ensures
        answer(placeholders@, texts(out@)),
{
    let mut names: Vec<String> = Vec::new();
    let mut i: usize = 0;
    while i < placeholders.len()
        invariant
            i <= placeholders@.len(),
            names@.len() == i,
            forall|j: int|
                0 <= j < i ==> (#[trigger] placeholders@[j]).answers_to(texts(names@)[j]),
        decreases placeholders@.len() - i,
    {
        let name = String::from_str(placeholders[i].name());
        let ghost before = texts(names@);
        names.push(name);
        assert(texts(names@) =~= before.push(name@));
        i += 1;
    }
    names
}

/// Whether every expression of a template is a variable.
pub open spec fn only_variables(template: Seq<char>) -> bool {
    forall|i: int|
        0 <= i < template_expressions(template).len() ==> (#[trigger] template_expressions(
            template,
        )[i]).key is Some && !template_expressions(template)[i].call
}

/// What putting a format together gives, for the literal texts `pieces`, the
/// expressions `expressions` between them, the registry `builders`, which
/// answers to `names`, and the settings table `named`.
///
/// Success gives the literal texts with the compiled expressions between
/// them: each variable as it is named, each call as the placeholder that the
/// first builder of its name built from its settings. It is there only if no
/// expression fails. An error is that of the first expression that fails or
/// whose builder refuses: the expression's own error, or the message of the
/// refusal. So success is owed wherever no expression fails and no builder
/// that is called may refuse.
pub open spec fn assembles<P: Placeholder, B: PlaceholderBuilder<P>>(
    builders: Seq<B>,
    pieces: Seq<Seq<char>>,
    expressions: Seq<ExpressionView>,
    names: Seq<Seq<char>>,
    named: Seq<(Seq<char>, JsonView)>,
    path_safe: bool,
    out: Result<Format<P>, FormatError>,
) -> bool {
    &&& out matches Ok(format) ==> format.compiled_from(
        builders,
        pieces,
        expressions,
        names,
        named,
        path_safe,
    ) && forall|i: int|
        0 <= i < expressions.len() ==> !expression_fails(#[trigger] expressions[i], names, named)
    &&& out matches Err(error) ==> exists|i: int|
        0 <= i < expressions.len() && (forall|j: int|
            0 <= j < i ==> !expression_fails(#[trigger] expressions[j], names, named))
            && #[trigger] explains(builders, expressions[i], names, named, path_safe, error)
}

/// What compiling a template gives: what putting its literal texts and its
/// expressions together gives.
pub open spec fn compiles<P: Placeholder, B: PlaceholderBuilder<P>>(
    builders: Seq<B>,
    template: Seq<char>,
    names: Seq<Seq<char>>,
    named: Seq<(Seq<char>, JsonView)>,
    path_safe: bool,
    out: Result<Format<P>, FormatError>,
) -> bool {
    assembles(
        builders,
        template_texts(template),
        template_expressions(template),
        names,
        named,
        path_safe,
        out,
    )
}

/// What compiling a template gives against a registry of placeholder
/// builders that is asked for its names first.
pub open spec fn format_made<P: Placeholder, B: PlaceholderBuilder<P>>(
    builders: Seq<B>,
    template: Seq<char>,
    named: Seq<(Seq<char>, JsonView)>,
    path_safe: bool,
    out: Result<Format<P>, FormatError>,
) -> bool {
    exists|names: Seq<Seq<char>>|
        answer(builders, names) && #[trigger] compiles(
            builders,
            template,
            names,
            named,
            path_safe,
            out,
        )
}

/// Whether no builder may refuse the call `e`.
pub open spec fn never_refused<P: Placeholder, B: PlaceholderBuilder<P>>(
    builders: Seq<B>,
    e: ExpressionView,
    names: Seq<Seq<char>>,
    named: Seq<(Seq<char>, JsonView)>,
    path_safe: bool,
) -> bool {
    forall|refusal: Error|
        !#[trigger] call_built::<P, B>(builders, e, names, named, path_safe, Err(refusal))
}

/// Success is owed: where no expression fails and no builder that is called
/// may refuse, the format is put together. A template of text and variables
/// alone is such a one, whatever the registry.
pub proof fn lemma_success_is_owed<P: Placeholder, B: PlaceholderBuilder<P>>(
    builders: Seq<B>,
    pieces: Seq<Seq<char>>,
    expressions: Seq<ExpressionView>,
    names: Seq<Seq<char>>,
    named: Seq<(Seq<char>, JsonView)>,
    path_safe: bool,
    out: Result<Format<P>, FormatError>,
)
    requires
        assembles(builders, pieces, expressions, names, named, path_safe, out),
        forall|i: int|
            0 <= i < expressions.len() ==> !expression_fails(#[trigger] expressions[i], names, named)
                && (expressions[i].call ==> never_refused::<P, B>(
                builders,
                expressions[i],
                names,
                named,
                path_safe,
            )),
    ensures
        out is Ok,
{
}

/// A template of text and variables alone compiles against every registry.
pub proof fn lemma_variables_compile<P: Placeholder, B: PlaceholderBuilder<P>>(
    builders: Seq<B>,
    template: Seq<char>,
    names: Seq<Seq<char>>,
    named: Seq<(Seq<char>, JsonView)>,
    path_safe: bool,
    out: Result<Format<P>, FormatError>,
)
    requires
        compiles(builders, template, names, named, path_safe, out),
        only_variables(template),
    ensures
        out is Ok,
{
    let expressions = template_expressions(template);
    assert forall|i: int| 0 <= i < expressions.len() implies !expression_fails(
        #[trigger] expressions[i],
        names,
        named,
    ) && !expressions[i].call by {}
    lemma_success_is_owed(
        builders,
        template_texts(template),
        expressions,
        names,
        named,
        path_safe,
        out,
    );
}

/// What the section of a call renders: where every builder that may answer
/// the call builds a placeholder that renders a record as `rendering` says
/// for the settings it was given, the section renders every record so, for
/// the settings of the call.
pub proof fn lemma_call_renders<P: Placeholder, B: PlaceholderBuilder<P>>(
    builders: Seq<B>,
    section: FormatSection<P>,
    e: ExpressionView,
    names: Seq<Seq<char>>,
    named: Seq<(Seq<char>, JsonView)>,
    path_safe: bool,
    rendering: spec_fn(Option<Json>, Record) -> Seq<char>,
) -> (settings: Option<Json>)
    requires
        e.call,
        section_reads(builders, section, e, names, named, path_safe),
        forall|index: int, given: Option<Json>, built: Result<P, Error>|
            first_index(names, e.key->0, index) && #[trigger] builders[index].builds(given, built)
                ==> built is Ok && forall|r: Record, t: Seq<char>| #[trigger]
                built->Ok_0.renders(r, t) <==> t == rendering(given, r),
    ensures
        settings_given(e.settings, named, path_safe, settings),
        forall|r: Record, t: Seq<char>| #[trigger]
            section_renders(section, r, t) <==> t == rendering(settings, r),
{
    let placeholder = section->Placeholder_0;
    let (index, settings) = choose|index: int, settings: Option<Json>|
        first_index(names, e.key->0, index) && index < builders.len() && settings_given(
            e.settings,
            named,
            path_safe,
            settings,
        ) && #[trigger] builders[index].builds(settings, Ok::<P, Error>(placeholder));
    let built = Ok::<P, Error>(placeholder);
    assert(builders[index].builds(settings, built));
    assert forall|r: Record, t: Seq<char>| #[trigger]
        section_renders(section, r, t) <==> t == rendering(settings, r) by {
        assert(section_renders(section, r, t) == placeholder.renders(r, t));
        assert(built->Ok_0.renders(r, t) <==> t == rendering(settings, r));
    }
    settings
}

/// A template of text and variables alone compiles against every registry,
/// whatever names its builders give.
pub proof fn lemma_variables_are_made<P: Placeholder, B: PlaceholderBuilder<P>>(
    builders: Seq<B>,
    template: Seq<char>,
    named: Seq<(Seq<char>, JsonView)>,
    path_safe: bool,
    out: Result<Format<P>, FormatError>,
)
    requires
        format_made(builders, template, named, path_safe, out),
        only_variables(template),
    ensures
        out is Ok,
{
    let names = choose|names: Seq<Seq<char>>|
        answer(builders, names) && #[trigger] compiles(
            builders,
            template,
            names,
            named,
            path_safe,
            out,
        );
    lemma_variables_compile(builders, template, names, named, path_safe, out);
}

/// A template that calls a placeholder under a name that the registry does
/// not know never compiles. Where no expression before the call fails and no
/// builder called before it may refuse, and the settings clause of the call,
/// if it has one, resolves, the error is the missing key that names the
/// placeholder.
pub proof fn lemma_unregistered_placeholder_fails<P: Placeholder, B: PlaceholderBuilder<P>>(
    builders: Seq<B>,
    template: Seq<char>,
    names: Seq<Seq<char>>,
    named: Seq<(Seq<char>, JsonView)>,
    path_safe: bool,
    out: Result<Format<P>, FormatError>,
    k: int,
)
    requires
        compiles(builders, template, names, named, path_safe, out),
        0 <= k < template_expressions(template).len(),
        template_expressions(template)[k].call,
        template_expressions(template)[k].key matches Some(key) && !names.contains(key),
    ensures
        out is Err,
        ({
            let expressions = template_expressions(template);
            &&& forall|j: int|
                0 <= j < k ==> !expression_fails(#[trigger] expressions[j], names, named) && (
                expressions[j].call ==> never_refused::<P, B>(
                    builders,
                    expressions[j],
                    names,
                    named,
                    path_safe,
                ))
            &&& expressions[k].settings matches Some(text) ==> settings_resolve(text, named)
        }) ==> (out matches Err(FormatError::MissingKey(name)) && name@ == "Missing Placeholder "@
            + template_expressions(template)[k].key->0),
{
    let expressions = template_expressions(template);
    assert(expression_fails(expressions[k], names, named));
}

/// A compiled template begins and ends with literal text, and literal text
/// and expressions take turns in it.
pub proof fn lemma_compiled_is_well_formed<P: Placeholder, B: PlaceholderBuilder<P>>(
    format: Format<P>,
    builders: Seq<B>,
    pieces: Seq<Seq<char>>,
    expressions: Seq<ExpressionView>,
    names: Seq<Seq<char>>,
    named: Seq<(Seq<char>, JsonView)>,
    path_safe: bool,
)
    requires
        format.compiled_from(builders, pieces, expressions, names, named, path_safe),
    ensures
        format.well_formed(),
        format.format@.first() is Text,
        format.format@.last() is Text,
{
    assert(format.format@.first() == format.format@[0]);
    assert(format.format@.last() == format.format@[format.format@.len() - 1]);
}

/// Concatenates the fragments in order.
pub fn join(fragments: &Vec<String>) -> (out: String)
    ensures
        out@ == concat(texts(fragments@)),
{
    let mut out = String::new();
    let mut i: usize = 0;
    assert(texts(fragments@).take(0) =~= Seq::empty());
    while i < fragments.len()
        invariant
            i <= fragments.len(),
            out@ == concat(texts(fragments@).take(i as int)),
        decreases fragments.len() - i,
    {
        proof {
            let upto = texts(fragments@).take(i + 1);
            assert(upto.drop_last() =~= texts(fragments@).take(i as int));
            assert(upto.last() == fragments@[i as int]@);
        }
        out.append(fragments[i].as_str());
        i += 1;
    }
    assert(texts(fragments@).take(i as int) =~= texts(fragments@));
    out
}

} // verus!
