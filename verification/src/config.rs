//! The configuration that loggers are created from.

use vstd::prelude::*;
use vstd::string::*;
use crate::error::Error;
use crate::format::{find_name, first_index, format_made, Format, FormatError};
use crate::loggers::target::LoggerTargetBuilder;
use crate::loggers::Logger;
use crate::placeholder::{DynPlaceholder, Placeholder, PlaceholderBuilder};
use crate::loggers::target::DynTarget;
use crate::record::Level;
use crate::text::texts;
use crate::value::{copy_members, entries, Json, JsonView, Member};
use crate::LoggerBuilders;

verus! {

/// A template, with the settings that its placeholders may refer to by name.
#[derive(Debug)]
pub struct FormatConfig {
    pub format: String,
    /// Named settings; the first entry of a name is the one that counts.
    pub placeholders: Vec<Member>,
}

impl FormatConfig {
    /// The template and the named settings that a value gives: a text is a
    /// template without named settings; an object gives the template as its
    /// member `format` and the named settings as the members of its member
    /// `placeholders`. Anything else gives none.
    pub open spec fn reads(value: JsonView) -> Option<(Seq<char>, Seq<(Seq<char>, JsonView)>)> {
        match value {
            JsonView::Text(template) => Some((template, Seq::empty())),
            JsonView::Object(_) => match (value.get("format"@), value.get("placeholders"@)) {
                (Some(JsonView::Text(template)), Some(JsonView::Object(named))) => Some(
                    (template, named),
                ),
                _ => None,
            },
            _ => None,
        }
    }

    /// A template without named settings.
    pub fn new(format: String) -> (out: FormatConfig)
        ensures
            out.format == format,
            out.placeholders@.len() == 0,
    {
        FormatConfig { format, placeholders: Vec::new() }
    }

    /// Reads a template from a value that is a text or an object.
    pub fn from_json(value: &Json) -> (out: Option<FormatConfig>)
        ensures
            match out {
                Some(read) => FormatConfig::reads(value@) == Some(
                    (read.format@, entries(read.placeholders@)),
                ),
                None => FormatConfig::reads(value@) is None,
            },
    {
        match value {
            Json::Text(template) => {
                let read = FormatConfig { format: template.clone(), placeholders: Vec::new() };
                assert(entries(read.placeholders@) =~= Seq::empty());
                Some(read)
            },
            Json::Object(_) => {
                let template = match value.get("format") {
                    Some(Json::Text(template)) => template.clone(),
                    _ => {
                        return None;
                    },
                };
                match value.get("placeholders") {
                    Some(Json::Object(named)) => Some(
                        FormatConfig { format: template, placeholders: copy_members(named) },
                    ),
                    _ => None,
                }
            },
            _ => None,
        }
    }
}

/// Every level: what a logger accepts unless it says otherwise.
pub fn default_levels() -> (out: Vec<Level>)
    ensures
        out@ == seq![Level::Trace, Level::Info, Level::Debug, Level::Warn, Level::Error],
{
    let mut out: Vec<Level> = Vec::new();
    out.push(Level::Trace);
    out.push(Level::Info);
    out.push(Level::Debug);
    out.push(Level::Warn);
    out.push(Level::Error);
    out
}

/// The configuration of one target of a logger.
#[derive(Debug)]
pub struct TargetConfig {
    /// The name of the target type, such as `console` or `file_logger`.
    pub target_type: String,
    /// The properties of the target; what they hold depends on its type.
    pub properties: Json,
}

/// The configuration of one logger.
#[derive(Debug)]
pub struct LoggerConfig {
    /// The module path of the logger; none for a default logger.
    pub module: Option<String>,
    pub levels: Vec<Level>,
    pub targets: Vec<TargetConfig>,
    pub format: FormatConfig,
    pub structure_dump: bool,
    /// Whether the logger also applies to the modules below its own.
    pub always_execute: bool,
}

#[derive(Debug)]
pub struct Config {
    /// The loggers with a module.
    pub loggers: Vec<LoggerConfig>,
    /// The default loggers.
    pub root_loggers: Vec<LoggerConfig>,
}

/// Whether the builders of a target registry may answer to `names`, index
/// by index.
pub open spec fn targets_answer<
    P: Placeholder,
    B: PlaceholderBuilder<P>,
    T,
    TB: LoggerTargetBuilder<P, B, T>,
>(builders: Seq<TB>, names: Seq<Seq<char>>) -> bool {
    names.len() == builders.len() && forall|j: int|
        0 <= j < names.len() ==> (#[trigger] builders[j]).answers_to(names[j])
}

/// Asks every builder of a target registry for its name.
pub fn target_names<P: Placeholder, B: PlaceholderBuilder<P>, T, TB: LoggerTargetBuilder<P, B, T>>(
    builders: &[TB],
) -> (out: Vec<String>)
    ensures
        targets_answer(builders@, texts(out@)),
{
    let mut names: Vec<String> = Vec::new();
    let mut i: usize = 0;
    while i < builders.len()
        invariant
            i <= builders@.len(),
            names@.len() == i,
            forall|j: int| 0 <= j < i ==> (#[trigger] builders@[j]).answers_to(texts(names@)[j]),
        decreases builders@.len() - i,
    {
        let name = String::from_str(builders[i].name());
        let ghost before = texts(names@);
        names.push(name);
        assert(texts(names@) =~= before.push(name@));
        i += 1;
    }
    names
}

/// What creating one target gives, for a registry that answers to `names`:
/// the answer of the first builder under the type of the target to its
/// properties, and a configuration error that names the type where no
/// builder answers to it.
pub open spec fn target_made<
    P: Placeholder,
    B: PlaceholderBuilder<P>,
    T,
    TB: LoggerTargetBuilder<P, B, T>,
>(
    target: TargetConfig,
    names: Seq<Seq<char>>,
    builders: Seq<TB>,
    placeholders: Seq<B>,
    out: Result<T, Error>,
) -> bool {
    if names.contains(target.target_type@) {
        exists|index: int|
            first_index(names, target.target_type@, index) && index < builders.len()
                && #[trigger] builders[index].builds(target.properties, placeholders, out)
    } else {
        out is Err && out->Err_0 is ConfigError && out->Err_0->ConfigError_0@
            == target.target_type@ && out->Err_0->ConfigError_1@ == "unknown target type"@
    }
}

/// Creates one target: the first builder that answers to the type of the
/// target builds it from the properties. A type that no builder answers to
/// is a configuration error that names the type.
pub fn create_target<P: Placeholder, B: PlaceholderBuilder<P>, T, TB: LoggerTargetBuilder<P, B, T>>(
    target: TargetConfig,
    names: &Vec<String>,
    builders: &[TB],
    placeholders: &[B],
) -> (out: Result<T, Error>)
    requires
        names@.len() == builders@.len(),
    ensures
        target_made(target, texts(names@), builders@, placeholders@, out),
{
    match find_name(names, target.target_type.as_str()) {
        Some(index) => {
            let ghost properties = target.properties;
            let out = builders[index].build(target.properties, placeholders);
            assert(builders@[index as int].builds(properties, placeholders@, out));
            assert(texts(names@).contains(target.target_type@));
            out
        },
        None => Err(
            Error::ConfigError(target.target_type, String::from_str("unknown target type")),
        ),
    }
}

/// Whether the target `target` can be made: some target is what creating it
/// gives.
pub open spec fn target_can_be_made<
    P: Placeholder,
    B: PlaceholderBuilder<P>,
    T,
    TB: LoggerTargetBuilder<P, B, T>,
>(target: TargetConfig, names: Seq<Seq<char>>, builders: Seq<TB>, placeholders: Seq<B>) -> bool {
    exists|made: T|
        #[trigger] target_made(target, names, builders, placeholders, Ok::<T, Error>(made))
}

/// What creating the targets of a logger gives: each target made in turn,
/// or the error of the first that cannot be made.
pub open spec fn targets_made<
    P: Placeholder,
    B: PlaceholderBuilder<P>,
    T,
    TB: LoggerTargetBuilder<P, B, T>,
>(
    targets: Seq<TargetConfig>,
    names: Seq<Seq<char>>,
    builders: Seq<TB>,
    placeholders: Seq<B>,
    out: Result<Vec<T>, Error>,
) -> bool {
    &&& out matches Ok(made) ==> made@.len() == targets.len() && forall|k: int|
        0 <= k < targets.len() ==> target_made(
            targets[k],
            names,
            builders,
            placeholders,
            Ok::<T, Error>(#[trigger] made@[k]),
        )
    &&& out matches Err(error) ==> exists|k: int|
        0 <= k < targets.len() && (forall|j: int|
            0 <= j < k ==> target_can_be_made(#[trigger] targets[j], names, builders, placeholders))
            && #[trigger] target_made(
            targets[k],
            names,
            builders,
            placeholders,
            Err::<T, Error>(error),
        )
}

/// Creates the targets of one logger, in order.
pub fn create_targets<P: Placeholder, B: PlaceholderBuilder<P>, T, TB: LoggerTargetBuilder<P, B, T>>(
    targets: Vec<TargetConfig>,
    names: &Vec<String>,
    builders: &[TB],
    placeholders: &[B],
) -> (out: Result<Vec<T>, Error>)
    requires
        names@.len() == builders@.len(),
    ensures
        targets_made(targets@, texts(names@), builders@, placeholders@, out),
{
    let mut made: Vec<T> = Vec::new();
    let mut rest = targets;
    let ghost mut done: int = 0;
    while rest.len() > 0
        invariant
            names@.len() == builders@.len(),
            0 <= done <= targets@.len(),
            made@.len() == done,
            rest@ == targets@.skip(done),
            forall|k: int|
                0 <= k < done ==> target_made(
                    targets@[k],
                    texts(names@),
                    builders@,
                    placeholders@,
                    Ok::<T, Error>(#[trigger] made@[k]),
                ),
        decreases rest.len(),
    {
        let target = rest.remove(0);
        proof {
            assert(target == targets@[done]);
            assert(rest@ =~= targets@.skip(done + 1));
        }
        match create_target(target, names, builders, placeholders) {
            Ok(built) => {
                let ghost before = made@;
                made.push(built);
                assert(forall|k: int| 0 <= k < done ==> made@[k] == before[k]);
            },
            Err(error) => {
                proof {
                    assert forall|j: int| 0 <= j < done implies target_can_be_made(
                        #[trigger] targets@[j],
                        texts(names@),
                        builders@,
                        placeholders@,
                    ) by {
                        assert(target_made(
                            targets@[j],
                            texts(names@),
                            builders@,
                            placeholders@,
                            Ok::<T, Error>(made@[j]),
                        ));
                    }
                    assert(target_made(
                        targets@[done],
                        texts(names@),
                        builders@,
                        placeholders@,
                        Err::<T, Error>(error),
                    ));
                }
                return Err(error);
            },
        }
        proof {
            done = done + 1;
        }
    }
    Ok(made)
}

/// Whether `logger` is what the configuration `config` describes: the same
/// module, levels and flags, the configured targets, each made by the
/// registry of target builders, and the configured template, compiled
/// against the registry of placeholder builders for a message, not for a
/// file path.
pub open spec fn describes<
    P: Placeholder,
    B: PlaceholderBuilder<P>,
    T,
    TB: LoggerTargetBuilder<P, B, T>,
>(
    config: LoggerConfig,
    target_names: Seq<Seq<char>>,
    target_builders: Seq<TB>,
    placeholders: Seq<B>,
    logger: Logger<P, T>,
) -> bool {
    &&& logger.module == config.module
    &&& logger.levels == config.levels
    &&& logger.always_execute == config.always_execute
    &&& logger.structure_dump == config.structure_dump
    &&& targets_made(
        config.targets@,
        target_names,
        target_builders,
        placeholders,
        Ok::<Vec<T>, Error>(logger.targets),
    )
    &&& logger.format.well_formed()
    &&& format_made(
        placeholders,
        config.format.format@,
        entries(config.format.placeholders@),
        false,
        Ok::<Format<P>, FormatError>(logger.format),
    )
}

/// Whether `error` is what creating the logger of `config` ends in: the
/// error of the first target that cannot be made, or, with every target
/// made, the error of the template, as a format error.
pub open spec fn logger_fails<
    P: Placeholder,
    B: PlaceholderBuilder<P>,
    T,
    TB: LoggerTargetBuilder<P, B, T>,
>(
    config: LoggerConfig,
    target_names: Seq<Seq<char>>,
    target_builders: Seq<TB>,
    placeholders: Seq<B>,
    error: Error,
) -> bool {
    ||| targets_made(
        config.targets@,
        target_names,
        target_builders,
        placeholders,
        Err::<Vec<T>, Error>(error),
    )
    ||| (exists|targets: Vec<T>| #[trigger]
        targets_made(
            config.targets@,
            target_names,
            target_builders,
            placeholders,
            Ok::<Vec<T>, Error>(targets),
        )) && error is FormatGeneration && format_made(
        placeholders,
        config.format.format@,
        entries(config.format.placeholders@),
        false,
        Err::<Format<P>, FormatError>(error->FormatGeneration_0),
    )
}

/// Whether the logger of `config` can be created: some logger is what the
/// configuration describes.
pub open spec fn can_be_described<
    P: Placeholder,
    B: PlaceholderBuilder<P>,
    T,
    TB: LoggerTargetBuilder<P, B, T>,
>(
    config: LoggerConfig,
    target_names: Seq<Seq<char>>,
    target_builders: Seq<TB>,
    placeholders: Seq<B>,
) -> bool {
    exists|logger: Logger<P, T>| #[trigger]
        describes(config, target_names, target_builders, placeholders, logger)
}

/// What creating the loggers of a list of configurations gives: the logger
/// that each describes, in order, or the error of the first that cannot be
/// created. With an error no logger is handed out.
pub open spec fn loggers_made<
    P: Placeholder,
    B: PlaceholderBuilder<P>,
    T,
    TB: LoggerTargetBuilder<P, B, T>,
>(
    configs: Seq<LoggerConfig>,
    target_names: Seq<Seq<char>>,
    target_builders: Seq<TB>,
    placeholders: Seq<B>,
    out: Result<Vec<Logger<P, T>>, Error>,
) -> bool {
    &&& out matches Ok(made) ==> made@.len() == configs.len() && forall|i: int|
        0 <= i < configs.len() ==> describes(
            configs[i],
            target_names,
            target_builders,
            placeholders,
            #[trigger] made@[i],
        )
    &&& out matches Err(error) ==> exists|i: int|
        0 <= i < configs.len() && (forall|j: int|
            0 <= j < i ==> can_be_described::<P, B, T, TB>(
                #[trigger] configs[j],
                target_names,
                target_builders,
                placeholders,
            )) && #[trigger] logger_fails::<P, B, T, TB>(
            configs[i],
            target_names,
            target_builders,
            placeholders,
            error,
        )
}

/// Creates the loggers that a list of configurations describes, in order.
/// The first target that cannot be built and the first template that does
/// not compile end it with their error.
pub fn create_logger<P: Placeholder, B: PlaceholderBuilder<P>, T, TB: LoggerTargetBuilder<P, B, T>>(
    loggers: Vec<LoggerConfig>,
    placeholders: &[B],
    names: &Vec<String>,
    targets: &[TB],
) -> (out: Result<Vec<Logger<P, T>>, Error>)
    requires
        names@.len() == targets@.len(),
    ensures
        loggers_made(loggers@, texts(names@), targets@, placeholders@, out),
{
    let mut values: Vec<Logger<P, T>> = Vec::new();
    let mut rest = loggers;
    let ghost mut done: int = 0;
    while rest.len() > 0
        invariant
            names@.len() == targets@.len(),
            0 <= done <= loggers@.len(),
            values@.len() == done,
            rest@ == loggers@.skip(done),
            forall|i: int|
                0 <= i < done ==> describes(
                    loggers@[i],
                    texts(names@),
                    targets@,
                    placeholders@,
                    #[trigger] values@[i],
                ),
        decreases rest.len(),
    {
        let logger = rest.remove(0);
        proof {
            assert(logger == loggers@[done]);
            assert(rest@ =~= loggers@.skip(done + 1));
        }
        let ghost config = logger;
        let ghost earlier = values@;
        proof {
            assert forall|j: int| 0 <= j < done implies can_be_described::<P, B, T, TB>(
                #[trigger] loggers@[j],
                texts(names@),
                targets@,
                placeholders@,
            ) by {
                assert(describes(loggers@[j], texts(names@), targets@, placeholders@, earlier[j]));
            }
        }
        let built = match create_targets(logger.targets, names, targets, placeholders) {
            Ok(built) => built,
            Err(error) => {
                assert(logger_fails::<P, B, T, TB>(
                    config,
                    texts(names@),
                    targets@,
                    placeholders@,
                    error,
                ));
                return Err(error);
            },
        };
        let format = match Format::<P>::new(placeholders, logger.format, false) {
            Ok(format) => format,
            Err(error) => {
                let failure = Error::FormatGeneration(error);
                assert(logger_fails::<P, B, T, TB>(
                    config,
                    texts(names@),
                    targets@,
                    placeholders@,
                    failure,
                )) by {
                    assert(targets_made(
                        config.targets@,
                        texts(names@),
                        targets@,
                        placeholders@,
                        Ok::<Vec<T>, Error>(built),
                    ));
                }
                return Err(failure);
            },
        };
        let made = Logger {
            module: logger.module,
            levels: logger.levels,
            targets: built,
            always_execute: logger.always_execute,
            structure_dump: logger.structure_dump,
            format,
        };
        assert(describes(config, texts(names@), targets@, placeholders@, made));
        values.push(made);
        proof {
            assert(forall|i: int| 0 <= i < done ==> values@[i] == earlier[i]);
            done = done + 1;
        }
    }
    Ok(values)
}

/// What creating the loggers of a configuration gives, for target builders
/// that answer to `names`: the default loggers and the loggers with a
/// module, or the error of the first logger that cannot be created, the
/// default loggers taken first. A logger outside the defaults that is
/// configured without a module is a configuration error.
pub open spec fn configured(
    config: Config,
    builders: LoggerBuilders,
    names: Seq<Seq<char>>,
    out: Result<
        (Vec<Logger<DynPlaceholder, DynTarget>>, Vec<Logger<DynPlaceholder, DynTarget>>),
        Error,
    >,
) -> bool {
    &&& out matches Ok(made) ==> loggers_made(
        config.root_loggers@,
        names,
        builders.targets@,
        builders.placeholders@,
        Ok::<Vec<Logger<DynPlaceholder, DynTarget>>, Error>(made.0),
    ) && loggers_made(
        config.loggers@,
        names,
        builders.targets@,
        builders.placeholders@,
        Ok::<Vec<Logger<DynPlaceholder, DynTarget>>, Error>(made.1),
    ) && forall|i: int| 0 <= i < config.loggers@.len() ==> (#[trigger] config.loggers@[i]).module is Some
    &&& out matches Err(error) ==> {
        ||| loggers_made(
            config.root_loggers@,
            names,
            builders.targets@,
            builders.placeholders@,
            Err::<Vec<Logger<DynPlaceholder, DynTarget>>, Error>(error),
        )
        ||| loggers_made(
            config.loggers@,
            names,
            builders.targets@,
            builders.placeholders@,
            Err::<Vec<Logger<DynPlaceholder, DynTarget>>, Error>(error),
        )
        ||| (exists|i: int|
            0 <= i < config.loggers@.len() && (#[trigger] config.loggers@[i]).module is None)
            && error is ConfigError && error->ConfigError_0@ == "Logger"@
            && error->ConfigError_1@ == "a logger that is no default logger needs a module"@
    }
}

/// Creates the loggers of a configuration: the default loggers, and the
/// loggers with a module. A logger with a module that is not configured with
/// one is a configuration error.
pub fn create_loggers(config: Config, builders: LoggerBuilders) -> (out: Result<
    (Vec<Logger<DynPlaceholder, DynTarget>>, Vec<Logger<DynPlaceholder, DynTarget>>),
    Error,
>)
    ensures
        exists|names: Seq<Seq<char>>|
            targets_answer(builders.targets@, names) && #[trigger] configured(
                config,
                builders,
                names,
                out,
            ),
        out matches Ok(made) ==> forall|i: int|
            0 <= i < made.1@.len() ==> (#[trigger] made.1@[i]).module is Some,
{
    let names = target_names(builders.targets.as_slice());
    let root = match create_logger(
        config.root_loggers,
        builders.placeholders.as_slice(),
        &names,
        builders.targets.as_slice(),
    ) {
        Ok(root) => root,
        Err(error) => {
            let out = Err(error);
            assert(targets_answer(builders.targets@, texts(names@)) && configured(
                config,
                builders,
                texts(names@),
                out,
            ));
            return out;
        },
    };
    let loggers = match create_logger(
        config.loggers,
        builders.placeholders.as_slice(),
        &names,
        builders.targets.as_slice(),
    ) {
        Ok(loggers) => loggers,
        Err(error) => {
            let out = Err(error);
            assert(targets_answer(builders.targets@, texts(names@)) && configured(
                config,
                builders,
                texts(names@),
                out,
            ));
            return out;
        },
    };
    let mut i: usize = 0;
    while i < loggers.len()
        invariant
            i <= loggers@.len(),
            loggers@.len() == config.loggers@.len(),
            targets_answer(builders.targets@, texts(names@)),
            forall|j: int|
                0 <= j < loggers@.len() ==> (#[trigger] loggers@[j]).module
                    == config.loggers@[j].module,
            forall|j: int| 0 <= j < i ==> (#[trigger] loggers@[j]).module is Some,
        decreases loggers@.len() - i,
    {
        if loggers[i].module.is_none() {
            let out = Err(
                Error::ConfigError(
                    String::from_str("Logger"),
                    String::from_str("a logger that is no default logger needs a module"),
                ),
            );
            assert(config.loggers@[i as int].module is None);
            assert(targets_answer(builders.targets@, texts(names@)) && configured(
                config,
                builders,
                texts(names@),
                out,
            ));
            return out;
        }
        i += 1;
    }
    let made = (root, loggers);
    assert(targets_answer(builders.targets@, texts(names@)) && configured(
        config,
        builders,
        texts(names@),
        Ok(made),
    )) by {
        assert forall|k: int| 0 <= k < config.loggers@.len() implies (#[trigger] config.loggers@[k]).module
            is Some by {
            assert(loggers@[k].module == config.loggers@[k].module);
        }
    }
    Ok(made)
}

} // verus!
