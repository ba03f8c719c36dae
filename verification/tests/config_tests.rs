use nitro_log::config::{
    create_logger, create_loggers, create_target, create_targets, default_levels, target_names,
    Config, FormatConfig, LoggerConfig, TargetConfig,
};
use nitro_log::error::Error;
use nitro_log::loggers::console::{ConsoleConfig, ConsoleLogger, ConsoleLoggerBuilder};
use nitro_log::loggers::file::{generate_path, FileConfig, FileLoggerBuilder};
use nitro_log::loggers::target::{default_logger_targets, DynTarget, LoggerTarget, LoggerTargetBuilder};
use nitro_log::loggers::tree::LoggerTree;
use nitro_log::loggers::writer::{Action, LoggerWriter, Resource};
use nitro_log::format::Format;
use nitro_log::placeholder::standard_placeholders::{
    path_requested, EnvironmentPlaceholderSettings, LevelPlaceHolder, LevelPlaceholderSettings,
    MessagePlaceholder, ModulePlaceHolder, PathModulePlaceHolder, SavedEnvVariable,
};
use nitro_log::placeholder::{
    default_placeholders, DynPlaceholder, DynPlaceholderBuilder, Placeholder, PlaceholderBuilder,
};
use nitro_log::record::{KeyValue, Level, Record};
use nitro_log::value::Json;
use nitro_log::{LoggerBuilders, NitroLogger};

fn record(level: Level, module: Option<&str>, message: &str, line: Option<u32>) -> Record {
    Record {
        level,
        target: module.unwrap_or("").to_string(),
        module: module.map(|path| path.to_string()),
        line,
        message: message.to_string(),
        key_values: Vec::new(),
    }
}

fn target(kind: &str, properties: &str) -> TargetConfig {
    TargetConfig { target_type: kind.to_string(), properties: Json::parse(properties).unwrap() }
}

fn logger_config(module: Option<&str>, format: &str, targets: Vec<TargetConfig>) -> LoggerConfig {
    LoggerConfig {
        module: module.map(|path| path.to_string()),
        levels: default_levels(),
        targets,
        format: FormatConfig::new(format.to_string()),
        structure_dump: false,
        always_execute: false,
    }
}

fn path_of(writer: LoggerWriter) -> String {
    match writer.resource {
        Resource::File(path) => path,
        _ => panic!("expected a file"),
    }
}

#[test]
fn the_default_levels_are_all_levels() {
    assert_eq!(
        default_levels(),
        vec![Level::Trace, Level::Info, Level::Debug, Level::Warn, Level::Error]
    );
}

#[test]
fn the_default_registries_know_their_names() {
    let builders = LoggerBuilders::default();
    let placeholders: Vec<&str> = builders.placeholders.iter().map(|b| b.name()).collect();
    assert_eq!(placeholders, vec!["message", "level", "module"]);
    let targets: Vec<&str> = builders.targets.iter().map(|b| b.name()).collect();
    assert_eq!(targets, vec!["console", "file_logger"]);
    assert_eq!(target_names(&default_logger_targets()), vec!["console", "file_logger"]);
}

#[test]
fn creates_the_loggers_of_a_configuration() {
    let config = Config {
        loggers: vec![
            logger_config(Some("app"), "{{message()}}", vec![target("console", "{}")]),
            LoggerConfig {
                levels: vec![Level::Error],
                structure_dump: true,
                always_execute: true,
                ..logger_config(
                    Some("app::db"),
                    "{{level()}}",
                    vec![target("console", "null"), target("file_logger", "{\"file\": \"db.log\"}")],
                )
            },
        ],
        root_loggers: vec![logger_config(None, "root {{message()}}", Vec::new())],
    };
    let (root, loggers) = create_loggers(config, LoggerBuilders::default()).unwrap();
    assert_eq!(root.len(), 1);
    assert!(root[0].module.is_none());
    assert!(root[0].targets.is_empty());
    assert_eq!(loggers.len(), 2);
    assert_eq!(loggers[0].module.as_deref(), Some("app"));
    assert_eq!(loggers[0].levels, default_levels());
    assert_eq!(loggers[0].targets.len(), 1);
    assert!(!loggers[0].always_execute && !loggers[0].structure_dump);
    assert_eq!(loggers[1].module.as_deref(), Some("app::db"));
    assert_eq!(loggers[1].levels, vec![Level::Error]);
    assert_eq!(loggers[1].targets.len(), 2);
    assert!(loggers[1].always_execute && loggers[1].structure_dump);
    let sample = record(Level::Error, Some("app::db"), "x", None);
    assert_eq!(loggers[1].format.render(&sample), "ERROR");
    assert!(matches!(
        loggers[1].targets[0].start_write(&sample).unwrap().resource,
        Resource::Console
    ));
    assert_eq!(path_of(loggers[1].targets[1].start_write(&sample).unwrap()), "db.log");
}

#[test]
fn an_unknown_target_type_is_a_configuration_error() {
    let config = Config {
        loggers: vec![logger_config(Some("app"), "x", vec![target("syslog", "{}")])],
        root_loggers: Vec::new(),
    };
    match create_loggers(config, LoggerBuilders::default()) {
        Err(error) => {
            assert_eq!(error.message(), "Failed to load syslog config Error unknown target type");
            assert!(matches!(error, Error::ConfigError(what, _) if what == "syslog"));
        }
        _ => panic!("expected a configuration error"),
    }
}

#[test]
fn a_template_that_does_not_compile_fails_the_load() {
    let config = Config {
        loggers: Vec::new(),
        root_loggers: vec![logger_config(None, "{{nope()}}", Vec::new())],
    };
    assert!(matches!(
        create_loggers(config, LoggerBuilders::default()),
        Err(Error::FormatGeneration(_))
    ));
}

#[test]
fn a_logger_outside_the_root_needs_a_module() {
    let config = Config {
        loggers: vec![logger_config(None, "x", Vec::new())],
        root_loggers: Vec::new(),
    };
    assert!(matches!(
        create_loggers(config, LoggerBuilders::default()),
        Err(Error::ConfigError(what, _)) if what == "Logger"
    ));
}

#[test]
fn targets_are_built_by_the_first_builder_of_their_type() {
    let placeholders = default_placeholders();
    let builders = default_logger_targets();
    let names = target_names(&builders);
    let made = create_target(target("console", "{}"), &names, &builders, &placeholders).unwrap();
    let sample = record(Level::Info, None, "x", None);
    assert!(matches!(made.start_write(&sample).unwrap().resource, Resource::Console));
    assert!(made.return_write(made.start_write(&sample).unwrap()).is_ok());
    let swapped = vec!["file_logger".to_string(), "console".to_string()];
    assert!(create_target(target("file_logger", "{\"file\": \"a\"}"), &swapped, &builders, &placeholders).is_ok());
    assert!(create_target(target("console", "{}"), &swapped, &builders, &placeholders).is_err());
    let all = create_targets(
        vec![target("console", "{}"), target("file_logger", "{\"file\": \"a\"}")],
        &names,
        &builders,
        &placeholders,
    )
    .unwrap();
    assert_eq!(all.len(), 2);
    let made: Vec<nitro_log::loggers::Logger<DynPlaceholder, DynTarget>> =
        create_logger(Vec::new(), &placeholders, &names, &builders).unwrap();
    assert!(made.is_empty());
}

#[test]
fn the_file_target_renders_its_path_for_every_record() {
    let placeholders = default_placeholders();
    let builder = FileLoggerBuilder {};
    let made = builder
        .build(
            Json::parse("{\"file\": \"logs/{{module({})}}/{{level({})}}.log\"}").unwrap(),
            &placeholders,
        )
        .unwrap();
    let first = record(Level::Info, Some("app::db"), "x", None);
    let second = record(Level::Error, Some("web"), "y", None);
    assert_eq!(
        path_of(made.start_write(&first).unwrap()),
        "logs/app/db/INFO.log"
    );
    assert_eq!(path_of(made.start_write(&second).unwrap()), "logs/web/ERROR.log");
    assert_eq!(
        path_of(made.start_write(&first).unwrap()),
        "logs/app/db/INFO.log"
    );
}

#[test]
fn the_file_target_reads_its_template_as_text_or_object() {
    let text = FileConfig::from_json(&Json::parse("{\"file\": \"a.log\"}").unwrap()).unwrap();
    assert_eq!(text.file.format, "a.log");
    assert!(text.file.placeholders.is_empty());
    let object = FileConfig::from_json(
        &Json::parse("{\"file\": {\"format\": \"b.log\", \"placeholders\": {\"s\": {\"k\": 1}}}}")
            .unwrap(),
    )
    .unwrap();
    assert_eq!(object.file.format, "b.log");
    assert_eq!(object.file.placeholders.len(), 1);
    assert_eq!(object.file.placeholders[0].key, "s");
    for bad in ["{}", "{\"file\": 3}", "{\"file\": {\"format\": \"x\"}}", "{\"file\": {\"placeholders\": {}}}", "[]"] {
        assert!(matches!(
            FileConfig::from_json(&Json::parse(bad).unwrap()),
            Err(Error::SerdeJson(_))
        ));
    }
    assert!(FormatConfig::from_json(&Json::Null).is_none());
    let builder = FileLoggerBuilder {};
    assert!(builder.build(Json::parse("{}").unwrap(), &default_placeholders()).is_err());
    assert!(matches!(
        builder.build(Json::parse("{\"file\": \"{{nope()}}\"}").unwrap(), &default_placeholders()),
        Err(Error::FormatGeneration(_))
    ));
}

#[test]
fn generate_path_is_the_rendered_template() {
    let format: Format<DynPlaceholder> = Format::new(
        &default_placeholders(),
        FormatConfig::new("{{ dir }}/{{message()}}.log".to_string()),
        true,
    )
    .unwrap();
    let mut sample = record(Level::Info, None, "out", None);
    sample.key_values.push(KeyValue {
        key: "dir".to_string(),
        text: "var".to_string(),
        structure: Err(String::new()),
    });
    assert_eq!(generate_path(&format, &sample), "var/out.log");
}

#[test]
fn the_console_target_keeps_its_configuration() {
    assert_eq!(ConsoleConfig::default().format, "%module% %level%: %message%");
    assert_eq!(ConsoleLogger::default().format, "%module% %level%: %message%");
    let made = ConsoleLogger::init(ConsoleConfig { format: "%message%".to_string() }).unwrap();
    assert_eq!(made.format, "%message%");
    let sample = record(Level::Info, None, "x", None);
    assert!(matches!(made.start_write(&sample).unwrap().resource, Resource::Console));
    let builder = ConsoleLoggerBuilder {};
    let placeholders: Vec<DynPlaceholderBuilder> = Vec::new();
    assert!(builder.build(Json::Null, &placeholders).is_ok());
}

#[test]
fn the_standard_placeholders_render_the_record() {
    let sample = record(Level::Warn, Some("app::db::pool"), "text", Some(3));
    assert_eq!(MessagePlaceholder {}.build_message(&sample), "text");
    assert_eq!(LevelPlaceHolder {}.build_message(&sample), "WARN");
    assert_eq!(ModulePlaceHolder {}.build_message(&sample), "app::db::pool");
    assert_eq!(PathModulePlaceHolder { separator: '/' }.build_message(&sample), "app/db/pool");
    assert_eq!(PathModulePlaceHolder { separator: '\\' }.build_message(&sample), "app\\db\\pool");
    let bare = record(Level::Warn, None, "text", None);
    assert_eq!(ModulePlaceHolder {}.build_message(&bare), "");
    assert_eq!(PathModulePlaceHolder { separator: '/' }.build_message(&bare), "");
    assert!(MessagePlaceholder {}.settings().is_none());
    assert!(LevelPlaceHolder {}.settings().is_none());
    assert!(ModulePlaceHolder {}.settings().is_none());
    assert!(PathModulePlaceHolder { separator: '/' }.settings().is_none());
    assert!(!LevelPlaceholderSettings::default().path);
}

#[test]
fn the_module_builder_goes_by_the_path_flag() {
    let registry = default_placeholders();
    let sample = record(Level::Info, Some("a::b"), "x", None);
    let plain = registry[2].build(Some(Json::parse("{\"path\": false}").unwrap())).unwrap();
    assert_eq!(plain.build_message(&sample), "a::b");
    let none = registry[2].build(None).unwrap();
    assert_eq!(none.build_message(&sample), "a::b");
    let path = registry[2].build(Some(Json::parse("{\"path\": true}").unwrap())).unwrap();
    assert_eq!(path.build_message(&sample), "a/b");
    assert!(path_requested(&Some(Json::parse("{\"path\": true}").unwrap())));
    assert!(!path_requested(&Some(Json::parse("{\"path\": \"true\"}").unwrap())));
    assert!(!path_requested(&Some(Json::parse("{}").unwrap())));
    assert!(!path_requested(&None));
    assert_eq!(registry[0].build(None).unwrap().build_message(&sample), "x");
    assert_eq!(registry[1].build(None).unwrap().build_message(&sample), "INFO");
}

#[test]
fn environment_settings_need_a_key() {
    let read = |text: &str| EnvironmentPlaceholderSettings::from_json(&Some(Json::parse(text).unwrap()));
    let settings = read("{\"key\": \"HOME\", \"save\": true, \"path\": false}").unwrap();
    assert_eq!(settings.key, "HOME");
    assert!(settings.save);
    let settings = read("{\"key\": \"HOME\"}").unwrap();
    assert!(!settings.save);
    for bad in ["{}", "{\"key\": 1}", "{\"key\": \"a\", \"save\": \"yes\"}", "[]"] {
        assert!(matches!(read(bad), Err(Error::ConfigError(what, _)) if what == "Placeholder"));
    }
    assert!(matches!(
        EnvironmentPlaceholderSettings::from_json(&None),
        Err(Error::ConfigError(_, why)) if why == "Missing Placeholder config"
    ));
}

#[test]
fn a_saved_value_is_made_fit_for_a_path() {
    let sample = record(Level::Info, None, "x", None);
    let plain = SavedEnvVariable::new("a/b:c*d".to_string(), false);
    assert_eq!(plain.build_message(&sample), "a/b:c*d");
    let safe = SavedEnvVariable::new("a/b:c*d?<e>|\"f\\g".to_string(), true);
    assert_eq!(safe.build_message(&sample), "abcdefg");
    let long = SavedEnvVariable::new("x".repeat(300), true);
    assert_eq!(long.build_message(&sample).len(), 255);
    let settings = plain.settings().unwrap();
    let read = EnvironmentPlaceholderSettings::from_json(&Some(settings)).unwrap();
    assert_eq!(read.key, "a/b:c*d");
    assert!(read.save);
}

#[test]
fn the_runtime_selects_by_module_and_level() {
    let config = Config {
        loggers: vec![
            LoggerConfig {
                always_execute: true,
                levels: vec![Level::Error, Level::Warn],
                ..logger_config(Some("app"), "app {{message()}}", vec![target("console", "{}")])
            },
            logger_config(Some("app::db"), "db {{message()}}", vec![target("console", "{}")]),
        ],
        root_loggers: vec![logger_config(None, "root {{message()}}", Vec::new())],
    };
    let (root, loggers) = create_loggers(config, LoggerBuilders::default()).unwrap();
    let runtime = NitroLogger::new(LoggerTree::new(root, loggers));
    assert!(runtime.enabled(Level::Trace, "anything"));
    let rendered = |sample: &Record| -> Vec<String> {
        runtime.select(sample).iter().map(|logger| logger.format.render(sample)).collect()
    };
    assert_eq!(rendered(&record(Level::Error, Some("app::db"), "m", None)), vec!["db m", "app m"]);
    assert_eq!(rendered(&record(Level::Info, Some("app::db"), "m", None)), vec!["db m"]);
    assert_eq!(rendered(&record(Level::Warn, Some("app::db::pool"), "m", None)), vec!["app m"]);
    assert_eq!(rendered(&record(Level::Info, Some("app::db::pool"), "m", None)), Vec::<String>::new());
    assert_eq!(rendered(&record(Level::Info, Some("elsewhere"), "m", None)), vec!["root m"]);
    assert_eq!(rendered(&record(Level::Info, None, "m", None)), vec!["root m"]);
    let sample = record(Level::Error, Some("app::db"), "m", None);
    let calls = runtime.log(&sample);
    assert_eq!(calls.len(), 2);
    assert_eq!(calls[0].action(), Action::Acquire(0));
    let sample = record(Level::Info, Some("elsewhere"), "m", None);
    let calls = runtime.log(&sample);
    assert_eq!(calls.len(), 1);
    assert_eq!(calls[0].action(), Action::Done);
}

pub struct MyPlaceHolderBuilder;

impl PlaceholderBuilder<DynPlaceholder> for MyPlaceHolderBuilder {
    fn name(&self) -> &'static str {
        "myPlaceHolder"
    }

    fn build(&self, _value: Option<Json>) -> Result<DynPlaceholder, Error> {
        Ok(Box::new(MyPlaceHolderTest {}))
    }
}

pub struct MyPlaceHolderTest;

impl Placeholder for MyPlaceHolderTest {
    fn build_message(&self, record: &Record) -> String {
        record.line.map(|l| l.to_string()).unwrap_or_else(|| "NOT_FOUND".to_string())
    }

    fn settings(&self) -> Option<Json> {
        None
    }
}

/// Runs every log call of a record to its end and collects what the writers
/// of each call received.
fn emit(runtime: &NitroLogger<DynPlaceholder, DynTarget>, sample: &Record) -> Vec<String> {
    let mut lines = Vec::new();
    for mut call in runtime.log(sample) {
        let mut line = String::new();
        let mut action = call.action();
        while action != Action::Done {
            if let Action::Write(0, fragment) = action {
                line.push_str(call.fragment(fragment).unwrap());
            }
            action = call.advance(true);
        }
        lines.push(line);
    }
    lines
}

#[test]
fn custom_placeholder_test_test() {
    let mut builders = LoggerBuilders::default();
    builders.placeholders.push(Box::new(MyPlaceHolderBuilder {}));
    let config = Config {
        loggers: Vec::new(),
        root_loggers: vec![logger_config(
            None,
            "{{level({})}} {{myPlaceHolder({})}}: {{message({})}}",
            vec![target("console", "{}")],
        )],
    };
    let (root, loggers) = create_loggers(config, builders).unwrap();
    let runtime = NitroLogger::new(LoggerTree::new(root, loggers));
    assert_eq!(emit(&runtime, &record(Level::Info, Some("test"), "INFO HEY", Some(62))), vec!["INFO 62: INFO HEY\n"]);
    assert_eq!(emit(&runtime, &record(Level::Warn, Some("test"), "Warn HEY", Some(63))), vec!["WARN 63: Warn HEY\n"]);
    assert_eq!(emit(&runtime, &record(Level::Error, Some("test"), "Error HEY", None)), vec!["ERROR NOT_FOUND: Error HEY\n"]);
}

#[test]
fn logger_tests_test() {
    let config = Config {
        loggers: vec![LoggerConfig {
            structure_dump: true,
            levels: vec![Level::Trace, Level::Debug],
            ..logger_config(
                Some("logger_tests"),
                "{{module({})}} {{level({})}} {{ value.hi }} {{ error }}: {{message({})}}",
                vec![target("console", "{}"), target("file_logger", "{\"file\": \"logs/{{module({})}}.log\"}")],
            )
        }],
        root_loggers: vec![logger_config(None, "{{level({})}}: {{message({})}}", vec![target("console", "{}")])],
    };
    let (root, loggers) = create_loggers(config, LoggerBuilders::default()).unwrap();
    let runtime = NitroLogger::new(LoggerTree::new(root, loggers));
    let mut trace = record(Level::Trace, Some("logger_tests"), "Trace HEY", None);
    trace.key_values = vec![
        KeyValue {
            key: "value".to_string(),
            text: "KvTest { hi: \"My Value\" }".to_string(),
            structure: Ok(Json::parse("{\"hi\": \"My Value\"}").unwrap()),
        },
        KeyValue {
            key: "error".to_string(),
            text: "Missing Key Value".to_string(),
            structure: Err("not a structure".to_string()),
        },
    ];
    assert_eq!(
        emit(&runtime, &trace),
        vec!["logger_tests TRACE My Value Missing Key Value: Trace HEY\nvalue: KvTest { hi: \"My Value\" }\nerror: Missing Key Value\n"]
    );
    assert_eq!(
        emit(&runtime, &record(Level::Debug, Some("logger_tests"), "Debug Hey", None)),
        vec!["logger_tests DEBUG {undefined} {undefined}: Debug Hey\n"]
    );
    assert_eq!(emit(&runtime, &record(Level::Info, Some("logger_tests"), "INFO HEY My Value", None)), Vec::<String>::new());
    assert_eq!(emit(&runtime, &record(Level::Warn, Some("other"), "Warn HEY", None)), vec!["WARN: Warn HEY\n"]);
    assert_eq!(emit(&runtime, &record(Level::Error, Some("other"), "Error HEY", None)), vec!["ERROR: Error HEY\n"]);
}

#[test]
fn a_box_answers_as_what_it_holds() {
    let sample = record(Level::Debug, Some("a::b"), "text", None);
    let builder: DynPlaceholderBuilder =
        Box::new(nitro_log::placeholder::standard_placeholders::ModulePlaceHolderBuilder {});
    assert_eq!(PlaceholderBuilder::name(&builder), "module");
    let built: DynPlaceholder =
        PlaceholderBuilder::build(&builder, Some(Json::parse("{\"path\": true}").unwrap())).unwrap();
    assert_eq!(Placeholder::build_message(&built, &sample), "a/b");
    assert!(Placeholder::settings(&built).is_none());
    let saved: DynPlaceholder = Box::new(SavedEnvVariable::new("kept".to_string(), false));
    assert_eq!(Placeholder::build_message(&saved, &sample), "kept");
    assert!(Placeholder::settings(&saved).is_some());
    let targets = default_logger_targets();
    assert_eq!(LoggerTargetBuilder::name(&targets[1]), "file_logger");
    let target: DynTarget = LoggerTargetBuilder::build(
        &targets[1],
        Json::parse("{\"file\": \"{{ name }}.log\"}").unwrap(),
        &default_placeholders(),
    )
    .unwrap();
    let writer = LoggerTarget::start_write(&target, &sample).unwrap();
    assert!(matches!(&writer.resource, Resource::File(path) if path == "{undefined}.log"));
    assert!(LoggerTarget::return_write(&target, writer).is_ok());
    let console = ConsoleLogger::default();
    assert!(console.return_write(LoggerWriter { resource: Resource::Console }).is_ok());
}
