use nitro_log::config::FormatConfig;
use nitro_log::error::Error;
use nitro_log::format::{
    builder_names, find_name, join, plan, resolve_settings, scan, variable_for, Expression, Format,
    FormatError, FormatSection, Planned,
};
use nitro_log::kv::Variable;
use nitro_log::placeholder::{
    default_placeholders, empty_registry, register, DynPlaceholder, PlaceHolders, Placeholder,
    PlaceholderBuilder,
};
use nitro_log::record::{KeyValue, Level, Record};
use nitro_log::value::{Json, Member};

fn template(text: &str) -> FormatConfig {
    FormatConfig { format: text.to_string(), placeholders: Vec::new() }
}

fn record(key_values: Vec<KeyValue>) -> Record {
    Record {
        level: Level::Info,
        target: "app".to_string(),
        module: Some("app::db".to_string()),
        line: Some(7),
        message: "hello".to_string(),
        key_values,
    }
}

fn kind(section: &FormatSection<DynPlaceholder>) -> &'static str {
    match section {
        FormatSection::Text(_) => "text",
        FormatSection::Variable(_) => "variable",
        FormatSection::Placeholder(_) => "placeholder",
    }
}

#[test]
fn compiles_placeholders_text_and_a_path_variable() {
    let registry = default_placeholders();
    let format: Format<DynPlaceholder> = Format::new(
        &registry,
        template("{{module()}} {{level()}} {{ user.name }}: {{message()}}"),
        false,
    )
    .unwrap();
    let kinds: Vec<&str> = format.format.iter().map(kind).collect();
    assert_eq!(
        kinds,
        vec![
            "text", "placeholder", "text", "placeholder", "text", "variable", "text", "placeholder",
            "text"
        ]
    );
    let texts: Vec<String> = format
        .format
        .iter()
        .filter_map(|section| match section {
            FormatSection::Text(text) => Some(text.clone()),
            _ => None,
        })
        .collect();
    assert_eq!(texts, vec!["", " ", " ", ": ", ""]);
    match &format.format[5] {
        FormatSection::Variable(Variable::PathVariable(top, path)) => {
            assert_eq!(top, "user");
            assert_eq!(path, &vec!["name".to_string()]);
        }
        _ => panic!("expected a path variable"),
    }
}

#[test]
fn renders_a_missing_attribute_as_undefined() {
    let registry = default_placeholders();
    let format: Format<DynPlaceholder> =
        Format::new(&registry, template("{{ user.name }}"), false).unwrap();
    assert_eq!(format.render(&record(Vec::new())), "{undefined}");
}

#[test]
fn renders_a_path_variable_from_the_structure() {
    let registry = default_placeholders();
    let format: Format<DynPlaceholder> =
        Format::new(&registry, template("user={{ user.name }}!"), false).unwrap();
    let user = Json::parse("{\"name\": \"ada\", \"age\": 36}").unwrap();
    let pairs = vec![KeyValue {
        key: "user".to_string(),
        text: "User".to_string(),
        structure: Ok(user),
    }];
    assert_eq!(format.render(&record(pairs)), "user=ada!");
}

#[test]
fn an_unregistered_placeholder_is_a_missing_key() {
    let registry = default_placeholders();
    let out: Result<Format<DynPlaceholder>, FormatError> =
        Format::new(&registry, template("a {{nope()}} b"), false);
    match out {
        Err(FormatError::MissingKey(name)) => assert_eq!(name, "Missing Placeholder nope"),
        _ => panic!("expected a missing key"),
    }
}

#[test]
fn renders_the_standard_placeholders() {
    let registry = default_placeholders();
    let format: Format<DynPlaceholder> = Format::new(
        &registry,
        template("{{module()}} {{level()}}: {{message()}}"),
        false,
    )
    .unwrap();
    assert_eq!(format.render(&record(Vec::new())), "app::db INFO: hello");
}


/// A placeholder that renders the settings it was built with.
struct Echo {
    label: &'static str,
    settings: Option<Json>,
}

impl Placeholder for Echo {
    fn build_message(&self, _record: &Record) -> String {
        let path = self
            .settings
            .as_ref()
            .and_then(|settings| settings.get("path"))
            .and_then(|flag| flag.as_bool());
        let color = self
            .settings
            .as_ref()
            .and_then(|settings| settings.get("color"))
            .and_then(|flag| flag.as_bool());
        format!("{}[path={:?},color={:?}]", self.label, path, color)
    }

    fn settings(&self) -> Option<Json> {
        self.settings.as_ref().map(|settings| settings.copy())
    }
}

struct EchoBuilder {
    name: &'static str,
    label: &'static str,
    refuses: bool,
}

impl PlaceholderBuilder<DynPlaceholder> for EchoBuilder {
    fn name(&self) -> &'static str {
        self.name
    }

    fn build(&self, value: Option<Json>) -> Result<DynPlaceholder, Error> {
        if self.refuses {
            return Err(Error::ConfigError("Placeholder".to_string(), "refused".to_string()));
        }
        Ok(Box::new(Echo { label: self.label, settings: value }))
    }
}

fn echo_registry() -> PlaceHolders {
    vec![
        Box::new(EchoBuilder { name: "echo", label: "first", refuses: false }),
        Box::new(EchoBuilder { name: "echo", label: "second", refuses: false }),
        Box::new(EchoBuilder { name: "strict", label: "strict", refuses: true }),
    ]
}

fn render(registry: &PlaceHolders, config: FormatConfig, path_safe: bool) -> String {
    let format: Format<DynPlaceholder> = Format::new(registry, config, path_safe).unwrap();
    format.render(&record(Vec::new()))
}

fn fail(registry: &PlaceHolders, config: FormatConfig) -> FormatError {
    let out: Result<Format<DynPlaceholder>, FormatError> = Format::new(registry, config, false);
    match out {
        Ok(_) => panic!("expected an error"),
        Err(error) => error,
    }
}

#[test]
fn a_template_without_expressions_is_one_text() {
    let format: Format<DynPlaceholder> =
        Format::new(&echo_registry(), template("plain text"), false).unwrap();
    assert_eq!(format.format.len(), 1);
    assert!(matches!(&format.format[0], FormatSection::Text(text) if text == "plain text"));
    let empty: Format<DynPlaceholder> = Format::new(&echo_registry(), template(""), false).unwrap();
    assert_eq!(empty.format.len(), 1);
    assert_eq!(empty.render(&record(Vec::new())), "");
}

#[test]
fn an_empty_clause_hands_no_settings_on() {
    assert_eq!(render(&echo_registry(), template("{{echo()}}"), false), "first[path=None,color=None]");
}

#[test]
fn inline_settings_are_marked_with_the_path_flag() {
    assert_eq!(
        render(&echo_registry(), template("{{echo({\"color\": true })}}"), false),
        "first[path=Some(false),color=Some(true)]"
    );
    assert_eq!(
        render(&echo_registry(), template("{{echo({})}}"), true),
        "first[path=Some(true),color=None]"
    );
    assert_eq!(
        render(&echo_registry(), template("{{echo({\"path\": \"no\"})}}"), true),
        "first[path=Some(true),color=None]"
    );
}

#[test]
fn named_settings_come_from_the_table() {
    let config = FormatConfig {
        format: "<{{echo(loud)}}>".to_string(),
        placeholders: vec![
            Member { key: "quiet".to_string(), value: Json::parse("{\"color\": false}").unwrap() },
            Member { key: "loud".to_string(), value: Json::parse("{\"color\": true}").unwrap() },
            Member { key: "loud".to_string(), value: Json::parse("{\"color\": false}").unwrap() },
        ],
    };
    assert_eq!(render(&echo_registry(), config, false), "<first[path=Some(false),color=Some(true)]>");
}

#[test]
fn a_missing_setting_is_a_missing_key() {
    match fail(&echo_registry(), template("{{echo(loud)}}")) {
        FormatError::MissingKey(name) => assert_eq!(name, "Missing Setting for loud"),
        _ => panic!("expected a missing key"),
    }
}

#[test]
fn malformed_settings_are_a_parse_error() {
    assert!(matches!(
        fail(&echo_registry(), template("{{echo({\"color\": })}}")),
        FormatError::SettingParseError(_)
    ));
    let config = FormatConfig {
        format: "{{echo(flag)}}".to_string(),
        placeholders: vec![Member { key: "flag".to_string(), value: Json::Bool(true) }],
    };
    match fail(&echo_registry(), config) {
        FormatError::SettingParseError(reason) => assert_eq!(reason, "Settings are not an object"),
        _ => panic!("expected a parse error"),
    }
}

#[test]
fn the_settings_are_looked_at_before_the_name() {
    assert!(matches!(
        fail(&echo_registry(), template("{{nope({bad})}}")),
        FormatError::SettingParseError(_)
    ));
    match fail(&echo_registry(), template("{{nope({})}}")) {
        FormatError::MissingKey(name) => assert_eq!(name, "Missing Placeholder nope"),
        _ => panic!("expected a missing key"),
    }
}

#[test]
fn the_name_of_a_call_is_not_trimmed() {
    match fail(&echo_registry(), template("{{ echo()}}")) {
        FormatError::MissingKey(name) => assert_eq!(name, "Missing Placeholder  echo"),
        _ => panic!("expected a missing key"),
    }
    let spaced: Format<DynPlaceholder> =
        Format::new(&echo_registry(), template("{{ echo() }}"), false).unwrap();
    assert!(matches!(
        &spaced.format[1],
        FormatSection::Variable(Variable::SinglePartVariable(key)) if key == "echo()"
    ));
}

#[test]
fn a_refusing_builder_fails_the_template() {
    match fail(&echo_registry(), template("{{strict()}}")) {
        FormatError::SettingParseError(reason) => {
            assert_eq!(reason, "Failed to load Placeholder config Error refused")
        }
        _ => panic!("expected a parse error"),
    }
}

#[test]
fn a_single_variable_is_trimmed() {
    let format: Format<DynPlaceholder> =
        Format::new(&echo_registry(), template("{{  id }}"), false).unwrap();
    assert!(matches!(
        &format.format[1],
        FormatSection::Variable(Variable::SinglePartVariable(key)) if key == "id"
    ));
    let pairs = vec![KeyValue { key: "id".to_string(), text: "42".to_string(), structure: Err(String::new()) }];
    assert_eq!(format.render(&record(pairs)), "42");
}

#[test]
fn fragments_render_section_by_section() {
    let format: Format<DynPlaceholder> =
        Format::new(&default_placeholders(), template("[{{level()}}] {{ id }}"), false).unwrap();
    assert_eq!(format.fragments(&record(Vec::new())), vec!["[", "INFO", "] ", "{undefined}", ""]);
    assert_eq!(format.format[1].render(&record(Vec::new())), "INFO");
    assert_eq!(join(&vec!["a".to_string(), "".to_string(), "b".to_string()]), "ab");
}

#[test]
fn with_names_goes_by_the_names_it_is_given() {
    let registry = echo_registry();
    let names = vec!["other".to_string(), "echo".to_string(), "strict".to_string()];
    let format: Format<DynPlaceholder> =
        Format::with_names(&registry, &names, template("{{echo()}}"), false).unwrap();
    assert_eq!(format.render(&record(Vec::new())), "second[path=None,color=None]");
}

#[test]
fn plans_one_expression() {
    let names = vec!["a".to_string(), "b".to_string(), "a".to_string()];
    let call = |key: &str, settings: Option<&str>| Expression {
        key: Some(key.to_string()),
        call: true,
        settings: settings.map(|text| text.to_string()),
    };
    match plan(&call("a", None), &names, &Vec::new(), true) {
        Ok(Planned::Placeholder(0, None)) => {}
        _ => panic!("expected the first builder and no settings"),
    }
    match plan(&call("b", Some("{\"x\": 1}")), &names, &Vec::new(), true) {
        Ok(Planned::Placeholder(1, Some(settings))) => {
            assert_eq!(settings.get("path").and_then(|flag| flag.as_bool()), Some(true));
            assert!(matches!(settings.get("x"), Some(Json::Number(digits)) if digits == "1"));
        }
        _ => panic!("expected the second builder with settings"),
    }
    assert!(matches!(
        plan(&call("c", None), &names, &Vec::new(), true),
        Err(FormatError::MissingKey(name)) if name == "Missing Placeholder c"
    ));
    let keyless = Expression { key: None, call: false, settings: None };
    assert!(matches!(
        plan(&keyless, &names, &Vec::new(), true),
        Err(FormatError::MissingKey(name)) if name == "Missing Key"
    ));
    let variable = Expression { key: Some(" user.name ".to_string()), call: false, settings: None };
    assert!(matches!(
        plan(&variable, &names, &Vec::new(), true),
        Ok(Planned::Variable(Variable::PathVariable(top, path))) if top == "user" && path == vec!["name"]
    ));
}

#[test]
fn helpers_of_the_compiler() {
    let names = vec!["a".to_string(), "b".to_string(), "a".to_string()];
    assert_eq!(find_name(&names, "a"), Some(0));
    assert_eq!(find_name(&names, "b"), Some(1));
    assert_eq!(find_name(&names, "c"), None);
    assert!(matches!(variable_for("a.b.c"), Variable::PathVariable(top, path) if top == "a" && path == vec!["b", "c"]));
    assert!(matches!(variable_for(" a. b "), Variable::PathVariable(top, path) if top == "a" && path == vec![" b"]));
    assert!(matches!(variable_for("."), Variable::PathVariable(top, path) if top.is_empty() && path == vec![""]));
    assert!(matches!(variable_for(" plain "), Variable::SinglePartVariable(key) if key == "plain"));
    let named = vec![Member { key: "n".to_string(), value: Json::parse("{\"k\": \"v\"}").unwrap() }];
    let settings = resolve_settings("n", &named, false).unwrap();
    assert_eq!(settings.get("path").and_then(|flag| flag.as_bool()), Some(false));
    assert_eq!(
        settings.get("k").and_then(|text| text.as_str()).map(|text| text.as_str()),
        Some("v")
    );
    assert!(resolve_settings("{\"a\": 1}", &named, true).is_ok());
    assert!(matches!(resolve_settings("m", &named, false), Err(FormatError::MissingKey(_))));
    assert!(matches!(resolve_settings("{m}", &named, false), Err(FormatError::SettingParseError(_))));
}

#[test]
fn assembles_texts_and_expressions_in_turn() {
    let registry = echo_registry();
    let names = vec!["echo".to_string(), "echo".to_string(), "strict".to_string()];
    let pieces = vec!["a ".to_string(), " b ".to_string(), "".to_string()];
    let expressions = vec![
        Expression { key: Some("echo".to_string()), call: true, settings: Some("n".to_string()) },
        Expression { key: Some(" x.y ".to_string()), call: false, settings: None },
    ];
    let named = vec![Member { key: "n".to_string(), value: Json::parse("{\"color\": true}").unwrap() }];
    let format: Format<DynPlaceholder> =
        Format::assemble(&registry, &names, &pieces, &expressions, &named, true).unwrap();
    let kinds: Vec<&str> = format.format.iter().map(kind).collect();
    assert_eq!(kinds, vec!["text", "placeholder", "text", "variable", "text"]);
    assert_eq!(
        format.render(&record(Vec::new())),
        "a first[path=Some(true),color=Some(true)] b {undefined}"
    );
    let failing = vec![
        Expression { key: Some("x".to_string()), call: false, settings: None },
        Expression { key: Some("gone".to_string()), call: true, settings: None },
    ];
    let out: Result<Format<DynPlaceholder>, FormatError> =
        Format::assemble(&registry, &names, &pieces, &failing, &named, true);
    assert!(matches!(out, Err(FormatError::MissingKey(name)) if name == "Missing Placeholder gone"));
    let only: Format<DynPlaceholder> =
        Format::assemble(&registry, &names, &vec!["solo".to_string()], &Vec::new(), &named, true)
            .unwrap();
    assert_eq!(only.format.len(), 1);
}

#[test]
fn registries_grow_at_the_end() {
    let registry: Vec<u8> = empty_registry();
    assert!(registry.is_empty());
    let registry = register(register(registry, 7), 9);
    assert_eq!(registry, vec![7, 9]);
    let config = FormatConfig::new("x".to_string());
    assert_eq!(config.format, "x");
    assert!(config.placeholders.is_empty());
}

#[test]
fn scans_texts_and_expressions() {
    let (pieces, expressions) = scan("a {{x()}} b {{ y.z }}{{w({\"k\": \")\"})}}!");
    assert_eq!(pieces, vec!["a ", " b ", "", "!"]);
    let read: Vec<(Option<&str>, bool, Option<&str>)> = expressions
        .iter()
        .map(|e| (e.key.as_deref(), e.call, e.settings.as_deref()))
        .collect();
    assert_eq!(
        read,
        vec![
            (Some("x"), true, None),
            (Some(" y.z "), false, None),
            (Some("w"), true, Some("{\"k\": \")\"}")),
        ]
    );
    let (pieces, expressions) = scan("no expression {here}");
    assert_eq!(pieces, vec!["no expression {here}"]);
    assert!(expressions.is_empty());
    let (pieces, expressions) = scan("{{module()}} {{level()}}");
    assert_eq!(pieces, vec!["", " ", ""]);
    assert_eq!(expressions.len(), 2);
    assert_eq!(builder_names(&default_placeholders()), vec!["message", "level", "module"]);
}
