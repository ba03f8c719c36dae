use nitro_log::error::Error;
use nitro_log::format::FormatError;
use nitro_log::kv::default_structure_dump::DefaultStructureDump;
use nitro_log::kv::dynamic_variables::DynamicVariableVisitor;
use nitro_log::kv::{find, follow, undefined, Variable};
use nitro_log::record::{KeyValue, Level};
use nitro_log::text::{chars_of, has_char, is_braced, join_with, same_text, split, text_of, trim};
use nitro_log::value::{copy_members, Json, Member};

fn pair(key: &str, text: &str, structure: Result<Json, String>) -> KeyValue {
    KeyValue { key: key.to_string(), text: text.to_string(), structure }
}

fn text_at<'a>(value: &'a Json, key: &str) -> Option<&'a str> {
    value.get(key).and_then(|found| found.as_str()).map(|text| text.as_str())
}

#[test]
fn parses_json_into_its_members() {
    let value = Json::parse("{\"b\": {\"c\": [1, true, null, \"x\"]}, \"a\": \"text\", \"n\": 1.5}")
        .unwrap();
    assert!(value.is_object());
    assert_eq!(text_at(&value, "a"), Some("text"));
    assert!(value.get("missing").is_none());
    match value.get("n") {
        Some(Json::Number(digits)) => assert_eq!(digits, "1.5"),
        _ => panic!("expected a number"),
    }
    match value.get("b").and_then(|inner| inner.get("c")) {
        Some(Json::List(items)) => {
            assert_eq!(items.len(), 4);
            assert!(matches!(&items[0], Json::Number(digits) if digits == "1"));
            assert_eq!(items[1].as_bool(), Some(true));
            assert!(matches!(items[2], Json::Null));
            assert_eq!(items[3].as_str().map(|text| text.as_str()), Some("x"));
        }
        _ => panic!("expected a list"),
    }
}

#[test]
fn rejects_text_that_is_no_json() {
    assert!(Json::parse("{\"a\": }").is_err());
    assert!(Json::parse("").is_err());
    assert!(!Json::parse("{oops").unwrap_err().is_empty());
}

#[test]
fn only_objects_have_members() {
    assert!(Json::parse("[1]").unwrap().get("0").is_none());
    assert!(Json::parse("\"a\"").unwrap().get("a").is_none());
    assert!(!Json::parse("3").unwrap().is_object());
    assert_eq!(Json::parse("true").unwrap().as_bool(), Some(true));
    assert_eq!(Json::parse("\"true\"").unwrap().as_bool(), None);
    assert!(Json::parse("true").unwrap().as_str().is_none());
}

#[test]
fn with_member_overwrites_or_appends() {
    let value = Json::parse("{\"path\": 1, \"other\": \"kept\"}").unwrap();
    let value = value.with_member("path".to_string(), Json::Bool(true));
    assert_eq!(value.get("path").and_then(|flag| flag.as_bool()), Some(true));
    assert_eq!(text_at(&value, "other"), Some("kept"));
    let value = value.with_member("new".to_string(), Json::Text("x".to_string()));
    assert_eq!(text_at(&value, "new"), Some("x"));
    assert_eq!(value.get("path").and_then(|flag| flag.as_bool()), Some(true));
    match &value {
        Json::Object(members) => {
            let keys: Vec<&str> = members.iter().map(|member| member.key.as_str()).collect();
            assert_eq!(keys, vec!["other", "path", "new"]);
        }
        _ => panic!("expected an object"),
    }
    let plain = Json::Text("t".to_string()).with_member("k".to_string(), Json::Null);
    assert_eq!(plain.as_str().map(|text| text.as_str()), Some("t"));
}

#[test]
fn copies_hold_the_same_content() {
    let value = Json::parse("{\"a\": [{\"b\": \"c\"}], \"d\": false}").unwrap();
    let copy = value.copy();
    assert_eq!(copy.get("d").and_then(|flag| flag.as_bool()), Some(false));
    match copy.get("a") {
        Some(Json::List(items)) => assert_eq!(text_at(&items[0], "b"), Some("c")),
        _ => panic!("expected a list"),
    }
    let members = vec![Member { key: "k".to_string(), value: Json::Bool(true) }];
    let copied = copy_members(&members);
    assert_eq!(copied.len(), 1);
    assert_eq!(copied[0].key, "k");
    assert_eq!(copied[0].value.as_bool(), Some(true));
}

#[test]
fn the_first_member_of_a_key_counts() {
    let value = Json::Object(vec![
        Member { key: "k".to_string(), value: Json::Text("first".to_string()) },
        Member { key: "k".to_string(), value: Json::Text("second".to_string()) },
    ]);
    assert_eq!(text_at(&value, "k"), Some("first"));
}

#[test]
fn splits_at_every_separator() {
    assert_eq!(split("a::b::c", "::"), vec!["a", "b", "c"]);
    assert_eq!(split("app", "::"), vec!["app"]);
    assert_eq!(split("", "::"), vec![""]);
    assert_eq!(split("::a::", "::"), vec!["", "a", ""]);
    assert_eq!(split("a:::b", "::"), vec!["a", ":b"]);
    assert_eq!(split("a::::b", "::"), vec!["a", "", "b"]);
    assert_eq!(split("user.name.first", "."), vec!["user", "name", "first"]);
    assert_eq!(split("abc", ""), vec!["abc"]);
    assert_eq!(split("\u{e9}::\u{4e16}", "::"), vec!["\u{e9}", "\u{4e16}"]);
}

#[test]
fn trims_white_space_at_both_ends() {
    assert_eq!(trim("  user.name \t\n"), "user.name");
    assert_eq!(trim("a b"), "a b");
    assert_eq!(trim("   "), "");
    assert_eq!(trim(""), "");
    assert_eq!(trim("\u{a0}x\u{2003}"), "x");
}

#[test]
fn text_helpers_read_characters() {
    assert_eq!(chars_of("a\u{e9}"), vec!['a', '\u{e9}']);
    assert_eq!(text_of(&vec!['a', 'b', 'c'], 1, 3), "bc");
    assert!(same_text("a", "a"));
    assert!(!same_text("a", "A"));
    assert!(has_char("user.name", '.'));
    assert!(!has_char("user", '.'));
    assert!(is_braced("{}"));
    assert!(is_braced("{\"a\": 1}"));
    assert!(!is_braced("{"[..0].as_ref()));
    assert!(!is_braced("name"));
    assert!(!is_braced("{name"));
    assert_eq!(join_with(&vec!["a".to_string(), "b".to_string(), "".to_string()], '/'), "a/b/");
    assert_eq!(join_with(&Vec::new(), '/'), "");
    assert_eq!(join_with(&vec!["one".to_string()], '/'), "one");
}

#[test]
fn a_single_variable_prints_the_attribute() {
    let source = vec![pair("id", "42", Err("plain".to_string()))];
    let variable = Variable::SinglePartVariable("id".to_string());
    assert_eq!(variable.get_value(&source), "42");
    assert_eq!(Variable::SinglePartVariable("nope".to_string()).get_value(&source), "{undefined}");
    assert_eq!(undefined(), "{undefined}");
}

#[test]
fn a_path_variable_follows_the_structure() {
    let user = Json::parse("{\"name\": {\"first\": \"ada\"}, \"age\": 36}").unwrap();
    let source = vec![pair("user", "User", Ok(user))];
    let path = |keys: &[&str]| {
        Variable::PathVariable("user".to_string(), keys.iter().map(|key| key.to_string()).collect())
    };
    assert_eq!(path(&["name", "first"]).get_value(&source), "ada");
    assert_eq!(path(&["name", "last"]).get_value(&source), "{undefined}");
    assert_eq!(path(&["name"]).get_value(&source), "{undefined}");
    assert_eq!(path(&["age"]).get_value(&source), "{undefined}");
    assert_eq!(path(&["age", "years"]).get_value(&source), "{undefined}");
    let missing = Variable::PathVariable("team".to_string(), vec!["name".to_string()]);
    assert_eq!(missing.get_value(&source), "{undefined}");
}

#[test]
fn an_attribute_without_structure_says_why() {
    let source = vec![pair("user", "User", Err("not serializable".to_string()))];
    let variable = Variable::PathVariable("user".to_string(), vec!["name".to_string()]);
    assert_eq!(
        variable.get_value(&source),
        "(Unable to parse via serde_json: not serializable)"
    );
}

#[test]
fn the_visitor_keeps_the_last_attribute_of_the_name() {
    let pairs = vec![
        pair("a", "1", Err(String::new())),
        pair("b", "2", Err(String::new())),
        pair("a", "3", Err(String::new())),
    ];
    let mut visitor = DynamicVariableVisitor { variable_name: "a", option: None };
    visitor.visit_pair(&pairs[0]);
    assert_eq!(visitor.option.map(|found| found.text.as_str()), Some("1"));
    visitor.visit_pair(&pairs[1]);
    assert_eq!(visitor.option.map(|found| found.text.as_str()), Some("1"));
    visitor.visit_pair(&pairs[2]);
    assert_eq!(visitor.option.map(|found| found.text.as_str()), Some("3"));
    assert_eq!(find(&pairs, "a").map(|found| found.text.as_str()), Some("3"));
    assert_eq!(find(&pairs, "b").map(|found| found.text.as_str()), Some("2"));
    assert!(find(&pairs, "c").is_none());
}

#[test]
fn follow_walks_member_by_member() {
    let value = Json::parse("{\"a\": {\"b\": \"c\"}}").unwrap();
    let found = follow(&value, &vec!["a".to_string(), "b".to_string()]);
    assert_eq!(found.and_then(|text| text.as_str()).map(|text| text.as_str()), Some("c"));
    assert!(follow(&value, &vec!["b".to_string()]).is_none());
    assert!(follow(&value, &Vec::new()).unwrap().is_object());
}

#[test]
fn the_dump_has_a_line_for_each_attribute() {
    let mut dump = DefaultStructureDump { write: vec!["message".to_string()] };
    dump.visit_pair(&pair("user", "ada", Err(String::new())));
    dump.visit_pair(&pair("try", "3", Err(String::new())));
    assert_eq!(dump.write, vec!["message", "\n", "user: ada", "\n", "try: 3"]);
}

#[test]
fn levels_print_in_upper_case() {
    let names: Vec<&str> = [Level::Error, Level::Warn, Level::Info, Level::Debug, Level::Trace]
        .iter()
        .map(|level| level.as_str())
        .collect();
    assert_eq!(names, vec!["ERROR", "WARN", "INFO", "DEBUG", "TRACE"]);
}

#[test]
fn errors_print_their_message() {
    assert_eq!(FormatError::MissingKey("Value".to_string()).message(), "Missing Key Value");
    assert_eq!(FormatError::SettingParseError("bad".to_string()).message(), "bad");
    assert_eq!(Error::IOError("disk".to_string()).message(), "disk");
    assert_eq!(Error::SerdeJson("json".to_string()).message(), "json");
    assert_eq!(Error::SetLoggerError("twice".to_string()).message(), "twice");
    assert_eq!(
        Error::FormatGeneration(FormatError::MissingKey("x".to_string())).message(),
        "Failed to generate a Format: Missing Key x"
    );
    assert_eq!(
        Error::ConfigError("Placeholder".to_string(), "why".to_string()).message(),
        "Failed to load Placeholder config Error why"
    );
    let converted: Error = FormatError::MissingKey("k".to_string()).into();
    assert!(matches!(converted, Error::FormatGeneration(FormatError::MissingKey(_))));
}
