use nitro_log::config::FormatConfig;
use nitro_log::format::Format;
use nitro_log::loggers::tree::{LoggerTree, TreeNode};
use nitro_log::loggers::Logger;
use nitro_log::placeholder::{default_placeholders, DynPlaceholder};
use nitro_log::record::Level;

type Tagged = Logger<DynPlaceholder, u32>;

fn logger(tag: u32, module: Option<&str>, always_execute: bool) -> Tagged {
    let registry = default_placeholders();
    Logger {
        module: module.map(|path| path.to_string()),
        levels: vec![Level::Info],
        targets: vec![tag],
        always_execute,
        structure_dump: false,
        format: Format::new(&registry, FormatConfig::new("{{message()}}".to_string()), false)
            .unwrap(),
    }
}

fn tags(found: Option<Vec<&Tagged>>) -> Vec<u32> {
    found.unwrap().iter().map(|logger| logger.targets[0]).collect()
}

#[test]
fn always_execute_cascades_and_exact_match_does_not() {
    let tree = LoggerTree::new(
        Vec::new(),
        vec![logger(1, Some("app"), true), logger(2, Some("app::db"), false)],
    );
    assert_eq!(tags(tree.find_logger("app::db::pool")), vec![1]);
    assert_eq!(tags(tree.find_logger("app::db")), vec![2, 1]);
    assert_eq!(tags(tree.find_logger("app")), vec![1]);
}

#[test]
fn loggers_of_one_node_keep_their_registration_order() {
    let tree = LoggerTree::new(
        Vec::new(),
        vec![logger(1, Some("app::db"), false), logger(2, Some("app::db"), false)],
    );
    assert_eq!(tags(tree.find_logger("app::db")), vec![1, 2]);
    let tree = LoggerTree::new(
        Vec::new(),
        vec![logger(2, Some("app::db"), false), logger(1, Some("app::db"), false)],
    );
    assert_eq!(tags(tree.find_logger("app::db")), vec![2, 1]);
}

#[test]
fn an_unknown_first_segment_gives_the_default_loggers() {
    let tree = LoggerTree::new(
        vec![logger(9, None, false), logger(8, None, true)],
        vec![logger(1, Some("app"), false)],
    );
    assert_eq!(tags(tree.find_logger("other::thing")), vec![9, 8]);
    assert_eq!(tags(tree.find_logger("")), vec![9, 8]);
}

#[test]
fn a_known_first_segment_keeps_only_the_cascading_defaults() {
    let tree = LoggerTree::new(
        vec![logger(9, None, false), logger(8, None, true)],
        vec![logger(1, Some("app"), false)],
    );
    assert_eq!(tags(tree.find_logger("app")), vec![1, 8]);
    assert_eq!(tags(tree.find_logger("app::deeper")), vec![8]);
}

#[test]
fn resolution_may_be_empty_and_never_fails() {
    let tree = LoggerTree::new(Vec::new(), vec![logger(1, Some("app::db"), false)]);
    assert_eq!(tags(tree.find_logger("app")), Vec::<u32>::new());
    assert_eq!(tags(tree.find_logger("app::db::pool::conn")), Vec::<u32>::new());
    assert_eq!(tags(tree.find_logger("::")), Vec::<u32>::new());
    let empty: LoggerTree<DynPlaceholder, u32> = LoggerTree::new(Vec::new(), Vec::new());
    assert!(empty.find_logger("anything").is_some());
}

#[test]
fn the_deepest_loggers_come_first() {
    let tree = LoggerTree::new(
        vec![logger(0, None, true)],
        vec![
            logger(1, Some("a"), true),
            logger(2, Some("a::b"), true),
            logger(3, Some("a::b::c"), false),
        ],
    );
    assert_eq!(tags(tree.find_logger("a::b::c")), vec![3, 2, 1, 0]);
    assert_eq!(tags(tree.find_logger("a::b::c::d")), vec![2, 1, 0]);
}

#[test]
fn lookup_ignores_ascii_case_and_insertion_does_not() {
    let mut tree = LoggerTree::new(Vec::new(), vec![logger(1, Some("App"), false)]);
    assert_eq!(tags(tree.find_logger("app")), vec![1]);
    assert_eq!(tags(tree.find_logger("APP")), vec![1]);
    tree.add_node_lookup(logger(2, Some("app"), false), "app".to_string());
    assert_eq!(tree.children.len(), 2);
    assert_eq!(tree.children[1].module, "app");
    assert_eq!(tags(tree.find_logger("app")), vec![1]);
}

#[test]
fn insertion_creates_the_nodes_on_the_way() {
    let mut tree: LoggerTree<DynPlaceholder, u32> = LoggerTree::new(Vec::new(), Vec::new());
    tree.add_node_lookup(logger(1, Some("a::b"), false), "a::b".to_string());
    tree.add_node_lookup(logger(2, Some("a::c"), false), "a::c".to_string());
    assert_eq!(tree.children.len(), 1);
    assert_eq!(tree.children[0].module, "a");
    assert!(tree.children[0].loggers.is_empty());
    let names: Vec<&str> =
        tree.children[0].children.iter().map(|node| node.module.as_str()).collect();
    assert_eq!(names, vec!["b", "c"]);
}

#[test]
fn a_node_resolves_and_inserts_relative_paths() {
    let mut node: TreeNode<DynPlaceholder, u32> =
        TreeNode { module: "a".to_string(), loggers: Vec::new(), children: Vec::new() };
    let path = vec!["b".to_string(), "c".to_string()];
    assert!(node.add_node_lookup(logger(1, Some("a::b::c"), true), &path));
    assert!(node.add_node_lookup(logger(2, Some("a"), false), &Vec::new()));
    assert_eq!(tags(node.find_logger(&path)), vec![1]);
    assert_eq!(tags(node.find_logger(&Vec::new())), vec![2]);
    let deeper = vec!["b".to_string(), "c".to_string(), "d".to_string()];
    assert_eq!(tags(node.find_logger(&deeper)), vec![1]);
    assert_eq!(tags(node.find_logger(&vec!["b".to_string()])), Vec::<u32>::new());
}

#[test]
fn module_matches_the_exact_path_only() {
    let with = logger(1, Some("app::db"), false);
    assert!(with.module_matches("app::db"));
    assert!(!with.module_matches("app"));
    assert!(!with.module_matches("APP::DB"));
    assert!(!logger(2, None, false).module_matches(""));
    assert!(with.accepts(Level::Info));
    assert!(!with.accepts(Level::Trace));
}
