use juncture_core::edge::{CompiledEdge, PathMap, RouteResult, TriggerSource, TriggerTable};

#[test]
fn test_path_map_macro_str_literals() {
    let mut pm = PathMap::new();
    pm.insert("approve", "publish");
    pm.insert("reject", "archive");
    assert_eq!(pm.get("approve"), Some(&"publish".to_string()));
    assert_eq!(pm.get("reject"), Some(&"archive".to_string()));
    assert_eq!(pm.len(), 2);
}

#[test]
fn test_path_map_macro_trailing_comma() {
    let mut pm = PathMap::new();
    pm.insert("start", "middle");
    pm.insert("middle", "end");
    assert_eq!(pm.get("start"), Some(&"middle".to_string()));
    assert_eq!(pm.get("middle"), Some(&"end".to_string()));
}

#[test]
fn test_path_map_macro_owned_strings() {
    let key = "hello".to_string();
    let val = "world".to_string();
    let mut pm = PathMap::new();
    pm.insert(&key, &val);
    assert_eq!(pm.get("hello"), Some(&"world".to_string()));
}

#[test]
fn test_path_map_macro_single_entry() {
    let mut pm = PathMap::new();
    pm.insert("only", "entry");
    assert_eq!(pm.len(), 1);
    assert_eq!(pm.get("only"), Some(&"entry".to_string()));
}

#[test]
fn path_map_insert_replaces_in_place() {
    let mut pm = PathMap::new();
    pm.insert("a", "x");
    pm.insert("b", "y");
    pm.insert("a", "z");
    assert_eq!(pm.len(), 2);
    assert_eq!(pm.get("a"), Some(&"z".to_string()));
    assert_eq!(pm.iter()[0].0, "a");
    assert_eq!(pm.iter()[0].1, "z");
    assert!(pm.contains_key("b"));
    assert!(!pm.contains_key("c"));
    assert_eq!(pm.get("c"), None);
    assert!(!pm.is_empty());
    assert!(PathMap::new().is_empty());
}

#[test]
fn route_result_targets() {
    let one = RouteResult::One("a".to_string());
    assert_eq!(one.as_target(), Some("a"));
    assert_eq!(one.targets(), vec!["a"]);
    let many = RouteResult::Multiple(vec!["b".to_string(), "c".to_string()]);
    assert_eq!(many.as_target(), None);
    assert_eq!(many.targets(), vec!["b", "c"]);
}

#[test]
fn trigger_table_groups_by_node_in_first_added_order() {
    let mut t = TriggerTable::new();
    t.add_outgoing("a".to_string(), CompiledEdge::Fixed { target: "b".to_string() });
    t.add_outgoing("c".to_string(), CompiledEdge::Fixed { target: "d".to_string() });
    t.add_outgoing("a".to_string(), CompiledEdge::Fixed { target: "e".to_string() });
    t.add_incoming("b".to_string(), TriggerSource::Edge { from: "a".to_string() });
    let sources: Vec<String> = t.sources().into_iter().cloned().collect();
    assert_eq!(sources, vec!["a".to_string(), "c".to_string()]);
    assert_eq!(t.outgoing()[0].1.len(), 2);
    let targets: Vec<String> = t.targets().into_iter().cloned().collect();
    assert_eq!(targets, vec!["b".to_string()]);
}

#[test]
fn path_map_from_pairs_keeps_first_place_and_last_target() {
    let pm = PathMap::from_pairs(&[("a", "x"), ("b", "y"), ("a", "z")]);
    assert_eq!(pm.len(), 2);
    assert_eq!(pm.get("a"), Some(&"z".to_string()));
    assert_eq!(pm.get("b"), Some(&"y".to_string()));
    assert_eq!(pm.iter()[0].0, "a");
    assert!(PathMap::from_pairs(&[]).is_empty());
}

#[test]
fn sources_and_targets_list_each_added_node_once() {
    let mut t = TriggerTable::new();
    t.add_outgoing("a".to_string(), CompiledEdge::Fixed { target: "b".to_string() });
    t.add_incoming("b".to_string(), TriggerSource::Edge { from: "a".to_string() });
    t.add_outgoing("a".to_string(), CompiledEdge::Fixed { target: "c".to_string() });
    t.add_incoming("c".to_string(), TriggerSource::Edge { from: "a".to_string() });
    t.add_incoming("b".to_string(), TriggerSource::Edge { from: "x".to_string() });
    let sources: Vec<String> = t.sources().into_iter().cloned().collect();
    assert_eq!(sources, vec!["a".to_string()]);
    let targets: Vec<String> = t.targets().into_iter().cloned().collect();
    assert_eq!(targets, vec!["b".to_string(), "c".to_string()]);
}
