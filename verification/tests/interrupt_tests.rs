use juncture_core::interrupt::{
    interrupt_id_from_digest, extract_namespace, get_resume_value, resume_or_signal, generate_interrupt_id, is_hidden_node, should_interrupt, validate_resume_coverage,
    InterruptSignal, ResumeValue, Scratchpad, HIDDEN_TAG,
};

#[test]
fn extract_namespace_with_namespace() {
    assert_eq!(extract_namespace("agent:review#0"), Some("agent"));
    assert_eq!(extract_namespace("namespace:node#index"), Some("namespace"));
}

#[test]
fn extract_namespace_without_namespace() {
    assert_eq!(extract_namespace("node_name#index"), None);
    assert_eq!(extract_namespace("simple_id"), None);
    assert_eq!(extract_namespace("no_colon"), None);
}

#[test]
fn extract_namespace_empty_namespace() {
    assert_eq!(extract_namespace(":node#index"), None);
    assert_eq!(extract_namespace(":only_colon"), None);
}

#[test]
fn hidden_node_double_underscore_prefix_and_suffix() {
    assert!(is_hidden_node("__route__", &[]));
    assert!(is_hidden_node("__internal__", &[]));
    assert!(is_hidden_node("__error_handler__", &[]));
}

#[test]
fn normal_nodes_are_not_hidden() {
    assert!(!is_hidden_node("my_node", &[]));
    assert!(!is_hidden_node("agent", &[]));
    assert!(!is_hidden_node("review", &[]));
}

#[test]
fn partial_underscore_prefix_is_not_hidden() {
    assert!(!is_hidden_node("__incomplete", &[]));
    assert!(!is_hidden_node("__only_start", &[]));
}

#[test]
fn partial_underscore_suffix_is_not_hidden() {
    assert!(!is_hidden_node("only_end__", &[]));
    assert!(!is_hidden_node("incomplete__", &[]));
}

#[test]
fn bare_double_underscore_is_not_hidden() {
    assert!(!is_hidden_node("____", &[]));
}

#[test]
fn hidden_tag_constant_value() {
    assert_eq!(HIDDEN_TAG, "__hidden__");
}

#[test]
fn hidden_node_by_tag() {
    assert!(is_hidden_node("my_node", &["__hidden__".to_string()]));
    assert!(is_hidden_node("agent", &["__hidden__".to_string(), "other".to_string()]));
}

#[test]
fn hidden_node_by_tag_only_when_exact_match() {
    assert!(!is_hidden_node("my_node", &["_hidden_".to_string()]));
    assert!(!is_hidden_node("my_node", &["hidden".to_string()]));
    assert!(!is_hidden_node("my_node", &["__hidden".to_string()]));
    assert!(!is_hidden_node("my_node", &["hidden__".to_string()]));
}

#[test]
fn hidden_node_by_name_or_tag() {
    assert!(is_hidden_node("__internal__", &[]));
    assert!(is_hidden_node("normal_node", &["__hidden__".to_string()]));
    assert!(is_hidden_node("__internal__", &["__hidden__".to_string()]));
}

#[test]
fn normal_node_without_tag_not_hidden() {
    assert!(!is_hidden_node("my_node", &[]));
    assert!(!is_hidden_node("my_node", &["other_tag".to_string()]));
    assert!(!is_hidden_node("my_node", &["tag1".to_string(), "tag2".to_string()]));
}

fn signal(index: usize, id: Option<&str>) -> InterruptSignal {
    InterruptSignal {
        index,
        id: id.map(|s| s.to_string()),
        payload: serde_json::Value::Object(serde_json::Map::new()),
        timestamp: 0,
    }
}

#[test]
fn resume_coverage_complete_incomplete_and_without_ids() {
    let resume = vec![("int-1".to_string(), serde_json::Value::String("value".to_string()))];
    validate_resume_coverage(&[signal(0, Some("int-1"))], &resume).unwrap();
    let r = validate_resume_coverage(&[signal(0, Some("int-1")), signal(1, Some("int-2"))], &resume);
    assert_eq!(r.unwrap_err(), vec!["int-2".to_string()]);
    validate_resume_coverage(&[], &vec![]).unwrap();
    validate_resume_coverage(&[signal(0, None)], &vec![]).unwrap();
    let r = validate_resume_coverage(
        &[signal(0, Some("int-1")), signal(1, Some("int-2")), signal(2, Some("int-3"))],
        &vec![],
    );
    assert_eq!(r.unwrap_err(), vec!["int-1".to_string(), "int-2".to_string(), "int-3".to_string()]);
}

#[test]
fn resume_value_from_positions() {
    match ResumeValue::from_values(vec![]) {
        ResumeValue::Single(v) => assert!(v.is_null()),
        other => panic!("unexpected {other:?}"),
    }
    match ResumeValue::from_values(vec![serde_json::Value::Bool(true)]) {
        ResumeValue::Single(v) => assert_eq!(v, serde_json::Value::Bool(true)),
        other => panic!("unexpected {other:?}"),
    }
    match ResumeValue::from_values(vec![serde_json::Value::Bool(true), serde_json::Value::Bool(false)]) {
        ResumeValue::ByNamespace(m) => {
            assert_eq!(m.len(), 2);
            assert_eq!(m[0].0, "0");
            assert_eq!(m[1].0, "1");
            assert_eq!(m[1].1, serde_json::Value::Bool(false));
        }
        other => panic!("unexpected {other:?}"),
    }
}

#[test]
fn interrupt_ids_are_32_hex_digits_and_stable() {
    let id = generate_interrupt_id("my_node", 0);
    assert_eq!(id.len(), 32);
    assert!(id.chars().all(|c| c.is_ascii_hexdigit() && !c.is_ascii_uppercase()));
    assert_eq!(id, generate_interrupt_id("my_node", 0));
    assert_ne!(id, generate_interrupt_id("my_node", 1));
}

#[test]
fn should_interrupt_version_gate_and_nodes() {
    let tasks = vec!["a".to_string(), "__route__".to_string(), "b".to_string()];
    let before = vec!["a".to_string(), "__route__".to_string()];
    let after = vec!["a".to_string(), "b".to_string()];
    let versions = vec![("x".to_string(), 2u64)];
    let seen_same = vec![("x".to_string(), 2u64)];
    assert!(should_interrupt(&tasks, &before, &after, &versions, &seen_same).is_none());

    let seen_older = vec![("x".to_string(), 1u64)];
    let signals = should_interrupt(&tasks, &before, &after, &versions, &seen_older).unwrap();
    assert_eq!(signals.len(), 3);
    assert_eq!(signals[0].index, 0);
    assert_eq!(signals[0].payload["node"], "a");
    assert_eq!(signals[0].payload["reason"], "interrupt_before");
    assert_eq!(signals[1].payload["node"], "a");
    assert_eq!(signals[1].payload["reason"], "interrupt_after");
    assert_eq!(signals[2].index, 2);
    assert_eq!(signals[2].payload["node"], "b");
    assert_eq!(signals[2].id.as_deref(), Some(generate_interrupt_id("b", 2).as_str()));

    let none_seen: Vec<(String, u64)> = vec![];
    assert_eq!(should_interrupt(&tasks, &before, &after, &versions, &none_seen).unwrap().len(), 3);
    let quiet = vec!["c".to_string()];
    assert!(should_interrupt(&quiet, &before, &after, &versions, &none_seen).is_none());
}

#[test]
fn scratchpad_processed_data_and_history() {
    let mut pad = Scratchpad::new();
    assert!(!pad.get_null_resume("int-1"));
    pad.mark_interrupt_processed("int-1");
    assert!(pad.get_null_resume("int-1"));
    assert!(pad.is_interrupt_processed("int-1"));
    assert!(!pad.get_null_resume("int-2"));

    pad.set_data("temp_key".to_string(), serde_json::Value::String("temp".to_string()));
    pad.set_data("null_resume:persistent".to_string(), serde_json::Value::String("keep".to_string()));
    pad.set_data("temp_key".to_string(), serde_json::Value::String("temp2".to_string()));
    assert_eq!(pad.get_data("temp_key"), Some(&serde_json::Value::String("temp2".to_string())));
    pad.clear_transient();
    assert!(pad.get_data("temp_key").is_none());
    assert_eq!(
        pad.get_data("null_resume:persistent"),
        Some(&serde_json::Value::String("keep".to_string()))
    );

    pad.record_interrupt("int-1".to_string(), "node_a".to_string(), serde_json::Value::Null);
    pad.record_resume("nonexistent", serde_json::Value::Null);
    assert!(pad.interrupt_history()[0].resumed_at.is_none());
    pad.record_resume("int-1", serde_json::Value::String("approved".to_string()));
    let history = pad.interrupt_history();
    assert_eq!(history.len(), 1);
    assert_eq!(history[0].node, "node_a");
    assert!(history[0].resumed_at.is_some());
    assert_eq!(history[0].resume_value, Some(serde_json::Value::String("approved".to_string())));
}

#[test]
fn resume_or_signal_by_position() {
    let values = vec![None, Some(serde_json::Value::Bool(true))];
    assert_eq!(get_resume_value(&values, 1), Some(serde_json::Value::Bool(true)));
    assert_eq!(get_resume_value(&values, 0), None);
    assert_eq!(get_resume_value(&values, 7), None);
    assert_eq!(resume_or_signal(&values, 1, serde_json::Value::Null, None).unwrap(), serde_json::Value::Bool(true));
    let s = resume_or_signal(&values, 0, serde_json::Value::Null, Some("ask")).unwrap_err();
    assert_eq!(s.index, 0);
    assert_eq!(s.id.as_deref(), Some("ask"));
    let s = resume_or_signal(&values, 2, serde_json::Value::Null, None).unwrap_err();
    assert_eq!(s.id, Some(generate_interrupt_id("current_node", 2)));
}

fn object(key: &str, value: serde_json::Value) -> serde_json::Value {
    let mut m = serde_json::Map::new();
    m.insert(key.to_string(), value);
    serde_json::Value::Object(m)
}

#[test]
fn scratchpad_get_null_resume() {
    let mut pad = Scratchpad::new();
    assert!(!pad.get_null_resume("int-1"));
    pad.mark_interrupt_processed("int-1");
    assert!(pad.get_null_resume("int-1"));
    assert!(!pad.get_null_resume("int-2"));
}

#[test]
fn scratchpad_record_interrupt() {
    let mut pad = Scratchpad::new();
    pad.record_interrupt("int-1".to_string(), "node_a".to_string(), object("reason", serde_json::Value::from("test")));
    let history = pad.interrupt_history();
    assert_eq!(history.len(), 1);
    assert_eq!(history[0].id, "int-1");
    assert_eq!(history[0].node, "node_a");
    assert_eq!(history[0].payload["reason"], "test");
    assert!(history[0].resumed_at.is_none());
    assert!(history[0].resume_value.is_none());
}

#[test]
fn scratchpad_record_resume() {
    let mut pad = Scratchpad::new();
    pad.record_interrupt("int-1".to_string(), "node_a".to_string(), serde_json::Value::Object(serde_json::Map::new()));
    pad.record_resume("int-1", serde_json::Value::from("approved"));
    let history = pad.interrupt_history();
    assert_eq!(history.len(), 1);
    assert!(history[0].resumed_at.is_some());
    assert_eq!(history[0].resume_value, Some(serde_json::Value::from("approved")));
}

#[test]
fn scratchpad_clear_transient() {
    let mut pad = Scratchpad::new();
    pad.set_data("temp_key".to_string(), serde_json::Value::from("temp"));
    pad.set_data("null_resume:persistent".to_string(), serde_json::Value::from("keep"));
    pad.clear_transient();
    assert!(pad.get_data("temp_key").is_none());
    assert_eq!(pad.get_data("null_resume:persistent"), Some(&serde_json::Value::from("keep")));
}

#[test]
fn scratchpad_clear_transient_empty() {
    let mut pad = Scratchpad::new();
    pad.clear_transient();
    assert!(pad.get_data("temp_key").is_none());
    assert!(pad.interrupt_history().is_empty());
}

#[test]
fn scratchpad_record_resume_nonexistent() {
    let mut pad = Scratchpad::new();
    pad.record_resume("nonexistent", serde_json::Value::from("value"));
    assert_eq!(pad.interrupt_history().len(), 0);
}

#[test]
fn validate_resume_coverage_complete() {
    let pending = vec![signal(0, Some("int-1"))];
    let resume_values = vec![("int-1".to_string(), serde_json::Value::from("value"))];
    validate_resume_coverage(&pending, &resume_values).unwrap();
}

#[test]
fn validate_resume_coverage_incomplete() {
    let pending = vec![signal(0, Some("int-1")), signal(1, Some("int-2"))];
    let resume_values = vec![("int-1".to_string(), serde_json::Value::from("value"))];
    let result = validate_resume_coverage(&pending, &resume_values);
    assert!(result.is_err());
    assert_eq!(result.unwrap_err(), vec!["int-2".to_string()]);
}

#[test]
fn validate_resume_coverage_empty_pending() {
    let pending: Vec<InterruptSignal> = vec![];
    let resume_values = vec![];
    validate_resume_coverage(&pending, &resume_values).unwrap();
}

#[test]
fn validate_resume_coverage_no_id() {
    let pending = vec![signal(0, None)];
    let resume_values = vec![];
    validate_resume_coverage(&pending, &resume_values).unwrap();
}

#[test]
fn validate_resume_coverage_multiple_uncovered() {
    let pending = vec![signal(0, Some("int-1")), signal(1, Some("int-2")), signal(2, Some("int-3"))];
    let resume_values = vec![];
    let result = validate_resume_coverage(&pending, &resume_values);
    assert!(result.is_err());
    let uncovered = result.unwrap_err();
    assert_eq!(uncovered.len(), 3);
    assert!(uncovered.contains(&"int-1".to_string()));
    assert!(uncovered.contains(&"int-2".to_string()));
    assert!(uncovered.contains(&"int-3".to_string()));
}

#[test]
fn hidden_nodes_filtered_from_interrupt_before() {
    let tasks = vec!["agent".to_string(), "__route__".to_string(), "review".to_string()];
    let interrupt_before = vec!["agent".to_string(), "__route__".to_string(), "review".to_string()];
    let channel_versions = vec![("field_0".to_string(), 1u64)];
    let versions_seen: Vec<(String, u64)> = vec![];
    let result = should_interrupt(&tasks, &interrupt_before, &vec![], &channel_versions, &versions_seen);
    let signals = result.expect("should return signals");
    assert_eq!(signals.len(), 2, "hidden node __route__ should be filtered");
    let nodes: Vec<&str> = signals.iter().filter_map(|s| s.payload.get("node").and_then(|v| v.as_str())).collect();
    assert!(nodes.contains(&"agent"), "agent should be present");
    assert!(nodes.contains(&"review"), "review should be present");
    assert!(!nodes.contains(&"__route__"), "__route__ should be filtered");
}

#[test]
fn hidden_nodes_filtered_from_interrupt_after() {
    let tasks = vec!["agent".to_string(), "__internal_router__".to_string()];
    let interrupt_after = vec!["agent".to_string(), "__internal_router__".to_string()];
    let channel_versions = vec![("field_0".to_string(), 1u64)];
    let versions_seen: Vec<(String, u64)> = vec![];
    let result = should_interrupt(&tasks, &vec![], &interrupt_after, &channel_versions, &versions_seen);
    let signals = result.expect("should return signals");
    assert_eq!(signals.len(), 1, "only agent should produce a signal, __internal_router__ filtered");
    let node = signals[0].payload.get("node").and_then(|v| v.as_str()).expect("should have node");
    assert_eq!(node, "agent");
}

#[test]
fn all_hidden_nodes_produces_no_signals() {
    let tasks = vec!["__route__".to_string(), "__handler__".to_string()];
    let interrupt_before = vec!["__route__".to_string(), "__handler__".to_string()];
    let channel_versions = vec![("field_0".to_string(), 1u64)];
    let versions_seen: Vec<(String, u64)> = vec![];
    let result = should_interrupt(&tasks, &interrupt_before, &vec![], &channel_versions, &versions_seen);
    assert!(result.is_none(), "all-hidden-node tasks should produce no interrupt signals");
}

#[test]
fn interrupt_id_from_digest_pads_to_32_hex_digits() {
    assert_eq!(interrupt_id_from_digest(0), "00000000000000000000000000000000");
    assert_eq!(interrupt_id_from_digest(0xab), "000000000000000000000000000000ab");
    assert_eq!(interrupt_id_from_digest(u128::MAX), "ffffffffffffffffffffffffffffffff");
}

#[test]
fn interrupt_ids_depend_on_node_and_index() {
    assert_ne!(generate_interrupt_id("a", 0), generate_interrupt_id("b", 0));
    assert_ne!(generate_interrupt_id("a", 0), generate_interrupt_id("a", 1));
    assert_eq!(generate_interrupt_id("a", 3), generate_interrupt_id("a", 3));
}
