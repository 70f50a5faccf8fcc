use juncture_core::func::{cache_key_with_hash, compile_entrypoint, compile_entrypoint_with_config, hex16, hex32, task_cache_key};
use juncture_core::graph::topology::TopologyError;

#[test]
fn test_compile_entrypoint_basic() {
    let result = compile_entrypoint();
    result.unwrap();
}

#[test]
fn entrypoint_uses_configured_name() {
    let g = compile_entrypoint_with_config(Some("my_workflow")).unwrap();
    assert_eq!(g.nodes(), &vec!["my_workflow".to_string()]);
    assert!(g.trigger_table().outgoing().is_empty());
    assert_eq!(g.trigger_table().incoming()[0].0, "my_workflow");
    let g = compile_entrypoint().unwrap();
    assert_eq!(g.nodes(), &vec!["__entrypoint__".to_string()]);
}

#[test]
fn entrypoint_refuses_bad_names() {
    match compile_entrypoint_with_config(Some("a:b")) {
        Err(TopologyError::InvalidNodeName { name, .. }) => assert_eq!(name, "a:b"),
        other => panic!("unexpected {:?}", other.err()),
    }
    assert!(compile_entrypoint_with_config(Some("")).is_err());
}

#[test]
fn hex_and_cache_keys() {
    assert_eq!(hex16(0), "0000000000000000");
    assert_eq!(hex16(255), "00000000000000ff");
    assert_eq!(hex16(u64::MAX), "ffffffffffffffff");
    assert_eq!(hex16(0x0123_4567_89ab_cdef), "0123456789abcdef");
    assert_eq!(cache_key_with_hash("t", 0xab), "task:t:00000000000000ab");
    let k = task_cache_key("my_task", &serde_json::Value::Null);
    assert!(k.starts_with("task:my_task:"));
    assert_eq!(k.len(), "task:my_task:".len() + 16);
    assert_eq!(k, task_cache_key("my_task", &serde_json::Value::Null));
}

#[test]
fn test_compile_entrypoint_with_config() {
    let result = compile_entrypoint_with_config(Some("custom_entrypoint"));
    result.unwrap();
}

#[test]
fn hex32_pads_to_32_digits() {
    assert_eq!(hex32(0x0123_4567_89ab_cdef_0011_2233_4455_6677), "0123456789abcdef0011223344556677");
    assert_eq!(hex32(1), "00000000000000000000000000000001");
}

#[test]
fn entrypoint_graph_draws_its_entry_line() {
    let g = compile_entrypoint_with_config(Some("a")).unwrap();
    assert_eq!(g.find_entry_point(), Some("a".to_string()));
    assert!(g.to_mermaid().contains("START((start)) --> a"));
    assert!(g.to_dot().contains("START -> a;"));
}

#[test]
fn task_cache_key_depends_on_the_arguments() {
    let a = task_cache_key("t", &serde_json::Value::Bool(true));
    let b = task_cache_key("t", &serde_json::Value::Bool(false));
    assert_ne!(a, b);
    assert!(a.starts_with("task:t:"));
    assert_eq!(a.len(), "task:t:".len() + 16);
}
