use juncture_core::checkpoint::CheckpointNamespace;
use juncture_core::config::RunnableConfig;

#[test]
fn test_runnable_config_new() {
    let config = RunnableConfig::new();
    assert_eq!(config.recursion_limit, 25);
    assert_eq!(config.max_parallel_tasks, 100);
    assert!(config.thread_id.is_none());
    assert!(config.checkpoint_id.is_none());
    assert!(config.resume_value.is_none());
}

#[test]
fn runnable_config_builders_set_each_field() {
    let config = RunnableConfig::new()
        .with_thread_id("t1".to_string())
        .with_checkpoint_id("c1".to_string())
        .with_recursion_limit(7)
        .with_max_parallel_tasks(3)
        .with_run_name("run".to_string())
        .with_graph_name("graph".to_string())
        .with_checkpoint_ns(CheckpointNamespace::parse("a|b"))
        .with_tag("x".to_string())
        .with_tag("y".to_string())
        .with_metadata("k".to_string(), serde_json::Value::Bool(true))
        .with_metadata("k".to_string(), serde_json::Value::Bool(false))
        .with_interrupt_before(vec!["n1".to_string()])
        .with_interrupt_after(vec!["n2".to_string()]);
    assert_eq!(config.thread_id.as_deref(), Some("t1"));
    assert_eq!(config.checkpoint_id.as_deref(), Some("c1"));
    assert_eq!(config.recursion_limit, 7);
    assert_eq!(config.max_parallel_tasks, 3);
    assert_eq!(config.run_name.as_deref(), Some("run"));
    assert_eq!(config.graph_name.as_deref(), Some("graph"));
    assert_eq!(config.checkpoint_ns.as_ref().map(|n| n.as_str()), Some("a|b".to_string()));
    assert_eq!(config.tags, vec!["x".to_string(), "y".to_string()]);
    assert_eq!(config.metadata.len(), 1);
    assert_eq!(config.metadata["k"], false);
    assert_eq!(config.interrupt_before, Some(vec!["n1".to_string()]));
    assert_eq!(config.interrupt_after, Some(vec!["n2".to_string()]));
}
