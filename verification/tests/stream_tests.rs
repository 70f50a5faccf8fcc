use juncture_core::stream::{
    forward_event, stream_capacity, values_action, DebugEvent, ForwardAction, MessageChunk, MessageStreamMetadata,
    StreamConfig, StreamEvent, StreamMode, StreamResumption, ValuesAction,
};

#[derive(Debug)]
struct StateDummy;

#[derive(Debug)]
struct StateDummyUpdate;

type Event = StreamEvent<StateDummy, StateDummyUpdate>;

fn messages_event(ns: Vec<String>, content: &str) -> Event {
    StreamEvent::Messages {
        chunk: MessageChunk { content: content.to_string(), tool_call_chunks: vec![], usage_delta: None },
        metadata: MessageStreamMetadata { node: "llm".to_string(), model: "gpt-4".to_string(), tags: vec![], ns },
    }
}

fn custom_event(ns: Vec<String>) -> Event {
    StreamEvent::Custom { node: "sub_node".to_string(), data: serde_json::Value::Null, ns }
}

#[test]
fn test_stream_event_namespace_messages_has_ns() {
    let event = messages_event(vec!["child_graph".to_string()], "hi");
    assert_eq!(event.namespace().len(), 1);
    assert_eq!(event.namespace()[0], "child_graph");
}

#[test]
fn test_stream_event_namespace_values_is_empty() {
    let event: Event = StreamEvent::Values { state: StateDummy, step: 0 };
    assert!(event.namespace().is_empty());
}

#[test]
fn test_stream_event_namespace_updates_is_empty() {
    let event: Event = StreamEvent::Updates { node: "n".to_string(), update: StateDummyUpdate, step: 0 };
    assert!(event.namespace().is_empty());
}

#[test]
fn test_stream_event_namespace_end_is_empty() {
    let event: Event = StreamEvent::End { output: StateDummy };
    assert!(event.namespace().is_empty());
}

#[test]
fn test_stream_event_namespace_task_start_is_empty() {
    let event: Event = StreamEvent::TaskStart { node: "n".to_string(), task_id: "t".to_string(), step: 0 };
    assert!(event.namespace().is_empty());
}

#[test]
fn test_stream_event_namespace_debug_is_empty() {
    let event: Event = StreamEvent::Debug(DebugEvent::SuperstepStart { step: 0, pending_nodes: vec![] });
    assert!(event.namespace().is_empty());
}

#[test]
fn test_subgraph_filter_applies_to_messages_events() {
    let subgraph_messages = messages_event(vec!["sub_llm".to_string()], "token");
    let include_subgraphs = false;
    assert!(!subgraph_messages.namespace().is_empty());
    let cfg = StreamConfig::new(StreamMode::Messages).with_subgraphs(include_subgraphs);
    assert_eq!(forward_event(&subgraph_messages, true, &cfg), ForwardAction::Skip);
}

#[test]
fn test_nested_subgraph_messages_filtering() {
    let nested_messages = messages_event(vec!["outer".to_string(), "inner".to_string()], "nested_token");
    assert_eq!(nested_messages.namespace(), &["outer", "inner"]);
    let cfg = StreamConfig::new(StreamMode::Messages);
    assert_eq!(forward_event(&nested_messages, true, &cfg), ForwardAction::Skip);
    let cfg = StreamConfig::new(StreamMode::Messages).with_subgraphs(true);
    assert_eq!(forward_event(&nested_messages, true, &cfg), ForwardAction::Forward);
}

#[test]
fn test_stream_config_subgraph_builder_methods() {
    let cfg = StreamConfig::new(StreamMode::Values);
    assert!(!cfg.include_subgraphs);
    assert!(cfg.subgraph_filter.is_none());
    let cfg = cfg.with_subgraphs(true);
    assert!(cfg.include_subgraphs);
    let cfg = cfg.with_subgraph_filter(vec!["sub_a".to_string()]);
    assert_eq!(cfg.subgraph_filter.as_ref().map(Vec::len), Some(1));
    assert_eq!(cfg.subgraph_filter.as_ref().and_then(|f| f.first().cloned()), Some("sub_a".to_string()));
}

#[test]
fn subgraph_filter_matches_the_outermost_name() {
    let nested = custom_event(vec!["parent".to_string(), "child".to_string(), "grandchild".to_string()]);
    let cfg = StreamConfig::new(StreamMode::Values).with_subgraphs(true).with_subgraph_filter(vec!["parent".to_string()]);
    assert_eq!(forward_event(&nested, true, &cfg), ForwardAction::Forward);
    let cfg = StreamConfig::new(StreamMode::Values).with_subgraphs(true).with_subgraph_filter(vec!["other".to_string()]);
    assert_eq!(forward_event(&nested, true, &cfg), ForwardAction::Skip);
    let top: Event = StreamEvent::Values { state: StateDummy, step: 3 };
    assert_eq!(forward_event(&top, true, &cfg), ForwardAction::Forward);
    assert_eq!(forward_event(&top, false, &cfg), ForwardAction::Skip);
}

#[test]
fn resumption_skips_steps_already_seen() {
    let cfg = StreamConfig::new(StreamMode::Updates).with_resumption(StreamResumption::new("run1".to_string(), None, Some(1)));
    let old: Event = StreamEvent::Updates { node: "n".to_string(), update: StateDummyUpdate, step: 1 };
    let new: Event = StreamEvent::Updates { node: "n".to_string(), update: StateDummyUpdate, step: 2 };
    let end: Event = StreamEvent::End { output: StateDummy };
    assert_eq!(forward_event(&old, true, &cfg), ForwardAction::Skip);
    assert_eq!(forward_event(&new, true, &cfg), ForwardAction::Forward);
    assert_eq!(forward_event(&end, true, &cfg), ForwardAction::Forward);
    let cfg = cfg.with_output_keys(vec!["messages".to_string()]);
    assert_eq!(forward_event(&new, true, &cfg), ForwardAction::ForwardFilteredUpdate);
    assert!(!StreamResumption::new("r".to_string(), None, None).should_skip(0));
}

#[test]
fn values_snapshots_follow_mode_resumption_and_keys() {
    let cfg = StreamConfig::new(StreamMode::Values).with_resumption(StreamResumption::new("run1".to_string(), None, Some(0)));
    assert_eq!(values_action(0, &cfg), ValuesAction::Skip);
    assert_eq!(values_action(1, &cfg), ValuesAction::Emit);
    let cfg = cfg.with_output_keys(vec!["messages".to_string()]);
    assert_eq!(values_action(1, &cfg), ValuesAction::EmitFiltered);
    assert_eq!(values_action(1, &StreamConfig::new(StreamMode::Updates)), ValuesAction::Skip);
}

#[test]
fn channel_capacity_depends_on_model_tokens() {
    assert_eq!(stream_capacity(&StreamMode::Messages), 256);
    assert_eq!(stream_capacity(&StreamMode::Values), 32);
    assert_eq!(stream_capacity(&StreamMode::Multi(vec![StreamMode::Values, StreamMode::Messages])), 256);
    assert_eq!(stream_capacity(&StreamMode::Multi(vec![StreamMode::Values, StreamMode::Updates])), 32);
    assert_eq!(stream_capacity(&StreamMode::Multi(vec![])), 32);
}

#[test]
fn end_is_forwarded_under_any_configuration() {
    let end: Event = StreamEvent::End { output: StateDummy };
    let cfg = StreamConfig::new(StreamMode::Values)
        .with_subgraphs(true)
        .with_subgraph_filter(vec!["x".to_string()])
        .with_output_keys(vec!["k".to_string()])
        .with_resumption(StreamResumption::new("r".to_string(), None, Some(100)));
    assert_eq!(forward_event(&end, true, &cfg), ForwardAction::Forward);
}
