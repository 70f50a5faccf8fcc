use juncture_core::error::{ErrorCode, InvalidUpdateError, JunctureError, NodeTimeoutError};

#[test]
fn error_code_matches_error_kind() {
    assert_eq!(JunctureError::graph("x").code(), ErrorCode::Graph);
    assert_eq!(JunctureError::execution("x").code(), ErrorCode::Execution);
    assert_eq!(JunctureError::checkpoint("x").code(), ErrorCode::Checkpoint);
    assert_eq!(JunctureError::interrupt("x").code(), ErrorCode::Interrupt);
    assert_eq!(JunctureError::interrupted(0).code(), ErrorCode::Interrupted);
    assert_eq!(JunctureError::subgraph("x").code(), ErrorCode::Subgraph);
    assert_eq!(JunctureError::invalid_update("x").code(), ErrorCode::InvalidUpdate);
    assert_eq!(JunctureError::empty_channel().code(), ErrorCode::EmptyChannel);
    assert_eq!(JunctureError::empty_input().code(), ErrorCode::EmptyInput);
    assert_eq!(JunctureError::task_not_found("x").code(), ErrorCode::TaskNotFound);
    assert_eq!(JunctureError::timeout("x").code(), ErrorCode::Timeout);
    assert_eq!(JunctureError::recursion_limit(1, 10).code(), ErrorCode::RecursionLimit);
    assert_eq!(JunctureError::cancelled().code(), ErrorCode::Cancelled);
    assert_eq!(
        JunctureError::multiple_writers(0, vec!["a".to_string()]).code(),
        ErrorCode::MultipleWriters
    );
    assert_eq!(JunctureError::task_panicked("boom").code(), ErrorCode::TaskPanicked);
    assert_eq!(
        JunctureError::node_timeout(NodeTimeoutError::RunTimeout {
            node: "n".to_string(),
            timeout: 1000,
        })
        .code(),
        ErrorCode::NodeTimeout
    );
    assert_eq!(JunctureError::parent_command("publish").code(), ErrorCode::ParentCommand);
}

#[test]
fn node_timeout_error_construct_and_check() {
    let err = JunctureError::node_timeout(NodeTimeoutError::RunTimeout {
        node: "my_node".to_string(),
        timeout: 5000,
    });
    assert!(err.is_node_timeout());
    assert!(!err.is_execution());
    assert_eq!(err.code(), ErrorCode::NodeTimeout);
}

#[test]
fn node_timeout_juncture_error_display() {
    let err = JunctureError::node_timeout(NodeTimeoutError::RunTimeout {
        node: "my_node".to_string(),
        timeout: 5000,
    });
    let msg = err.to_string();
    assert!(msg.contains("my_node"), "display should contain node name: {msg}");
}

#[test]
fn invalid_update_error_display() {
    assert_eq!(
        InvalidUpdateError::MultipleWriters {
            field: "my_field".to_string(),
            conflicting_nodes: vec!["node_a".to_string(), "node_b".to_string()],
        }
        .to_string(),
        "multiple writers for field 'my_field': [\"node_a\", \"node_b\"]"
    );
    assert_eq!(
        InvalidUpdateError::MultipleOverwrite {
            field: "my_field".to_string(),
        }
        .to_string(),
        "multiple overwrite attempts for field 'my_field'"
    );
    assert_eq!(
        InvalidUpdateError::InvalidValue {
            field: "my_field".to_string(),
            reason: "bad".to_string(),
        }
        .to_string(),
        "invalid value for field 'my_field': bad"
    );
}

#[test]
fn node_timeout_error_display() {
    assert_eq!(
        NodeTimeoutError::Timeout {
            node: "my_node".to_string(),
            timeout_ms: 5000
        }
        .to_string(),
        "node 'my_node' timed out after 5000ms"
    );
    assert_eq!(
        NodeTimeoutError::DeadlineExceeded {
            node: "my_node".to_string()
        }
        .to_string(),
        "node 'my_node' deadline exceeded"
    );
}

#[test]
fn error_code_equality() {
    assert_eq!(ErrorCode::Graph, ErrorCode::Graph);
    assert_ne!(ErrorCode::Graph, ErrorCode::Execution);
}

#[test]
fn new_error_variants_display() {
    assert_eq!(JunctureError::cancelled().to_string(), "Execution cancelled");
    assert!(JunctureError::multiple_writers(2, vec!["a".to_string(), "b".to_string()])
        .to_string()
        .contains("field 2"));
    assert_eq!(JunctureError::task_panicked("overflow").to_string(), "Task panicked: overflow");
}

#[test]
fn new_error_is_methods() {
    assert!(JunctureError::cancelled().is_cancelled());
    assert!(!JunctureError::cancelled().is_execution());
    assert!(JunctureError::multiple_writers(0, vec![]).is_multiple_writers());
    assert!(JunctureError::task_panicked("x").is_task_panicked());
}

#[test]
fn parent_command_construct_and_check() {
    let err = JunctureError::parent_command("publish");
    assert!(err.is_parent_command());
    assert!(!err.is_execution());
    assert!(!err.is_interrupt());
    assert_eq!(err.code(), ErrorCode::ParentCommand);
    assert_eq!(
        err.parent_command_target(),
        Some("publish"),
        "target should be the provided node name"
    );
}

#[test]
fn parent_command_target_returns_none_for_other_errors() {
    let err = JunctureError::execution("something");
    assert_eq!(err.parent_command_target(), None);
}

#[test]
fn parent_command_display() {
    let err = JunctureError::parent_command("review");
    let msg = err.to_string();
    assert!(msg.contains("review"), "display should contain target node name: {msg}");
    assert!(msg.contains("Parent command"), "display should identify as parent command: {msg}");
}

#[test]
fn parent_command_error_code_equality() {
    assert_eq!(ErrorCode::ParentCommand, ErrorCode::ParentCommand);
    assert_ne!(ErrorCode::ParentCommand, ErrorCode::Execution);
}

#[test]
fn error_messages_of_each_constructor() {
    assert_eq!(JunctureError::graph("bad edge").to_string(), "Graph error: bad edge");
    assert_eq!(JunctureError::interrupted(3).to_string(), "Interrupted at index 3");
    assert_eq!(
        JunctureError::recursion_limit(26, 25).to_string(),
        "Recursion limit exceeded: step 26 > limit 25"
    );
    assert_eq!(
        JunctureError::parent_command("publish").to_string(),
        "Parent command: route to 'publish'"
    );
}

#[test]
fn error_aliases_agree_with_kinds() {
    let e = JunctureError::recursion_limit(3, 2);
    assert!(e.is_recursion_limit());
    assert!(e.is_graph_recursion_limit());
    assert_eq!(e.error_code(), e.code());
    let w = JunctureError::multiple_writers(1, vec!["a".to_string()]);
    assert!(w.is_invalid_concurrent_update());
    assert!(JunctureError::execution("x").is_node_failed());
    assert!(!JunctureError::graph("x").is_node_failed());
}

#[test]
fn no_error_is_a_budget_or_serialization_failure() {
    let t = JunctureError::timeout("request timed out");
    assert!(t.is_timeout());
    assert!(!t.is_budget_exceeded());
    let c = JunctureError::checkpoint("no checkpointer configured for resume");
    assert!(c.is_checkpoint());
    assert!(!c.is_serialize());
    assert!(!JunctureError::graph("x").is_serialize());
}
