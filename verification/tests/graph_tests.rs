use juncture_core::edge::{CompiledEdge, Edge, PathMap, TriggerSource, TriggerTable, END, START};
use juncture_core::graph::builder::{
    cap_delay, default_should_retry, node_count, node_metadata, retry_exhausted_error, retry_step, CompileConfig, RetryStep,
    StateGraph, StateSchema,
};
use juncture_core::checkpoint::CheckpointSource;
use juncture_core::graph::compiled::{
    checkpoint_not_found, missing_checkpointer, require_interrupt_source, run_id_or_new, CompiledGraph, StateFilter,
    StateUpdate, SubgraphInfo, SubgraphPersistence,
};
use juncture_core::graph::topology::{find_sccs, validate, TopologyError};
use juncture_core::error::JunctureError;

#[derive(Clone, Debug, Default)]
struct StateDummyUpdate;

#[test]
fn test_cap_delay_returns_min() {
    let delay = std::time::Duration::from_secs(5);
    let max = std::time::Duration::from_secs(10);
    assert_eq!(cap_delay(delay, max), delay);

    let delay_large = std::time::Duration::from_secs(15);
    assert_eq!(cap_delay(delay_large, max), max);
}

#[test]
fn test_state_update_creation() {
    let update: StateUpdate<StateDummyUpdate> = StateUpdate {
        update: StateDummyUpdate,
        label: Some("test update".to_string()),
        as_node: Some("my_node".to_string()),
    };

    assert!(update.label.is_some());
    assert!(update.as_node.is_some());
}

#[test]
fn test_subgraph_info_creation() {
    let info = SubgraphInfo {
        name: "my_subgraph".to_string(),
        persistence: SubgraphPersistence::Inherit,
    };

    assert_eq!(info.name, "my_subgraph");
}

#[test]
fn test_state_filter_default() {
    let filter = StateFilter::default();
    assert!(filter.after_step.is_none());
    assert!(filter.before_step.is_none());
    assert!(filter.limit.is_none());
}

#[test]
fn test_state_filter_with_values() {
    let filter = StateFilter {
        after_step: Some(5),
        before_step: Some(10),
        limit: Some(20),
    };

    assert_eq!(filter.after_step, Some(5));
    assert_eq!(filter.before_step, Some(10));
    assert_eq!(filter.limit, Some(20));
}

#[test]
fn test_compile_config_default_is_empty() {
    let config = CompileConfig::default();
    assert!(config.interrupt_before.is_empty());
    assert!(config.interrupt_after.is_empty());
}

fn linear_graph() -> StateGraph {
    let mut graph = StateGraph::new();
    graph.add_node_simple("a").unwrap();
    graph.add_node_simple("b").unwrap();
    graph.add_edge("a", "b");
    graph.set_entry_point("a");
    graph.set_finish_point("b");
    graph
}

#[test]
fn builder_new_graph_is_empty() {
    let graph = StateGraph::new();
    assert!(graph.edges().is_empty());
    assert!(graph.entry_point().is_none());
    assert!(graph.finish_points().is_empty());
    assert!(graph.subgraphs().is_empty());
}

#[test]
fn builder_duplicate_node_is_refused_and_graph_unchanged() {
    let mut graph = StateGraph::new();
    graph.add_node_simple("a").unwrap();
    let r = graph.add_node_simple("a");
    match r {
        Err(TopologyError::DuplicateNode { name }) => assert_eq!(name, "a"),
        other => panic!("unexpected {other:?}"),
    }
    assert_eq!(juncture_core::graph::builder::node_names(graph.nodes()), vec!["a".to_string()]);
}

#[test]
fn builder_entry_and_finish_add_sentinel_edges() {
    let graph = linear_graph();
    assert_eq!(graph.entry_point(), Some(&"a".to_string()));
    assert_eq!(graph.finish_points(), &vec!["b".to_string()]);
    let edges = graph.edges();
    assert_eq!(edges.len(), 3);
    match &edges[1] {
        Edge::Fixed { from, to } => {
            assert_eq!(from, START);
            assert_eq!(to, "a");
        }
        _ => panic!("expected a fixed edge"),
    }
    match &edges[2] {
        Edge::Fixed { from, to } => {
            assert_eq!(from, "b");
            assert_eq!(to, END);
        }
        _ => panic!("expected a fixed edge"),
    }
}

#[test]
fn builder_add_sequence_chains_nodes() {
    let mut graph = StateGraph::new();
    graph.add_node_simple("a").unwrap();
    graph.add_node_simple("b").unwrap();
    graph.add_node_simple("c").unwrap();
    graph.add_sequence(&vec!["a".to_string(), "b".to_string(), "c".to_string()]).unwrap();
    assert_eq!(graph.entry_point(), Some(&"a".to_string()));
    assert_eq!(graph.edges().len(), 3);
}

#[test]
fn builder_add_sequence_missing_node() {
    let mut graph = StateGraph::new();
    let result = graph.add_sequence(&vec!["missing".to_string()]);
    assert!(matches!(result, Err(TopologyError::NodeNotFound { .. })));
    assert!(graph.edges().is_empty());
}

#[test]
fn builder_validate_keys_cases() {
    StateGraph::new().validate_keys().unwrap();

    let mut g = StateGraph::new();
    g.add_node_simple("node:test").unwrap();
    assert!(matches!(g.validate_keys(), Err(TopologyError::InvalidNodeName { .. })));

    let mut g = StateGraph::new();
    g.add_node_simple("").unwrap();
    match g.validate_keys() {
        Err(TopologyError::InvalidNodeName { name, reason }) => {
            assert_eq!(name, "");
            assert_eq!(reason, "node name cannot be empty");
        }
        other => panic!("unexpected {other:?}"),
    }

    let mut g = StateGraph::new();
    g.set_entry_point("nonexistent");
    assert!(matches!(g.validate_keys(), Err(TopologyError::NodeNotFound { .. })));

    let mut g = StateGraph::new();
    g.add_node_simple("node_a").unwrap();
    g.set_finish_point("nonexistent");
    assert!(matches!(g.validate_keys(), Err(TopologyError::NodeNotFound { .. })));
}

#[test]
fn builder_validate_keys_catches_bad_field_index() {
    let mut g = StateGraph::new();
    g.add_node_simple("node_a").unwrap();
    g.set_entry_point("node_a");
    g.set_finish_point("node_a");
    let g = g.with_state_schema(StateSchema {
        field_count: 2,
        field_names: vec!["x".to_string(), "y".to_string()],
        replace_field_indices: vec![1, 5],
        replace_after_finish_field_indices: vec![],
    });
    match g.validate_keys() {
        Err(TopologyError::InvalidFieldReference { index, field_count, context, .. }) => {
            assert_eq!(index, 5);
            assert_eq!(field_count, 2);
            assert_eq!(context, "replace_field_indices");
        }
        other => panic!("unexpected {other:?}"),
    }
    assert!(matches!(g.compile(), Err(TopologyError::InvalidFieldReference { .. })));
}

#[test]
fn compile_builds_trigger_table_and_interrupts() {
    let graph = linear_graph();
    let config = CompileConfig {
        interrupt_before: vec!["b".to_string()],
        interrupt_after: vec![],
    };
    let compiled = graph.compile_with_config(config).unwrap();
    assert_eq!(compiled.nodes(), &vec!["a".to_string(), "b".to_string()]);
    let out = compiled.trigger_table().outgoing();
    assert_eq!(out.len(), 1);
    assert_eq!(out[0].0, "a");
    let inc = compiled.trigger_table().incoming();
    assert_eq!(inc.len(), 2);
    assert_eq!(inc[0].0, "b");
    assert_eq!(inc[1].0, "a");
    let (before, after) = compiled.effective_interrupts(None, None);
    assert_eq!(before, Some(vec!["b".to_string()]));
    assert_eq!(after, None);
    let (before, _) = compiled.effective_interrupts(Some(vec!["a".to_string()]), None);
    assert_eq!(before, Some(vec!["a".to_string()]));
}

#[test]
fn compile_refuses_unreachable_and_missing_entry() {
    let mut g = StateGraph::new();
    g.add_node_simple("a").unwrap();
    assert!(matches!(g.compile(), Err(TopologyError::NoEntryPoint)));

    let mut g = StateGraph::new();
    g.add_node_simple("a").unwrap();
    g.add_node_simple("b").unwrap();
    g.add_node_simple("c").unwrap();
    g.add_edge("b", "c");
    g.set_entry_point("a");
    g.set_finish_point("a");
    match g.compile() {
        Err(TopologyError::UnreachableNode { name }) => assert_eq!(name, "b"),
        other => panic!("unexpected {other:?}"),
    }
}

#[test]
fn compile_refuses_cycle_without_conditional_exit() {
    let mut g = StateGraph::new();
    g.add_node_simple("a").unwrap();
    g.add_node_simple("b").unwrap();
    g.add_edge("a", "b");
    g.add_edge("b", "a");
    g.set_entry_point("a");
    match g.compile() {
        Err(TopologyError::PotentialInfiniteLoop { cycle }) => {
            assert_eq!(cycle, vec!["b".to_string(), "a".to_string()])
        }
        other => panic!("unexpected {other:?}"),
    }

    let mut g = StateGraph::new();
    g.add_node_simple("a").unwrap();
    g.add_node_simple("b").unwrap();
    g.add_edge("a", "b");
    let mut pm = PathMap::new();
    pm.insert("again", "a");
    pm.insert("done", END);
    g.add_conditional_edges("b", pm);
    g.set_entry_point("a");
    assert!(g.compile().is_ok());
}

#[test]
fn validate_reports_missing_edge_target() {
    let names = vec!["a".to_string()];
    let edges = vec![
        Edge::Fixed { from: START.to_string(), to: "a".to_string() },
        Edge::Fixed { from: "a".to_string(), to: "ghost".to_string() },
    ];
    match validate(&names, &edges, Some("a")) {
        Err(TopologyError::NodeNotFound { name }) => assert_eq!(name, "ghost"),
        other => panic!("unexpected {other:?}"),
    }
}

#[test]
fn topology_error_messages() {
    assert_eq!(
        TopologyError::DuplicateNode { name: "a".to_string() }.to_string(),
        "node 'a' already exists"
    );
    assert_eq!(
        TopologyError::PotentialInfiniteLoop { cycle: vec!["a".to_string(), "b".to_string()] }.to_string(),
        "potential infinite loop detected, path: [\"a\", \"b\"]"
    );
    assert_eq!(
        TopologyError::InvalidFieldReference {
            index: 5,
            field_count: 2,
            field_names: vec!["x".to_string(), "y".to_string()],
            context: "replace_field_indices".to_string(),
        }
        .to_string(),
        "field index 5 in replace_field_indices is out of range (state has 2 fields: [\"x\", \"y\"])"
    );
}

fn two_node_compiled() -> CompiledGraph {
    let mut t = TriggerTable::new();
    t.add_outgoing("a".to_string(), CompiledEdge::Fixed { target: "b".to_string() });
    CompiledGraph::new(
        vec!["a".to_string(), "b".to_string()],
        t,
        indexmap::IndexMap::new(),
        vec![],
        vec![],
        vec![],
    )
}

#[test]
fn compiled_to_mermaid() {
    let mermaid = two_node_compiled().to_mermaid();
    assert!(mermaid.contains("graph TD"));
    assert!(mermaid.contains("a --> b"));
    assert_eq!(mermaid, "graph TD\n    a[a]\n    b[b]\n    a --> b");
}

#[test]
fn compiled_to_dot() {
    let dot = two_node_compiled().to_dot();
    assert!(dot.contains("digraph juncture_graph"));
    assert!(dot.contains("a -> b"));
    assert_eq!(
        dot,
        "digraph juncture_graph {\n    rankdir=LR;\n    node [shape=box];\n    START [shape=circle];\n    END [shape=doublecircle];\n\n    a;\n    b;\n\n    a -> b;\n}"
    );
}

#[test]
fn compiled_to_json_and_drawable() {
    let compiled = two_node_compiled();
    let json = compiled.to_json();
    assert!(json.is_object());
    assert_eq!(json["nodes"][0]["name"], "a");
    assert_eq!(json["edges"][0]["from"], "a");
    assert_eq!(json["edges"][0]["to"], "b");
    assert_eq!(json["edges"][0]["conditional"], false);
    assert!(json["edges"][0].get("label").is_none());
    let d = compiled.get_graph(Some(2));
    assert_eq!(d.nodes.len(), 2);
    assert_eq!(d.edges.len(), 1);
}

#[test]
fn compiled_conditional_edges_are_labelled() {
    let mut pm = PathMap::new();
    pm.insert("yes", "b");
    let mut t = TriggerTable::new();
    t.add_outgoing("a".to_string(), CompiledEdge::Conditional { path_map: pm });
    t.add_incoming("a".to_string(), TriggerSource::Edge { from: START.to_string() });
    let g = CompiledGraph::new(vec!["a".to_string(), "b".to_string()], t, indexmap::IndexMap::new(), vec![], vec![], vec![]);
    assert_eq!(g.find_entry_point(), Some("a".to_string()));
    let m = g.to_mermaid();
    assert!(m.contains("    a -->|yes| b"));
    assert!(m.ends_with("    START((start)) --> a"));
    let d = g.to_dot();
    assert!(d.contains("    a -> b [label=\"yes\"];"));
    let j = g.to_json();
    assert_eq!(j["edges"][0]["label"], "yes");
    assert_eq!(j["edges"][0]["conditional"], true);
}

#[test]
fn compiled_entry_point_is_the_start_target() {
    let compiled = linear_graph().compile().unwrap();
    assert_eq!(compiled.find_entry_point(), Some("a".to_string()));
    assert!(compiled.to_mermaid().contains("START((start)) --> a"));
    assert!(compiled.to_dot().contains("START -> a;"));
}

#[test]
fn compiled_entry_point_ignores_a_node_named_start() {
    let mut t = TriggerTable::new();
    t.add_incoming("a".to_string(), TriggerSource::Edge { from: "START".to_string() });
    let g = CompiledGraph::new(vec!["a".to_string()], t, indexmap::IndexMap::new(), vec![], vec![], vec![]);
    assert_eq!(g.find_entry_point(), None);
}

#[test]
fn compiled_subgraphs_are_recorded() {
    let mut g = StateGraph::new();
    g.add_subgraph(SubgraphInfo { name: "sub".to_string(), persistence: SubgraphPersistence::PerThread }).unwrap();
    g.set_entry_point("sub");
    g.set_finish_point("sub");
    let compiled = g.compile().unwrap();
    let subs = compiled.get_subgraphs();
    assert_eq!(subs.len(), 1);
    assert_eq!(subs[0].name, "sub");
    assert_eq!(subs[0].persistence, SubgraphPersistence::PerThread);
}

#[test]
fn default_retry_skips_cancellation_and_interrupts() {
    assert!(default_should_retry(&JunctureError::execution("x")));
    assert!(!default_should_retry(&JunctureError::cancelled()));
    assert!(!default_should_retry(&JunctureError::interrupt("x")));
    assert!(!default_should_retry(&JunctureError::interrupted(0)));
}

#[test]
fn resume_preflight_messages() {
    assert!(require_interrupt_source(&CheckpointSource::Interrupt { node: "n".to_string() }).is_ok());
    assert_eq!(
        require_interrupt_source(&CheckpointSource::Loop).unwrap_err().to_string(),
        "Checkpoint error: resume() requires checkpoint from Interrupt source, got Loop"
    );
    assert_eq!(
        checkpoint_not_found(Some("t\"1"), None).to_string(),
        "Checkpoint error: checkpoint not found: thread_id=Some(\"t\\\"1\"), checkpoint_id=None"
    );
    assert_eq!(
        missing_checkpointer("resume").to_string(),
        "Checkpoint error: no checkpointer configured for resume"
    );
    assert_eq!(run_id_or_new(Some("r".to_string())), "r");
    let fresh = run_id_or_new(None);
    assert_eq!(fresh.len(), 36);
    let cs: Vec<char> = fresh.chars().collect();
    assert_eq!(cs[14], '4');
    assert!(['8', '9', 'a', 'b'].contains(&cs[19]));
    assert!(cs.iter().enumerate().all(|(i, c)| [8, 13, 18, 23].contains(&i) || c.is_ascii_digit() || ('a'..='f').contains(c)));
    assert_ne!(fresh, run_id_or_new(None));
}

#[test]
fn error_handler_map_lists_registered_handlers() {
    let mut g = StateGraph::new();
    g.add_node("a", false, None, None).unwrap();
    g.add_node_simple("b").unwrap();
    g.set_entry_point("a");
    g.add_edge("a", "b");
    g.set_finish_point("b");
    let compiled = g.compile().unwrap();
    assert!(compiled.build_error_handler_map().is_empty());
    let mut md = indexmap::IndexMap::new();
    let mut meta = juncture_core::graph::builder::NodeMetadata::default();
    meta.error_handler = Some("fallback".to_string());
    md.insert("a".to_string(), meta);
    md.insert("b".to_string(), juncture_core::graph::builder::NodeMetadata::default());
    let c = CompiledGraph::new(vec!["a".to_string(), "b".to_string()], TriggerTable::new(), md, vec![], vec![], vec![]);
    assert_eq!(c.build_error_handler_map(), vec![("a".to_string(), "fallback".to_string())]);
}

#[test]
fn test_tarjan_scc_simple() {
    let nodes = vec!["a".to_string(), "b".to_string()];
    let edges = vec![Edge::Fixed { from: "a".to_string(), to: "b".to_string() }];
    let sccs = find_sccs(&nodes, &edges);
    assert_eq!(sccs.len(), 2);
}

#[test]
fn test_tarjan_scc_cycle() {
    let nodes = vec!["a".to_string(), "b".to_string()];
    let edges = vec![
        Edge::Fixed { from: "a".to_string(), to: "b".to_string() },
        Edge::Fixed { from: "b".to_string(), to: "a".to_string() },
    ];
    let sccs = find_sccs(&nodes, &edges);
    assert_eq!(sccs.len(), 1);
    assert_eq!(sccs[0].len(), 2);
}

#[test]
fn find_sccs_orders_groups_as_the_search_closes_them() {
    let nodes = vec!["a".to_string(), "b".to_string(), "c".to_string(), "d".to_string()];
    let edges = vec![
        Edge::Fixed { from: START.to_string(), to: "a".to_string() },
        Edge::Fixed { from: "a".to_string(), to: "b".to_string() },
        Edge::Fixed { from: "b".to_string(), to: "c".to_string() },
        Edge::Fixed { from: "c".to_string(), to: "a".to_string() },
        Edge::Fixed { from: "c".to_string(), to: "d".to_string() },
        Edge::Fixed { from: "d".to_string(), to: END.to_string() },
    ];
    let sccs = find_sccs(&nodes, &edges);
    assert_eq!(sccs, vec![vec!["d".to_string()], vec!["c".to_string(), "b".to_string(), "a".to_string()]]);
}

#[test]
fn validate_reports_three_node_cycle_in_stack_order() {
    let names = vec!["a".to_string(), "b".to_string(), "c".to_string()];
    let edges = vec![
        Edge::Fixed { from: START.to_string(), to: "a".to_string() },
        Edge::Fixed { from: "a".to_string(), to: "b".to_string() },
        Edge::Fixed { from: "b".to_string(), to: "c".to_string() },
        Edge::Fixed { from: "c".to_string(), to: "a".to_string() },
    ];
    match validate(&names, &edges, Some("a")) {
        Err(TopologyError::PotentialInfiniteLoop { cycle }) => {
            assert_eq!(cycle, vec!["c".to_string(), "b".to_string(), "a".to_string()])
        }
        other => panic!("unexpected {other:?}"),
    }
}

#[test]
fn test_state_graph_new() {
    let graph = StateGraph::new();
    assert_eq!(node_count(graph.nodes()), 0);
    assert!(graph.edges().is_empty());
    assert!(graph.entry_point().is_none());
    assert!(graph.subgraphs().is_empty());
}

#[test]
fn test_add_node_simple() {
    let mut graph = StateGraph::new();
    graph.add_node_simple("test").unwrap();
    assert!(node_metadata(graph.nodes(), "test").is_some());
}

#[test]
fn test_add_node_duplicate() {
    let mut graph = StateGraph::new();
    graph.add_node_simple("test").unwrap();
    let result = graph.add_node_simple("test");
    assert!(matches!(result, Err(TopologyError::DuplicateNode { .. })));
}

#[test]
fn test_set_entry_point() {
    let mut graph = StateGraph::new();
    graph.set_entry_point("start");
    assert_eq!(graph.entry_point(), Some(&"start".to_string()));
    assert_eq!(graph.edges().len(), 1);
}

#[test]
fn test_set_finish_point() {
    let mut graph = StateGraph::new();
    graph.set_finish_point("end");
    assert_eq!(graph.finish_points(), &vec!["end".to_string()]);
    assert_eq!(graph.edges().len(), 1);
}

#[test]
fn test_add_sequence() {
    let mut graph = StateGraph::new();
    graph.add_node_simple("a").unwrap();
    graph.add_node_simple("b").unwrap();
    graph.add_node_simple("c").unwrap();
    graph.add_sequence(&vec!["a".to_string(), "b".to_string(), "c".to_string()]).unwrap();
    assert_eq!(graph.entry_point(), Some(&"a".to_string()));
    assert_eq!(graph.edges().len(), 3);
}

#[test]
fn test_add_sequence_missing_node() {
    let mut graph = StateGraph::new();
    let result = graph.add_sequence(&vec!["missing".to_string()]);
    assert!(matches!(result, Err(TopologyError::NodeNotFound { .. })));
}

#[test]
fn test_compile_ephemeral() {
    let mut graph = StateGraph::new();
    graph.add_node_simple("a").unwrap();
    graph.set_entry_point("a");
    graph.set_finish_point("a");
    let compiled = graph.compile_ephemeral().unwrap();
    assert_eq!(compiled.nodes().len(), 1);
}

#[test]
fn test_with_context_schema() {
    let graph = StateGraph::new();
    let returned = graph.with_context_schema();
    assert_eq!(node_count(returned.nodes()), 0);
}

#[test]
fn test_add_subgraph() {
    let mut graph = StateGraph::new();
    let mount = SubgraphInfo { name: "my_subgraph".to_string(), persistence: SubgraphPersistence::Inherit };
    graph.add_subgraph(mount).unwrap();
    assert!(node_metadata(graph.nodes(), "my_subgraph").is_some());
    assert_eq!(graph.subgraphs().len(), 1);
}

#[test]
fn test_compile_wires_subgraph_info() {
    let mut graph = StateGraph::new();
    let mount = SubgraphInfo { name: "my_subgraph".to_string(), persistence: SubgraphPersistence::PerThread };
    graph.add_subgraph(mount).unwrap();
    graph.set_entry_point("my_subgraph");
    graph.set_finish_point("my_subgraph");
    let compiled = graph.compile().unwrap();
    let subgraphs = compiled.get_subgraphs();
    assert_eq!(subgraphs.len(), 1);
    assert_eq!(subgraphs[0].name, "my_subgraph");
    assert_eq!(subgraphs[0].persistence, SubgraphPersistence::PerThread);
}

#[test]
fn test_add_subgraph_duplicate() {
    let mut graph = StateGraph::new();
    graph.add_node_simple("my_subgraph").unwrap();
    let mount = SubgraphInfo { name: "my_subgraph".to_string(), persistence: SubgraphPersistence::Inherit };
    let result = graph.add_subgraph(mount);
    assert!(matches!(result, Err(TopologyError::DuplicateNode { .. })));
}

#[test]
fn test_add_subgraph_with_config_registers_node() {
    let mut child_graph = StateGraph::new();
    child_graph.add_node_simple("child_node").unwrap();
    child_graph.set_entry_point("child_node");
    child_graph.set_finish_point("child_node");
    let _compiled_child = child_graph.compile().unwrap();

    let mut parent_graph = StateGraph::new();
    parent_graph.add_subgraph_with_config("explicit_subgraph").unwrap();
    assert!(node_metadata(parent_graph.nodes(), "explicit_subgraph").is_some());
}

#[test]
fn test_add_subgraph_with_config_duplicate_node() {
    let mut child_graph = StateGraph::new();
    child_graph.add_node_simple("child_node").unwrap();
    child_graph.set_entry_point("child_node");
    child_graph.set_finish_point("child_node");
    let _compiled_child = child_graph.compile().unwrap();

    let mut parent_graph = StateGraph::new();
    parent_graph.add_node_simple("explicit_subgraph").unwrap();
    let result = parent_graph.add_subgraph_with_config("explicit_subgraph");
    assert!(matches!(result, Err(TopologyError::DuplicateNode { .. })));
}

#[test]
fn test_add_node_with_retry() {
    let mut graph = StateGraph::new();
    graph.add_node_with_retry("retry_node").unwrap();
    assert!(node_metadata(graph.nodes(), "retry_node").is_some());
}

#[test]
fn test_add_node_with_error_handler() {
    let mut graph = StateGraph::new();
    graph.add_node_with_error_handler("error_handler_node").unwrap();
    assert!(node_metadata(graph.nodes(), "error_handler_node").is_some());
}

#[test]
fn test_default_implementation() {
    let graph = StateGraph::default();
    assert_eq!(node_count(graph.nodes()), 0);
    assert!(graph.subgraphs().is_empty());
}

#[test]
fn test_validate_keys_empty_graph() {
    let graph = StateGraph::new();
    graph.validate_keys().unwrap();
}

#[test]
fn test_validate_keys_valid_nodes() {
    let mut graph = StateGraph::new();
    graph.add_node_simple("node_a").unwrap();
    graph.add_node_simple("node_b").unwrap();
    graph.validate_keys().unwrap();
}

#[test]
fn test_validate_keys_empty_node_name() {
    let graph = StateGraph::new();
    let result = graph.validate_keys();
    result.unwrap();
}

#[test]
fn test_validate_keys_reserved_characters() {
    let mut graph = StateGraph::new();
    graph.add_node_simple("node:test").unwrap();
    let result = graph.validate_keys();
    assert!(matches!(result, Err(TopologyError::InvalidNodeName { .. })));
}

#[test]
fn test_validate_keys_entry_point_not_found() {
    let mut graph = StateGraph::new();
    graph.set_entry_point("nonexistent");
    let result = graph.validate_keys();
    assert!(matches!(result, Err(TopologyError::NodeNotFound { .. })));
}

#[test]
fn test_validate_keys_finish_point_not_found() {
    let mut graph = StateGraph::new();
    graph.add_node_simple("node_a").unwrap();
    graph.set_finish_point("nonexistent");
    let result = graph.validate_keys();
    assert!(matches!(result, Err(TopologyError::NodeNotFound { .. })));
}

#[test]
fn test_validate_keys_with_valid_entry_and_finish() {
    let mut graph = StateGraph::new();
    graph.add_node_simple("start").unwrap();
    graph.add_node_simple("end").unwrap();
    graph.set_entry_point("start");
    graph.set_finish_point("end");
    graph.validate_keys().unwrap();
}

fn bad_replace_schema() -> StateSchema {
    StateSchema {
        field_count: 2,
        field_names: vec!["a".to_string(), "b".to_string()],
        replace_field_indices: vec![5],
        replace_after_finish_field_indices: vec![],
    }
}

fn bad_after_finish_schema() -> StateSchema {
    StateSchema {
        field_count: 2,
        field_names: vec!["x".to_string(), "y".to_string()],
        replace_field_indices: vec![],
        replace_after_finish_field_indices: vec![99],
    }
}

fn single_node_graph(name: &str, schema: StateSchema) -> StateGraph {
    let mut graph = StateGraph::new();
    graph.add_node_simple(name).unwrap();
    graph.set_entry_point(name);
    graph.set_finish_point(name);
    graph.with_state_schema(schema)
}

#[test]
fn test_validate_keys_catches_invalid_replace_field_index() {
    let graph = single_node_graph("node_a", bad_replace_schema());
    let result = graph.validate_keys();
    assert!(matches!(result, Err(TopologyError::InvalidFieldReference { .. })));
    if let Err(TopologyError::InvalidFieldReference { index, field_count, context, .. }) = result {
        assert_eq!(index, 5);
        assert_eq!(field_count, 2);
        assert_eq!(context, "replace_field_indices");
    }
}

#[test]
fn test_validate_keys_catches_invalid_replace_after_finish_field_index() {
    let graph = single_node_graph("node_a", bad_after_finish_schema());
    let result = graph.validate_keys();
    assert!(matches!(result, Err(TopologyError::InvalidFieldReference { .. })));
    if let Err(TopologyError::InvalidFieldReference { index, field_count, context, .. }) = result {
        assert_eq!(index, 99);
        assert_eq!(field_count, 2);
        assert_eq!(context, "replace_after_finish_field_indices");
    }
}

#[test]
fn test_compile_calls_validate_keys_and_catches_invalid_replace_field_index() {
    let graph = single_node_graph("node_a", bad_replace_schema());
    let result = graph.compile();
    assert!(matches!(result, Err(TopologyError::InvalidFieldReference { .. })));
    if let Err(TopologyError::InvalidFieldReference { index, field_count, context, .. }) = result {
        assert_eq!(index, 5);
        assert_eq!(field_count, 2);
        assert_eq!(context, "replace_field_indices");
    }
}

#[test]
fn test_compile_calls_validate_keys_and_catches_invalid_replace_after_finish_field_index() {
    let graph = single_node_graph("node_a", bad_after_finish_schema());
    let result = graph.compile();
    assert!(matches!(result, Err(TopologyError::InvalidFieldReference { .. })));
    if let Err(TopologyError::InvalidFieldReference { index, field_count, context, .. }) = result {
        assert_eq!(index, 99);
        assert_eq!(field_count, 2);
        assert_eq!(context, "replace_after_finish_field_indices");
    }
}

#[test]
fn test_validate_keys_validates_reducer_indices_during_compile() {
    let graph = single_node_graph("process", bad_replace_schema());
    let validate_result = graph.validate_keys();
    assert!(validate_result.is_err(), "validate_keys should detect invalid field index");
    let compile_result = graph.compile();
    assert!(compile_result.is_err(), "compile should detect invalid field index");
    match (validate_result, compile_result) {
        (
            Err(TopologyError::InvalidFieldReference { index: v_idx, .. }),
            Err(TopologyError::InvalidFieldReference { index: c_idx, .. }),
        ) => {
            assert_eq!(v_idx, c_idx, "Both methods should report the same invalid index");
        }
        _ => panic!("Both methods should return InvalidFieldReference error"),
    }
}

fn single_node_compiled(before: Vec<String>, after: Vec<String>, subgraphs: Vec<SubgraphInfo>) -> CompiledGraph {
    CompiledGraph::new(vec!["a".to_string()], TriggerTable::new(), indexmap::IndexMap::new(), before, after, subgraphs)
}

#[test]
fn test_compiled_graph_creation() {
    let compiled = CompiledGraph::new(
        vec!["test".to_string()],
        TriggerTable::new(),
        indexmap::IndexMap::new(),
        vec![],
        vec![],
        vec![],
    );
    assert_eq!(compiled.nodes().len(), 1);
}

#[test]
fn test_to_mermaid() {
    let mermaid = two_node_compiled().to_mermaid();
    assert!(mermaid.contains("graph TD"));
    assert!(mermaid.contains("a --> b"));
}

#[test]
fn test_to_dot() {
    let dot = two_node_compiled().to_dot();
    assert!(dot.contains("digraph juncture_graph"));
    assert!(dot.contains("a -> b"));
}

#[test]
fn test_to_json() {
    let json = two_node_compiled().to_json();
    assert!(json.is_object());
    assert!(json.get("nodes").is_some());
    assert!(json.get("edges").is_some());
}

#[test]
fn test_get_graph() {
    let compiled = single_node_compiled(vec![], vec![], vec![]);
    let drawable = compiled.get_graph(None);
    assert_eq!(drawable.nodes.len(), 1);
    let drawable_xray = compiled.get_graph(Some(2));
    assert_eq!(drawable_xray.nodes.len(), 1);
}

#[test]
fn test_get_subgraphs_empty() {
    let compiled = single_node_compiled(vec![], vec![], vec![]);
    let subgraphs = compiled.get_subgraphs();
    assert!(subgraphs.is_empty());
}

#[test]
fn test_get_subgraphs_with_mounted_subgraphs() {
    let subgraphs = vec![
        SubgraphInfo { name: "child_graph".to_string(), persistence: SubgraphPersistence::Inherit },
        SubgraphInfo { name: "worker_graph".to_string(), persistence: SubgraphPersistence::PerThread },
    ];
    let compiled = single_node_compiled(vec![], vec![], subgraphs);
    let result = compiled.get_subgraphs();
    assert_eq!(result.len(), 2);
    assert_eq!(result[0].name, "child_graph");
    assert_eq!(result[0].persistence, SubgraphPersistence::Inherit);
    assert_eq!(result[1].name, "worker_graph");
    assert_eq!(result[1].persistence, SubgraphPersistence::PerThread);
}

#[test]
fn test_compile_with_config_stores_interrupts() {
    let mut graph = StateGraph::new();
    graph.add_node_simple("human_review").unwrap();
    graph.set_entry_point("human_review");
    graph.set_finish_point("human_review");
    let config = CompileConfig {
        interrupt_before: vec!["human_review".to_string()],
        interrupt_after: vec!["human_review".to_string()],
    };
    let compiled = graph.compile_with_config(config).unwrap();
    assert_eq!(compiled.nodes().len(), 1);
}

#[test]
fn test_effective_config_uses_compile_time_defaults() {
    let compiled = single_node_compiled(vec!["node_a".to_string()], vec!["node_b".to_string()], vec![]);
    let (before, after) = compiled.effective_interrupts(None, None);
    assert_eq!(before, Some(vec!["node_a".to_string()]));
    assert_eq!(after, Some(vec!["node_b".to_string()]));
}

#[test]
fn test_effective_config_runtime_overrides_compile_time() {
    let compiled = single_node_compiled(vec!["compile_before".to_string()], vec!["compile_after".to_string()], vec![]);
    let (before, after) = compiled
        .effective_interrupts(Some(vec!["runtime_before".to_string()]), Some(vec!["runtime_after".to_string()]));
    assert_eq!(before, Some(vec!["runtime_before".to_string()]));
    assert_eq!(after, Some(vec!["runtime_after".to_string()]));
}

#[test]
fn test_effective_config_empty_compile_time_no_override() {
    let compiled = single_node_compiled(vec![], vec![], vec![]);
    let (before, after) = compiled.effective_interrupts(None, None);
    assert!(before.is_none());
    assert!(after.is_none());
}

#[test]
fn state_graph_debug_lists_nodes() {
    let mut graph = StateGraph::new();
    graph.add_node_simple("alpha").unwrap();
    let text = format!("{graph:?}");
    assert!(text.contains("alpha"));
}

#[test]
fn retry_steps_follow_policy() {
    assert_eq!(retry_step(0, 3, true), RetryStep::Retry);
    assert_eq!(retry_step(1, 3, true), RetryStep::Retry);
    assert_eq!(retry_step(2, 3, true), RetryStep::GiveUp);
    assert_eq!(retry_step(0, 3, false), RetryStep::GiveUp);
    assert_eq!(retry_step(0, 1, true), RetryStep::GiveUp);
    assert_eq!(retry_step(u32::MAX, u32::MAX, true), RetryStep::GiveUp);
    assert_eq!(
        retry_exhausted_error("n").to_string(),
        "Execution error: node 'n': retry policy exhausted with no error recorded"
    );
}
