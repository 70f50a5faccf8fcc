//! The configuration of a graph run, as plain values: identifiers, limits,
//! names, tags, metadata, the resume value and the interrupt lists.
use vstd::prelude::*;
use crate::checkpoint::CheckpointNamespace;
use crate::interrupt::ResumeValue;
use crate::json::{json_map_entries, json_map_insert, json_map_new, JsonMap};
use crate::text::views;

verus! {

/// Default number of supersteps a run may take.
pub const DEFAULT_RECURSION_LIMIT: usize = 25;

/// Default number of tasks a superstep runs at once.
pub const DEFAULT_MAX_PARALLEL_TASKS: usize = 100;

/// Configuration of a graph run
#[derive(Clone, Debug)]
pub struct RunnableConfig {
    /// Thread the run belongs to
    pub thread_id: Option<String>,
    /// Checkpoint to start from
    pub checkpoint_id: Option<String>,
    /// Number of supersteps the run may take
    pub recursion_limit: usize,
    /// Number of tasks a superstep runs at once
    pub max_parallel_tasks: usize,
    /// Name of the run
    pub run_name: Option<String>,
    /// Name of the graph
    pub graph_name: Option<String>,
    /// Run id
    pub run_id: Option<String>,
    /// Checkpoint namespace
    pub checkpoint_ns: Option<CheckpointNamespace>,
    /// Tags for filtering
    pub tags: Vec<String>,
    /// User metadata
    pub metadata: JsonMap,
    /// Value to resume an interrupted run with
    pub resume_value: Option<ResumeValue>,
    /// Nodes to interrupt before
    pub interrupt_before: Option<Vec<String>>,
    /// Nodes to interrupt after
    pub interrupt_after: Option<Vec<String>>,
}

impl RunnableConfig {
    /// A configuration with the default limits and nothing else set.
    pub fn new() -> (c: Self)
        ensures
            c.thread_id is None,
            c.checkpoint_id is None,
            c.recursion_limit == DEFAULT_RECURSION_LIMIT,
            c.max_parallel_tasks == DEFAULT_MAX_PARALLEL_TASKS,
            c.run_name is None,
            c.graph_name is None,
            c.run_id is None,
            c.checkpoint_ns is None,
            c.tags@.len() == 0,
            json_map_entries(c.metadata) == Map::<Seq<char>, serde_json::Value>::empty(),
            c.resume_value is None,
            c.interrupt_before is None,
            c.interrupt_after is None,
    {
        RunnableConfig {
            thread_id: None,
            checkpoint_id: None,
            recursion_limit: DEFAULT_RECURSION_LIMIT,
            max_parallel_tasks: DEFAULT_MAX_PARALLEL_TASKS,
            run_name: None,
            graph_name: None,
            run_id: None,
            checkpoint_ns: None,
            tags: Vec::new(),
            metadata: json_map_new(),
            resume_value: None,
            interrupt_before: None,
            interrupt_after: None,
        }
    }

    /// Set the thread id.
    pub fn with_thread_id(self, id: String) -> (c: Self)
        ensures
            c == (RunnableConfig { thread_id: Some(id), ..self }),
    {
        RunnableConfig { thread_id: Some(id), ..self }
    }

    /// Set the checkpoint to start from.
    pub fn with_checkpoint_id(self, id: String) -> (c: Self)
        ensures
            c == (RunnableConfig { checkpoint_id: Some(id), ..self }),
    {
        RunnableConfig { checkpoint_id: Some(id), ..self }
    }

    /// Set the number of supersteps the run may take.
    pub fn with_recursion_limit(self, limit: usize) -> (c: Self)
        ensures
            c == (RunnableConfig { recursion_limit: limit, ..self }),
    {
        RunnableConfig { recursion_limit: limit, ..self }
    }

    /// Set the number of tasks a superstep runs at once.
    pub fn with_max_parallel_tasks(self, max: usize) -> (c: Self)
        ensures
            c == (RunnableConfig { max_parallel_tasks: max, ..self }),
    {
        RunnableConfig { max_parallel_tasks: max, ..self }
    }

    /// Set the run's name.
    pub fn with_run_name(self, name: String) -> (c: Self)
        ensures
            c == (RunnableConfig { run_name: Some(name), ..self }),
    {
        RunnableConfig { run_name: Some(name), ..self }
    }

    /// Set the graph's name.
    pub fn with_graph_name(self, name: String) -> (c: Self)
        ensures
            c == (RunnableConfig { graph_name: Some(name), ..self }),
    {
        RunnableConfig { graph_name: Some(name), ..self }
    }

    /// Set the checkpoint namespace.
    pub fn with_checkpoint_ns(self, ns: CheckpointNamespace) -> (c: Self)
        ensures
            c == (RunnableConfig { checkpoint_ns: Some(ns), ..self }),
    {
        RunnableConfig { checkpoint_ns: Some(ns), ..self }
    }

    /// Add a tag, after those already there.
    pub fn with_tag(self, tag: String) -> (c: Self)
        ensures
            views(c.tags@) == views(self.tags@).push(tag@),
            c.thread_id == self.thread_id,
            c.checkpoint_id == self.checkpoint_id,
            c.recursion_limit == self.recursion_limit,
            c.max_parallel_tasks == self.max_parallel_tasks,
            c.run_name == self.run_name,
            c.graph_name == self.graph_name,
            c.run_id == self.run_id,
            c.checkpoint_ns == self.checkpoint_ns,
            c.metadata == self.metadata,
            c.resume_value == self.resume_value,
            c.interrupt_before == self.interrupt_before,
            c.interrupt_after == self.interrupt_after,
    {
        let mut c = self;
        let ghost before = c.tags@;
        c.tags.push(tag);
        assert(views(c.tags@) =~= views(before).push(tag@));
        c
    }

    /// Set a metadata entry, replacing any under the same key.
    pub fn with_metadata(self, key: String, value: serde_json::Value) -> (c: Self)
        ensures
            json_map_entries(c.metadata) == json_map_entries(self.metadata).insert(key@, value),
            c.thread_id == self.thread_id,
            c.checkpoint_id == self.checkpoint_id,
            c.recursion_limit == self.recursion_limit,
            c.max_parallel_tasks == self.max_parallel_tasks,
            c.run_name == self.run_name,
            c.graph_name == self.graph_name,
            c.run_id == self.run_id,
            c.checkpoint_ns == self.checkpoint_ns,
            c.tags == self.tags,
            c.resume_value == self.resume_value,
            c.interrupt_before == self.interrupt_before,
            c.interrupt_after == self.interrupt_after,
    {
        let mut c = self;
        json_map_insert(&mut c.metadata, key, value);
        c
    }

    /// Set the nodes to interrupt before.
    pub fn with_interrupt_before(self, nodes: Vec<String>) -> (c: Self)
        ensures
            c == (RunnableConfig { interrupt_before: Some(nodes), ..self }),
    {
        RunnableConfig { interrupt_before: Some(nodes), ..self }
    }

    /// Set the nodes to interrupt after.
    pub fn with_interrupt_after(self, nodes: Vec<String>) -> (c: Self)
        ensures
            c == (RunnableConfig { interrupt_after: Some(nodes), ..self }),
    {
        RunnableConfig { interrupt_after: Some(nodes), ..self }
    }
}

} // verus!
