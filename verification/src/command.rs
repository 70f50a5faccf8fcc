//! Commands a node returns: a state update together with routing, the
//! graph to route in, a resume value and custom stream data.
use vstd::prelude::*;
use crate::interrupt::ResumeValue;
use crate::text::to_owned_string;

verus! {

/// Routing instruction from node
#[derive(Clone, Debug)]
pub enum Goto {
    /// No routing (use external edges)
    Edges,
    /// Route to single node
    Next(String),
    /// Route to multiple nodes (parallel)
    Multiple(Vec<String>),
    /// Dynamic fan-out to multiple targets
    Send(Vec<SendTarget>),
    /// Terminate this path
    End,
}

/// Send target for dynamic fan-out
#[derive(Clone, Debug)]
pub struct SendTarget {
    /// Target node name
    pub node: String,
    /// State the target node runs on, in place of the current state
    pub state: serde_json::Value,
    /// Optional per-task timeout override
    pub timeout: Option<std::time::Duration>,
}

/// Target graph for routing
#[derive(Clone, Copy, Debug, PartialEq, Eq, Structural)]
pub enum GraphTarget {
    /// Current graph (default)
    Current,
    /// Parent graph (for subgraph navigation)
    Parent,
}

/// Final value distinguishing return value from saved state
#[derive(Debug)]
pub struct Final<V, S> {
    /// Value returned to caller
    pub value: V,
    /// State update to save to checkpoint
    pub save: S,
}

/// Routing command from node to parent or child graph
#[derive(Clone, Debug)]
pub enum CommandGoto {
    /// Route to a single node
    One(String),
    /// Route to multiple nodes (parallel execution)
    Many(Vec<String>),
    /// Route to parent graph
    Parent(String),
    /// Dynamic fan-out to multiple targets with state overrides
    Send(Vec<SendTarget>),
}

/// Command: node return value combining a state update of type `U` and
/// routing
#[derive(Clone, Debug)]
pub struct Command<U> {
    /// State update to apply
    pub update: Option<U>,
    /// Routing instruction
    pub goto: Goto,
    /// Target graph (current or parent)
    pub graph: GraphTarget,
    /// Resume value for interrupt resumption
    pub resume: Option<ResumeValue>,
    /// Custom streaming data to emit during execution
    pub stream_data: Vec<serde_json::Value>,
}

/// A command in the current graph with no resume value and no stream data.
pub open spec fn plain_command<U>(c: Command<U>) -> bool {
    &&& c.graph == GraphTarget::Current
    &&& c.resume is None
    &&& c.stream_data@.len() == 0
}

impl<U> Command<U> {
    /// Create command with only state update
    pub fn update(update: U) -> (c: Self)
        ensures
            plain_command(c),
            c.update == Some(update),
            c.goto matches Goto::Edges,
    {
        Command { update: Some(update), goto: Goto::Edges, graph: GraphTarget::Current, resume: None, stream_data: Vec::new() }
    }

    /// Create command with only routing
    pub fn goto(target: &str) -> (c: Self)
        ensures
            plain_command(c),
            c.update is None,
            c.goto matches Goto::Next(t) && t@ == target@,
    {
        Command {
            update: None,
            goto: Goto::Next(to_owned_string(target)),
            graph: GraphTarget::Current,
            resume: None,
            stream_data: Vec::new(),
        }
    }

    /// Create command with update and routing
    pub fn update_and_goto(update: U, target: &str) -> (c: Self)
        ensures
            plain_command(c),
            c.update == Some(update),
            c.goto matches Goto::Next(t) && t@ == target@,
    {
        Command {
            update: Some(update),
            goto: Goto::Next(to_owned_string(target)),
            graph: GraphTarget::Current,
            resume: None,
            stream_data: Vec::new(),
        }
    }

    /// Create command with dynamic fan-out
    pub fn send(targets: Vec<SendTarget>) -> (c: Self)
        ensures
            plain_command(c),
            c.update is None,
            c.goto == Goto::Send(targets),
    {
        Command { update: None, goto: Goto::Send(targets), graph: GraphTarget::Current, resume: None, stream_data: Vec::new() }
    }

    /// Create command with update and fan-out
    pub fn update_and_send(update: U, targets: Vec<SendTarget>) -> (c: Self)
        ensures
            plain_command(c),
            c.update == Some(update),
            c.goto == Goto::Send(targets),
    {
        Command {
            update: Some(update),
            goto: Goto::Send(targets),
            graph: GraphTarget::Current,
            resume: None,
            stream_data: Vec::new(),
        }
    }

    /// Create command that terminates current path
    pub fn end() -> (c: Self)
        ensures
            plain_command(c),
            c.update is None,
            c.goto matches Goto::End,
    {
        Command { update: None, goto: Goto::End, graph: GraphTarget::Current, resume: None, stream_data: Vec::new() }
    }

    /// Create command that routes to a node of the parent graph
    pub fn goto_parent(target: &str) -> (c: Self)
        ensures
            c.graph == GraphTarget::Parent,
            c.resume is None,
            c.stream_data@.len() == 0,
            c.update is None,
            c.goto matches Goto::Next(t) && t@ == target@,
    {
        Command {
            update: None,
            goto: Goto::Next(to_owned_string(target)),
            graph: GraphTarget::Parent,
            resume: None,
            stream_data: Vec::new(),
        }
    }

    /// Attach a resume value to this command
    pub fn with_resume(self, value: ResumeValue) -> (c: Self)
        ensures
            c.resume == Some(value),
            c.update == self.update,
            c.goto == self.goto,
            c.graph == self.graph,
            c.stream_data == self.stream_data,
    {
        Command { resume: Some(value), ..self }
    }

    /// Attach custom streaming data to this command: the value is appended.
    pub fn with_stream_data(self, data: serde_json::Value) -> (c: Self)
        ensures
            c.stream_data@ == self.stream_data@.push(data),
            c.update == self.update,
            c.goto == self.goto,
            c.graph == self.graph,
            c.resume == self.resume,
    {
        let mut c = self;
        c.stream_data.push(data);
        c
    }

    /// A command with no update and no routing.
    pub fn default() -> (c: Self)
        ensures
            plain_command(c),
            c.update is None,
            c.goto matches Goto::Edges,
    {
        Command { update: None, goto: Goto::Edges, graph: GraphTarget::Current, resume: None, stream_data: Vec::new() }
    }
}

} // verus!
