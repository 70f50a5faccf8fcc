//! Error types of the library and their classification.
use vstd::prelude::*;
use crate::text::{decimal, decimal_string, decimal_usize, push_str, to_owned_string};

verus! {

/// `std::backtrace::Backtrace`, carried opaquely.
#[verifier::external_type_specification]
#[verifier::external_body]
pub struct ExBacktrace(std::backtrace::Backtrace);

/// `std::backtrace::Backtrace::capture`; whether frames are recorded
/// depends on the environment, so nothing is stated of the result.
#[verifier::external_body]
fn capture_backtrace() -> std::backtrace::Backtrace {
    std::backtrace::Backtrace::capture()
}

/// The text that `{:?}` gives for a list of strings.
pub uninterp spec fn debug_list_text(items: Seq<Seq<char>>) -> Seq<char>;

/// Formats a list of strings with `{:?}` (`["a", "b"]`, each item escaped).
#[verifier::external_body]
pub(crate) fn debug_list(items: &Vec<String>) -> (s: String)
    ensures
        s@ == debug_list_text(items.deep_view()),
{
    format!("{items:?}")
}

/// Core error kind
#[derive(Debug)]
pub enum ErrorKind {
    Graph(String),
    Execution(String),
    Checkpoint(String),
    Interrupt(String),
    Interrupted { index: usize },
    Subgraph(String),
    InvalidUpdate(String),
    EmptyChannel,
    EmptyInput,
    TaskNotFound(String),
    Timeout(String),
    RecursionLimit { step: usize, limit: usize },
    Cancelled,
    MultipleWriters { field_index: usize, writers: Vec<String> },
    TaskPanicked(String),
    NodeTimeout(NodeTimeoutError),
    ParentCommand(String),
}

/// Error code categorizing the error type
#[derive(Clone, Copy, Debug, PartialEq, Eq, Structural)]
pub enum ErrorCode {
    /// Graph construction error
    Graph,
    /// Graph execution error
    Execution,
    /// Checkpoint persistence error
    Checkpoint,
    /// Human-in-the-loop interrupt signal
    Interrupt,
    /// Human-in-the-loop interrupted execution
    Interrupted,
    /// Subgraph error
    Subgraph,
    /// Invalid state update
    InvalidUpdate,
    /// Channel value is empty
    EmptyChannel,
    /// Graph input is empty
    EmptyInput,
    /// Task not found
    TaskNotFound,
    /// Operation timed out
    Timeout,
    /// Recursion limit exceeded
    RecursionLimit,
    /// Graph recursion limit exceeded
    GraphRecursionLimit,
    /// Recursion limit exceeded (alternative name)
    RecursionLimitExceeded,
    /// Invalid concurrent update detected
    InvalidConcurrentUpdate,
    /// Invalid node return value
    InvalidNodeReturnValue,
    /// Multiple subgraphs detected
    MultipleSubgraphs,
    /// Invalid chat history
    InvalidChatHistory,
    /// Execution was cancelled
    Cancelled,
    /// Multiple writers on a replace channel
    MultipleWriters,
    /// Task panicked during execution
    TaskPanicked,
    /// Node execution failed
    NodeFailed,
    /// Budget exceeded
    BudgetExceeded,
    /// Serialization error
    Serialize,
    /// LLM provider error
    Llm,
    /// Node timeout error
    NodeTimeout,
    /// Subgraph-to-parent routing command
    ParentCommand,
}

/// Invalid update error variants
#[derive(Clone, Debug)]
pub enum InvalidUpdateError {
    /// Multiple writers attempted to write to a replace channel
    MultipleWriters {
        /// The field name that had multiple writers
        field: String,
        /// Names of the conflicting nodes
        conflicting_nodes: Vec<String>,
    },
    /// Multiple overwrite attempts on the same field
    MultipleOverwrite {
        /// The field name that was overwritten
        field: String,
    },
    /// An invalid value was provided for a field
    InvalidValue {
        /// The field name with the invalid value
        field: String,
        /// Why the value is invalid
        reason: String,
    },
}

/// The message of an invalid-update error.
pub open spec fn invalid_update_text(e: InvalidUpdateError) -> Seq<char> {
    match e {
        InvalidUpdateError::MultipleWriters { field, conflicting_nodes } =>
            "multiple writers for field '"@ + field@ + "': "@ + debug_list_text(conflicting_nodes.deep_view()),
        InvalidUpdateError::MultipleOverwrite { field } =>
            "multiple overwrite attempts for field '"@ + field@ + "'"@,
        InvalidUpdateError::InvalidValue { field, reason } =>
            "invalid value for field '"@ + field@ + "': "@ + reason@,
    }
}

impl InvalidUpdateError {
    /// The error message.
    pub fn to_string(&self) -> (s: String)
        ensures
            s@ == invalid_update_text(*self),
    {
        match self {
            InvalidUpdateError::MultipleWriters { field, conflicting_nodes } => {
                let mut s = to_owned_string("multiple writers for field '");
                push_str(&mut s, field.as_str());
                push_str(&mut s, "': ");
                let list = debug_list(conflicting_nodes);
                push_str(&mut s, list.as_str());
                s
            },
            InvalidUpdateError::MultipleOverwrite { field } => {
                let mut s = to_owned_string("multiple overwrite attempts for field '");
                push_str(&mut s, field.as_str());
                push_str(&mut s, "'");
                s
            },
            InvalidUpdateError::InvalidValue { field, reason } => {
                let mut s = to_owned_string("invalid value for field '");
                push_str(&mut s, field.as_str());
                push_str(&mut s, "': ");
                push_str(&mut s, reason.as_str());
                s
            },
        }
    }
}

/// Node timeout error variants
#[derive(Clone, Debug)]
pub enum NodeTimeoutError {
    /// Node execution exceeded the specified timeout duration
    Timeout {
        /// Name of the node that timed out
        node: String,
        /// Timeout duration in milliseconds
        timeout_ms: u64,
    },
    /// Node execution exceeded its run timeout
    RunTimeout {
        /// Name of the node that timed out
        node: String,
        /// Timeout duration in milliseconds
        timeout: u64,
    },
    /// Node execution exceeded its idle timeout
    IdleTimeout {
        /// Name of the node that timed out
        node: String,
        /// Timeout duration in milliseconds
        timeout: u64,
    },
    /// Node execution exceeded its deadline
    DeadlineExceeded {
        /// Name of the node that exceeded its deadline
        node: String,
    },
}

/// The message of a node timeout error.
pub open spec fn node_timeout_text(e: NodeTimeoutError) -> Seq<char> {
    match e {
        NodeTimeoutError::Timeout { node, timeout_ms } =>
            "node '"@ + node@ + "' timed out after "@ + decimal(timeout_ms as nat) + "ms"@,
        NodeTimeoutError::RunTimeout { node, timeout } =>
            "node '"@ + node@ + "' run timeout after "@ + decimal(timeout as nat) + "ms"@,
        NodeTimeoutError::IdleTimeout { node, timeout } =>
            "node '"@ + node@ + "' idle timeout after "@ + decimal(timeout as nat) + "ms"@,
        NodeTimeoutError::DeadlineExceeded { node } =>
            "node '"@ + node@ + "' deadline exceeded"@,
    }
}

impl NodeTimeoutError {
    /// The error message.
    pub fn to_string(&self) -> (s: String)
        ensures
            s@ == node_timeout_text(*self),
    {
        let mut s = to_owned_string("node '");
        match self {
            NodeTimeoutError::Timeout { node, timeout_ms } => {
                push_str(&mut s, node.as_str());
                push_str(&mut s, "' timed out after ");
                let n = decimal_string(*timeout_ms);
                push_str(&mut s, n.as_str());
                push_str(&mut s, "ms");
            },
            NodeTimeoutError::RunTimeout { node, timeout } => {
                push_str(&mut s, node.as_str());
                push_str(&mut s, "' run timeout after ");
                let n = decimal_string(*timeout);
                push_str(&mut s, n.as_str());
                push_str(&mut s, "ms");
            },
            NodeTimeoutError::IdleTimeout { node, timeout } => {
                push_str(&mut s, node.as_str());
                push_str(&mut s, "' idle timeout after ");
                let n = decimal_string(*timeout);
                push_str(&mut s, n.as_str());
                push_str(&mut s, "ms");
            },
            NodeTimeoutError::DeadlineExceeded { node } => {
                push_str(&mut s, node.as_str());
                push_str(&mut s, "' deadline exceeded");
            },
        }
        s
    }
}

/// The code that classifies an error kind.
pub open spec fn kind_code(k: ErrorKind) -> ErrorCode {
    match k {
        ErrorKind::Graph(_) => ErrorCode::Graph,
        ErrorKind::Execution(_) => ErrorCode::Execution,
        ErrorKind::Checkpoint(_) => ErrorCode::Checkpoint,
        ErrorKind::Interrupt(_) => ErrorCode::Interrupt,
        ErrorKind::Interrupted { .. } => ErrorCode::Interrupted,
        ErrorKind::Subgraph(_) => ErrorCode::Subgraph,
        ErrorKind::InvalidUpdate(_) => ErrorCode::InvalidUpdate,
        ErrorKind::EmptyChannel => ErrorCode::EmptyChannel,
        ErrorKind::EmptyInput => ErrorCode::EmptyInput,
        ErrorKind::TaskNotFound(_) => ErrorCode::TaskNotFound,
        ErrorKind::Timeout(_) => ErrorCode::Timeout,
        ErrorKind::RecursionLimit { .. } => ErrorCode::RecursionLimit,
        ErrorKind::Cancelled => ErrorCode::Cancelled,
        ErrorKind::MultipleWriters { .. } => ErrorCode::MultipleWriters,
        ErrorKind::TaskPanicked(_) => ErrorCode::TaskPanicked,
        ErrorKind::NodeTimeout(_) => ErrorCode::NodeTimeout,
        ErrorKind::ParentCommand(_) => ErrorCode::ParentCommand,
    }
}

/// The message of an error kind.
pub open spec fn kind_text(k: ErrorKind) -> Seq<char> {
    match k {
        ErrorKind::Graph(msg) => "Graph error: "@ + msg@,
        ErrorKind::Execution(msg) => "Execution error: "@ + msg@,
        ErrorKind::Checkpoint(msg) => "Checkpoint error: "@ + msg@,
        ErrorKind::Interrupt(msg) => "Interrupt: "@ + msg@,
        ErrorKind::Interrupted { index } => "Interrupted at index "@ + decimal(index as nat),
        ErrorKind::Subgraph(msg) => "Subgraph error: "@ + msg@,
        ErrorKind::InvalidUpdate(msg) => "Invalid update: "@ + msg@,
        ErrorKind::EmptyChannel => "Empty channel"@,
        ErrorKind::EmptyInput => "Empty input"@,
        ErrorKind::TaskNotFound(id) => "Task not found: "@ + id@,
        ErrorKind::Timeout(msg) => "Timeout: "@ + msg@,
        ErrorKind::RecursionLimit { step, limit } =>
            "Recursion limit exceeded: step "@ + decimal(step as nat) + " > limit "@ + decimal(limit as nat),
        ErrorKind::Cancelled => "Execution cancelled"@,
        ErrorKind::MultipleWriters { field_index, writers } =>
            "Multiple writers for replace channel: field "@ + decimal(field_index as nat) + " written by "@
                + debug_list_text(writers.deep_view()),
        ErrorKind::TaskPanicked(msg) => "Task panicked: "@ + msg@,
        ErrorKind::NodeTimeout(err) => "Node timeout: "@ + node_timeout_text(err),
        ErrorKind::ParentCommand(target) => "Parent command: route to '"@ + target@ + "'"@,
    }
}

/// Juncture error with backtrace
#[derive(Debug)]
pub struct JunctureError {
    kind: ErrorKind,
    backtrace: std::backtrace::Backtrace,
}

impl JunctureError {
    /// The kind of this error.
    pub closed spec fn kind(&self) -> ErrorKind {
        self.kind
    }

    /// An error of the given kind, with a backtrace captured now.
    fn from_kind(kind: ErrorKind) -> (e: Self)
        ensures
            e.kind() == kind,
    {
        JunctureError { kind, backtrace: capture_backtrace() }
    }

    /// Graph construction error
    pub fn graph(msg: &str) -> (e: Self)
        ensures
            (e.kind() matches ErrorKind::Graph(m) && m@ == msg@),
    {
        Self::from_kind(ErrorKind::Graph(to_owned_string(msg)))
    }

    /// Graph execution error
    pub fn execution(msg: &str) -> (e: Self)
        ensures
            (e.kind() matches ErrorKind::Execution(m) && m@ == msg@),
    {
        Self::from_kind(ErrorKind::Execution(to_owned_string(msg)))
    }

    /// Checkpoint persistence error
    pub fn checkpoint(msg: &str) -> (e: Self)
        ensures
            (e.kind() matches ErrorKind::Checkpoint(m) && m@ == msg@),
    {
        Self::from_kind(ErrorKind::Checkpoint(to_owned_string(msg)))
    }

    /// Human-in-the-loop interrupt
    pub fn interrupt(msg: &str) -> (e: Self)
        ensures
            (e.kind() matches ErrorKind::Interrupt(m) && m@ == msg@),
    {
        Self::from_kind(ErrorKind::Interrupt(to_owned_string(msg)))
    }

    /// Human-in-the-loop interrupted execution
    pub fn interrupted(index: usize) -> (e: Self)
        ensures
            e.kind() == (ErrorKind::Interrupted { index }),
    {
        Self::from_kind(ErrorKind::Interrupted { index })
    }

    /// Subgraph error
    pub fn subgraph(msg: &str) -> (e: Self)
        ensures
            (e.kind() matches ErrorKind::Subgraph(m) && m@ == msg@),
    {
        Self::from_kind(ErrorKind::Subgraph(to_owned_string(msg)))
    }

    /// Invalid state update
    pub fn invalid_update(msg: &str) -> (e: Self)
        ensures
            (e.kind() matches ErrorKind::InvalidUpdate(m) && m@ == msg@),
    {
        Self::from_kind(ErrorKind::InvalidUpdate(to_owned_string(msg)))
    }

    /// Channel value is empty
    pub fn empty_channel() -> (e: Self)
        ensures
            e.kind() == ErrorKind::EmptyChannel,
    {
        Self::from_kind(ErrorKind::EmptyChannel)
    }

    /// Graph input is empty
    pub fn empty_input() -> (e: Self)
        ensures
            e.kind() == ErrorKind::EmptyInput,
    {
        Self::from_kind(ErrorKind::EmptyInput)
    }

    /// Task not found
    pub fn task_not_found(msg: &str) -> (e: Self)
        ensures
            (e.kind() matches ErrorKind::TaskNotFound(m) && m@ == msg@),
    {
        Self::from_kind(ErrorKind::TaskNotFound(to_owned_string(msg)))
    }

    /// Operation timed out
    pub fn timeout(msg: &str) -> (e: Self)
        ensures
            (e.kind() matches ErrorKind::Timeout(m) && m@ == msg@),
    {
        Self::from_kind(ErrorKind::Timeout(to_owned_string(msg)))
    }

    /// Recursion limit exceeded
    pub fn recursion_limit(step: usize, limit: usize) -> (e: Self)
        ensures
            e.kind() == (ErrorKind::RecursionLimit { step, limit }),
    {
        Self::from_kind(ErrorKind::RecursionLimit { step, limit })
    }

    /// The backtrace captured when this error was made.
    pub closed spec fn captured_backtrace(&self) -> std::backtrace::Backtrace {
        self.backtrace
    }

    /// Access the backtrace for this error
    pub fn backtrace(&self) -> (b: &std::backtrace::Backtrace)
        ensures
            *b == self.captured_backtrace(),
    {
        &self.backtrace
    }

    /// Get the error code categorizing this error
    pub fn code(&self) -> (c: ErrorCode)
        ensures
            c == kind_code(self.kind()),
    {
        match &self.kind {
            ErrorKind::Graph(_) => ErrorCode::Graph,
            ErrorKind::Execution(_) => ErrorCode::Execution,
            ErrorKind::Checkpoint(_) => ErrorCode::Checkpoint,
            ErrorKind::Interrupt(_) => ErrorCode::Interrupt,
            ErrorKind::Interrupted { .. } => ErrorCode::Interrupted,
            ErrorKind::Subgraph(_) => ErrorCode::Subgraph,
            ErrorKind::InvalidUpdate(_) => ErrorCode::InvalidUpdate,
            ErrorKind::EmptyChannel => ErrorCode::EmptyChannel,
            ErrorKind::EmptyInput => ErrorCode::EmptyInput,
            ErrorKind::TaskNotFound(_) => ErrorCode::TaskNotFound,
            ErrorKind::Timeout(_) => ErrorCode::Timeout,
            ErrorKind::RecursionLimit { .. } => ErrorCode::RecursionLimit,
            ErrorKind::Cancelled => ErrorCode::Cancelled,
            ErrorKind::MultipleWriters { .. } => ErrorCode::MultipleWriters,
            ErrorKind::TaskPanicked(_) => ErrorCode::TaskPanicked,
            ErrorKind::NodeTimeout(_) => ErrorCode::NodeTimeout,
            ErrorKind::ParentCommand(_) => ErrorCode::ParentCommand,
        }
    }

    /// Whether this is a graph construction error
    pub fn is_graph(&self) -> (b: bool)
        ensures
            b == (self.kind() is Graph),
    {
        match &self.kind {
            ErrorKind::Graph { .. } => true,
            _ => false,
        }
    }

    /// Whether this is an execution error
    pub fn is_execution(&self) -> (b: bool)
        ensures
            b == (self.kind() is Execution),
    {
        match &self.kind {
            ErrorKind::Execution { .. } => true,
            _ => false,
        }
    }

    /// Whether this is a checkpoint error
    pub fn is_checkpoint(&self) -> (b: bool)
        ensures
            b == (self.kind() is Checkpoint),
    {
        match &self.kind {
            ErrorKind::Checkpoint { .. } => true,
            _ => false,
        }
    }

    /// Whether this is an interrupt signal or an interrupted execution
    pub fn is_interrupt(&self) -> (b: bool)
        ensures
            b == ((self.kind() is Interrupt) || (self.kind() is Interrupted)),
    {
        match &self.kind {
            ErrorKind::Interrupt(_) | ErrorKind::Interrupted { .. } => true,
            _ => false,
        }
    }

    /// Whether this is a subgraph error
    pub fn is_subgraph(&self) -> (b: bool)
        ensures
            b == (self.kind() is Subgraph),
    {
        match &self.kind {
            ErrorKind::Subgraph { .. } => true,
            _ => false,
        }
    }

    /// Whether this is an invalid update error
    pub fn is_invalid_update(&self) -> (b: bool)
        ensures
            b == (self.kind() is InvalidUpdate),
    {
        match &self.kind {
            ErrorKind::InvalidUpdate { .. } => true,
            _ => false,
        }
    }

    /// Whether this is an empty channel error
    pub fn is_empty_channel(&self) -> (b: bool)
        ensures
            b == (self.kind() is EmptyChannel),
    {
        match &self.kind {
            ErrorKind::EmptyChannel { .. } => true,
            _ => false,
        }
    }

    /// Whether this is an empty input error
    pub fn is_empty_input(&self) -> (b: bool)
        ensures
            b == (self.kind() is EmptyInput),
    {
        match &self.kind {
            ErrorKind::EmptyInput { .. } => true,
            _ => false,
        }
    }

    /// Whether this is a task-not-found error
    pub fn is_task_not_found(&self) -> (b: bool)
        ensures
            b == (self.kind() is TaskNotFound),
    {
        match &self.kind {
            ErrorKind::TaskNotFound { .. } => true,
            _ => false,
        }
    }

    /// Whether this is a timeout error
    pub fn is_timeout(&self) -> (b: bool)
        ensures
            b == (self.kind() is Timeout),
    {
        match &self.kind {
            ErrorKind::Timeout { .. } => true,
            _ => false,
        }
    }

    /// Whether this is a recursion limit error
    pub fn is_recursion_limit(&self) -> (b: bool)
        ensures
            b == (self.kind() is RecursionLimit),
    {
        match &self.kind {
            ErrorKind::RecursionLimit { .. } => true,
            _ => false,
        }
    }

    /// Execution was cancelled
    pub fn cancelled() -> (e: Self)
        ensures
            e.kind() == ErrorKind::Cancelled,
    {
        Self::from_kind(ErrorKind::Cancelled)
    }

    /// Check if this is a cancellation error
    pub fn is_cancelled(&self) -> (b: bool)
        ensures
            b == (self.kind() is Cancelled),
    {
        match &self.kind {
            ErrorKind::Cancelled { .. } => true,
            _ => false,
        }
    }

    /// Multiple writers on a replace channel
    pub fn multiple_writers(field_index: usize, writers: Vec<String>) -> (e: Self)
        ensures
            e.kind() == (ErrorKind::MultipleWriters { field_index, writers }),
    {
        Self::from_kind(ErrorKind::MultipleWriters { field_index, writers })
    }

    /// Check if this is a multiple writers error
    pub fn is_multiple_writers(&self) -> (b: bool)
        ensures
            b == (self.kind() is MultipleWriters),
    {
        match &self.kind {
            ErrorKind::MultipleWriters { .. } => true,
            _ => false,
        }
    }

    /// Task panicked during execution
    pub fn task_panicked(msg: &str) -> (e: Self)
        ensures
            (e.kind() matches ErrorKind::TaskPanicked(m) && m@ == msg@),
    {
        Self::from_kind(ErrorKind::TaskPanicked(to_owned_string(msg)))
    }

    /// Check if this is a task panic error
    pub fn is_task_panicked(&self) -> (b: bool)
        ensures
            b == (self.kind() is TaskPanicked),
    {
        match &self.kind {
            ErrorKind::TaskPanicked { .. } => true,
            _ => false,
        }
    }

    /// Node execution exceeded its timeout
    pub fn node_timeout(err: NodeTimeoutError) -> (e: Self)
        ensures
            e.kind() == ErrorKind::NodeTimeout(err),
    {
        Self::from_kind(ErrorKind::NodeTimeout(err))
    }

    /// Check if this is a node timeout error
    pub fn is_node_timeout(&self) -> (b: bool)
        ensures
            b == (self.kind() is NodeTimeout),
    {
        match &self.kind {
            ErrorKind::NodeTimeout { .. } => true,
            _ => false,
        }
    }

    /// Subgraph-to-parent routing command naming the target node in the
    /// parent graph.
    pub fn parent_command(target: &str) -> (e: Self)
        ensures
            (e.kind() matches ErrorKind::ParentCommand(m) && m@ == target@),
    {
        Self::from_kind(ErrorKind::ParentCommand(to_owned_string(target)))
    }

    /// Check if this is a parent command routing signal
    pub fn is_parent_command(&self) -> (b: bool)
        ensures
            b == (self.kind() is ParentCommand),
    {
        match &self.kind {
            ErrorKind::ParentCommand { .. } => true,
            _ => false,
        }
    }

    /// The target node of a parent command, `None` for every other error.
    pub fn parent_command_target(&self) -> (t: Option<&str>)
        ensures
            (self.kind() is ParentCommand) <==> (t is Some),
            (self.kind() matches ErrorKind::ParentCommand(m) ==> t.unwrap()@ == m@),
    {
        match &self.kind {
            ErrorKind::ParentCommand(target) => Some(target.as_str()),
            _ => None,
        }
    }

    /// Get the error code categorizing this error (alias for `code()`)
    pub fn error_code(&self) -> (c: ErrorCode)
        ensures
            c == kind_code(self.kind()),
    {
        self.code()
    }

    /// Alias for `is_recursion_limit()`
    pub fn is_graph_recursion_limit(&self) -> (b: bool)
        ensures
            b == (self.kind() is RecursionLimit),
    {
        self.is_recursion_limit()
    }

    /// Alias for `is_multiple_writers()`
    pub fn is_invalid_concurrent_update(&self) -> (b: bool)
        ensures
            b == (self.kind() is MultipleWriters),
    {
        self.is_multiple_writers()
    }

    /// Whether this error represents a node execution failure (an execution error)
    pub fn is_node_failed(&self) -> (b: bool)
        ensures
            b == (self.kind() is Execution),
    {
        self.is_execution()
    }

    /// Whether this error represents an exceeded budget or token limit.
    ///
    /// No error kind stands for such a limit, so no error is one.
    pub fn is_budget_exceeded(&self) -> (b: bool)
        ensures
            !b,
    {
        false
    }

    /// Whether this error represents a serialization or deserialization failure.
    ///
    /// No error kind stands for such a failure, so no error is one.
    pub fn is_serialize(&self) -> (b: bool)
        ensures
            !b,
    {
        false
    }

    /// The error message.
    pub fn to_string(&self) -> (s: String)
        ensures
            s@ == kind_text(self.kind()),
    {
        match &self.kind {
            ErrorKind::Graph(msg) => prefixed("Graph error: ", msg.as_str()),
            ErrorKind::Execution(msg) => prefixed("Execution error: ", msg.as_str()),
            ErrorKind::Checkpoint(msg) => prefixed("Checkpoint error: ", msg.as_str()),
            ErrorKind::Interrupt(msg) => prefixed("Interrupt: ", msg.as_str()),
            ErrorKind::Interrupted { index } => {
                let n = decimal_usize(*index);
                prefixed("Interrupted at index ", n.as_str())
            },
            ErrorKind::Subgraph(msg) => prefixed("Subgraph error: ", msg.as_str()),
            ErrorKind::InvalidUpdate(msg) => prefixed("Invalid update: ", msg.as_str()),
            ErrorKind::EmptyChannel => to_owned_string("Empty channel"),
            ErrorKind::EmptyInput => to_owned_string("Empty input"),
            ErrorKind::TaskNotFound(id) => prefixed("Task not found: ", id.as_str()),
            ErrorKind::Timeout(msg) => prefixed("Timeout: ", msg.as_str()),
            ErrorKind::RecursionLimit { step, limit } => {
                let a = decimal_usize(*step);
                let mut s = prefixed("Recursion limit exceeded: step ", a.as_str());
                push_str(&mut s, " > limit ");
                let b = decimal_usize(*limit);
                push_str(&mut s, b.as_str());
                s
            },
            ErrorKind::Cancelled => to_owned_string("Execution cancelled"),
            ErrorKind::MultipleWriters { field_index, writers } => {
                let a = decimal_usize(*field_index);
                let mut s = prefixed("Multiple writers for replace channel: field ", a.as_str());
                push_str(&mut s, " written by ");
                let list = debug_list(writers);
                push_str(&mut s, list.as_str());
                s
            },
            ErrorKind::TaskPanicked(msg) => prefixed("Task panicked: ", msg.as_str()),
            ErrorKind::NodeTimeout(err) => {
                let t = err.to_string();
                prefixed("Node timeout: ", t.as_str())
            },
            ErrorKind::ParentCommand(target) => {
                let mut s = prefixed("Parent command: route to '", target.as_str());
                push_str(&mut s, "'");
                s
            },
        }
    }
}

/// `head` followed by `tail`.
fn prefixed(head: &str, tail: &str) -> (s: String)
    ensures
        s@ == head@ + tail@,
{
    let mut s = to_owned_string(head);
    push_str(&mut s, tail);
    s
}

} // verus!
