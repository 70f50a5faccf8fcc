//! Stream events and the decisions of a streaming run: which events the
//! forwarding of a run passes on, drops or filters, which state snapshots
//! it emits, and how large its channel is.
use vstd::prelude::*;
use crate::chat::{TokenUsage, ToolCallChunk};
use crate::graph::builder::copy_strings;
use crate::text::{contains_text, views};

verus! {

/// Channel capacity of a stream that carries model tokens.
pub const CHANNEL_CAPACITY_MESSAGES: usize = 256;

/// Channel capacity of any other stream.
pub const CHANNEL_CAPACITY_DEFAULT: usize = 32;

/// What a stream carries
#[derive(Debug)]
pub enum StreamMode {
    /// The whole state after each superstep
    Values,
    /// Each node's update
    Updates,
    /// Debug events
    Debug,
    /// Model tokens as they arrive
    Messages,
    /// Several modes at once
    Multi(Vec<StreamMode>),
}

/// Whether a mode carries model tokens: it is the messages mode, or a
/// combination with the messages mode among its parts.
pub open spec fn carries_messages(mode: StreamMode) -> bool {
    match mode {
        StreamMode::Messages => true,
        StreamMode::Multi(modes) => exists|i: int| 0 <= i < modes.len() && modes@[i] is Messages,
        _ => false,
    }
}

/// The channel capacity of a stream: the larger one when it carries model
/// tokens.
pub fn stream_capacity(mode: &StreamMode) -> (n: usize)
    ensures
        n == (if carries_messages(*mode) {
            CHANNEL_CAPACITY_MESSAGES
        } else {
            CHANNEL_CAPACITY_DEFAULT
        }),
{
    match mode {
        StreamMode::Messages => CHANNEL_CAPACITY_MESSAGES,
        StreamMode::Multi(modes) => {
            let mut i: usize = 0;
            while i < modes.len()
                invariant
                    i <= modes.len(),
                    *mode == StreamMode::Multi(*modes),
                    forall|k: int| 0 <= k < i ==> !(modes@[k] is Messages),
                decreases modes.len() - i,
            {
                if let StreamMode::Messages = &modes[i] {
                    assert(modes@[i as int] is Messages);
                    return CHANNEL_CAPACITY_MESSAGES;
                }
                i += 1;
            }
            CHANNEL_CAPACITY_DEFAULT
        },
        _ => CHANNEL_CAPACITY_DEFAULT,
    }
}

/// Resuming a stream: the events of supersteps up to the last one already
/// seen are not sent again
#[derive(Clone, Debug)]
pub struct StreamResumption {
    /// The run being resumed
    pub run_id: String,
    /// The checkpoint resumed from, if any
    pub checkpoint_id: Option<String>,
    /// The last superstep already seen, if any
    pub last_step: Option<usize>,
}

impl StreamResumption {
    /// A resumption of a run.
    pub fn new(run_id: String, checkpoint_id: Option<String>, last_step: Option<usize>) -> (r: Self)
        ensures
            r.run_id == run_id,
            r.checkpoint_id == checkpoint_id,
            r.last_step == last_step,
    {
        StreamResumption { run_id, checkpoint_id, last_step }
    }

    /// Whether the events of a superstep were already seen: it is at or
    /// before the last one seen.
    pub fn should_skip(&self, step: usize) -> (b: bool)
        ensures
            b == (self.last_step matches Some(l) && step <= l),
    {
        match self.last_step {
            Some(l) => step <= l,
            None => false,
        }
    }
}

/// How a stream is run
#[derive(Debug)]
pub struct StreamConfig {
    /// What the stream carries
    pub mode: StreamMode,
    /// The state keys the values and updates are cut down to, if any
    pub output_keys: Option<Vec<String>>,
    /// Whether events of subgraphs are passed on
    pub include_subgraphs: bool,
    /// The subgraphs (by outermost name) whose events are passed on, if
    /// limited
    pub subgraph_filter: Option<Vec<String>>,
    /// The resumption of an earlier stream, if any
    pub resumption: Option<StreamResumption>,
}

impl StreamConfig {
    /// A configuration for a mode: all keys, no subgraph events, no
    /// resumption.
    pub fn new(mode: StreamMode) -> (c: Self)
        ensures
            c.mode == mode,
            c.output_keys is None,
            !c.include_subgraphs,
            c.subgraph_filter is None,
            c.resumption is None,
    {
        StreamConfig { mode, output_keys: None, include_subgraphs: false, subgraph_filter: None, resumption: None }
    }

    /// The same configuration, with subgraph events passed on or not.
    pub fn with_subgraphs(self, enabled: bool) -> (c: Self)
        ensures
            c == (StreamConfig { include_subgraphs: enabled, ..self }),
    {
        StreamConfig { include_subgraphs: enabled, ..self }
    }

    /// The same configuration, with subgraph events limited to the named
    /// subgraphs.
    pub fn with_subgraph_filter(self, names: Vec<String>) -> (c: Self)
        ensures
            c == (StreamConfig { subgraph_filter: Some(names), ..self }),
    {
        StreamConfig { subgraph_filter: Some(names), ..self }
    }

    /// The same configuration, with values and updates cut down to keys.
    pub fn with_output_keys(self, keys: Vec<String>) -> (c: Self)
        ensures
            c == (StreamConfig { output_keys: Some(keys), ..self }),
    {
        StreamConfig { output_keys: Some(keys), ..self }
    }

    /// The same configuration, resuming an earlier stream.
    pub fn with_resumption(self, resumption: StreamResumption) -> (c: Self)
        ensures
            c == (StreamConfig { resumption: Some(resumption), ..self }),
    {
        StreamConfig { resumption: Some(resumption), ..self }
    }
}

/// A chunk of model tokens
#[derive(Clone, Debug)]
pub struct MessageChunk {
    /// Text delta
    pub content: String,
    /// Tool call deltas
    pub tool_call_chunks: Vec<ToolCallChunk>,
    /// Token usage delta, when reported
    pub usage_delta: Option<TokenUsage>,
}

/// Where a chunk of model tokens comes from
#[derive(Clone, Debug)]
pub struct MessageStreamMetadata {
    /// The node that called the model
    pub node: String,
    /// The model
    pub model: String,
    /// Tags of the call
    pub tags: Vec<String>,
    /// Namespace of the subgraph the call ran in (empty at top level)
    pub ns: Vec<String>,
}

/// A debug event
#[derive(Clone, Debug)]
pub enum DebugEvent {
    /// A superstep begins
    SuperstepStart {
        /// The superstep
        step: usize,
        /// The nodes it runs
        pending_nodes: Vec<String>,
    },
}

/// An event of a streaming run, over state `S` and update `U`
#[derive(Clone, Debug)]
pub enum StreamEvent<S, U> {
    /// The state after a superstep
    Values { state: S, step: usize },
    /// The state after a superstep, cut down to the output keys
    FilteredValues { data: serde_json::Value, step: usize },
    /// A node's update
    Updates { node: String, update: U, step: usize },
    /// A node's update, cut down to the output keys
    FilteredUpdates { node: String, data: serde_json::Value, step: usize },
    /// Data a node sent
    Custom { node: String, data: serde_json::Value, ns: Vec<String> },
    /// Model tokens
    Messages { chunk: MessageChunk, metadata: MessageStreamMetadata },
    /// A node paused the run
    Interrupt { node: String, payload: serde_json::Value, resumable: bool, ns: Vec<String> },
    /// The run's output
    End { output: S },
    /// A task begins
    TaskStart { node: String, task_id: String, step: usize },
    /// A debug event
    Debug(DebugEvent),
}

impl<S, U> StreamEvent<S, U> {
    /// The namespace of the subgraph the event comes from: that of data,
    /// model tokens and interrupts; empty for every other event.
    pub open spec fn ns_view(&self) -> Seq<Seq<char>> {
        match self {
            StreamEvent::Custom { ns, .. } => views(ns@),
            StreamEvent::Messages { metadata, .. } => views(metadata.ns@),
            StreamEvent::Interrupt { ns, .. } => views(ns@),
            _ => Seq::empty(),
        }
    }

    /// The superstep of a state or update event, filtered or not.
    pub open spec fn step_view(&self) -> Option<usize> {
        match self {
            StreamEvent::Values { step, .. } => Some(*step),
            StreamEvent::FilteredValues { step, .. } => Some(*step),
            StreamEvent::Updates { step, .. } => Some(*step),
            StreamEvent::FilteredUpdates { step, .. } => Some(*step),
            _ => None,
        }
    }

    /// The namespace of the subgraph the event comes from (empty at top
    /// level).
    pub fn namespace(&self) -> (ns: Vec<String>)
        ensures
            views(ns@) == self.ns_view(),
    {
        match self {
            StreamEvent::Custom { ns, .. } => copy_strings(ns),
            StreamEvent::Messages { metadata, .. } => copy_strings(&metadata.ns),
            StreamEvent::Interrupt { ns, .. } => copy_strings(ns),
            _ => {
                let v: Vec<String> = Vec::new();
                assert(views(v@) =~= Seq::<Seq<char>>::empty());
                v
            },
        }
    }

    /// The superstep of a state or update event.
    pub fn step(&self) -> (s: Option<usize>)
        ensures
            s == self.step_view(),
    {
        match self {
            StreamEvent::Values { step, .. } => Some(*step),
            StreamEvent::FilteredValues { step, .. } => Some(*step),
            StreamEvent::Updates { step, .. } => Some(*step),
            StreamEvent::FilteredUpdates { step, .. } => Some(*step),
            _ => None,
        }
    }
}

/// What the forwarding does with an event
#[derive(Clone, Copy, Debug, PartialEq, Eq, Structural)]
pub enum ForwardAction {
    /// Drop it
    Skip,
    /// Pass it on as it is
    Forward,
    /// Pass the update on cut down to the output keys (as it is, when it
    /// cannot be turned into JSON)
    ForwardFilteredUpdate,
}

/// Whether a subgraph's event is passed on: a top-level event always is;
/// a subgraph's event only when subgraph events are included and, under a
/// filter, when the filter names its outermost subgraph.
pub open spec fn subgraph_passes(ns: Seq<Seq<char>>, included: bool, filter: Option<Seq<Seq<char>>>) -> bool {
    ns.len() == 0 || (included && match filter {
        Some(f) => f.contains(ns[0]),
        None => true,
    })
}

/// Whether a superstep's event is one a resumption already saw.
pub open spec fn resumed_over(r: Option<StreamResumption>, step: Option<usize>) -> bool {
    match (r, step) {
        (Some(r), Some(s)) => r.last_step matches Some(l) && s <= l,
        _ => false,
    }
}

/// The subgraph filter's names.
pub open spec fn filter_view(f: Option<Vec<String>>) -> Option<Seq<Seq<char>>> {
    match f {
        Some(v) => Some(views(v@)),
        None => None,
    }
}

/// What the forwarding does with an event that the stream mode does or
/// does not emit: it drops what the mode does not emit, a subgraph's event
/// that is not passed on, and a superstep's event that a resumption
/// already saw; under output keys it cuts an update down; else it passes
/// the event on.
pub open spec fn forward_view<S, U>(ev: StreamEvent<S, U>, emitted_by_mode: bool, cfg: StreamConfig) -> ForwardAction {
    if !emitted_by_mode {
        ForwardAction::Skip
    } else if !subgraph_passes(ev.ns_view(), cfg.include_subgraphs, filter_view(cfg.subgraph_filter)) {
        ForwardAction::Skip
    } else if resumed_over(cfg.resumption, ev.step_view()) {
        ForwardAction::Skip
    } else if cfg.output_keys is Some && ev is Updates {
        ForwardAction::ForwardFilteredUpdate
    } else {
        ForwardAction::Forward
    }
}

/// Decide what the forwarding of a streaming run does with an event
/// coming from the run, given whether the stream mode emits it.
pub fn forward_event<S, U>(ev: &StreamEvent<S, U>, emitted_by_mode: bool, cfg: &StreamConfig) -> (a: ForwardAction)
    ensures
        a == forward_view(*ev, emitted_by_mode, *cfg),
{
    if !emitted_by_mode {
        return ForwardAction::Skip;
    }
    let ns = ev.namespace();
    if ns.len() > 0 {
        if !cfg.include_subgraphs {
            return ForwardAction::Skip;
        }
        match &cfg.subgraph_filter {
            Some(filter) => {
                if !contains_text(filter, ns[0].as_str()) {
                    return ForwardAction::Skip;
                }
            },
            None => {},
        }
    }
    match &cfg.resumption {
        Some(r) => match ev.step() {
            Some(s) => {
                if r.should_skip(s) {
                    return ForwardAction::Skip;
                }
            },
            None => {},
        },
        None => {},
    }
    let is_update = match ev {
        StreamEvent::Updates { .. } => true,
        _ => false,
    };
    if cfg.output_keys.is_some() && is_update {
        ForwardAction::ForwardFilteredUpdate
    } else {
        ForwardAction::Forward
    }
}

/// Laws of the forwarding: an event the mode emits that comes from no
/// subgraph and belongs to no superstep (the run's end among them) is
/// always passed on as it is, whatever the configuration; and no event of
/// a superstep that a resumption already saw is ever passed on.
pub proof fn lemma_forwarding_laws<S, U>(ev: StreamEvent<S, U>, emitted_by_mode: bool, cfg: StreamConfig)
    ensures
        emitted_by_mode && ev.ns_view().len() == 0 && ev.step_view() is None ==> forward_view(ev, emitted_by_mode, cfg)
            == ForwardAction::Forward,
        ev is End && emitted_by_mode ==> forward_view(ev, emitted_by_mode, cfg) == ForwardAction::Forward,
        resumed_over(cfg.resumption, ev.step_view()) ==> forward_view(ev, emitted_by_mode, cfg) == ForwardAction::Skip,
        !emitted_by_mode ==> forward_view(ev, emitted_by_mode, cfg) == ForwardAction::Skip,
{
}

/// Laws of the subgraph filter: a subgraph's event (non-empty namespace)
/// is dropped when subgraph events are not included, and, under a filter,
/// whenever the filter does not name its outermost subgraph (the first
/// namespace segment), whatever the inner segments are; when the filter
/// names the outermost subgraph, an event the mode emits and no
/// resumption has seen is passed on.
pub proof fn lemma_subgraph_filter_laws<S, U>(ev: StreamEvent<S, U>, emitted_by_mode: bool, cfg: StreamConfig)
    ensures
        ev.ns_view().len() > 0 && !cfg.include_subgraphs ==> forward_view(ev, emitted_by_mode, cfg) == ForwardAction::Skip,
        ev.ns_view().len() > 0 && cfg.subgraph_filter is Some && !views(cfg.subgraph_filter->0@).contains(ev.ns_view()[0])
            ==> forward_view(ev, emitted_by_mode, cfg) == ForwardAction::Skip,
        emitted_by_mode && ev.ns_view().len() > 0 && cfg.include_subgraphs && cfg.subgraph_filter is Some
            && views(cfg.subgraph_filter->0@).contains(ev.ns_view()[0]) && !resumed_over(cfg.resumption, ev.step_view())
            ==> forward_view(ev, emitted_by_mode, cfg) != ForwardAction::Skip,
        emitted_by_mode && cfg.include_subgraphs && cfg.subgraph_filter is None && !resumed_over(cfg.resumption, ev.step_view())
            ==> forward_view(ev, emitted_by_mode, cfg) != ForwardAction::Skip,
{
}

/// Laws of output-key filtering: only an update is ever cut down to the
/// output keys, and only when output keys are given; an update the
/// forwarding passes on under output keys is always cut down.
pub proof fn lemma_output_key_laws<S, U>(ev: StreamEvent<S, U>, emitted_by_mode: bool, cfg: StreamConfig)
    ensures
        forward_view(ev, emitted_by_mode, cfg) == ForwardAction::ForwardFilteredUpdate ==> ev is Updates
            && cfg.output_keys is Some,
        ev is Updates && cfg.output_keys is Some ==> forward_view(ev, emitted_by_mode, cfg) != ForwardAction::Forward,
        cfg.output_keys is None ==> forward_view(ev, emitted_by_mode, cfg) != ForwardAction::ForwardFilteredUpdate,
{
}

/// Laws of resumption: an event of a superstep at or before the last one
/// a resumption saw is dropped; a top-level event the mode emits is passed
/// on when its superstep is after that one, or it has none, or nothing was
/// seen.
pub proof fn lemma_resumption_laws<S, U>(ev: StreamEvent<S, U>, emitted_by_mode: bool, cfg: StreamConfig)
    ensures
        cfg.resumption is Some && cfg.resumption->0.last_step is Some && ev.step_view() is Some && ev.step_view()->0
            <= cfg.resumption->0.last_step->0 ==> forward_view(ev, emitted_by_mode, cfg) == ForwardAction::Skip,
        emitted_by_mode && ev.ns_view().len() == 0 && (cfg.resumption is None || cfg.resumption->0.last_step is None
            || ev.step_view() is None || ev.step_view()->0 > cfg.resumption->0.last_step->0) ==> forward_view(
            ev,
            emitted_by_mode,
            cfg,
        ) != ForwardAction::Skip,
{
}

/// Law of the state snapshots: no snapshot of a superstep that a
/// resumption already saw is emitted, and without a resumption every
/// superstep of a values stream emits one.
pub proof fn lemma_values_laws(step: usize, cfg: StreamConfig)
    ensures
        resumed_over(cfg.resumption, Some(step)) ==> values_view(step, cfg) == ValuesAction::Skip,
        cfg.mode is Values && cfg.resumption is None ==> values_view(step, cfg) != ValuesAction::Skip,
        !(cfg.mode is Values) ==> values_view(step, cfg) == ValuesAction::Skip,
        cfg.resumption is Some && cfg.resumption->0.last_step is Some && step <= cfg.resumption->0.last_step->0
            ==> values_view(step, cfg) == ValuesAction::Skip,
        cfg.mode is Values && (cfg.resumption is None || cfg.resumption->0.last_step is None || step
            > cfg.resumption->0.last_step->0) ==> values_view(step, cfg) != ValuesAction::Skip,
        values_view(step, cfg) == ValuesAction::EmitFiltered <==> (cfg.mode is Values && cfg.output_keys is Some
            && !resumed_over(cfg.resumption, Some(step))),
        values_view(step, cfg) == ValuesAction::Emit <==> (cfg.mode is Values && cfg.output_keys is None
            && !resumed_over(cfg.resumption, Some(step))),
{
}

/// What a run does with the state after a superstep
#[derive(Clone, Copy, Debug, PartialEq, Eq, Structural)]
pub enum ValuesAction {
    /// Emit nothing
    Skip,
    /// Emit the whole state
    Emit,
    /// Emit the state cut down to the output keys
    EmitFiltered,
}

/// What a run does with the state after a superstep: nothing unless the
/// stream carries values, nothing for a superstep a resumption already
/// saw, the state cut down under output keys, else the whole state.
pub open spec fn values_view(step: usize, cfg: StreamConfig) -> ValuesAction {
    if !(cfg.mode is Values) {
        ValuesAction::Skip
    } else if resumed_over(cfg.resumption, Some(step)) {
        ValuesAction::Skip
    } else if cfg.output_keys is Some {
        ValuesAction::EmitFiltered
    } else {
        ValuesAction::Emit
    }
}

/// Decide what a run does with the state after a superstep.
pub fn values_action(step: usize, cfg: &StreamConfig) -> (a: ValuesAction)
    ensures
        a == values_view(step, *cfg),
{
    let is_values = match &cfg.mode {
        StreamMode::Values => true,
        _ => false,
    };
    if !is_values {
        return ValuesAction::Skip;
    }
    let skip = match &cfg.resumption {
        Some(r) => r.should_skip(step),
        None => false,
    };
    if skip {
        ValuesAction::Skip
    } else if cfg.output_keys.is_some() {
        ValuesAction::EmitFiltered
    } else {
        ValuesAction::Emit
    }
}

} // verus!
