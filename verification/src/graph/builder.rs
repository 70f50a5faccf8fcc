//! `StateGraph` builder: registers nodes and edges, checks names, and
//! compiles a validated graph with its trigger table.
use vstd::prelude::*;
use crate::edge::{
    table_add, CompiledEdge, Edge, PathMap, TriggerSource, TriggerTable, END, START,
};
use crate::graph::compiled::{CompiledGraph, SubgraphInfo};
use crate::graph::topology::{validate, opt_text, reports_issue, validation_issue, TopologyError, TopologyIssue};
use crate::json::JsonMap;
use crate::text::{has_char, push_str, same_text, to_owned_string, views};

verus! {

/// `indexmap::IndexMap`, known through the contracts of its wrappers.
#[verifier::external_type_specification]
#[verifier::external_body]
#[verifier::reject_recursive_types(K)]
#[verifier::reject_recursive_types(V)]
#[verifier::reject_recursive_types(S)]
pub struct ExIndexMap<K, V, S>(indexmap::IndexMap<K, V, S>);

/// Metadata stored for each node during graph construction
#[derive(Clone, Debug)]
pub struct NodeMetadata {
    /// Whether this node's execution should be deferred
    pub defer: bool,
    /// User-defined metadata for this node
    pub metadata: Option<JsonMap>,
    /// Optional list of destination node names
    pub destinations: Option<Vec<String>>,
    /// Optional error handler node name for engine-level error recovery.
    pub error_handler: Option<String>,
}

impl NodeMetadata {
    /// Metadata with every option unset.
    pub fn default() -> (m: Self)
        ensures
            !m.defer,
            m.metadata is None,
            m.destinations is None,
            m.error_handler is None,
    {
        NodeMetadata { defer: false, metadata: None, destinations: None, error_handler: None }
    }
}

/// The registered nodes of a graph, keyed by name, in registration order.
pub type NodeTable = indexmap::IndexMap<String, NodeMetadata>;

/// The entries of a node table, in order.
pub uninterp spec fn node_entries(m: NodeTable) -> Seq<(Seq<char>, NodeMetadata)>;

/// The names of the entries, in order.
pub open spec fn entry_names(e: Seq<(Seq<char>, NodeMetadata)>) -> Seq<Seq<char>> {
    e.map_values(|x: (Seq<char>, NodeMetadata)| x.0)
}

/// The position of the entry named `k`.
pub open spec fn entry_index(e: Seq<(Seq<char>, NodeMetadata)>, k: Seq<char>) -> int {
    choose|i: int| 0 <= i < e.len() && e[i].0 == k
}

/// The entries after inserting `v` under `k`: an existing key keeps its
/// place and takes the new value; a new key is added last.
pub open spec fn entries_after_insert(e: Seq<(Seq<char>, NodeMetadata)>, k: Seq<char>, v: NodeMetadata) -> Seq<(Seq<char>, NodeMetadata)> {
    if entry_names(e).contains(k) {
        e.update(entry_index(e, k), (k, v))
    } else {
        e.push((k, v))
    }
}

/// `IndexMap::new`: an empty table.
#[verifier::external_body]
fn node_table_new() -> (m: NodeTable)
    ensures
        node_entries(m).len() == 0,
{
    indexmap::IndexMap::new()
}

/// `IndexMap::len`: the number of entries.
#[verifier::external_body]
fn node_table_len(m: &NodeTable) -> (n: usize)
    ensures
        n == node_entries(*m).len(),
{
    m.len()
}

/// `IndexMap::contains_key`: whether some entry has this key.
#[verifier::external_body]
fn node_table_contains(m: &NodeTable, k: &str) -> (b: bool)
    ensures
        b == entry_names(node_entries(*m)).contains(k@),
{
    m.contains_key(k)
}

/// `IndexMap::insert`: a new key is added last; an existing key keeps its
/// place and takes the new value.
#[verifier::external_body]
fn node_table_insert(m: &mut NodeTable, k: String, v: NodeMetadata)
    ensures
        node_entries(*final(m)) == entries_after_insert(node_entries(*old(m)), k@, v),
{
    m.insert(k, v);
}

/// `IndexMap::get_index`: the key of the entry at a position.
#[verifier::external_body]
fn node_table_key_at(m: &NodeTable, i: usize) -> (r: &String)
    requires
        i < node_entries(*m).len(),
    ensures
        r@ == node_entries(*m)[i as int].0,
{
    m.get_index(i).unwrap().0
}

/// `IndexMap::get_index`: the value of the entry at a position.
#[verifier::external_body]
fn node_table_value_at(m: &NodeTable, i: usize) -> (r: &NodeMetadata)
    requires
        i < node_entries(*m).len(),
    ensures
        *r == node_entries(*m)[i as int].1,
{
    m.get_index(i).unwrap().1
}

/// `IndexMap::clone`: a table with the same entries.
#[verifier::external_body]
fn node_table_clone(m: &NodeTable) -> (r: NodeTable)
    ensures
        node_entries(r) == node_entries(*m),
{
    m.clone()
}

/// The number of registered nodes.
pub fn node_count(m: &NodeTable) -> (n: usize)
    ensures
        n == node_entries(*m).len(),
{
    node_table_len(m)
}

/// The name and metadata of the node at a position.
pub fn node_entry_at(m: &NodeTable, i: usize) -> (r: (&String, &NodeMetadata))
    requires
        i < node_entries(*m).len(),
    ensures
        r.0@ == node_entries(*m)[i as int].0,
        *r.1 == node_entries(*m)[i as int].1,
{
    (node_table_key_at(m, i), node_table_value_at(m, i))
}

/// The names of the registered nodes, in order.
pub fn node_names(m: &NodeTable) -> (v: Vec<String>)
    ensures
        views(v@) == entry_names(node_entries(*m)),
{
    let n = node_table_len(m);
    let mut v: Vec<String> = Vec::new();
    let mut i: usize = 0;
    while i < n
        invariant
            n == node_entries(*m).len(),
            i <= n,
            views(v@) == entry_names(node_entries(*m)).take(i as int),
        decreases n - i,
    {
        let k = node_table_key_at(m, i);
        let ghost before = v@;
        let kc = k.clone();
        v.push(kc);
        assert(v@ == before.push(kc));
        assert(entry_names(node_entries(*m))[i as int] == kc@);
        assert(views(v@) == views(before).push(kc@));
        assert(views(v@) =~= entry_names(node_entries(*m)).take(i + 1));
        i += 1;
    }
    assert(entry_names(node_entries(*m)).take(n as int) =~= entry_names(node_entries(*m)));
    v
}

/// The metadata of the first entry named `k`, if any.
pub open spec fn first_entry_with(e: Seq<(Seq<char>, NodeMetadata)>, k: Seq<char>) -> Option<NodeMetadata>
    decreases e.len(),
{
    if e.len() == 0 {
        None
    } else if e[0].0 == k {
        Some(e[0].1)
    } else {
        first_entry_with(e.drop_first(), k)
    }
}

/// The metadata of the node named `k`.
pub fn node_metadata<'a>(m: &'a NodeTable, k: &str) -> (r: Option<&'a NodeMetadata>)
    ensures
        match r {
            Some(md) => first_entry_with(node_entries(*m), k@) == Some(*md),
            None => first_entry_with(node_entries(*m), k@) is None,
        },
{
    let n = node_table_len(m);
    let ghost e = node_entries(*m);
    let mut i: usize = 0;
    assert(e.skip(0) =~= e);
    while i < n
        invariant
            e == node_entries(*m),
            n == e.len(),
            i <= n,
            first_entry_with(e, k@) == first_entry_with(e.skip(i as int), k@),
        decreases n - i,
    {
        assert(e.skip(i as int)[0] == e[i as int]);
        assert(e.skip(i as int).drop_first() =~= e.skip(i + 1));
        let name = node_table_key_at(m, i);
        let md = node_table_value_at(m, i);
        if same_text(name.as_str(), k) {
            return Some(md);
        }
        i += 1;
    }
    assert(e.skip(n as int) =~= Seq::<(Seq<char>, NodeMetadata)>::empty());
    None
}

/// The static description of the state type: its fields and the fields
/// that reducers replace.
#[derive(Clone, Debug)]
pub struct StateSchema {
    /// Number of fields of the state type
    pub field_count: usize,
    /// Names of the fields, in order
    pub field_names: Vec<String>,
    /// Fields whose reducer replaces the value
    pub replace_field_indices: Vec<usize>,
    /// Fields whose reducer replaces the value after the run finishes
    pub replace_after_finish_field_indices: Vec<usize>,
}

impl StateSchema {
    /// A schema with no fields.
    pub fn empty() -> (s: Self)
        ensures
            s.field_count == 0,
            s.field_names@.len() == 0,
            s.replace_field_indices@.len() == 0,
            s.replace_after_finish_field_indices@.len() == 0,
    {
        StateSchema {
            field_count: 0,
            field_names: Vec::new(),
            replace_field_indices: Vec::new(),
            replace_after_finish_field_indices: Vec::new(),
        }
    }
}

/// Configuration for graph compilation
#[derive(Clone, Debug)]
pub struct CompileConfig {
    /// Nodes that should interrupt before execution
    pub interrupt_before: Vec<String>,
    /// Nodes that should interrupt after execution
    pub interrupt_after: Vec<String>,
}

impl CompileConfig {
    /// No compile-time interrupts.
    pub fn default() -> (c: Self)
        ensures
            c.interrupt_before@.len() == 0,
            c.interrupt_after@.len() == 0,
    {
        CompileConfig { interrupt_before: Vec::new(), interrupt_after: Vec::new() }
    }
}

/// The first out-of-range index of a list, with the list's position.
pub open spec fn first_out_of_range(idx: Seq<usize>, count: usize) -> Option<usize>
    decreases idx.len(),
{
    if idx.len() == 0 {
        None
    } else if idx[0] >= count {
        Some(idx[0])
    } else {
        first_out_of_range(idx.drop_first(), count)
    }
}

/// The first name, in order, that is empty or holds a reserved character.
pub open spec fn first_bad_name(names: Seq<Seq<char>>) -> Option<Seq<char>>
    decreases names.len(),
{
    if names.len() == 0 {
        None
    } else if names[0].len() == 0 || names[0].contains(':') || names[0].contains('/') || names[0].contains('\\') {
        Some(names[0])
    } else {
        first_bad_name(names.drop_first())
    }
}

/// The first listed name, in order, that is not a node.
pub open spec fn first_missing(names: Seq<Seq<char>>, nodes: Seq<Seq<char>>) -> Option<Seq<char>>
    decreases names.len(),
{
    if names.len() == 0 {
        None
    } else if !nodes.contains(names[0]) {
        Some(names[0])
    } else {
        first_missing(names.drop_first(), nodes)
    }
}

/// The reason given for a bad node name.
pub open spec fn bad_name_reason(name: Seq<char>) -> Seq<char> {
    if name.len() == 0 {
        "node name cannot be empty"@
    } else {
        "node name cannot contain ':', '/', or '\\'"@
    }
}

/// The problem that key validation reports first: bad node names, a missing
/// entry point node, missing finish point nodes, out-of-range reducer
/// field indices, in this order.
pub open spec fn keys_issue(
    nodes: Seq<Seq<char>>,
    entry: Option<Seq<char>>,
    finish: Seq<Seq<char>>,
    schema: StateSchema,
) -> Option<TopologyIssue> {
    if first_bad_name(nodes) is Some {
        Some(TopologyIssue::InvalidNodeName(first_bad_name(nodes)->0, bad_name_reason(first_bad_name(nodes)->0)))
    } else if entry is Some && !nodes.contains(entry->0) {
        Some(TopologyIssue::NodeNotFound(entry->0))
    } else if first_missing(finish, nodes) is Some {
        Some(TopologyIssue::NodeNotFound(first_missing(finish, nodes)->0))
    } else if first_out_of_range(schema.replace_field_indices@, schema.field_count) is Some {
        Some(TopologyIssue::InvalidFieldReference(
            first_out_of_range(schema.replace_field_indices@, schema.field_count)->0 as nat,
            schema.field_count as nat,
            views(schema.field_names@),
            "replace_field_indices"@,
        ))
    } else if first_out_of_range(schema.replace_after_finish_field_indices@, schema.field_count) is Some {
        Some(TopologyIssue::InvalidFieldReference(
            first_out_of_range(schema.replace_after_finish_field_indices@, schema.field_count)->0 as nat,
            schema.field_count as nat,
            views(schema.field_names@),
            "replace_after_finish_field_indices"@,
        ))
    } else {
        None
    }
}

/// Adds every target as triggered by an edge from `src`.
pub open spec fn add_incoming_all(
    inc: Seq<(Seq<char>, Seq<crate::edge::TriggerSourceView>)>,
    targets: Seq<Seq<char>>,
    src: Seq<char>,
) -> Seq<(Seq<char>, Seq<crate::edge::TriggerSourceView>)>
    decreases targets.len(),
{
    if targets.len() == 0 {
        inc
    } else {
        add_incoming_all(
            table_add(inc, targets[0], crate::edge::TriggerSourceView::Edge(src)),
            targets.drop_first(),
            src,
        )
    }
}

/// The trigger table that the edges give, processed in order: an edge from
/// the start sentinel only marks its targets as triggered; a fixed edge to
/// the end sentinel adds nothing; every other edge is recorded as outgoing
/// from its source and as triggering each target.
pub open spec fn trigger_tables(edges: Seq<Edge>) -> (
    Seq<(Seq<char>, Seq<crate::edge::CompiledEdgeView>)>,
    Seq<(Seq<char>, Seq<crate::edge::TriggerSourceView>)>,
)
    decreases edges.len(),
{
    if edges.len() == 0 {
        (Seq::empty(), Seq::empty())
    } else {
        let (out, inc) = trigger_tables(edges.drop_last());
        match edges.last() {
            Edge::Fixed { from, to } =>
                if from@ == START@ {
                    (out, table_add(inc, to@, crate::edge::TriggerSourceView::Edge(from@)))
                } else if to@ == END@ {
                    (out, inc)
                } else {
                    (
                        table_add(out, from@, crate::edge::CompiledEdgeView::Fixed(to@)),
                        table_add(inc, to@, crate::edge::TriggerSourceView::Edge(from@)),
                    )
                },
            Edge::Conditional { from, path_map } =>
                if from@ == START@ {
                    (out, add_incoming_all(inc, path_map.target_views(), from@))
                } else {
                    (
                        table_add(out, from@, crate::edge::CompiledEdgeView::Conditional(path_map.view())),
                        add_incoming_all(inc, path_map.target_views(), from@),
                    )
                },
        }
    }
}

/// Builder for constructing executable graphs
#[derive(Debug)]
pub struct StateGraph {
    nodes: NodeTable,
    edges: Vec<Edge>,
    entry_point: Option<String>,
    finish_points: Vec<String>,
    subgraphs: Vec<SubgraphInfo>,
    schema: StateSchema,
}

impl StateGraph {
    /// The registered node names, in order.
    pub closed spec fn node_views(&self) -> Seq<Seq<char>> {
        entry_names(node_entries(self.nodes))
    }

    /// The registered nodes with their metadata, in order.
    pub closed spec fn node_table(&self) -> Seq<(Seq<char>, NodeMetadata)> {
        node_entries(self.nodes)
    }

    /// The edges, in the order they were added.
    pub closed spec fn edge_list(&self) -> Seq<Edge> {
        self.edges@
    }

    /// The entry point, if set.
    pub closed spec fn entry_view(&self) -> Option<Seq<char>> {
        match self.entry_point {
            Some(e) => Some(e@),
            None => None,
        }
    }

    /// The finish points, in the order they were set.
    pub closed spec fn finish_views(&self) -> Seq<Seq<char>> {
        views(self.finish_points@)
    }

    /// The mounted subgraphs.
    pub closed spec fn subgraph_list(&self) -> Seq<SubgraphInfo> {
        self.subgraphs@
    }

    /// The state schema the graph is checked against.
    pub closed spec fn state_schema(&self) -> StateSchema {
        self.schema
    }

    /// Two graphs with the same node table have the same node names.
    pub proof fn lemma_same_table_same_names(g1: &Self, g2: &Self)
        requires
            g1.node_table() == g2.node_table(),
        ensures
            g1.node_views() == g2.node_views(),
    {
    }

    /// Node names are distinct.
    pub open spec fn wf(&self) -> bool {
        self.node_views().no_duplicates()
    }

    /// Create a new empty graph
    pub fn new() -> (g: Self)
        ensures
            g.wf(),
            g.node_views().len() == 0,
            g.edge_list().len() == 0,
            g.entry_view() is None,
            g.finish_views().len() == 0,
            g.subgraph_list().len() == 0,
            g.state_schema().field_count == 0,
            g.state_schema().replace_field_indices@.len() == 0,
            g.state_schema().replace_after_finish_field_indices@.len() == 0,
    {
        let g = StateGraph {
            nodes: node_table_new(),
            edges: Vec::new(),
            entry_point: None,
            finish_points: Vec::new(),
            subgraphs: Vec::new(),
            schema: StateSchema::empty(),
        };
        assert(g.node_views() =~= Seq::<Seq<char>>::empty());
        assert(g.finish_views() =~= Seq::<Seq<char>>::empty());
        g
    }

    /// Sets the description of the state type that `validate_keys` checks.
    pub fn with_state_schema(self, schema: StateSchema) -> (g: Self)
        ensures
            g.state_schema() == schema,
            g.node_table() == self.node_table(),
            g.edge_list() == self.edge_list(),
            g.entry_view() == self.entry_view(),
            g.finish_views() == self.finish_views(),
            g.subgraph_list() == self.subgraph_list(),
    {
        StateGraph { schema, ..self }
    }

    /// Registers a node; fails when the name is already taken.
    fn register(&mut self, name: &str, md: NodeMetadata) -> (r: Result<(), TopologyError>)
        requires
            old(self).wf(),
        ensures
            final(self).wf(),
            old(self).node_views().contains(name@) ==> (r matches Err(e) && e.issue() == TopologyIssue::DuplicateNode(name@)
                && *final(self) == *old(self)),
            !old(self).node_views().contains(name@) ==> (r is Ok
                && final(self).node_table() == old(self).node_table().push((name@, md))),
            final(self).edge_list() == old(self).edge_list(),
            final(self).entry_view() == old(self).entry_view(),
            final(self).finish_views() == old(self).finish_views(),
            final(self).subgraph_list() == old(self).subgraph_list(),
            final(self).state_schema() == old(self).state_schema(),
    {
        if node_table_contains(&self.nodes, name) {
            return Err(TopologyError::DuplicateNode { name: to_owned_string(name) });
        }
        let ghost before = node_entries(self.nodes);
        node_table_insert(&mut self.nodes, to_owned_string(name), md);
        proof {
            let after = node_entries(self.nodes);
            assert(after == before.push((name@, md)));
            assert(entry_names(after) =~= entry_names(before).push(name@));
        }
        Ok(())
    }

    /// Add a node with full configuration options; fails when a node with
    /// the same name already exists.
    pub fn add_node(
        &mut self,
        name: &str,
        defer: bool,
        metadata: Option<JsonMap>,
        destinations: Option<Vec<String>>,
    ) -> (r: Result<(), TopologyError>)
        requires
            old(self).wf(),
        ensures
            final(self).wf(),
            old(self).node_views().contains(name@) ==> (r matches Err(e) && e.issue() == TopologyIssue::DuplicateNode(name@)
                && *final(self) == *old(self)),
            !old(self).node_views().contains(name@) ==> (r is Ok
                && final(self).node_table() == old(self).node_table().push((name@, NodeMetadata {
                    defer,
                    metadata,
                    destinations,
                    error_handler: None,
                }))),
            final(self).edge_list() == old(self).edge_list(),
            final(self).entry_view() == old(self).entry_view(),
            final(self).finish_views() == old(self).finish_views(),
            final(self).subgraph_list() == old(self).subgraph_list(),
            final(self).state_schema() == old(self).state_schema(),
    {
        self.register(name, NodeMetadata { defer, metadata, destinations, error_handler: None })
    }

    /// Add a node with default configuration options.
    pub fn add_node_simple(&mut self, name: &str) -> (r: Result<(), TopologyError>)
        requires
            old(self).wf(),
        ensures
            final(self).wf(),
            old(self).node_views().contains(name@) ==> (r matches Err(e) && e.issue() == TopologyIssue::DuplicateNode(name@)
                && *final(self) == *old(self)),
            !old(self).node_views().contains(name@) ==> (r is Ok && final(self).node_views() == old(self).node_views().push(name@)),
            final(self).edge_list() == old(self).edge_list(),
            final(self).entry_view() == old(self).entry_view(),
            final(self).finish_views() == old(self).finish_views(),
            final(self).subgraph_list() == old(self).subgraph_list(),
            final(self).state_schema() == old(self).state_schema(),
    {
        let r = self.register(name, NodeMetadata::default());
        proof {
            if r is Ok {
                assert(self.node_views() =~= old(self).node_views().push(name@));
            }
        }
        r
    }

    /// Register a node that is to run under an error handler; fails when
    /// the name is taken. Only the node's name is registered here: the
    /// handler itself is not held by this library.
    pub fn add_node_with_error_handler(&mut self, name: &str) -> (r: Result<(), TopologyError>)
        requires
            old(self).wf(),
        ensures
            final(self).wf(),
            old(self).node_views().contains(name@) ==> (r matches Err(e) && e.issue() == TopologyIssue::DuplicateNode(name@)
                && *final(self) == *old(self)),
            !old(self).node_views().contains(name@) ==> (r is Ok && final(self).node_views() == old(self).node_views().push(name@)),
            final(self).edge_list() == old(self).edge_list(),
            final(self).entry_view() == old(self).entry_view(),
            final(self).finish_views() == old(self).finish_views(),
            final(self).subgraph_list() == old(self).subgraph_list(),
            final(self).state_schema() == old(self).state_schema(),
    {
        self.add_node_simple(name)
    }

    /// Register a node that is to run under a retry policy; fails when the
    /// name is taken. Only the node's name is registered here: the policy
    /// itself is not held by this library.
    pub fn add_node_with_retry(&mut self, name: &str) -> (r: Result<(), TopologyError>)
        requires
            old(self).wf(),
        ensures
            final(self).wf(),
            old(self).node_views().contains(name@) ==> (r matches Err(e) && e.issue() == TopologyIssue::DuplicateNode(name@)
                && *final(self) == *old(self)),
            !old(self).node_views().contains(name@) ==> (r is Ok && final(self).node_views() == old(self).node_views().push(name@)),
            final(self).edge_list() == old(self).edge_list(),
            final(self).entry_view() == old(self).entry_view(),
            final(self).finish_views() == old(self).finish_views(),
            final(self).subgraph_list() == old(self).subgraph_list(),
            final(self).state_schema() == old(self).state_schema(),
    {
        self.add_node_simple(name)
    }

    /// Add a mounted subgraph as a node, recording the mount; fails when
    /// the name is taken.
    pub fn add_subgraph(&mut self, mount: SubgraphInfo) -> (r: Result<(), TopologyError>)
        requires
            old(self).wf(),
        ensures
            final(self).wf(),
            old(self).node_views().contains(mount.name@) ==> (r matches Err(e)
                && e.issue() == TopologyIssue::DuplicateNode(mount.name@) && *final(self) == *old(self)),
            !old(self).node_views().contains(mount.name@) ==> (r is Ok
                && final(self).node_views() == old(self).node_views().push(mount.name@)
                && final(self).subgraph_list() == old(self).subgraph_list().push(mount)),
            final(self).edge_list() == old(self).edge_list(),
            final(self).entry_view() == old(self).entry_view(),
            final(self).finish_views() == old(self).finish_views(),
            final(self).state_schema() == old(self).state_schema(),
    {
        let name = mount.name.clone();
        let r = self.add_node_simple(name.as_str());
        if r.is_ok() {
            self.subgraphs.push(mount);
        }
        r
    }

    /// Add a compiled subgraph that shares its parent's state as a node;
    /// fails when the name is taken.
    pub fn add_subgraph_node(&mut self, name: &str) -> (r: Result<(), TopologyError>)
        requires
            old(self).wf(),
        ensures
            final(self).wf(),
            old(self).node_views().contains(name@) ==> (r matches Err(e) && e.issue() == TopologyIssue::DuplicateNode(name@)
                && *final(self) == *old(self)),
            !old(self).node_views().contains(name@) ==> (r is Ok && final(self).node_views() == old(self).node_views().push(name@)),
            final(self).edge_list() == old(self).edge_list(),
            final(self).entry_view() == old(self).entry_view(),
            final(self).finish_views() == old(self).finish_views(),
            final(self).subgraph_list() == old(self).subgraph_list(),
            final(self).state_schema() == old(self).state_schema(),
    {
        self.add_node_simple(name)
    }

    /// Add a compiled subgraph with explicit state mapping as a node;
    /// fails when the name is taken.
    pub fn add_subgraph_with_config(&mut self, name: &str) -> (r: Result<(), TopologyError>)
        requires
            old(self).wf(),
        ensures
            final(self).wf(),
            old(self).node_views().contains(name@) ==> (r matches Err(e) && e.issue() == TopologyIssue::DuplicateNode(name@)
                && *final(self) == *old(self)),
            !old(self).node_views().contains(name@) ==> (r is Ok && final(self).node_views() == old(self).node_views().push(name@)),
            final(self).edge_list() == old(self).edge_list(),
            final(self).entry_view() == old(self).entry_view(),
            final(self).finish_views() == old(self).finish_views(),
            final(self).subgraph_list() == old(self).subgraph_list(),
            final(self).state_schema() == old(self).state_schema(),
    {
        self.add_node_simple(name)
    }

    /// Returns the graph unchanged.
    pub fn with_context_schema(self) -> (g: Self)
        ensures
            g == self,
    {
        self
    }

    /// Add a fixed edge between two nodes (checked at compile time).
    pub fn add_edge(&mut self, from: &str, to: &str)
        ensures
            old(self).wf() ==> final(self).wf(),
            final(self).node_views() == old(self).node_views(),
            final(self).edge_list().len() == old(self).edge_list().len() + 1,
            final(self).edge_list().drop_last() == old(self).edge_list(),
            final(self).edge_list().last() matches Edge::Fixed { from: f, to: t } && f@ == from@ && t@ == to@,
            final(self).node_table() == old(self).node_table(),
            final(self).entry_view() == old(self).entry_view(),
            final(self).finish_views() == old(self).finish_views(),
            final(self).subgraph_list() == old(self).subgraph_list(),
            final(self).state_schema() == old(self).state_schema(),
    {
        self.edges.push(Edge::Fixed { from: to_owned_string(from), to: to_owned_string(to) });
        assert(self.edge_list().drop_last() =~= old(self).edge_list());
    }

    /// Add a conditional edge, whose possible targets the path map lists
    /// (checked at compile time). The router that picks among them is not
    /// held by this library.
    pub fn add_conditional_edges(&mut self, from: &str, path_map: PathMap)
        ensures
            old(self).wf() ==> final(self).wf(),
            final(self).node_views() == old(self).node_views(),
            final(self).edge_list() == old(self).edge_list().push(Edge::Conditional { from: final(self).edge_list().last()->Conditional_from, path_map }),
            final(self).edge_list().last()->Conditional_from@ == from@,
            final(self).node_table() == old(self).node_table(),
            final(self).entry_view() == old(self).entry_view(),
            final(self).finish_views() == old(self).finish_views(),
            final(self).subgraph_list() == old(self).subgraph_list(),
            final(self).state_schema() == old(self).state_schema(),
    {
        let f = to_owned_string(from);
        self.edges.push(Edge::Conditional { from: f, path_map });
    }

    /// Set the entry point; also adds the edge from the start sentinel.
    pub fn set_entry_point(&mut self, node: &str)
        ensures
            old(self).wf() ==> final(self).wf(),
            final(self).node_views() == old(self).node_views(),
            final(self).entry_view() == Some(node@),
            final(self).edge_list().len() == old(self).edge_list().len() + 1,
            final(self).edge_list().drop_last() == old(self).edge_list(),
            final(self).edge_list().last() matches Edge::Fixed { from: f, to: t } && f@ == START@ && t@ == node@,
            final(self).node_table() == old(self).node_table(),
            final(self).finish_views() == old(self).finish_views(),
            final(self).subgraph_list() == old(self).subgraph_list(),
            final(self).state_schema() == old(self).state_schema(),
    {
        self.entry_point = Some(to_owned_string(node));
        self.edges.push(Edge::Fixed { from: to_owned_string(START), to: to_owned_string(node) });
        assert(self.edge_list().drop_last() =~= old(self).edge_list());
    }

    /// Add a finish point; also adds the edge to the end sentinel.
    pub fn set_finish_point(&mut self, node: &str)
        ensures
            old(self).wf() ==> final(self).wf(),
            final(self).node_views() == old(self).node_views(),
            final(self).finish_views() == old(self).finish_views().push(node@),
            final(self).edge_list().len() == old(self).edge_list().len() + 1,
            final(self).edge_list().drop_last() == old(self).edge_list(),
            final(self).edge_list().last() matches Edge::Fixed { from: f, to: t } && f@ == node@ && t@ == END@,
            final(self).node_table() == old(self).node_table(),
            final(self).entry_view() == old(self).entry_view(),
            final(self).subgraph_list() == old(self).subgraph_list(),
            final(self).state_schema() == old(self).state_schema(),
    {
        let ghost before = self.finish_points@;
        self.finish_points.push(to_owned_string(node));
        assert(self.finish_views() =~= views(before).push(node@));
        self.edges.push(Edge::Fixed { from: to_owned_string(node), to: to_owned_string(END) });
        assert(self.edge_list().drop_last() =~= old(self).edge_list());
    }

    /// Add a chain of existing nodes: the first becomes the entry point when
    /// none is set, and an edge joins each node to the next; fails, with
    /// the graph unchanged, when a listed node does not exist.
    pub fn add_sequence(&mut self, nodes: &Vec<String>) -> (r: Result<(), TopologyError>)
        requires
            old(self).wf(),
        ensures
            final(self).wf(),
            nodes.len() == 0 ==> (r is Ok && *final(self) == *old(self)),
            nodes.len() > 0 && first_missing(views(nodes@), old(self).node_views()) is Some ==> (r matches Err(e)
                && e.issue() == TopologyIssue::NodeNotFound(first_missing(views(nodes@), old(self).node_views())->0)
                && *final(self) == *old(self)),
            nodes.len() > 0 && first_missing(views(nodes@), old(self).node_views()) is None ==> (r is Ok
                && final(self).entry_view() == (if old(self).entry_view() is None { Some(nodes@[0]@) } else { old(self).entry_view() })
                && edge_views(final(self).edge_list()) == edge_views(old(self).edge_list())
                    + (if old(self).entry_view() is None {
                        seq![crate::edge::EdgeView::Fixed(START@, nodes@[0]@)]
                    } else {
                        Seq::empty()
                    })
                    + chain_edges(views(nodes@))),
            final(self).node_table() == old(self).node_table(),
            final(self).finish_views() == old(self).finish_views(),
            final(self).subgraph_list() == old(self).subgraph_list(),
            final(self).state_schema() == old(self).state_schema(),
    {
        if nodes.len() == 0 {
            return Ok(());
        }
        let ghost nv = views(nodes@);
        let mut i: usize = 0;
        assert(nv.skip(0) =~= nv);
        while i < nodes.len()
            invariant
                *self == *old(self),
                self.wf(),
                nv == views(nodes@),
                i <= nodes.len(),
                first_missing(nv, self.node_views()) == first_missing(nv.skip(i as int), self.node_views()),
            decreases nodes.len() - i,
        {
            assert(nv.skip(i as int)[0] == nv[i as int]);
            assert(nv.skip(i as int).drop_first() =~= nv.skip(i + 1));
            if !node_table_contains(&self.nodes, nodes[i].as_str()) {
                return Err(TopologyError::NodeNotFound { name: nodes[i].clone() });
            }
            i += 1;
        }
        assert(nv.skip(nodes.len() as int) =~= Seq::<Seq<char>>::empty());
        let ghost start_edges = edge_views(self.edges@);
        if self.entry_point.is_none() {
            self.set_entry_point(nodes[0].as_str());
            assert(edge_views(self.edges@) =~= start_edges.push(crate::edge::EdgeView::Fixed(START@, nodes@[0]@)));
        } else {
            assert(edge_views(self.edges@) =~= start_edges + Seq::empty());
        }
        let ghost base = edge_views(self.edges@);
        let mut k: usize = 0;
        assert(chain_edges(nv).take(0) =~= Seq::<crate::edge::EdgeView>::empty());
        assert(base + chain_edges(nv).take(0) =~= base);
        while k + 1 < nodes.len()
            invariant
                nv == views(nodes@),
                nodes.len() >= 1,
                k + 1 <= nodes.len(),
                edge_views(self.edges@) == base + chain_edges(nv).take(k as int),
                self.node_table() == old(self).node_table(),
                self.finish_views() == old(self).finish_views(),
                self.subgraph_list() == old(self).subgraph_list(),
                self.state_schema() == old(self).state_schema(),
                self.entry_view() == (if old(self).entry_view() is None { Some(nodes@[0]@) } else { old(self).entry_view() }),
            decreases nodes.len() - k,
        {
            let ghost before = edge_views(self.edges@);
            self.add_edge(nodes[k].as_str(), nodes[k + 1].as_str());
            proof {
                assert(self.edges@ == self.edges@.drop_last().push(self.edges@.last()));
                assert(edge_views(self.edges@) =~= before.push(crate::edge::EdgeView::Fixed(nv[k as int], nv[k + 1])));
                assert(chain_edges(nv).take(k + 1) =~= chain_edges(nv).take(k as int).push(chain_edges(nv)[k as int]));
                assert(edge_views(self.edges@) =~= base + chain_edges(nv).take(k + 1));
            }
            k += 1;
        }
        assert(chain_edges(nv).take(k as int) =~= chain_edges(nv));
        Ok(())
    }

    /// Check node names, the entry and finish points, and the reducer field
    /// indices of the state schema.
    pub fn validate_keys(&self) -> (r: Result<(), TopologyError>)
        ensures
            r is Ok <==> keys_issue(self.node_views(), self.entry_view(), self.finish_views(), self.state_schema()) is None,
            r matches Err(e) ==> keys_issue(self.node_views(), self.entry_view(), self.finish_views(), self.state_schema())
                == Some(e.issue()),
    {
        let names = node_names(&self.nodes);
        let ghost nv = views(names@);
        let mut i: usize = 0;
        assert(nv.skip(0) =~= nv);
        while i < names.len()
            invariant
                nv == views(names@),
                nv == self.node_views(),
                i <= names.len(),
                first_bad_name(nv) == first_bad_name(nv.skip(i as int)),
            decreases names.len() - i,
        {
            assert(nv.skip(i as int)[0] == nv[i as int]);
            assert(nv.skip(i as int).drop_first() =~= nv.skip(i + 1));
            let name = &names[i];
            if name.as_str().is_empty() {
                return Err(TopologyError::InvalidNodeName {
                    name: name.clone(),
                    reason: to_owned_string("node name cannot be empty"),
                });
            }
            if has_char(name.as_str(), ':') || has_char(name.as_str(), '/') || has_char(name.as_str(), '\\') {
                return Err(TopologyError::InvalidNodeName {
                    name: name.clone(),
                    reason: to_owned_string("node name cannot contain ':', '/', or '\\'"),
                });
            }
            i += 1;
        }
        assert(nv.skip(names.len() as int) =~= Seq::<Seq<char>>::empty());
        if let Some(entry) = &self.entry_point {
            if !node_table_contains(&self.nodes, entry.as_str()) {
                return Err(TopologyError::NodeNotFound { name: entry.clone() });
            }
        }
        let ghost fv = views(self.finish_points@);
        let mut j: usize = 0;
        assert(fv.skip(0) =~= fv);
        while j < self.finish_points.len()
            invariant
                first_bad_name(self.node_views()) is None,
                self.entry_view() is Some ==> self.node_views().contains(self.entry_view()->0),
                fv == views(self.finish_points@),
                j <= self.finish_points.len(),
                first_missing(fv, self.node_views()) == first_missing(fv.skip(j as int), self.node_views()),
            decreases self.finish_points.len() - j,
        {
            assert(fv.skip(j as int)[0] == fv[j as int]);
            assert(fv.skip(j as int).drop_first() =~= fv.skip(j + 1));
            if !node_table_contains(&self.nodes, self.finish_points[j].as_str()) {
                return Err(TopologyError::NodeNotFound { name: self.finish_points[j].clone() });
            }
            j += 1;
        }
        assert(fv.skip(self.finish_points.len() as int) =~= Seq::<Seq<char>>::empty());
        let field_count = self.schema.field_count;
        match first_index_out_of_range(&self.schema.replace_field_indices, field_count) {
            Some(idx) => {
                return Err(TopologyError::InvalidFieldReference {
                    index: idx,
                    field_count,
                    field_names: copy_strings(&self.schema.field_names),
                    context: to_owned_string("replace_field_indices"),
                });
            },
            None => {},
        }
        match first_index_out_of_range(&self.schema.replace_after_finish_field_indices, field_count) {
            Some(idx) => {
                return Err(TopologyError::InvalidFieldReference {
                    index: idx,
                    field_count,
                    field_names: copy_strings(&self.schema.field_names),
                    context: to_owned_string("replace_after_finish_field_indices"),
                });
            },
            None => {},
        }
        Ok(())
    }

    /// Build the trigger table from the edges.
    pub fn build_trigger_table(&self) -> (t: TriggerTable)
        ensures
            t.wf(),
            (t.outgoing_view(), t.incoming_view()) == trigger_tables(self.edge_list()),
    {
        let mut t = TriggerTable::new();
        let mut i: usize = 0;
        assert(self.edges@.take(0) =~= Seq::<Edge>::empty());
        while i < self.edges.len()
            invariant
                i <= self.edges.len(),
                t.wf(),
                (t.outgoing_view(), t.incoming_view()) == trigger_tables(self.edges@.take(i as int)),
            decreases self.edges.len() - i,
        {
            assert(self.edges@.take(i + 1).drop_last() =~= self.edges@.take(i as int));
            assert(self.edges@.take(i + 1).last() == self.edges@[i as int]);
            match &self.edges[i] {
                Edge::Fixed { from, to } => {
                    if same_text(from.as_str(), START) {
                        t.add_incoming(to.clone(), TriggerSource::Edge { from: from.clone() });
                    } else if same_text(to.as_str(), END) {
                    } else {
                        t.add_outgoing(from.clone(), CompiledEdge::Fixed { target: to.clone() });
                        t.add_incoming(to.clone(), TriggerSource::Edge { from: from.clone() });
                    }
                },
                Edge::Conditional { from, path_map } => {
                    if !same_text(from.as_str(), START) {
                        t.add_outgoing(from.clone(), CompiledEdge::Conditional { path_map: path_map.copy() });
                    }
                    let pairs = path_map.iter();
                    let ghost tv = path_map.target_views();
                    let ghost inc0 = t.incoming_view();
                    let ghost out1 = t.outgoing_view();
                    let mut j: usize = 0;
                    assert(tv.skip(0) =~= tv);
                    while j < pairs.len()
                        invariant
                            j <= pairs.len(),
                            t.wf(),
                            pairs@.map_values(|p: (String, String)| crate::edge::pair_view(p)) == path_map.view(),
                            tv == path_map.target_views(),
                            t.outgoing_view() == out1,
                            add_incoming_all(inc0, tv, from@)
                                == add_incoming_all(t.incoming_view(), tv.skip(j as int), from@),
                        decreases pairs.len() - j,
                    {
                        assert(path_map.view()[j as int] == crate::edge::pair_view(pairs@[j as int]));
                        assert(tv.skip(j as int)[0] == tv[j as int]);
                        assert(tv.skip(j as int).drop_first() =~= tv.skip(j + 1));
                        t.add_incoming(pairs[j].1.clone(), TriggerSource::Edge { from: from.clone() });
                        j += 1;
                    }
                    assert(tv.skip(pairs.len() as int) =~= Seq::<Seq<char>>::empty());
                },
            }
            i += 1;
        }
        assert(self.edges@.take(self.edges.len() as int) =~= self.edges@);
        t
    }

    /// Whether `e` is what compiling this graph fails with: the first
    /// topology problem, else the first problem with the state keys.
    pub open spec fn compile_failure(&self, e: TopologyError) -> bool {
        let issue = validation_issue(self.node_views(), self.edge_list(), self.entry_view());
        if issue is Some {
            reports_issue(self.node_views(), self.edge_list(), issue->0, e)
        } else {
            keys_issue(self.node_views(), self.entry_view(), self.finish_views(), self.state_schema()) == Some(e.issue())
        }
    }

    /// Validate and compile with the given compile-time configuration.
    pub fn compile_with_config(&self, config: CompileConfig) -> (r: Result<CompiledGraph, TopologyError>)
        requires
            self.wf(),
        ensures
            r is Ok <==> (validation_issue(self.node_views(), self.edge_list(), self.entry_view()) is None
                && keys_issue(self.node_views(), self.entry_view(), self.finish_views(), self.state_schema()) is None),
            r matches Err(e) ==> self.compile_failure(e),
            r matches Ok(g) ==> g.wf() && g.node_views() == self.node_views() && g.metadata_table() == self.node_table()
                && (g.outgoing_view(), g.incoming_view()) == trigger_tables(self.edge_list())
                && g.interrupt_before_views() == views(config.interrupt_before@)
                && g.interrupt_after_views() == views(config.interrupt_after@)
                && g.subgraph_list() == self.subgraph_list(),
    {
        let names = node_names(&self.nodes);
        let entry: Option<&str> = match &self.entry_point {
            Some(e) => Some(e.as_str()),
            None => None,
        };
        assert(opt_text(entry) == self.entry_view());
        validate(&names, &self.edges, entry)?;
        self.validate_keys()?;
        let trigger_table = self.build_trigger_table();
        let subgraphs = copy_subgraphs(&self.subgraphs);
        Ok(CompiledGraph::new(
            names,
            trigger_table,
            node_table_clone(&self.nodes),
            config.interrupt_before,
            config.interrupt_after,
            subgraphs,
        ))
    }

    /// Validate and compile with no compile-time interrupts.
    pub fn compile(&self) -> (r: Result<CompiledGraph, TopologyError>)
        requires
            self.wf(),
        ensures
            r is Ok <==> (validation_issue(self.node_views(), self.edge_list(), self.entry_view()) is None
                && keys_issue(self.node_views(), self.entry_view(), self.finish_views(), self.state_schema()) is None),
            r matches Err(e) ==> self.compile_failure(e),
            r matches Ok(g) ==> g.wf() && g.node_views() == self.node_views() && g.metadata_table() == self.node_table()
                && (g.outgoing_view(), g.incoming_view()) == trigger_tables(self.edge_list())
                && g.interrupt_before_views().len() == 0 && g.interrupt_after_views().len() == 0
                && g.subgraph_list() == self.subgraph_list(),
    {
        let r = self.compile_with_config(CompileConfig::default());
        proof {
            if r is Ok {
                assert(views(Seq::<String>::empty()) =~= Seq::<Seq<char>>::empty());
            }
        }
        r
    }

    /// Compile without persistence (the same checks as `compile`).
    pub fn compile_ephemeral(&self) -> (r: Result<CompiledGraph, TopologyError>)
        requires
            self.wf(),
        ensures
            r is Ok <==> (validation_issue(self.node_views(), self.edge_list(), self.entry_view()) is None
                && keys_issue(self.node_views(), self.entry_view(), self.finish_views(), self.state_schema()) is None),
            r matches Err(e) ==> self.compile_failure(e),
            r matches Ok(g) ==> g.wf() && g.node_views() == self.node_views() && g.metadata_table() == self.node_table()
                && (g.outgoing_view(), g.incoming_view()) == trigger_tables(self.edge_list())
                && g.interrupt_before_views().len() == 0 && g.interrupt_after_views().len() == 0
                && g.subgraph_list() == self.subgraph_list(),
    {
        self.compile()
    }

    /// The registered nodes with their metadata.
    pub fn nodes(&self) -> (m: &NodeTable)
        ensures
            node_entries(*m) == self.node_table(),
    {
        &self.nodes
    }

    /// The edges, in the order they were added.
    pub fn edges(&self) -> (v: &Vec<Edge>)
        ensures
            v@ == self.edge_list(),
    {
        &self.edges
    }

    /// The entry point, if set.
    pub fn entry_point(&self) -> (e: Option<&String>)
        ensures
            opt_string_text(e) == self.entry_view(),
    {
        self.entry_point.as_ref()
    }

    /// The finish points, in the order they were set.
    pub fn finish_points(&self) -> (v: &Vec<String>)
        ensures
            views(v@) == self.finish_views(),
    {
        &self.finish_points
    }

    /// The mounted subgraphs.
    pub fn subgraphs(&self) -> (v: &Vec<SubgraphInfo>)
        ensures
            v@ == self.subgraph_list(),
    {
        &self.subgraphs
    }
}

impl Default for StateGraph {
    /// An empty graph, as `new` makes it.
    fn default() -> (g: Self)
        ensures
            g.wf(),
            g.node_views().len() == 0,
            g.edge_list().len() == 0,
            g.entry_view() is None,
            g.finish_views().len() == 0,
            g.subgraph_list().len() == 0,
            g.state_schema().field_count == 0,
            g.state_schema().replace_field_indices@.len() == 0,
            g.state_schema().replace_after_finish_field_indices@.len() == 0,
    {
        StateGraph::new()
    }
}

/// The text of an optional string reference.
pub open spec fn opt_string_text(o: Option<&String>) -> Option<Seq<char>> {
    match o {
        Some(s) => Some(s@),
        None => None,
    }
}

/// What each edge says, in order.
pub open spec fn edge_views(edges: Seq<Edge>) -> Seq<crate::edge::EdgeView> {
    edges.map_values(|e: Edge| e@)
}

/// The fixed edges joining each name of the list to the next.
pub open spec fn chain_edges(nodes: Seq<Seq<char>>) -> Seq<crate::edge::EdgeView> {
    Seq::new(
        (if nodes.len() == 0 { 0 } else { nodes.len() - 1 }) as nat,
        |k: int| crate::edge::EdgeView::Fixed(nodes[k], nodes[k + 1]),
    )
}

/// The first index of the list that is not below `count`.
fn first_index_out_of_range(idx: &Vec<usize>, count: usize) -> (r: Option<usize>)
    ensures
        r == first_out_of_range(idx@, count),
{
    let mut i: usize = 0;
    assert(idx@.skip(0) =~= idx@);
    while i < idx.len()
        invariant
            i <= idx.len(),
            first_out_of_range(idx@, count) == first_out_of_range(idx@.skip(i as int), count),
        decreases idx.len() - i,
    {
        assert(idx@.skip(i as int)[0] == idx@[i as int]);
        assert(idx@.skip(i as int).drop_first() =~= idx@.skip(i + 1));
        if idx[i] >= count {
            return Some(idx[i]);
        }
        i += 1;
    }
    assert(idx@.skip(idx.len() as int) =~= Seq::<usize>::empty());
    None
}

/// A copy of a list of strings.
pub fn copy_strings(v: &Vec<String>) -> (r: Vec<String>)
    ensures
        r@ == v@,
{
    let mut r: Vec<String> = Vec::new();
    let mut i: usize = 0;
    while i < v.len()
        invariant
            i <= v.len(),
            r@ == v@.take(i as int),
        decreases v.len() - i,
    {
        r.push(v[i].clone());
        assert(r@ =~= v@.take(i + 1));
        i += 1;
    }
    assert(v@.take(v.len() as int) =~= v@);
    r
}

/// A copy of a list of subgraph records.
pub fn copy_subgraphs(v: &Vec<SubgraphInfo>) -> (r: Vec<SubgraphInfo>)
    ensures
        r@ == v@,
{
    let mut r: Vec<SubgraphInfo> = Vec::new();
    let mut i: usize = 0;
    while i < v.len()
        invariant
            i <= v.len(),
            r@ == v@.take(i as int),
        decreases v.len() - i,
    {
        r.push(SubgraphInfo { name: v[i].name.clone(), persistence: v[i].persistence });
        assert(r@ =~= v@.take(i + 1));
        i += 1;
    }
    assert(v@.take(v.len() as int) =~= v@);
    r
}

/// The length of a duration in nanoseconds, as `Duration::as_nanos` gives
/// it.
pub uninterp spec fn duration_nanos(d: std::time::Duration) -> u128;

/// `Duration::as_nanos`: the total number of nanoseconds.
#[verifier::external_body]
fn as_nanos(d: &std::time::Duration) -> (n: u128)
    ensures
        n == duration_nanos(*d),
{
    d.as_nanos()
}

/// Cap a duration at the configured maximum interval: the shorter of the
/// two, the delay itself when they are equal.
pub fn cap_delay(delay: std::time::Duration, max: std::time::Duration) -> (d: std::time::Duration)
    ensures
        d == (if duration_nanos(delay) <= duration_nanos(max) { delay } else { max }),
{
    if as_nanos(&delay) <= as_nanos(&max) {
        delay
    } else {
        max
    }
}

/// Whether a failed node is retried when the retry policy has no predicate
/// of its own: every error but a cancellation or an interrupt.
pub fn default_should_retry(error: &crate::error::JunctureError) -> (b: bool)
    ensures
        b == (!(error.kind() is Cancelled) && !(error.kind() is Interrupt || error.kind() is Interrupted)),
{
    !error.is_cancelled() && !error.is_interrupt()
}

/// What a retrying run does after an attempt fails
#[derive(Clone, Copy, Debug, PartialEq, Eq, Structural)]
pub enum RetryStep {
    /// Return the attempt's error
    GiveUp,
    /// Sleep, then try again
    Retry,
}

/// What a retrying run does after attempt `attempt` (counted from 0)
/// fails: it gives up when the error is not to be retried or when that was
/// the last attempt allowed, and retries otherwise.
pub open spec fn retry_step_view(attempt: u32, max_attempts: u32, retryable: bool) -> RetryStep {
    if !retryable || attempt + 1 >= max_attempts {
        RetryStep::GiveUp
    } else {
        RetryStep::Retry
    }
}

/// Decide what a retrying run does after an attempt fails, given whether
/// the retry policy retries the error.
pub fn retry_step(attempt: u32, max_attempts: u32, retryable: bool) -> (s: RetryStep)
    ensures
        s == retry_step_view(attempt, max_attempts, retryable),
{
    if !retryable || attempt as u64 + 1 >= max_attempts as u64 {
        RetryStep::GiveUp
    } else {
        RetryStep::Retry
    }
}

/// Law of retrying: a failed attempt is retried only when the policy
/// retries its error and another attempt is allowed, so a run never makes
/// more attempts than the policy allows.
pub proof fn lemma_retry_within_attempts(attempt: u32, max_attempts: u32, retryable: bool)
    ensures
        retry_step_view(attempt, max_attempts, retryable) == RetryStep::Retry <==> (retryable && attempt + 1
            < max_attempts),
{
}

/// The error of a retrying run that made no attempt at all (a policy
/// allowing none).
pub fn retry_exhausted_error(node_name: &str) -> (e: crate::error::JunctureError)
    ensures
        e.kind() matches crate::error::ErrorKind::Execution(m) && m@ == "node '"@ + node_name@
            + "': retry policy exhausted with no error recorded"@,
{
    let mut m = to_owned_string("node '");
    push_str(&mut m, node_name);
    push_str(&mut m, "': retry policy exhausted with no error recorded");
    crate::error::JunctureError::execution(m.as_str())
}

/// Node error information for error handlers
#[derive(Debug)]
pub struct NodeError<S> {
    /// Node that failed
    pub node: String,
    /// The error that occurred
    pub error: crate::error::JunctureError,
    /// State snapshot at time of error
    pub state: S,
    /// Attempt number (1-indexed)
    pub attempt: u32,
}


/// Whether an edge makes its source a trigger of the destination `d`:
/// every edge does, except a fixed edge into the end sentinel from a node.
pub open spec fn records_trigger(e: Edge, d: Seq<char>) -> bool {
    match e {
        Edge::Fixed { from, to } => from@ == START@ || d != END@,
        Edge::Conditional { .. } => true,
    }
}

/// Adding an item under a key keeps everything a table held.
proof fn lemma_table_add_keeps<T>(table: Seq<(Seq<char>, Seq<T>)>, key: Seq<char>, item: T, k: Seq<char>, x: T)
    requires
        crate::edge::table_keys_distinct(table),
        crate::edge::table_list(table, k).contains(x),
    ensures
        crate::edge::table_list(table_add(table, key, item), k).contains(x),
{
    crate::edge::lemma_table_add(table, key, item, k);
    if k == key {
        let l = crate::edge::table_list(table, k);
        let j = choose|j: int| 0 <= j < l.len() && l[j] == x;
        assert(l.push(item)[j] == x);
    }
}

/// Marking every target as triggered from `src` keeps the keys distinct,
/// keeps what the table held, and records `src` for each target.
proof fn lemma_add_incoming_all(
    inc: Seq<(Seq<char>, Seq<crate::edge::TriggerSourceView>)>,
    targets: Seq<Seq<char>>,
    src: Seq<char>,
    k: Seq<char>,
    x: crate::edge::TriggerSourceView,
)
    requires
        crate::edge::table_keys_distinct(inc),
    ensures
        crate::edge::table_keys_distinct(add_incoming_all(inc, targets, src)),
        crate::edge::table_list(inc, k).contains(x) ==> crate::edge::table_list(add_incoming_all(inc, targets, src), k).contains(x),
        targets.contains(k) ==> crate::edge::table_list(add_incoming_all(inc, targets, src), k).contains(
            crate::edge::TriggerSourceView::Edge(src),
        ),
    decreases targets.len(),
{
    if targets.len() > 0 {
        let item = crate::edge::TriggerSourceView::Edge(src);
        let next = table_add(inc, targets[0], item);
        crate::edge::lemma_table_add(inc, targets[0], item, k);
        if crate::edge::table_list(inc, k).contains(x) {
            lemma_table_add_keeps(inc, targets[0], item, k, x);
        }
        lemma_add_incoming_all(next, targets.drop_first(), src, k, x);
        if targets.contains(k) {
            if targets[0] == k {
                assert(crate::edge::table_list(next, k).last() == item);
                assert(crate::edge::table_list(next, k).contains(item));
                lemma_add_incoming_all(next, targets.drop_first(), src, k, item);
            } else {
                let j = choose|j: int| 0 <= j < targets.len() && targets[j] == k;
                assert(targets.drop_first()[j - 1] == k);
            }
        }
    }
}

/// Both trigger tables list each node once, and a table built from more
/// edges keeps what the one built from fewer held.
proof fn lemma_trigger_tables_grow(edges: Seq<Edge>, k: Seq<char>, x: crate::edge::TriggerSourceView)
    ensures
        crate::edge::table_keys_distinct(trigger_tables(edges).0),
        crate::edge::table_keys_distinct(trigger_tables(edges).1),
        edges.len() > 0 && crate::edge::table_list(trigger_tables(edges.drop_last()).1, k).contains(x)
            ==> crate::edge::table_list(trigger_tables(edges).1, k).contains(x),
    decreases edges.len(),
{
    if edges.len() > 0 {
        let init = edges.drop_last();
        lemma_trigger_tables_grow(init, k, x);
        let (out, inc) = trigger_tables(init);
        match edges.last() {
            Edge::Fixed { from, to } => {
                let item = crate::edge::TriggerSourceView::Edge(from@);
                crate::edge::lemma_table_add(inc, to@, item, k);
                crate::edge::lemma_table_add(out, from@, crate::edge::CompiledEdgeView::Fixed(to@), k);
                if crate::edge::table_list(inc, k).contains(x) && !(from@ != START@ && to@ == END@) {
                    lemma_table_add_keeps(inc, to@, item, k, x);
                }
            },
            Edge::Conditional { from, path_map } => {
                lemma_add_incoming_all(inc, path_map.target_views(), from@, k, x);
                crate::edge::lemma_table_add(out, from@, crate::edge::CompiledEdgeView::Conditional(path_map.view()), k);
            },
        }
    }
}

/// The trigger table records every edge: each node an edge leads to has
/// the edge's source among its triggers (a fixed edge from a node into the
/// end sentinel records nothing, as the end is no node).
pub proof fn lemma_edges_trigger_targets(edges: Seq<Edge>, i: int, d: Seq<char>)
    requires
        0 <= i < edges.len(),
        edges[i].dests().contains(d),
        records_trigger(edges[i], d),
    ensures
        crate::edge::table_list(trigger_tables(edges).1, d).contains(
            crate::edge::TriggerSourceView::Edge(edges[i].source()),
        ),
    decreases edges.len(),
{
    let x = crate::edge::TriggerSourceView::Edge(edges[i].source());
    let init = edges.drop_last();
    lemma_trigger_tables_grow(edges, d, x);
    lemma_trigger_tables_grow(init, d, x);
    if i < edges.len() - 1 {
        assert(init[i] == edges[i]);
        lemma_edges_trigger_targets(init, i, d);
    } else {
        let (out, inc) = trigger_tables(init);
        assert(edges.last() == edges[i]);
        match edges[i] {
            Edge::Fixed { from, to } => {
                assert(d == to@);
                crate::edge::lemma_table_add(inc, to@, x, d);
                assert(crate::edge::table_list(table_add(inc, to@, x), d).last() == x);
            },
            Edge::Conditional { from, path_map } => {
                lemma_add_incoming_all(inc, path_map.target_views(), from@, d, x);
            },
        }
    }
}

/// The outgoing table built from more edges keeps what the one built from
/// fewer held.
proof fn lemma_trigger_tables_out_grow(edges: Seq<Edge>, k: Seq<char>, x: crate::edge::CompiledEdgeView)
    requires
        edges.len() > 0,
        crate::edge::table_list(trigger_tables(edges.drop_last()).0, k).contains(x),
    ensures
        crate::edge::table_list(trigger_tables(edges).0, k).contains(x),
{
    let init = edges.drop_last();
    let (out, inc) = trigger_tables(init);
    lemma_trigger_tables_grow(init, k, crate::edge::TriggerSourceView::Edge(k));
    match edges.last() {
        Edge::Fixed { from, to } => {
            if from@ != START@ && to@ != END@ {
                lemma_table_add_keeps(out, from@, crate::edge::CompiledEdgeView::Fixed(to@), k, x);
            }
        },
        Edge::Conditional { from, path_map } => {
            if from@ != START@ {
                lemma_table_add_keeps(out, from@, crate::edge::CompiledEdgeView::Conditional(path_map.view()), k, x);
            }
        },
    }
}

/// The compiled outgoing table records every edge a run follows: a
/// conditional edge from a node (not the start sentinel) is listed, with
/// its path map, among that node's outgoing edges; so is a fixed edge from
/// a node to another node (not the end sentinel).
pub proof fn lemma_edges_recorded_outgoing(edges: Seq<Edge>, i: int)
    requires
        0 <= i < edges.len(),
        edges[i].source() != START@,
        edges[i] matches Edge::Fixed { to, .. } ==> to@ != END@,
    ensures
        edges[i] matches Edge::Conditional { from, path_map } ==> crate::edge::table_list(trigger_tables(edges).0, from@).contains(
            crate::edge::CompiledEdgeView::Conditional(path_map.view()),
        ),
        edges[i] matches Edge::Fixed { from, to } ==> crate::edge::table_list(trigger_tables(edges).0, from@).contains(
            crate::edge::CompiledEdgeView::Fixed(to@),
        ),
    decreases edges.len(),
{
    let init = edges.drop_last();
    let (out, inc) = trigger_tables(init);
    lemma_trigger_tables_grow(init, edges[i].source(), crate::edge::TriggerSourceView::Edge(edges[i].source()));
    if i < edges.len() - 1 {
        assert(init[i] == edges[i]);
        lemma_edges_recorded_outgoing(init, i);
        match edges[i] {
            Edge::Conditional { from, path_map } => {
                lemma_trigger_tables_out_grow(edges, from@, crate::edge::CompiledEdgeView::Conditional(path_map.view()));
            },
            Edge::Fixed { from, to } => {
                lemma_trigger_tables_out_grow(edges, from@, crate::edge::CompiledEdgeView::Fixed(to@));
            },
        }
    } else {
        assert(edges.last() == edges[i]);
        match edges[i] {
            Edge::Conditional { from, path_map } => {
                let x = crate::edge::CompiledEdgeView::Conditional(path_map.view());
                crate::edge::lemma_table_add(out, from@, x, from@);
                assert(crate::edge::table_list(table_add(out, from@, x), from@).last() == x);
            },
            Edge::Fixed { from, to } => {
                let x = crate::edge::CompiledEdgeView::Fixed(to@);
                crate::edge::lemma_table_add(out, from@, x, from@);
                assert(crate::edge::table_list(table_add(out, from@, x), from@).last() == x);
            },
        }
    }
}

} // verus!
