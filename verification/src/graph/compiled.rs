//! The compiled graph: validated nodes, trigger table and compile-time
//! settings, with the decisions taken around an execution.
use vstd::prelude::*;
use crate::edge::{START, CompiledEdge, CompiledEdgeView, TriggerSource, TriggerSourceView, TriggerTable};
use crate::graph::builder::{first_entry_with, node_entries, node_metadata, NodeMetadata, NodeTable};
use crate::json::{
    json_array, json_bool, json_from_bool, json_from_map, json_from_string, json_from_vec,
    json_map_entries, json_map_insert, json_map_new, json_object, json_string, JsonMap,
};
use crate::checkpoint::CheckpointSource;
use crate::error::{ErrorKind, JunctureError};
use crate::text::{debug_str, debug_str_text, join, push_str, same_text, seq_join, to_owned_string, views};

verus! {

/// Checkpoint persistence mode of a mounted subgraph
#[derive(Clone, Copy, Debug, PartialEq, Eq, Structural)]
pub enum SubgraphPersistence {
    /// Share the parent's checkpoint thread
    Inherit,
    /// Keep a checkpoint thread of its own
    PerThread,
}

/// Information about a subgraph in a compiled graph
#[derive(Clone, Debug)]
pub struct SubgraphInfo {
    /// Subgraph name
    pub name: String,
    /// Checkpoint persistence mode
    pub persistence: SubgraphPersistence,
}

/// Metadata about graph execution
#[derive(Clone, Debug)]
pub struct GraphOutputMetadata {
    /// Number of supersteps executed
    pub steps: usize,
    /// Unique run ID for this execution
    pub run_id: String,
    /// Checkpoint ID if checkpointing was enabled
    pub checkpoint_id: Option<String>,
}

/// State update for manual checkpoint modifications
#[derive(Clone, Debug)]
pub struct StateUpdate<U> {
    /// State update to apply
    pub update: U,
    /// Optional label for this update (shown in state history)
    pub label: Option<String>,
    /// Optional node name credited with this update
    pub as_node: Option<String>,
}

/// Filter for state history queries
#[derive(Clone, Debug)]
pub struct StateFilter {
    /// Only include states after this superstep
    pub after_step: Option<usize>,
    /// Only include states before this superstep
    pub before_step: Option<usize>,
    /// Maximum number of states to return
    pub limit: Option<usize>,
}

impl StateFilter {
    /// A filter that keeps every state.
    pub fn default() -> (f: Self)
        ensures
            f.after_step is None,
            f.before_step is None,
            f.limit is None,
    {
        StateFilter { after_step: None, before_step: None, limit: None }
    }
}

/// Drawable node for visualization
#[derive(Debug)]
pub struct DrawableNode {
    /// Node name
    pub name: String,
    /// Node metadata (empty when none was given)
    pub metadata: JsonMap,
}

/// Drawable edge for visualization
#[derive(Clone, Debug)]
pub struct DrawableEdge {
    /// Source node name
    pub from: String,
    /// Target node name
    pub to: String,
    /// Whether this is a conditional edge
    pub conditional: bool,
    /// Optional edge label
    pub label: Option<String>,
}

/// Drawable graph representation for export
#[derive(Debug)]
pub struct DrawableGraph {
    /// Nodes in the graph
    pub nodes: Vec<DrawableNode>,
    /// Edges in the graph
    pub edges: Vec<DrawableEdge>,
}

/// An edge to draw: source, target, and the branch label of a conditional
/// edge.
pub type DrawnEdge = (Seq<char>, Seq<char>, Option<Seq<char>>);

/// What a drawable edge shows.
pub open spec fn drawable_edge_view(e: DrawableEdge) -> DrawnEdge {
    (e.from@, e.to@, match e.label {
        Some(l) => Some(l@),
        None => None,
    })
}

/// The edges one compiled edge draws from `from`: a fixed edge draws one,
/// a conditional edge one per path-map entry, labelled with its branch.
pub open spec fn edge_items(from: Seq<char>, e: CompiledEdgeView) -> Seq<DrawnEdge> {
    match e {
        CompiledEdgeView::Fixed(t) => seq![(from, t, None::<Seq<char>>)],
        CompiledEdgeView::Conditional(pm) => pm.map_values(|p: (Seq<char>, Seq<char>)| (from, p.1, Some(p.0))),
    }
}

/// The edges drawn for one node's outgoing edges, in order.
pub open spec fn entry_items(from: Seq<char>, es: Seq<CompiledEdgeView>) -> Seq<DrawnEdge>
    decreases es.len(),
{
    if es.len() == 0 {
        Seq::empty()
    } else {
        entry_items(from, es.drop_last()) + edge_items(from, es.last())
    }
}

/// The edges drawn for the whole outgoing table, in order.
pub open spec fn drawn_edges(out: Seq<(Seq<char>, Seq<CompiledEdgeView>)>) -> Seq<DrawnEdge>
    decreases out.len(),
{
    if out.len() == 0 {
        Seq::empty()
    } else {
        drawn_edges(out.drop_last()) + entry_items(out.last().0, out.last().1)
    }
}

/// The first node, in the incoming table's order, that an edge from the
/// start sentinel triggers.
pub open spec fn first_start_target(inc: Seq<(Seq<char>, Seq<TriggerSourceView>)>) -> Option<Seq<char>>
    decreases inc.len(),
{
    if inc.len() == 0 {
        None
    } else if inc[0].1.contains(TriggerSourceView::Edge(START@)) {
        Some(inc[0].0)
    } else {
        first_start_target(inc.drop_first())
    }
}

/// The metadata a drawable node shows: the node's metadata when it has
/// some, else nothing.
pub open spec fn shown_metadata(table: Seq<(Seq<char>, NodeMetadata)>, name: Seq<char>) -> Map<Seq<char>, serde_json::Value> {
    match first_entry_with(table, name) {
        Some(md) => match md.metadata {
            Some(m) => json_map_entries(m),
            None => Map::empty(),
        },
        None => Map::empty(),
    }
}

/// The Mermaid line of a node.
pub open spec fn mermaid_node_line(n: Seq<char>) -> Seq<char> {
    "    "@ + n + "["@ + n + "]"@
}

/// The Mermaid line of an edge.
pub open spec fn mermaid_edge_line(e: DrawnEdge) -> Seq<char> {
    match e.2 {
        Some(l) => "    "@ + e.0 + " -->|"@ + l + "| "@ + e.1,
        None => "    "@ + e.0 + " --> "@ + e.1,
    }
}

/// The lines of the Mermaid diagram.
pub open spec fn mermaid_lines(names: Seq<Seq<char>>, edges: Seq<DrawnEdge>, entry: Option<Seq<char>>) -> Seq<Seq<char>> {
    seq!["graph TD"@] + names.map_values(|n: Seq<char>| mermaid_node_line(n)) + edges.map_values(
        |e: DrawnEdge| mermaid_edge_line(e),
    ) + match entry {
        Some(e) => seq!["    START((start)) --> "@ + e],
        None => Seq::empty(),
    }
}

/// The DOT line of a node.
pub open spec fn dot_node_line(n: Seq<char>) -> Seq<char> {
    "    "@ + n + ";"@
}

/// The DOT line of an edge.
pub open spec fn dot_edge_line(e: DrawnEdge) -> Seq<char> {
    match e.2 {
        Some(l) => "    "@ + e.0 + " -> "@ + e.1 + " [label=\""@ + l + "\"];"@,
        None => "    "@ + e.0 + " -> "@ + e.1 + ";"@,
    }
}

/// The lines of the DOT diagram.
pub open spec fn dot_lines(names: Seq<Seq<char>>, edges: Seq<DrawnEdge>, entry: Option<Seq<char>>) -> Seq<Seq<char>> {
    seq![
        "digraph juncture_graph {"@,
        "    rankdir=LR;"@,
        "    node [shape=box];"@,
        "    START [shape=circle];"@,
        "    END [shape=doublecircle];"@,
        Seq::<char>::empty(),
    ] + names.map_values(|n: Seq<char>| dot_node_line(n)) + seq![Seq::<char>::empty()] + edges.map_values(
        |e: DrawnEdge| dot_edge_line(e),
    ) + match entry {
        Some(e) => seq!["    START -> "@ + e + ";"@],
        None => Seq::empty(),
    } + seq!["}"@]
}

/// What a list of drawable edges shows, in order.
pub open spec fn drawn_views(v: Seq<DrawableEdge>) -> Seq<DrawnEdge> {
    v.map_values(|e: DrawableEdge| drawable_edge_view(e))
}

/// Each drawable edge is conditional exactly when it has a label.
pub open spec fn flags_match(v: Seq<DrawableEdge>) -> bool {
    forall|k: int| 0 <= k < v.len() ==> (#[trigger] v[k]).conditional == (v[k].label is Some)
}

/// Appends the edges one compiled edge draws from `from`.
fn push_edge_items(v: &mut Vec<DrawableEdge>, from: &String, e: &CompiledEdge)
    requires
        flags_match(old(v)@),
    ensures
        flags_match(final(v)@),
        drawn_views(final(v)@) == drawn_views(old(v)@) + edge_items(from@, e@),
{
    match e {
        CompiledEdge::Fixed { target } => {
            let ghost before = v@;
            v.push(DrawableEdge { from: from.clone(), to: target.clone(), conditional: false, label: None });
            assert(drawn_views(v@) =~= drawn_views(before) + edge_items(from@, e@));
        },
        CompiledEdge::Conditional { path_map } => {
            let pairs = path_map.iter();
            let ghost before = v@;
            let ghost items = edge_items(from@, e@);
            let mut j: usize = 0;
            while j < pairs.len()
                invariant
                    j <= pairs.len(),
                    items == edge_items(from@, e@),
                    e@ == CompiledEdgeView::Conditional(path_map.view()),
                    pairs@.map_values(|p: (String, String)| crate::edge::pair_view(p)) == path_map.view(),
                    items.len() == pairs.len(),
                    flags_match(v@),
                    drawn_views(v@) == drawn_views(before) + items.take(j as int),
                decreases pairs.len() - j,
            {
                assert(path_map.view()[j as int] == crate::edge::pair_view(pairs@[j as int]));
                let ghost mid = v@;
                v.push(DrawableEdge {
                    from: from.clone(),
                    to: pairs[j].1.clone(),
                    conditional: true,
                    label: Some(pairs[j].0.clone()),
                });
                assert(items.take(j + 1) =~= items.take(j as int).push(items[j as int]));
                assert(drawn_views(v@) =~= drawn_views(mid).push(items[j as int]));
                j += 1;
            }
            assert(items.take(pairs.len() as int) =~= items);
        },
    }
}

/// Appends the edges drawn for one node's outgoing edges.
fn push_entry_items(v: &mut Vec<DrawableEdge>, from: &String, es: &Vec<CompiledEdge>)
    requires
        flags_match(old(v)@),
    ensures
        flags_match(final(v)@),
        drawn_views(final(v)@) == drawn_views(old(v)@) + entry_items(from@, es@.map_values(|e: CompiledEdge| e@)),
{
    let ghost ev = es@.map_values(|e: CompiledEdge| e@);
    let ghost before = v@;
    let mut j: usize = 0;
    assert(ev.take(0) =~= Seq::<CompiledEdgeView>::empty());
    assert(drawn_views(before) + entry_items(from@, ev.take(0)) =~= drawn_views(before));
    while j < es.len()
        invariant
            ev == es@.map_values(|e: CompiledEdge| e@),
            j <= es.len(),
            flags_match(v@),
            drawn_views(v@) == drawn_views(before) + entry_items(from@, ev.take(j as int)),
        decreases es.len() - j,
    {
        push_edge_items(v, from, &es[j]);
        assert(ev.take(j + 1).drop_last() =~= ev.take(j as int));
        assert(ev.take(j + 1).last() == es@[j as int]@);
        assert(drawn_views(v@) =~= drawn_views(before) + entry_items(from@, ev.take(j + 1)));
        j += 1;
    }
    assert(ev.take(es.len() as int) =~= ev);
}

/// The Mermaid line of a node, as text.
fn mermaid_node_text(n: &String) -> (s: String)
    ensures
        s@ == mermaid_node_line(n@),
{
    let mut s = to_owned_string("    ");
    push_str(&mut s, n.as_str());
    push_str(&mut s, "[");
    push_str(&mut s, n.as_str());
    push_str(&mut s, "]");
    s
}

/// The Mermaid line of an edge, as text.
fn mermaid_edge_text(e: &DrawableEdge) -> (s: String)
    ensures
        s@ == mermaid_edge_line(drawable_edge_view(*e)),
{
    let mut s = to_owned_string("    ");
    push_str(&mut s, e.from.as_str());
    match &e.label {
        Some(l) => {
            push_str(&mut s, " -->|");
            push_str(&mut s, l.as_str());
            push_str(&mut s, "| ");
        },
        None => {
            push_str(&mut s, " --> ");
        },
    }
    push_str(&mut s, e.to.as_str());
    s
}

/// The DOT line of a node, as text.
fn dot_node_text(n: &String) -> (s: String)
    ensures
        s@ == dot_node_line(n@),
{
    let mut s = to_owned_string("    ");
    push_str(&mut s, n.as_str());
    push_str(&mut s, ";");
    s
}

/// The DOT line of an edge, as text.
fn dot_edge_text(e: &DrawableEdge) -> (s: String)
    ensures
        s@ == dot_edge_line(drawable_edge_view(*e)),
{
    let mut s = to_owned_string("    ");
    push_str(&mut s, e.from.as_str());
    push_str(&mut s, " -> ");
    push_str(&mut s, e.to.as_str());
    match &e.label {
        Some(l) => {
            push_str(&mut s, " [label=\"");
            push_str(&mut s, l.as_str());
            push_str(&mut s, "\"];");
        },
        None => {
            push_str(&mut s, ";");
        },
    }
    s
}

/// The JSON description of a node.
pub open spec fn node_json(name: Seq<char>, meta: Map<Seq<char>, serde_json::Value>) -> serde_json::Value {
    json_object(Map::empty().insert("name"@, json_string(name)).insert("metadata"@, json_object(meta)))
}

/// The JSON description of an edge; a conditional edge also carries its
/// label.
pub open spec fn edge_json(e: DrawnEdge) -> serde_json::Value {
    let base = Map::empty().insert("from"@, json_string(e.0)).insert("to"@, json_string(e.1)).insert(
        "conditional"@,
        json_bool(e.2 is Some),
    );
    json_object(
        match e.2 {
            Some(l) => base.insert("label"@, json_string(l)),
            None => base,
        },
    )
}

/// The texts of an optional list of names.
pub open spec fn opt_views(o: Option<Vec<String>>) -> Option<Seq<Seq<char>>> {
    match o {
        Some(v) => Some(views(v@)),
        None => None,
    }
}

/// Compiled and validated graph
#[derive(Debug)]
pub struct CompiledGraph {
    nodes: Vec<String>,
    trigger_table: TriggerTable,
    builder_metadata: NodeTable,
    interrupt_before: Vec<String>,
    interrupt_after: Vec<String>,
    subgraphs: Vec<SubgraphInfo>,
}

impl CompiledGraph {
    /// The executable nodes, in order.
    pub closed spec fn node_views(&self) -> Seq<Seq<char>> {
        views(self.nodes@)
    }

    /// The builder's node metadata, in order.
    pub closed spec fn metadata_table(&self) -> Seq<(Seq<char>, NodeMetadata)> {
        node_entries(self.builder_metadata)
    }

    /// Outgoing edges per node.
    pub closed spec fn outgoing_view(&self) -> Seq<(Seq<char>, Seq<CompiledEdgeView>)> {
        self.trigger_table.outgoing_view()
    }

    /// Incoming trigger sources per node.
    pub closed spec fn incoming_view(&self) -> Seq<(Seq<char>, Seq<TriggerSourceView>)> {
        self.trigger_table.incoming_view()
    }

    /// Compile-time nodes to interrupt before.
    pub closed spec fn interrupt_before_views(&self) -> Seq<Seq<char>> {
        views(self.interrupt_before@)
    }

    /// Compile-time nodes to interrupt after.
    pub closed spec fn interrupt_after_views(&self) -> Seq<Seq<char>> {
        views(self.interrupt_after@)
    }

    /// The mounted subgraphs.
    pub closed spec fn subgraph_list(&self) -> Seq<SubgraphInfo> {
        self.subgraphs@
    }

    /// The trigger table lists each node once on each side.
    pub closed spec fn wf(&self) -> bool {
        self.trigger_table.wf()
    }

    /// Create a new compiled graph
    pub fn new(
        nodes: Vec<String>,
        trigger_table: TriggerTable,
        builder_metadata: NodeTable,
        interrupt_before: Vec<String>,
        interrupt_after: Vec<String>,
        subgraphs: Vec<SubgraphInfo>,
    ) -> (g: Self)
        requires
            trigger_table.wf(),
        ensures
            g.wf(),
            g.node_views() == views(nodes@),
            g.metadata_table() == node_entries(builder_metadata),
            g.outgoing_view() == trigger_table.outgoing_view(),
            g.incoming_view() == trigger_table.incoming_view(),
            g.interrupt_before_views() == views(interrupt_before@),
            g.interrupt_after_views() == views(interrupt_after@),
            g.subgraph_list() == subgraphs@,
    {
        CompiledGraph { nodes, trigger_table, builder_metadata, interrupt_before, interrupt_after, subgraphs }
    }

    /// Information about the mounted subgraphs.
    pub fn get_subgraphs(&self) -> (v: Vec<SubgraphInfo>)
        ensures
            v@ == self.subgraph_list(),
    {
        crate::graph::builder::copy_subgraphs(&self.subgraphs)
    }

    /// The names of the executable nodes, in order.
    pub fn nodes(&self) -> (v: &Vec<String>)
        ensures
            views(v@) == self.node_views(),
    {
        &self.nodes
    }

    /// The trigger table.
    pub fn trigger_table(&self) -> (t: &TriggerTable)
        ensures
            t.wf() == self.wf(),
            t.outgoing_view() == self.outgoing_view(),
            t.incoming_view() == self.incoming_view(),
    {
        &self.trigger_table
    }

    /// The builder metadata for nodes.
    pub fn builder_metadata(&self) -> (m: &NodeTable)
        ensures
            node_entries(*m) == self.metadata_table(),
    {
        &self.builder_metadata
    }

    /// The compile-time interrupt lists, each taken where the runtime
    /// gives none and the compile-time list is not empty.
    pub fn effective_interrupts(
        &self,
        interrupt_before: Option<Vec<String>>,
        interrupt_after: Option<Vec<String>>,
    ) -> (r: (Option<Vec<String>>, Option<Vec<String>>))
        ensures
            opt_views(r.0) == (if interrupt_before is None && self.interrupt_before_views().len() > 0 {
                Some(self.interrupt_before_views())
            } else {
                opt_views(interrupt_before)
            }),
            opt_views(r.1) == (if interrupt_after is None && self.interrupt_after_views().len() > 0 {
                Some(self.interrupt_after_views())
            } else {
                opt_views(interrupt_after)
            }),
    {
        let before = match interrupt_before {
            Some(v) => Some(v),
            None => if self.interrupt_before.len() > 0 {
                Some(crate::graph::builder::copy_strings(&self.interrupt_before))
            } else {
                None
            },
        };
        let after = match interrupt_after {
            Some(v) => Some(v),
            None => if self.interrupt_after.len() > 0 {
                Some(crate::graph::builder::copy_strings(&self.interrupt_after))
            } else {
                None
            },
        };
        (before, after)
    }

    /// The edges of the outgoing table, drawn in order.
    fn drawable_edges(&self) -> (v: Vec<DrawableEdge>)
        ensures
            flags_match(v@),
            drawn_views(v@) == drawn_edges(self.outgoing_view()),
    {
        let out = self.trigger_table.outgoing();
        let ghost ov = self.outgoing_view();
        let mut v: Vec<DrawableEdge> = Vec::new();
        let mut i: usize = 0;
        assert(ov.take(0) =~= Seq::<(Seq<char>, Seq<CompiledEdgeView>)>::empty());
        assert(drawn_views(v@) =~= Seq::<DrawnEdge>::empty());
        while i < out.len()
            invariant
                ov == self.outgoing_view(),
                out@.map_values(|e: (String, Vec<CompiledEdge>)| crate::edge::entry_view(e)) == ov,
                i <= out.len(),
                flags_match(v@),
                drawn_views(v@) == drawn_edges(ov.take(i as int)),
            decreases out.len() - i,
        {
            assert(ov[i as int] == crate::edge::entry_view(out@[i as int]));
            push_entry_items(&mut v, &out[i].0, &out[i].1);
            assert(ov.take(i + 1).drop_last() =~= ov.take(i as int));
            assert(ov.take(i + 1).last() == ov[i as int]);
            i += 1;
        }
        assert(ov.take(out.len() as int) =~= ov);
        v
    }

    /// The graph as nodes with their metadata and the edges to draw.
    pub fn to_drawable(&self) -> (d: DrawableGraph)
        ensures
            d.nodes.len() == self.node_views().len(),
            forall|k: int| 0 <= k < d.nodes.len() ==> (#[trigger] d.nodes@[k]).name@ == self.node_views()[k]
                && json_map_entries(d.nodes@[k].metadata) == shown_metadata(self.metadata_table(), self.node_views()[k]),
            flags_match(d.edges@),
            drawn_views(d.edges@) == drawn_edges(self.outgoing_view()),
    {
        let mut nodes: Vec<DrawableNode> = Vec::new();
        let mut i: usize = 0;
        while i < self.nodes.len()
            invariant
                i <= self.nodes.len(),
                nodes.len() == i,
                forall|k: int| 0 <= k < i ==> (#[trigger] nodes@[k]).name@ == self.node_views()[k]
                    && json_map_entries(nodes@[k].metadata) == shown_metadata(self.metadata_table(), self.node_views()[k]),
            decreases self.nodes.len() - i,
        {
            let name = &self.nodes[i];
            let metadata = match node_metadata(&self.builder_metadata, name.as_str()) {
                Some(md) => match &md.metadata {
                    Some(m) => m.clone(),
                    None => json_map_new(),
                },
                None => json_map_new(),
            };
            let ghost before = nodes@;
            nodes.push(DrawableNode { name: name.clone(), metadata });
            assert(nodes@[i as int].name@ == self.node_views()[i as int]);
            assert(forall|k: int| 0 <= k < i ==> nodes@[k] == before[k]);
            i += 1;
        }
        DrawableGraph { nodes, edges: self.drawable_edges() }
    }

    /// The drawable graph; subgraphs are not expanded, whatever the depth.
    pub fn get_graph(&self, xray: Option<usize>) -> (d: DrawableGraph)
        ensures
            d.nodes.len() == self.node_views().len(),
            forall|k: int| 0 <= k < d.nodes.len() ==> (#[trigger] d.nodes@[k]).name@ == self.node_views()[k]
                && json_map_entries(d.nodes@[k].metadata) == shown_metadata(self.metadata_table(), self.node_views()[k]),
            flags_match(d.edges@),
            drawn_views(d.edges@) == drawn_edges(self.outgoing_view()),
    {
        self.to_drawable()
    }

    /// Export graph as Mermaid diagram
    pub fn to_mermaid(&self) -> (s: String)
        ensures
            s@ == seq_join(
                mermaid_lines(self.node_views(), drawn_edges(self.outgoing_view()), first_start_target(self.incoming_view())),
                "\n"@,
            ),
    {
        let ghost nv = self.node_views();
        let mut lines: Vec<String> = Vec::new();
        lines.push(to_owned_string("graph TD"));
        let mut i: usize = 0;
        assert(views(lines@) =~= seq!["graph TD"@] + nv.take(0).map_values(|n: Seq<char>| mermaid_node_line(n)));
        while i < self.nodes.len()
            invariant
                nv == self.node_views(),
                i <= self.nodes.len(),
                views(lines@) == seq!["graph TD"@] + nv.take(i as int).map_values(|n: Seq<char>| mermaid_node_line(n)),
            decreases self.nodes.len() - i,
        {
            let ghost before = views(lines@);
            lines.push(mermaid_node_text(&self.nodes[i]));
            assert(views(lines@) =~= before.push(mermaid_node_line(nv[i as int])));
            assert(nv.take(i + 1).map_values(|n: Seq<char>| mermaid_node_line(n)) =~= nv.take(i as int).map_values(
                |n: Seq<char>| mermaid_node_line(n),
            ).push(mermaid_node_line(nv[i as int])));
            i += 1;
        }
        assert(nv.take(self.nodes.len() as int) =~= nv);
        let edges = self.drawable_edges();
        let ghost dv = drawn_views(edges@);
        let ghost head = views(lines@);
        let mut k: usize = 0;
        assert(views(lines@) =~= head + dv.take(0).map_values(|e: DrawnEdge| mermaid_edge_line(e)));
        while k < edges.len()
            invariant
                dv == drawn_views(edges@),
                k <= edges.len(),
                views(lines@) == head + dv.take(k as int).map_values(|e: DrawnEdge| mermaid_edge_line(e)),
            decreases edges.len() - k,
        {
            let ghost before = views(lines@);
            lines.push(mermaid_edge_text(&edges[k]));
            assert(views(lines@) =~= before.push(mermaid_edge_line(dv[k as int])));
            assert(dv.take(k + 1).map_values(|e: DrawnEdge| mermaid_edge_line(e)) =~= dv.take(k as int).map_values(
                |e: DrawnEdge| mermaid_edge_line(e),
            ).push(mermaid_edge_line(dv[k as int])));
            k += 1;
        }
        assert(dv.take(edges.len() as int) =~= dv);
        let ghost body = views(lines@);
        match self.find_entry_point() {
            Some(entry) => {
                let mut l = to_owned_string("    START((start)) --> ");
                push_str(&mut l, entry.as_str());
                lines.push(l);
                assert(views(lines@) =~= body + seq!["    START((start)) --> "@ + entry@]);
            },
            None => {
                assert(views(lines@) =~= body + Seq::<Seq<char>>::empty());
            },
        }
        assert(lines@.map_values(|p: String| p@) =~= views(lines@));
        join(&lines, "\n")
    }

    /// Export graph as DOT format
    pub fn to_dot(&self) -> (s: String)
        ensures
            s@ == seq_join(
                dot_lines(self.node_views(), drawn_edges(self.outgoing_view()), first_start_target(self.incoming_view())),
                "\n"@,
            ),
    {
        let ghost nv = self.node_views();
        let mut lines: Vec<String> = Vec::new();
        lines.push(to_owned_string("digraph juncture_graph {"));
        lines.push(to_owned_string("    rankdir=LR;"));
        lines.push(to_owned_string("    node [shape=box];"));
        lines.push(to_owned_string("    START [shape=circle];"));
        lines.push(to_owned_string("    END [shape=doublecircle];"));
        lines.push(String::new());
        let ghost top = views(lines@);
        assert(top =~= seq![
            "digraph juncture_graph {"@,
            "    rankdir=LR;"@,
            "    node [shape=box];"@,
            "    START [shape=circle];"@,
            "    END [shape=doublecircle];"@,
            Seq::<char>::empty(),
        ]);
        let mut i: usize = 0;
        assert(views(lines@) =~= top + nv.take(0).map_values(|n: Seq<char>| dot_node_line(n)));
        while i < self.nodes.len()
            invariant
                nv == self.node_views(),
                i <= self.nodes.len(),
                views(lines@) == top + nv.take(i as int).map_values(|n: Seq<char>| dot_node_line(n)),
            decreases self.nodes.len() - i,
        {
            let ghost before = views(lines@);
            lines.push(dot_node_text(&self.nodes[i]));
            assert(views(lines@) =~= before.push(dot_node_line(nv[i as int])));
            assert(nv.take(i + 1).map_values(|n: Seq<char>| dot_node_line(n)) =~= nv.take(i as int).map_values(
                |n: Seq<char>| dot_node_line(n),
            ).push(dot_node_line(nv[i as int])));
            i += 1;
        }
        assert(nv.take(self.nodes.len() as int) =~= nv);
        let ghost nodes_part = views(lines@);
        lines.push(String::new());
        assert(views(lines@) =~= nodes_part + seq![Seq::<char>::empty()]);
        let edges = self.drawable_edges();
        let ghost dv = drawn_views(edges@);
        let ghost head = views(lines@);
        let mut k: usize = 0;
        assert(views(lines@) =~= head + dv.take(0).map_values(|e: DrawnEdge| dot_edge_line(e)));
        while k < edges.len()
            invariant
                dv == drawn_views(edges@),
                k <= edges.len(),
                views(lines@) == head + dv.take(k as int).map_values(|e: DrawnEdge| dot_edge_line(e)),
            decreases edges.len() - k,
        {
            let ghost before = views(lines@);
            lines.push(dot_edge_text(&edges[k]));
            assert(views(lines@) =~= before.push(dot_edge_line(dv[k as int])));
            assert(dv.take(k + 1).map_values(|e: DrawnEdge| dot_edge_line(e)) =~= dv.take(k as int).map_values(
                |e: DrawnEdge| dot_edge_line(e),
            ).push(dot_edge_line(dv[k as int])));
            k += 1;
        }
        assert(dv.take(edges.len() as int) =~= dv);
        let ghost body = views(lines@);
        match self.find_entry_point() {
            Some(entry) => {
                let mut l = to_owned_string("    START -> ");
                push_str(&mut l, entry.as_str());
                push_str(&mut l, ";");
                lines.push(l);
                assert(views(lines@) =~= body + seq!["    START -> "@ + entry@ + ";"@]);
            },
            None => {
                assert(views(lines@) =~= body + Seq::<Seq<char>>::empty());
            },
        }
        let ghost tail = views(lines@);
        lines.push(to_owned_string("}"));
        assert(views(lines@) =~= tail + seq!["}"@]);
        assert(views(lines@) =~= dot_lines(nv, dv, first_start_target(self.incoming_view())));
        assert(lines@.map_values(|p: String| p@) =~= views(lines@));
        join(&lines, "\n")
    }

    /// Export graph structure as JSON: its nodes with their metadata and
    /// its edges.
    pub fn to_json(&self) -> (j: serde_json::Value)
        ensures
            j == json_object(Map::empty().insert(
                "nodes"@,
                json_array(Seq::new(
                    self.node_views().len(),
                    |k: int| node_json(self.node_views()[k], shown_metadata(self.metadata_table(), self.node_views()[k])),
                )),
            ).insert("edges"@, json_array(drawn_edges(self.outgoing_view()).map_values(|e: DrawnEdge| edge_json(e))))),
    {
        let d = self.to_drawable();
        let ghost nv = self.node_views();
        let mut nodes: Vec<serde_json::Value> = Vec::new();
        let mut i: usize = 0;
        while i < d.nodes.len()
            invariant
                nv == self.node_views(),
                d.nodes.len() == nv.len(),
                forall|k: int| 0 <= k < d.nodes.len() ==> (#[trigger] d.nodes@[k]).name@ == nv[k]
                    && json_map_entries(d.nodes@[k].metadata) == shown_metadata(self.metadata_table(), nv[k]),
                i <= d.nodes.len(),
                nodes@ == Seq::new(i as nat, |k: int| node_json(nv[k], shown_metadata(self.metadata_table(), nv[k]))),
            decreases d.nodes.len() - i,
        {
            let n = &d.nodes[i];
            let mut m = json_map_new();
            json_map_insert(&mut m, to_owned_string("name"), json_from_string(n.name.clone()));
            json_map_insert(&mut m, to_owned_string("metadata"), json_from_map(n.metadata.clone()));
            let ghost before = nodes@;
            nodes.push(json_from_map(m));
            assert(nodes@ =~= Seq::new((i + 1) as nat, |k: int| node_json(nv[k], shown_metadata(self.metadata_table(), nv[k]))));
            i += 1;
        }
        let ghost dv = drawn_views(d.edges@);
        let mut edges: Vec<serde_json::Value> = Vec::new();
        let mut k: usize = 0;
        while k < d.edges.len()
            invariant
                dv == drawn_views(d.edges@),
                flags_match(d.edges@),
                k <= d.edges.len(),
                edges@ == dv.take(k as int).map_values(|e: DrawnEdge| edge_json(e)),
            decreases d.edges.len() - k,
        {
            let e = &d.edges[k];
            assert(e.conditional == (e.label is Some));
            let mut m = json_map_new();
            json_map_insert(&mut m, to_owned_string("from"), json_from_string(e.from.clone()));
            json_map_insert(&mut m, to_owned_string("to"), json_from_string(e.to.clone()));
            json_map_insert(&mut m, to_owned_string("conditional"), json_from_bool(e.conditional));
            match &e.label {
                Some(l) => {
                    json_map_insert(&mut m, to_owned_string("label"), json_from_string(l.clone()));
                },
                None => {},
            }
            edges.push(json_from_map(m));
            assert(dv.take(k + 1).map_values(|e: DrawnEdge| edge_json(e)) =~= dv.take(k as int).map_values(
                |e: DrawnEdge| edge_json(e),
            ).push(edge_json(dv[k as int])));
            k += 1;
        }
        assert(dv.take(d.edges.len() as int) =~= dv);
        let mut top = json_map_new();
        json_map_insert(&mut top, to_owned_string("nodes"), json_from_vec(nodes));
        json_map_insert(&mut top, to_owned_string("edges"), json_from_vec(edges));
        json_from_map(top)
    }

    /// The error handler of each node that has one, in the order of the
    /// builder metadata.
    pub fn build_error_handler_map(&self) -> (v: Vec<(String, String)>)
        ensures
            v@.map_values(|p: (String, String)| crate::edge::pair_view(p)) == handler_pairs(self.metadata_table()),
    {
        let n = crate::graph::builder::node_count(&self.builder_metadata);
        let ghost t = self.metadata_table();
        let mut v: Vec<(String, String)> = Vec::new();
        let mut i: usize = 0;
        assert(t.take(0) =~= Seq::<(Seq<char>, NodeMetadata)>::empty());
        assert(v@.map_values(|p: (String, String)| crate::edge::pair_view(p)) =~= Seq::<(Seq<char>, Seq<char>)>::empty());
        while i < n
            invariant
                t == self.metadata_table(),
                n == t.len(),
                i <= n,
                v@.map_values(|p: (String, String)| crate::edge::pair_view(p)) == handler_pairs(t.take(i as int)),
            decreases n - i,
        {
            let (name, md) = crate::graph::builder::node_entry_at(&self.builder_metadata, i);
            assert(t.take(i + 1).drop_last() =~= t.take(i as int));
            assert(t.take(i + 1).last() == t[i as int]);
            match &md.error_handler {
                Some(h) => {
                    let ghost before = v@;
                    v.push((name.clone(), h.clone()));
                    assert(v@.map_values(|p: (String, String)| crate::edge::pair_view(p)) =~= before.map_values(
                        |p: (String, String)| crate::edge::pair_view(p),
                    ).push((name@, h@)));
                },
                None => {},
            }
            i += 1;
        }
        assert(t.take(n as int) =~= t);
        v
    }

    /// The entry node: the first node, in the incoming table's order, that
    /// an edge from the start sentinel triggers.
    pub fn find_entry_point(&self) -> (r: Option<String>)
        ensures
            match r {
                Some(s) => first_start_target(self.incoming_view()) == Some(s@),
                None => first_start_target(self.incoming_view()) is None,
            },
    {
        let inc = self.trigger_table.incoming();
        let ghost iv = self.incoming_view();
        let mut i: usize = 0;
        assert(iv.skip(0) =~= iv);
        while i < inc.len()
            invariant
                iv == self.incoming_view(),
                inc@.map_values(|e: (String, Vec<TriggerSource>)| crate::edge::entry_view(e)) == iv,
                i <= inc.len(),
                first_start_target(iv) == first_start_target(iv.skip(i as int)),
            decreases inc.len() - i,
        {
            assert(iv[i as int] == crate::edge::entry_view(inc@[i as int]));
            assert(iv.skip(i as int)[0] == iv[i as int]);
            assert(iv.skip(i as int).drop_first() =~= iv.skip(i + 1));
            let sources = &inc[i].1;
            let mut j: usize = 0;
            while j < sources.len()
                invariant
                    i < inc.len(),
                    iv == self.incoming_view(),
                    inc@.map_values(|e: (String, Vec<TriggerSource>)| crate::edge::entry_view(e)) == iv,
                    *sources == inc@[i as int].1,
                    first_start_target(iv) == first_start_target(iv.skip(i as int)),
                    iv.skip(i as int)[0] == iv[i as int],
                    iv[i as int].1 == sources@.map_values(|s: TriggerSource| s@),
                    j <= sources.len(),
                    forall|k: int| 0 <= k < j ==> iv[i as int].1[k] != TriggerSourceView::Edge(START@),
                decreases sources.len() - j,
            {
                assert(iv[i as int].1[j as int] == sources@[j as int]@);
                match &sources[j] {
                    TriggerSource::Edge { from } => {
                        if same_text(from.as_str(), START) {
                            assert(iv[i as int].1[j as int] == TriggerSourceView::Edge(START@));
                            assert(iv[i as int].1.contains(TriggerSourceView::Edge(START@)));
                            let r = inc[i].0.clone();
                            assert(r@ == iv[i as int].0);
                            assert(first_start_target(iv.skip(i as int)) == Some(iv[i as int].0));
                            return Some(r);
                        }
                    },
                    TriggerSource::Send { .. } => {},
                }
                j += 1;
            }
            assert(!iv[i as int].1.contains(TriggerSourceView::Edge(START@)));
            i += 1;
        }
        assert(iv.skip(inc.len() as int) =~= Seq::<(Seq<char>, Seq<TriggerSourceView>)>::empty());
        None
    }
}

/// The text `{:?}` gives for a checkpoint source.
pub open spec fn source_debug_text(source: CheckpointSource) -> Seq<char> {
    match source {
        CheckpointSource::Input => "Input"@,
        CheckpointSource::Loop => "Loop"@,
        CheckpointSource::Update => "Update"@,
        CheckpointSource::Fork => "Fork"@,
        CheckpointSource::Interrupt { node } => "Interrupt { node: "@ + debug_str_text(node@) + " }"@,
    }
}

/// Resuming needs a checkpoint taken at an interrupt: any other source is
/// a checkpoint error naming it.
pub fn require_interrupt_source(source: &CheckpointSource) -> (r: Result<(), JunctureError>)
    ensures
        r is Ok <==> source is Interrupt,
        r matches Err(e) ==> (e.kind() matches ErrorKind::Checkpoint(m)
            && m@ == "resume() requires checkpoint from Interrupt source, got "@ + source_debug_text(*source)),
{
    let name = match source {
        CheckpointSource::Interrupt { .. } => return Ok(()),
        CheckpointSource::Input => to_owned_string("Input"),
        CheckpointSource::Loop => to_owned_string("Loop"),
        CheckpointSource::Update => to_owned_string("Update"),
        CheckpointSource::Fork => to_owned_string("Fork"),
    };
    let mut m = to_owned_string("resume() requires checkpoint from Interrupt source, got ");
    push_str(&mut m, name.as_str());
    Err(JunctureError::checkpoint(m.as_str()))
}

/// The text `{:?}` gives for an optional string.
pub open spec fn opt_debug_text(o: Option<Seq<char>>) -> Seq<char> {
    match o {
        Some(s) => "Some("@ + debug_str_text(s) + ")"@,
        None => "None"@,
    }
}

/// The text `{:?}` gives for an optional string.
fn opt_debug(o: Option<&str>) -> (s: String)
    ensures
        s@ == opt_debug_text(crate::graph::topology::opt_text(o)),
{
    match o {
        Some(t) => {
            let mut s = to_owned_string("Some(");
            let d = debug_str(t);
            push_str(&mut s, d.as_str());
            push_str(&mut s, ")");
            s
        },
        None => to_owned_string("None"),
    }
}

/// The error when no checkpoint matches the thread and checkpoint ids.
pub fn checkpoint_not_found(thread_id: Option<&str>, checkpoint_id: Option<&str>) -> (e: JunctureError)
    ensures
        e.kind() matches ErrorKind::Checkpoint(m) && m@ == "checkpoint not found: thread_id="@ + opt_debug_text(
            crate::graph::topology::opt_text(thread_id),
        ) + ", checkpoint_id="@ + opt_debug_text(crate::graph::topology::opt_text(checkpoint_id)),
{
    let mut m = to_owned_string("checkpoint not found: thread_id=");
    let t = opt_debug(thread_id);
    push_str(&mut m, t.as_str());
    push_str(&mut m, ", checkpoint_id=");
    let c = opt_debug(checkpoint_id);
    push_str(&mut m, c.as_str());
    JunctureError::checkpoint(m.as_str())
}

/// The error of an operation that needs a checkpointer when none is set.
pub fn missing_checkpointer(operation: &str) -> (e: JunctureError)
    ensures
        e.kind() matches ErrorKind::Checkpoint(m) && m@ == "no checkpointer configured for "@ + operation@,
{
    let mut m = to_owned_string("no checkpointer configured for ");
    push_str(&mut m, operation);
    JunctureError::checkpoint(m.as_str())
}

/// `uuid::Uuid::new_v4()`, printed: a random UUID in hyphenated lower-case
/// form, with version digit `4` and variant bits `10`; its other digits are
/// random.
#[verifier::external_body]
fn uuid_v4_text() -> (s: String)
    ensures
        crate::checkpoint::is_uuid_of_version(s@, '4'),
{
    uuid::Uuid::new_v4().to_string()
}

/// The run id of a run: the given one, else a fresh random UUID.
pub fn run_id_or_new(run_id: Option<String>) -> (s: String)
    ensures
        run_id matches Some(r) ==> s == r,
        run_id is None ==> crate::checkpoint::is_uuid_of_version(s@, '4'),
{
    match run_id {
        Some(r) => r,
        None => uuid_v4_text(),
    }
}

/// The error handlers registered in the builder metadata, as pairs of node
/// and handler, in the metadata's order.
pub open spec fn handler_pairs(table: Seq<(Seq<char>, NodeMetadata)>) -> Seq<(Seq<char>, Seq<char>)>
    decreases table.len(),
{
    if table.len() == 0 {
        Seq::empty()
    } else {
        let rest = handler_pairs(table.drop_last());
        match table.last().1.error_handler {
            Some(h) => rest.push((table.last().0, h@)),
            None => rest,
        }
    }
}

} // verus!
