//! Topology validation of a graph: entry point, edge targets, reachability
//! from the entry point, isolated nodes, and cycles without an exit.
use vstd::prelude::*;
use crate::edge::{pair_view, Edge, END, START};
use crate::error::debug_list;
use crate::text::{
    contains_text, decimal_usize, lemma_distinct_within_len, position_of, push_str, same_text, to_owned_string,
    views,
};

verus! {

/// Topology validation errors
#[derive(Debug)]
pub enum TopologyError {
    /// A node with this name already exists
    DuplicateNode { name: String },
    /// The node name is not allowed
    InvalidNodeName { name: String, reason: String },
    /// No entry point was set
    NoEntryPoint,
    /// An edge names a node that does not exist
    NodeNotFound { name: String },
    /// A conditional branch targets a node that does not exist
    EdgeTargetNotFound { from: String, branch: String, target: String },
    /// The node has no incoming or outgoing edges
    IsolatedNode { name: String },
    /// The node cannot be reached from the entry point
    UnreachableNode { name: String },
    /// A cycle that no conditional edge can leave for the end
    PotentialInfiniteLoop { cycle: Vec<String> },
    /// A state field index is out of range
    InvalidFieldReference { index: usize, field_count: usize, field_names: Vec<String>, context: String },
}

/// What a topology error reports, as text.
pub enum TopologyIssue {
    DuplicateNode(Seq<char>),
    InvalidNodeName(Seq<char>, Seq<char>),
    NoEntryPoint,
    NodeNotFound(Seq<char>),
    EdgeTargetNotFound(Seq<char>, Seq<char>, Seq<char>),
    IsolatedNode(Seq<char>),
    UnreachableNode(Seq<char>),
    PotentialInfiniteLoop(Seq<Seq<char>>),
    InvalidFieldReference(nat, nat, Seq<Seq<char>>, Seq<char>),
}

/// The message of a topology error.
pub open spec fn topology_error_text(e: TopologyError) -> Seq<char> {
    match e {
        TopologyError::DuplicateNode { name } => "node '"@ + name@ + "' already exists"@,
        TopologyError::InvalidNodeName { name, reason } => "node '"@ + name@ + "' is invalid: "@ + reason@,
        TopologyError::NoEntryPoint => "no entry point set"@,
        TopologyError::NodeNotFound { name } => "edge references non-existent node '"@ + name@ + "'"@,
        TopologyError::EdgeTargetNotFound { from, branch, target } => "conditional edge from '"@ + from@
            + "' branch '"@ + branch@ + "' targets non-existent node '"@ + target@ + "'"@,
        TopologyError::IsolatedNode { name } => "node '"@ + name@ + "' has no incoming or outgoing edges (isolated)"@,
        TopologyError::UnreachableNode { name } => "node '"@ + name@ + "' is unreachable from entry point"@,
        TopologyError::PotentialInfiniteLoop { cycle } => "potential infinite loop detected, path: "@
            + crate::error::debug_list_text(cycle.deep_view()),
        TopologyError::InvalidFieldReference { index, field_count, field_names, context } => "field index "@
            + crate::text::decimal(index as nat) + " in "@ + context@ + " is out of range (state has "@
            + crate::text::decimal(field_count as nat) + " fields: "@ + crate::error::debug_list_text(
            field_names.deep_view(),
        ) + ")"@,
    }
}

impl TopologyError {
    /// What this error reports.
    pub open spec fn issue(&self) -> TopologyIssue {
        match self {
            TopologyError::DuplicateNode { name } => TopologyIssue::DuplicateNode(name@),
            TopologyError::InvalidNodeName { name, reason } => TopologyIssue::InvalidNodeName(name@, reason@),
            TopologyError::NoEntryPoint => TopologyIssue::NoEntryPoint,
            TopologyError::NodeNotFound { name } => TopologyIssue::NodeNotFound(name@),
            TopologyError::EdgeTargetNotFound { from, branch, target } =>
                TopologyIssue::EdgeTargetNotFound(from@, branch@, target@),
            TopologyError::IsolatedNode { name } => TopologyIssue::IsolatedNode(name@),
            TopologyError::UnreachableNode { name } => TopologyIssue::UnreachableNode(name@),
            TopologyError::PotentialInfiniteLoop { cycle } => TopologyIssue::PotentialInfiniteLoop(views(cycle@)),
            TopologyError::InvalidFieldReference { index, field_count, field_names, context } =>
                TopologyIssue::InvalidFieldReference(index as nat, field_count as nat, views(field_names@), context@),
        }
    }

    /// The error message.
    pub fn to_string(&self) -> (s: String)
        ensures
            s@ == topology_error_text(*self),
    {
        match self {
            TopologyError::DuplicateNode { name } => {
                let mut s = to_owned_string("node '");
                push_str(&mut s, name.as_str());
                push_str(&mut s, "' already exists");
                s
            },
            TopologyError::InvalidNodeName { name, reason } => {
                let mut s = to_owned_string("node '");
                push_str(&mut s, name.as_str());
                push_str(&mut s, "' is invalid: ");
                push_str(&mut s, reason.as_str());
                s
            },
            TopologyError::NoEntryPoint => to_owned_string("no entry point set"),
            TopologyError::NodeNotFound { name } => {
                let mut s = to_owned_string("edge references non-existent node '");
                push_str(&mut s, name.as_str());
                push_str(&mut s, "'");
                s
            },
            TopologyError::EdgeTargetNotFound { from, branch, target } => {
                let mut s = to_owned_string("conditional edge from '");
                push_str(&mut s, from.as_str());
                push_str(&mut s, "' branch '");
                push_str(&mut s, branch.as_str());
                push_str(&mut s, "' targets non-existent node '");
                push_str(&mut s, target.as_str());
                push_str(&mut s, "'");
                s
            },
            TopologyError::IsolatedNode { name } => {
                let mut s = to_owned_string("node '");
                push_str(&mut s, name.as_str());
                push_str(&mut s, "' has no incoming or outgoing edges (isolated)");
                s
            },
            TopologyError::UnreachableNode { name } => {
                let mut s = to_owned_string("node '");
                push_str(&mut s, name.as_str());
                push_str(&mut s, "' is unreachable from entry point");
                s
            },
            TopologyError::PotentialInfiniteLoop { cycle } => {
                let mut s = to_owned_string("potential infinite loop detected, path: ");
                let list = debug_list(cycle);
                push_str(&mut s, list.as_str());
                s
            },
            TopologyError::InvalidFieldReference { index, field_count, field_names, context } => {
                let mut s = to_owned_string("field index ");
                let i = decimal_usize(*index);
                push_str(&mut s, i.as_str());
                push_str(&mut s, " in ");
                push_str(&mut s, context.as_str());
                push_str(&mut s, " is out of range (state has ");
                let c = decimal_usize(*field_count);
                push_str(&mut s, c.as_str());
                push_str(&mut s, " fields: ");
                let list = debug_list(field_names);
                push_str(&mut s, list.as_str());
                push_str(&mut s, ")");
                s
            },
        }
    }
}

// ---------------------------------------------------------------------------
// The graph relation
// ---------------------------------------------------------------------------

/// `v` follows `u` directly: some edge leaves `u` (not the start sentinel)
/// for `v` (not the end sentinel).
pub open spec fn step(edges: Seq<Edge>, u: Seq<char>, v: Seq<char>) -> bool {
    &&& u != START@
    &&& v != END@
    &&& exists|i: int| 0 <= i < edges.len() && (#[trigger] edges[i]).source() == u && edges[i].dests().contains(v)
}

/// `p` is a walk: each item follows the one before it.
pub open spec fn is_walk(edges: Seq<Edge>, p: Seq<Seq<char>>) -> bool {
    p.len() >= 1 && forall|i: int| 0 <= i < p.len() - 1 ==> #[trigger] step(edges, p[i], p[i + 1])
}

/// `v` can be reached from `u` by a walk (of any length, so `u` reaches itself).
pub open spec fn reaches(edges: Seq<Edge>, u: Seq<char>, v: Seq<char>) -> bool {
    exists|p: Seq<Seq<char>>| #[trigger] is_walk(edges, p) && p[0] == u && p.last() == v
}

/// Every edge that leaves a node other than the start sentinel leads to a
/// listed node or to the end sentinel.
pub open spec fn dests_listed(names: Seq<Seq<char>>, edges: Seq<Edge>) -> bool {
    forall|i: int, d: Seq<char>| 0 <= i < edges.len() && edges[i].source() != START@
        && #[trigger] edges[i].dests().contains(d) && d != END@ ==> names.contains(d)
}

/// Every node reaches itself.
pub proof fn lemma_reaches_self(edges: Seq<Edge>, u: Seq<char>)
    ensures
        reaches(edges, u, u),
{
    let p = seq![u];
    assert(is_walk(edges, p));
}

/// A node reached from `u`, followed by one more step, is reached from `u`.
pub proof fn lemma_reaches_step(edges: Seq<Edge>, u: Seq<char>, v: Seq<char>, w: Seq<char>)
    requires
        reaches(edges, u, v),
        step(edges, v, w),
    ensures
        reaches(edges, u, w),
{
    let p = choose|p: Seq<Seq<char>>| #[trigger] is_walk(edges, p) && p[0] == u && p.last() == v;
    let q = p.push(w);
    assert forall|i: int| 0 <= i < q.len() - 1 implies #[trigger] step(edges, q[i], q[i + 1]) by {
        if i < p.len() - 1 {
            assert(q[i] == p[i] && q[i + 1] == p[i + 1]);
        } else {
            assert(q[i] == v && q[i + 1] == w);
        }
    }
    assert(is_walk(edges, q));
}

/// A list that holds the start of a walk and is closed under `step`
/// holds the end of the walk.
pub proof fn lemma_closed_holds_walk(edges: Seq<Edge>, s: Seq<Seq<char>>, p: Seq<Seq<char>>)
    requires
        is_walk(edges, p),
        s.contains(p[0]),
        forall|x: Seq<char>, y: Seq<char>| s.contains(x) && #[trigger] step(edges, x, y) ==> s.contains(y),
    ensures
        s.contains(p.last()),
    decreases p.len(),
{
    if p.len() > 1 {
        let q = p.drop_last();
        assert forall|i: int| 0 <= i < q.len() - 1 implies #[trigger] step(edges, q[i], q[i + 1]) by {
            assert(step(edges, p[i], p[i + 1]));
        }
        lemma_closed_holds_walk(edges, s, q);
        let i = p.len() - 2;
        assert(step(edges, p[i], p[i + 1]));
        assert(q.last() == p[i]);
    }
}

// ---------------------------------------------------------------------------
// Edge helpers
// ---------------------------------------------------------------------------

/// The source node of an edge.
pub fn source_of(e: &Edge) -> (s: &String)
    ensures
        s@ == e.source(),
{
    match e {
        Edge::Fixed { from, .. } => from,
        Edge::Conditional { from, .. } => from,
    }
}

/// The nodes an edge may lead to, in order.
pub fn dests_of(e: &Edge) -> (v: Vec<String>)
    ensures
        views(v@) == e.dests(),
{
    let mut v: Vec<String> = Vec::new();
    match e {
        Edge::Fixed { to, .. } => {
            v.push(to.clone());
            assert(views(v@) =~= seq![to@]);
        },
        Edge::Conditional { path_map, .. } => {
            let pairs = path_map.iter();
            let mut i: usize = 0;
            while i < pairs.len()
                invariant
                    i <= pairs.len(),
                    pairs@.map_values(|p: (String, String)| crate::edge::pair_view(p)) == path_map.view(),
                    views(v@) == path_map.target_views().take(i as int),
                decreases pairs.len() - i,
            {
                let t = pairs[i].1.clone();
                let ghost old_v = v@;
                v.push(t);
                proof {
                    assert(path_map.view()[i as int] == crate::edge::pair_view(pairs@[i as int]));
                    assert(path_map.target_views()[i as int] == path_map.view()[i as int].1);
                    assert(v@ == old_v.push(t));
                    assert(views(v@) == views(old_v).push(t@));
                    assert(views(v@) =~= path_map.target_views().take(i + 1));
                }
                i += 1;
            }
            assert(path_map.target_views().take(pairs.len() as int) =~= path_map.target_views());
        },
    }
    v
}

// ---------------------------------------------------------------------------
// Reachability
// ---------------------------------------------------------------------------

/// The nodes reachable from `start`, `start` first, each once.
pub fn reachable_from(names: &Vec<String>, edges: &Vec<Edge>, start: &str) -> (r: Vec<String>)
    requires
        dests_listed(views(names@), edges@),
    ensures
        views(r@).no_duplicates(),
        r.len() >= 1 && r@[0]@ == start@,
        forall|v: Seq<char>| #![auto] views(r@).contains(v) <==> reaches(edges@, start@, v),
{
    let ghost universe = views(names@).push(start@);
    let mut visited: Vec<String> = Vec::new();
    visited.push(to_owned_string(start));
    proof {
        lemma_reaches_self(edges@, start@);
        assert(views(visited@) =~= seq![start@]);
        assert(universe.contains(start@)) by {
            assert(universe[universe.len() - 1] == start@);
        }
    }
    let mut qi: usize = 0;
    while qi < visited.len()
        invariant
            qi <= visited.len(),
            visited.len() >= 1,
            visited@[0]@ == start@,
            universe == views(names@).push(start@),
            dests_listed(views(names@), edges@),
            views(visited@).no_duplicates(),
            forall|k: int| 0 <= k < visited.len() ==> universe.contains(#[trigger] views(visited@)[k]),
            forall|x: Seq<char>| #![auto] views(visited@).contains(x) ==> reaches(edges@, start@, x),
            forall|k: int, y: Seq<char>| 0 <= k < qi && #[trigger] step(edges@, views(visited@)[k], y)
                ==> views(visited@).contains(y),
        decreases universe.len() - qi,
    {
        proof {
            lemma_distinct_within_len(views(visited@), universe);
        }
        let x = visited[qi].clone();
        let x_is_start_sentinel = same_text(x.as_str(), START);
        let mut ei: usize = 0;
        while ei < edges.len()
            invariant
                qi < visited.len(),
                x@ == views(visited@)[qi as int],
                x_is_start_sentinel == (x@ == START@),
                ei <= edges.len(),
                visited@[0]@ == start@,
                universe == views(names@).push(start@),
                dests_listed(views(names@), edges@),
                views(visited@).no_duplicates(),
                forall|k: int| 0 <= k < visited.len() ==> universe.contains(#[trigger] views(visited@)[k]),
                forall|z: Seq<char>| #![auto] views(visited@).contains(z) ==> reaches(edges@, start@, z),
                forall|k: int, y: Seq<char>| 0 <= k < qi && #[trigger] step(edges@, views(visited@)[k], y)
                    ==> views(visited@).contains(y),
                forall|j: int, y: Seq<char>| 0 <= j < ei && edges@[j].source() == x@ && x@ != START@
                    && #[trigger] edges@[j].dests().contains(y) && y != END@ ==> views(visited@).contains(y),
            decreases edges.len() - ei,
        {
            let src = source_of(&edges[ei]);
            if !x_is_start_sentinel && same_text(src.as_str(), x.as_str()) {
                let ds = dests_of(&edges[ei]);
                let mut di: usize = 0;
                while di < ds.len()
                    invariant
                        qi < visited.len(),
                        x@ == views(visited@)[qi as int],
                        x@ != START@,
                        ei < edges.len(),
                        edges@[ei as int].source() == x@,
                        views(ds@) == edges@[ei as int].dests(),
                        di <= ds.len(),
                        visited@[0]@ == start@,
                        universe == views(names@).push(start@),
                        dests_listed(views(names@), edges@),
                        views(visited@).no_duplicates(),
                        forall|k: int| 0 <= k < visited.len() ==> universe.contains(#[trigger] views(visited@)[k]),
                        forall|z: Seq<char>| #![auto] views(visited@).contains(z) ==> reaches(edges@, start@, z),
                        forall|k: int, y: Seq<char>| 0 <= k < qi && #[trigger] step(edges@, views(visited@)[k], y)
                            ==> views(visited@).contains(y),
                        forall|j: int, y: Seq<char>| 0 <= j < ei && edges@[j].source() == x@ && x@ != START@
                            && #[trigger] edges@[j].dests().contains(y) && y != END@ ==> views(visited@).contains(y),
                        forall|k: int| 0 <= k < di && #[trigger] views(ds@)[k] != END@ ==> views(visited@).contains(views(ds@)[k]),
                    decreases ds.len() - di,
                {
                    let d = &ds[di];
                    if !same_text(d.as_str(), END) && !contains_text(&visited, d.as_str()) {
                        let ghost before = views(visited@);
                        proof {
                            assert(views(ds@)[di as int] == d@);
                            assert(edges@[ei as int].dests().contains(d@));
                            assert(step(edges@, x@, d@));
                            assert(reaches(edges@, start@, x@)) by {
                                assert(views(visited@).contains(x@));
                            }
                            lemma_reaches_step(edges@, start@, x@, d@);
                            assert(views(names@).contains(d@));
                            let t = choose|t: int| 0 <= t < views(names@).len() && views(names@)[t] == d@;
                            assert(universe[t] == d@);
                        }
                        visited.push(d.clone());
                        proof {
                            assert(views(visited@) =~= before.push(d@));
                            assert forall|z: Seq<char>| #![auto] views(visited@).contains(z) implies reaches(edges@, start@, z) by {
                                if z != d@ {
                                    let t = choose|t: int| 0 <= t < views(visited@).len() && views(visited@)[t] == z;
                                    assert(before[t] == z);
                                    assert(before.contains(z));
                                }
                            }
                            assert forall|k: int, y: Seq<char>| 0 <= k < qi && #[trigger] step(edges@, views(visited@)[k], y)
                                implies views(visited@).contains(y) by {
                                assert(views(visited@)[k] == before[k]);
                                assert(before.contains(y));
                                let t = choose|t: int| 0 <= t < before.len() && before[t] == y;
                                assert(views(visited@)[t] == y);
                            }
                            assert forall|j: int, y: Seq<char>| 0 <= j < ei && edges@[j].source() == x@ && x@ != START@
                                && #[trigger] edges@[j].dests().contains(y) && y != END@ implies views(visited@).contains(y) by {
                                assert(before.contains(y));
                                let t = choose|t: int| 0 <= t < before.len() && before[t] == y;
                                assert(views(visited@)[t] == y);
                            }
                            assert forall|k: int| 0 <= k < di + 1 && #[trigger] views(ds@)[k] != END@
                                implies views(visited@).contains(views(ds@)[k]) by {
                                if k < di {
                                    assert(before.contains(views(ds@)[k]));
                                    let t = choose|t: int| 0 <= t < before.len() && before[t] == views(ds@)[k];
                                    assert(views(visited@)[t] == views(ds@)[k]);
                                } else {
                                    assert(views(visited@)[before.len() as int] == d@);
                                }
                            }
                        }
                    } else {
                        proof {
                            assert(views(ds@)[di as int] == d@);
                        }
                    }
                    di += 1;
                }
                proof {
                    assert forall|j: int, y: Seq<char>| 0 <= j < ei + 1 && edges@[j].source() == x@ && x@ != START@
                        && #[trigger] edges@[j].dests().contains(y) && y != END@ implies views(visited@).contains(y) by {
                        if j == ei {
                            let k = choose|k: int| 0 <= k < views(ds@).len() && views(ds@)[k] == y;
                            assert(views(ds@)[k] != END@);
                        }
                    }
                }
            }
            ei += 1;
        }
        proof {
            assert forall|k: int, y: Seq<char>| 0 <= k < qi + 1 && #[trigger] step(edges@, views(visited@)[k], y)
                implies views(visited@).contains(y) by {
                if k == qi {
                    let j = choose|j: int| 0 <= j < edges@.len() && (#[trigger] edges@[j]).source() == views(visited@)[k]
                        && edges@[j].dests().contains(y);
                }
            }
        }
        qi += 1;
    }
    proof {
        assert forall|v: Seq<char>| #![auto] views(visited@).contains(v) <==> reaches(edges@, start@, v) by {
            if reaches(edges@, start@, v) {
                let p = choose|p: Seq<Seq<char>>| #[trigger] is_walk(edges@, p) && p[0] == start@ && p.last() == v;
                assert(views(visited@)[0] == start@);
                assert forall|a: Seq<char>, b: Seq<char>| views(visited@).contains(a) && #[trigger] step(edges@, a, b)
                    implies views(visited@).contains(b) by {
                    let k = choose|k: int| 0 <= k < views(visited@).len() && views(visited@)[k] == a;
                    assert(step(edges@, views(visited@)[k], b));
                }
                lemma_closed_holds_walk(edges@, views(visited@), p);
            }
        }
    }
    visited
}

// ---------------------------------------------------------------------------
// The checks
// ---------------------------------------------------------------------------

/// The first branch of a conditional edge whose target is neither a listed
/// node nor the end sentinel.
pub open spec fn branch_issue(from: Seq<char>, pm: Seq<(Seq<char>, Seq<char>)>, names: Seq<Seq<char>>) -> Option<TopologyIssue>
    decreases pm.len(),
{
    if pm.len() == 0 {
        None
    } else if pm[0].1 != END@ && !names.contains(pm[0].1) {
        Some(TopologyIssue::EdgeTargetNotFound(from, pm[0].0, pm[0].1))
    } else {
        branch_issue(from, pm.drop_first(), names)
    }
}

/// What is wrong with the endpoints of one edge, checked source first.
pub open spec fn edge_issue(names: Seq<Seq<char>>, e: Edge) -> Option<TopologyIssue> {
    match e {
        Edge::Fixed { from, to } =>
            if from@ != START@ && !names.contains(from@) {
                Some(TopologyIssue::NodeNotFound(from@))
            } else if to@ != END@ && !names.contains(to@) {
                Some(TopologyIssue::NodeNotFound(to@))
            } else {
                None
            },
        Edge::Conditional { from, path_map } =>
            if from@ != START@ && !names.contains(from@) {
                Some(TopologyIssue::NodeNotFound(from@))
            } else {
                branch_issue(from@, path_map.view(), names)
            },
    }
}

/// The problem with the first edge, in order, that names a missing node.
pub open spec fn first_edge_issue(names: Seq<Seq<char>>, edges: Seq<Edge>) -> Option<TopologyIssue>
    decreases edges.len(),
{
    if edges.len() == 0 {
        None
    } else {
        match edge_issue(names, edges[0]) {
            Some(x) => Some(x),
            None => first_edge_issue(names, edges.drop_first()),
        }
    }
}

/// A missing branch target is reported as such.
proof fn lemma_branch_issue_kind(from: Seq<char>, pm: Seq<(Seq<char>, Seq<char>)>, names: Seq<Seq<char>>)
    ensures
        branch_issue(from, pm, names) matches Some(x) ==> x is EdgeTargetNotFound,
    decreases pm.len(),
{
    if pm.len() > 0 {
        lemma_branch_issue_kind(from, pm.drop_first(), names);
    }
}

/// An edge problem is a missing node or a missing branch target.
proof fn lemma_first_edge_issue_kind(names: Seq<Seq<char>>, edges: Seq<Edge>)
    ensures
        first_edge_issue(names, edges) matches Some(x) ==> (x is NodeNotFound || x is EdgeTargetNotFound),
    decreases edges.len(),
{
    if edges.len() > 0 {
        lemma_first_edge_issue_kind(names, edges.drop_first());
        match edges[0] {
            Edge::Conditional { from, path_map } => lemma_branch_issue_kind(from@, path_map.view(), names),
            _ => {},
        }
    }
}

/// The first listed node that cannot be reached from `entry`.
pub open spec fn first_unreached(names: Seq<Seq<char>>, edges: Seq<Edge>, entry: Seq<char>) -> Option<Seq<char>>
    decreases names.len(),
{
    if names.len() == 0 {
        None
    } else if !reaches(edges, entry, names[0]) {
        Some(names[0])
    } else {
        first_unreached(names.drop_first(), edges, entry)
    }
}

/// Some edge leads into `n` (the end sentinel never counts).
pub open spec fn has_incoming(edges: Seq<Edge>, n: Seq<char>) -> bool {
    n != END@ && exists|i: int| 0 <= i < edges.len() && #[trigger] edges[i].dests().contains(n)
}

/// Some edge leaves `n` (the start sentinel never counts).
pub open spec fn has_outgoing(edges: Seq<Edge>, n: Seq<char>) -> bool {
    n != START@ && exists|i: int| 0 <= i < edges.len() && (#[trigger] edges[i]).source() == n
}

/// The first listed node with neither incoming nor outgoing edges.
pub open spec fn first_isolated(names: Seq<Seq<char>>, edges: Seq<Edge>) -> Option<Seq<char>>
    decreases names.len(),
{
    if names.len() == 0 {
        None
    } else if !has_incoming(edges, names[0]) && !has_outgoing(edges, names[0]) {
        Some(names[0])
    } else {
        first_isolated(names.drop_first(), edges)
    }
}

/// `u` and `v` reach each other.
pub open spec fn mutual(edges: Seq<Edge>, u: Seq<char>, v: Seq<char>) -> bool {
    reaches(edges, u, v) && reaches(edges, v, u)
}

/// The listed nodes that `u` and that reach `u` and are reached from it (its
/// strongly connected component), in the order of the list.
pub open spec fn component(names: Seq<Seq<char>>, edges: Seq<Edge>, u: Seq<char>) -> Seq<Seq<char>>
    decreases names.len(),
{
    if names.len() == 0 {
        Seq::empty()
    } else {
        let rest = component(names.drop_last(), edges, u);
        if mutual(edges, u, names.last()) {
            rest.push(names.last())
        } else {
            rest
        }
    }
}

/// Some conditional edge leaves `v` with a branch to the end sentinel.
pub open spec fn exits_to_end(edges: Seq<Edge>, v: Seq<char>) -> bool {
    exists|i: int| 0 <= i < edges.len() && (#[trigger] edges[i]) is Conditional && edges[i].source() == v
        && edges[i].dests().contains(END@)
}

/// The component of `u` holds more than one node and none of them can
/// leave for the end through a conditional edge.
pub open spec fn trapped(names: Seq<Seq<char>>, edges: Seq<Edge>, u: Seq<char>) -> bool {
    let c = component(names, edges, u);
    c.len() > 1 && forall|k: int| 0 <= k < c.len() ==> !exits_to_end(edges, #[trigger] c[k])
}

/// The first listed node whose component is trapped.
pub open spec fn first_trapped(all: Seq<Seq<char>>, names: Seq<Seq<char>>, edges: Seq<Edge>) -> Option<Seq<char>>
    decreases names.len(),
{
    if names.len() == 0 {
        None
    } else if trapped(all, edges, names[0]) {
        Some(names[0])
    } else {
        first_trapped(all, names.drop_first(), edges)
    }
}

/// The text of an optional name.
pub open spec fn opt_text(o: Option<&str>) -> Option<Seq<char>> {
    match o {
        Some(s) => Some(s@),
        None => None,
    }
}

/// The first problem that validation reports: missing entry point, edges
/// naming missing nodes, nodes unreachable from the entry point, isolated
/// nodes, and trapped cycles, in this order.
pub open spec fn validation_issue(names: Seq<Seq<char>>, edges: Seq<Edge>, entry: Option<Seq<char>>) -> Option<TopologyIssue> {
    match entry {
        None => Some(TopologyIssue::NoEntryPoint),
        Some(e) =>
            if first_edge_issue(names, edges) is Some {
                first_edge_issue(names, edges)
            } else if first_unreached(names, edges, e) is Some {
                Some(TopologyIssue::UnreachableNode(first_unreached(names, edges, e)->0))
            } else if first_isolated(names, edges) is Some {
                Some(TopologyIssue::IsolatedNode(first_isolated(names, edges)->0))
            } else if first_trapped(names, names, edges) is Some {
                Some(TopologyIssue::PotentialInfiniteLoop(component(names, edges, first_trapped(names, names, edges)->0)))
            } else {
                None
            },
    }
}

/// When no edge has a problem, neither has any single edge.
proof fn lemma_first_edge_issue_none(names: Seq<Seq<char>>, edges: Seq<Edge>, i: int)
    requires
        first_edge_issue(names, edges) is None,
        0 <= i < edges.len(),
    ensures
        edge_issue(names, edges[i]) is None,
    decreases edges.len(),
{
    if i > 0 {
        lemma_first_edge_issue_none(names, edges.drop_first(), i - 1);
    }
}

/// When no branch has a problem, each branch targets a listed node or the
/// end.
proof fn lemma_branch_issue_none(from: Seq<char>, pm: Seq<(Seq<char>, Seq<char>)>, names: Seq<Seq<char>>, k: int)
    requires
        branch_issue(from, pm, names) is None,
        0 <= k < pm.len(),
    ensures
        pm[k].1 == END@ || names.contains(pm[k].1),
    decreases pm.len(),
{
    if k > 0 {
        lemma_branch_issue_none(from, pm.drop_first(), names, k - 1);
    }
}

/// When no edge names a missing node, every edge leads to listed nodes.
proof fn lemma_no_edge_issue_dests_listed(names: Seq<Seq<char>>, edges: Seq<Edge>)
    requires
        first_edge_issue(names, edges) is None,
    ensures
        dests_listed(names, edges),
{
    assert forall|i: int, d: Seq<char>| 0 <= i < edges.len() && edges[i].source() != START@
        && #[trigger] edges[i].dests().contains(d) && d != END@ implies names.contains(d) by {
        lemma_first_edge_issue_none(names, edges, i);
        match edges[i] {
            Edge::Fixed { from, to } => {
                assert(edges[i].dests() == seq![to@]);
            },
            Edge::Conditional { from, path_map } => {
                let tv = path_map.target_views();
                let k = choose|k: int| 0 <= k < tv.len() && tv[k] == d;
                lemma_branch_issue_none(from@, path_map.view(), names, k);
            },
        }
    }
}

/// Fails when no entry point is set.
fn check_entry_point(entry_point: Option<&str>) -> (r: Result<(), TopologyError>)
    ensures
        r is Ok <==> entry_point is Some,
        r matches Err(e) ==> e.issue() == TopologyIssue::NoEntryPoint,
{
    if entry_point.is_none() {
        return Err(TopologyError::NoEntryPoint);
    }
    Ok(())
}

/// Fails at the first edge, in order, that names a missing node.
pub fn check_edge_targets(names: &Vec<String>, edges: &Vec<Edge>) -> (r: Result<(), TopologyError>)
    ensures
        r is Ok <==> first_edge_issue(views(names@), edges@) is None,
        r matches Err(e) ==> first_edge_issue(views(names@), edges@) == Some(e.issue()),
{
    let ghost nv = views(names@);
    let mut i: usize = 0;
    assert(edges@.skip(0) =~= edges@);
    while i < edges.len()
        invariant
            nv == views(names@),
            i <= edges.len(),
            first_edge_issue(nv, edges@) == first_edge_issue(nv, edges@.skip(i as int)),
        decreases edges.len() - i,
    {
        assert(edges@.skip(i as int)[0] == edges@[i as int]);
        assert(edges@.skip(i as int).drop_first() =~= edges@.skip(i + 1));
        match &edges[i] {
            Edge::Fixed { from, to } => {
                if !same_text(from.as_str(), START) && !contains_text(names, from.as_str()) {
                    return Err(TopologyError::NodeNotFound { name: from.clone() });
                }
                if !same_text(to.as_str(), END) && !contains_text(names, to.as_str()) {
                    return Err(TopologyError::NodeNotFound { name: to.clone() });
                }
            },
            Edge::Conditional { from, path_map } => {
                if !same_text(from.as_str(), START) && !contains_text(names, from.as_str()) {
                    return Err(TopologyError::NodeNotFound { name: from.clone() });
                }
                let pairs = path_map.iter();
                let ghost pv = path_map.view();
                let mut j: usize = 0;
                assert(pv.skip(0) =~= pv);
                assert(edge_issue(nv, edges@[i as int]) == branch_issue(from@, pv, nv));
                while j < pairs.len()
                    invariant
                        nv == views(names@),
                        i < edges.len(),
                        first_edge_issue(nv, edges@) == first_edge_issue(nv, edges@.skip(i as int)),
                        edges@.skip(i as int)[0] == edges@[i as int],
                        edge_issue(nv, edges@[i as int]) == branch_issue(from@, pv, nv),
                        pairs@.map_values(|p: (String, String)| crate::edge::pair_view(p)) == pv,
                        j <= pairs.len(),
                        branch_issue(from@, pv, nv) == branch_issue(from@, pv.skip(j as int), nv),
                    decreases pairs.len() - j,
                {
                    assert(pv.skip(j as int)[0] == pv[j as int]);
                    assert(pv[j as int] == crate::edge::pair_view(pairs@[j as int]));
                    assert(pv.skip(j as int).drop_first() =~= pv.skip(j + 1));
                    let target = &pairs[j].1;
                    if !same_text(target.as_str(), END) && !contains_text(names, target.as_str()) {
                        assert(branch_issue(from@, pv.skip(j as int), nv)
                            == Some(TopologyIssue::EdgeTargetNotFound(from@, pv[j as int].0, pv[j as int].1)));
                        return Err(TopologyError::EdgeTargetNotFound {
                            from: from.clone(),
                            branch: pairs[j].0.clone(),
                            target: target.clone(),
                        });
                    }
                    j += 1;
                }
                assert(pv.skip(pairs.len() as int) =~= Seq::<(Seq<char>, Seq<char>)>::empty());
            },
        }
        i += 1;
    }
    assert(edges@.skip(edges.len() as int) =~= Seq::<Edge>::empty());
    Ok(())
}

/// Fails at the first node, in order, that the entry point does not reach.
fn check_reachability(names: &Vec<String>, edges: &Vec<Edge>, entry: &str) -> (r: Result<(), TopologyError>)
    requires
        dests_listed(views(names@), edges@),
    ensures
        r is Ok <==> first_unreached(views(names@), edges@, entry@) is None,
        r matches Err(e) ==> e.issue() == TopologyIssue::UnreachableNode(first_unreached(views(names@), edges@, entry@)->0),
{
    let visited = reachable_from(names, edges, entry);
    let ghost nv = views(names@);
    let mut i: usize = 0;
    assert(nv.skip(0) =~= nv);
    while i < names.len()
        invariant
            nv == views(names@),
            i <= names.len(),
            forall|v: Seq<char>| #![auto] views(visited@).contains(v) <==> reaches(edges@, entry@, v),
            first_unreached(nv, edges@, entry@) == first_unreached(nv.skip(i as int), edges@, entry@),
        decreases names.len() - i,
    {
        assert(nv.skip(i as int)[0] == nv[i as int]);
        assert(nv.skip(i as int).drop_first() =~= nv.skip(i + 1));
        if !contains_text(&visited, names[i].as_str()) {
            return Err(TopologyError::UnreachableNode { name: names[i].clone() });
        }
        i += 1;
    }
    assert(nv.skip(names.len() as int) =~= Seq::<Seq<char>>::empty());
    Ok(())
}

/// Whether some edge leads into `n`, or leaves it.
fn edge_counts(edges: &Vec<Edge>, n: &str) -> (r: (bool, bool))
    ensures
        r.0 == has_incoming(edges@, n@),
        r.1 == has_outgoing(edges@, n@),
{
    let not_end = !same_text(n, END);
    let not_start = !same_text(n, START);
    let mut incoming = false;
    let mut outgoing = false;
    let mut i: usize = 0;
    while i < edges.len()
        invariant
            i <= edges.len(),
            not_end == (n@ != END@),
            not_start == (n@ != START@),
            incoming == (not_end && exists|j: int| 0 <= j < i && #[trigger] edges@[j].dests().contains(n@)),
            outgoing == (not_start && exists|j: int| 0 <= j < i && (#[trigger] edges@[j]).source() == n@),
        decreases edges.len() - i,
    {
        if not_start && same_text(source_of(&edges[i]).as_str(), n) {
            outgoing = true;
        }
        if not_end && !incoming {
            let ds = dests_of(&edges[i]);
            if contains_text(&ds, n) {
                incoming = true;
            }
        }
        i += 1;
    }
    (incoming, outgoing)
}

/// Fails at the first node, in order, with no incoming and no outgoing edge.
fn check_isolated_nodes(names: &Vec<String>, edges: &Vec<Edge>) -> (r: Result<(), TopologyError>)
    ensures
        r is Ok <==> first_isolated(views(names@), edges@) is None,
        r matches Err(e) ==> e.issue() == TopologyIssue::IsolatedNode(first_isolated(views(names@), edges@)->0),
{
    let ghost nv = views(names@);
    let mut i: usize = 0;
    assert(nv.skip(0) =~= nv);
    while i < names.len()
        invariant
            nv == views(names@),
            i <= names.len(),
            first_isolated(nv, edges@) == first_isolated(nv.skip(i as int), edges@),
        decreases names.len() - i,
    {
        assert(nv.skip(i as int)[0] == nv[i as int]);
        assert(nv.skip(i as int).drop_first() =~= nv.skip(i + 1));
        let (incoming, outgoing) = edge_counts(edges, names[i].as_str());
        if !incoming && !outgoing {
            return Err(TopologyError::IsolatedNode { name: names[i].clone() });
        }
        i += 1;
    }
    assert(nv.skip(names.len() as int) =~= Seq::<Seq<char>>::empty());
    Ok(())
}

/// Whether some conditional edge leaves `v` with a branch to the end sentinel.
fn exits_to_end_exec(edges: &Vec<Edge>, v: &str) -> (b: bool)
    ensures
        b == exits_to_end(edges@, v@),
{
    let mut i: usize = 0;
    while i < edges.len()
        invariant
            i <= edges.len(),
            forall|j: int| 0 <= j < i ==> !((#[trigger] edges@[j]) is Conditional && edges@[j].source() == v@
                && edges@[j].dests().contains(END@)),
        decreases edges.len() - i,
    {
        if let Edge::Conditional { from, .. } = &edges[i] {
            if same_text(from.as_str(), v) {
                let ds = dests_of(&edges[i]);
                if contains_text(&ds, END) {
                    return true;
                }
            }
        }
        i += 1;
    }
    false
}


/// The number of visited nodes.
spec fn count_visited(s: Seq<Option<usize>>) -> nat
    decreases s.len(),
{
    if s.len() == 0 {
        0
    } else {
        count_visited(s.drop_last()) + if s.last() is Some { 1nat } else { 0nat }
    }
}

/// Visiting one more node adds one to the count; an unvisited node leaves
/// room below the length.
proof fn lemma_count_visited(s: Seq<Option<usize>>, i: int, x: usize)
    requires
        0 <= i < s.len(),
        s[i] is None,
    ensures
        count_visited(s.update(i, Some(x))) == count_visited(s) + 1,
        count_visited(s) < s.len(),
    decreases s.len(),
{
    let t = s.update(i, Some(x));
    if i == s.len() - 1 {
        assert(t.drop_last() =~= s.drop_last());
        lemma_count_visited_le(s.drop_last());
    } else {
        assert(t.drop_last() =~= s.drop_last().update(i, Some(x)));
        lemma_count_visited(s.drop_last(), i, x);
    }
}

/// At most every node is visited.
proof fn lemma_count_visited_le(s: Seq<Option<usize>>)
    ensures
        count_visited(s) <= s.len(),
    decreases s.len(),
{
    if s.len() > 0 {
        lemma_count_visited_le(s.drop_last());
    }
}

/// The state of the strongly connected components search (Tarjan's
/// algorithm) over node positions.
struct TarjanState {
    index: usize,
    stack: Vec<usize>,
    indices: Vec<Option<usize>>,
    lowlink: Vec<usize>,
    onstack: Vec<bool>,
    sccs: Vec<Vec<usize>>,
    /// For each node, the stack node whose index its low link is.
    lowwit: Ghost<Seq<usize>>,
}

/// `y` is a successor of `x` in the adjacency lists.
spec fn pedge(adj: Seq<Vec<usize>>, x: usize, y: usize) -> bool {
    (x as int) < adj.len() && adj[x as int]@.contains(y)
}

/// `p` is a walk along the adjacency lists.
spec fn is_pwalk(adj: Seq<Vec<usize>>, p: Seq<usize>) -> bool {
    p.len() >= 1 && forall|i: int| 0 <= i < p.len() - 1 ==> #[trigger] pedge(adj, p[i], p[i + 1])
}

/// `y` can be reached from `x` along the adjacency lists.
spec fn preach(adj: Seq<Vec<usize>>, x: usize, y: usize) -> bool {
    exists|p: Seq<usize>| #[trigger] is_pwalk(adj, p) && p[0] == x && p.last() == y
}

/// Every position reaches itself.
proof fn lemma_preach_refl(adj: Seq<Vec<usize>>, x: usize)
    ensures
        preach(adj, x, x),
{
    assert(is_pwalk(adj, seq![x]));
}

/// A position reached from `x`, followed by one more successor, is reached
/// from `x`.
proof fn lemma_preach_step(adj: Seq<Vec<usize>>, x: usize, y: usize, z: usize)
    requires
        preach(adj, x, y),
        pedge(adj, y, z),
    ensures
        preach(adj, x, z),
{
    let p = choose|p: Seq<usize>| #[trigger] is_pwalk(adj, p) && p[0] == x && p.last() == y;
    let q = p.push(z);
    assert forall|i: int| 0 <= i < q.len() - 1 implies #[trigger] pedge(adj, q[i], q[i + 1]) by {
        if i < p.len() - 1 {
            assert(q[i] == p[i] && q[i + 1] == p[i + 1]);
        } else {
            assert(q[i] == y && q[i + 1] == z);
        }
    }
    assert(is_pwalk(adj, q));
}

/// A successor is reached.
proof fn lemma_preach_edge(adj: Seq<Vec<usize>>, x: usize, y: usize)
    requires
        pedge(adj, x, y),
    ensures
        preach(adj, x, y),
{
    lemma_preach_refl(adj, x);
    lemma_preach_step(adj, x, x, y);
}

/// Every position of a walk that starts at a position reached from `x` is
/// reached from `x`.
proof fn lemma_preach_along(adj: Seq<Vec<usize>>, x: usize, q: Seq<usize>, i: int)
    requires
        is_pwalk(adj, q),
        preach(adj, x, q[0]),
        0 <= i < q.len(),
    ensures
        preach(adj, x, q[i]),
    decreases i,
{
    if i > 0 {
        lemma_preach_along(adj, x, q, i - 1);
        let j = i - 1;
        assert(pedge(adj, q[j], q[j + 1]));
        lemma_preach_step(adj, x, q[j], q[i]);
    }
}

/// Reaching along the successor lists is transitive.
proof fn lemma_preach_trans(adj: Seq<Vec<usize>>, x: usize, y: usize, z: usize)
    requires
        preach(adj, x, y),
        preach(adj, y, z),
    ensures
        preach(adj, x, z),
{
    let q = choose|q: Seq<usize>| #[trigger] is_pwalk(adj, q) && q[0] == y && q.last() == z;
    lemma_preach_along(adj, x, q, q.len() - 1);
}

/// A list closed under successors holds every node reached from one of its
/// nodes.
proof fn lemma_preach_closed(adj: Seq<Vec<usize>>, s: Seq<usize>, x: usize, y: usize)
    requires
        s.contains(x),
        forall|a: usize, b: usize| s.contains(a) && #[trigger] pedge(adj, a, b) ==> s.contains(b),
        preach(adj, x, y),
    ensures
        s.contains(y),
{
    let q = choose|q: Seq<usize>| #[trigger] is_pwalk(adj, q) && q[0] == x && q.last() == y;
    lemma_closed_along(adj, s, q, q.len() - 1);
}

/// A list closed under successors that holds the start of a walk holds
/// every position of it.
proof fn lemma_closed_along(adj: Seq<Vec<usize>>, s: Seq<usize>, q: Seq<usize>, i: int)
    requires
        is_pwalk(adj, q),
        s.contains(q[0]),
        forall|a: usize, b: usize| s.contains(a) && #[trigger] pedge(adj, a, b) ==> s.contains(b),
        0 <= i < q.len(),
    ensures
        s.contains(q[i]),
    decreases i,
{
    if i > 0 {
        lemma_closed_along(adj, s, q, i - 1);
        let j = i - 1;
        assert(pedge(adj, q[j], q[j + 1]));
    }
}

/// The components found so far, one after another.
spec fn flat(s: Seq<Vec<usize>>) -> Seq<usize>
    decreases s.len(),
{
    if s.len() == 0 {
        Seq::empty()
    } else {
        flat(s.drop_last()) + s.last()@
    }
}

/// The index the search gave node `w` when it first visited it.
spec fn visit_order(t: TarjanState, w: usize) -> int {
    t.indices@[w as int]->0 as int
}

/// The search state over `n` nodes, with `pending` popped from the stack
/// into a component not yet recorded:
/// - one slot per node, and the counter equal to the number of visited
///   nodes, which are those on the stack and those in a component, each
///   once;
/// - the stack holds nodes in the order they were visited, and a node is
///   marked as on the stack exactly when it is there;
/// - the low link of each node on the stack lies between the index of the
///   bottom of the stack and its own index.
spec fn tarjan_inv(t: TarjanState, n: nat, pending: Seq<usize>) -> bool {
    let done = flat(t.sccs@) + pending;
    &&& t.indices.len() == n
    &&& t.lowlink.len() == n
    &&& t.onstack.len() == n
    &&& count_visited(t.indices@) == t.index
    &&& t.stack.len() + done.len() == t.index
    &&& forall|k: int| 0 <= k < t.stack.len() ==> #[trigger] t.stack@[k] < n
    &&& forall|k: int| 0 <= k < done.len() ==> #[trigger] done[k] < n
    &&& t.stack@.no_duplicates()
    &&& done.no_duplicates()
    &&& forall|w: usize| #[trigger] t.stack@.contains(w) ==> !done.contains(w)
    &&& forall|w: int| 0 <= w < n ==> (#[trigger] t.onstack@[w] <==> t.stack@.contains(w as usize))
    &&& forall|w: int| 0 <= w < n ==> ((#[trigger] t.indices@[w]) is Some <==> (t.stack@.contains(w as usize)
        || done.contains(w as usize)))
    &&& forall|w: int| 0 <= w < n && (#[trigger] t.indices@[w]) is Some ==> t.indices@[w]->0 < t.index
    &&& forall|i: int, j: int| 0 <= i < j < t.stack.len() ==> visit_order(t, #[trigger] t.stack@[i]) < visit_order(
        t,
        #[trigger] t.stack@[j],
    )
    &&& forall|j: int| 0 <= j < t.stack.len() ==> visit_order(t, t.stack@[0]) <= #[trigger] t.lowlink@[t.stack@[j] as int]
        <= visit_order(t, t.stack@[j])
    &&& forall|k: int| 0 <= k < t.sccs.len() ==> #[trigger] t.sccs@[k].len() > 0
}

/// Every adjacency list names positions below the node count.
spec fn adjacency_inv(adj: Seq<Vec<usize>>) -> bool {
    forall|i: int, j: int| 0 <= i < adj.len() && 0 <= j < adj[i].len() ==> #[trigger] adj[i]@[j] < adj.len()
}

/// The low link of `x` is the index of the stack node `lowwit[x]`, which
/// `x` reaches.
spec fn lowwit_ok(t: TarjanState, adj: Seq<Vec<usize>>, x: usize) -> bool {
    let y = t.lowwit@[x as int];
    &&& t.stack@.contains(y)
    &&& t.indices@[y as int] is Some
    &&& visit_order(t, y) == t.lowlink@[x as int]
    &&& preach(adj, x, y)
}

/// `x` finished its visit without closing a component: its low link is
/// below its own index and all its successors were visited.
spec fn finished_open(t: TarjanState, adj: Seq<Vec<usize>>, x: usize) -> bool {
    &&& t.lowlink@[x as int] < visit_order(t, x)
    &&& forall|b: usize| #[trigger] pedge(adj, x, b) ==> t.indices@[b as int] is Some
}

/// What the search knows of reachability, with `path` the nodes whose
/// visits are under way, outermost first:
/// - each stack node reaches every stack node above it;
/// - each stack node's low link is the index of a stack node it reaches;
/// - stack nodes off the path finished their visits without closing;
/// - the path runs up the stack;
/// - the recorded components are closed under successors, and each is
///   strongly connected and holds every node mutually reachable with its
///   members.
spec fn reach_inv(t: TarjanState, adj: Seq<Vec<usize>>, path: Seq<usize>) -> bool {
    let done = flat(t.sccs@);
    &&& t.lowwit@.len() == adj.len()
    &&& forall|i: int, j: int| 0 <= i < j < t.stack.len() ==> preach(adj, #[trigger] t.stack@[i], #[trigger] t.stack@[j])
    &&& forall|j: int| 0 <= j < t.stack.len() ==> lowwit_ok(t, adj, #[trigger] t.stack@[j])
    &&& forall|j: int| 0 <= j < t.stack.len() && !path.contains(#[trigger] t.stack@[j]) ==> finished_open(t, adj, t.stack@[j])
    &&& forall|k: int| 0 <= k < path.len() ==> t.stack@.contains(#[trigger] path[k])
    &&& forall|a: int, b: int| 0 <= a < b < path.len() ==> visit_order(t, #[trigger] path[a]) < visit_order(t, #[trigger] path[b])
    &&& forall|a: usize, b: usize| done.contains(a) && #[trigger] pedge(adj, a, b) ==> done.contains(b)
    &&& forall|k: int, a: int, b: int| 0 <= k < t.sccs.len() && 0 <= a < t.sccs@[k].len() && 0 <= b < t.sccs@[k].len()
        ==> preach(adj, #[trigger] t.sccs@[k]@[a], #[trigger] t.sccs@[k]@[b])
    &&& forall|k: int, a: int, y: usize| 0 <= k < t.sccs.len() && 0 <= a < t.sccs@[k].len() && #[trigger] preach(adj, t.sccs@[k]@[a], y)
        && preach(adj, y, t.sccs@[k]@[a]) ==> t.sccs@[k]@.contains(y)
}

/// The nodes on the stack from position `from` up: every successor was
/// visited and is in a recorded component or has an index no lower than
/// the low link of `v`.
spec fn frame_low(t: TarjanState, adj: Seq<Vec<usize>>, from: int, v: usize) -> bool {
    forall|j: int, b: usize| from <= j < t.stack.len() && #[trigger] pedge(adj, t.stack@[j], b) ==> t.indices@[b as int] is Some
        && (flat(t.sccs@).contains(b) || t.lowlink@[v as int] <= visit_order(t, b))
}

/// On a sorted stack, a lower index means a lower position.
proof fn lemma_stack_pos_order(t: TarjanState, n: nat, i: int, j: int)
    requires
        tarjan_inv(t, n, Seq::empty()),
        0 <= i < t.stack.len(),
        0 <= j < t.stack.len(),
        visit_order(t, t.stack@[i]) < visit_order(t, t.stack@[j]),
    ensures
        i < j,
{
    if i > j {
        assert(visit_order(t, t.stack@[j]) < visit_order(t, t.stack@[i]));
    }
}

/// Each stack node reaches a node of the path visited no later than it.
proof fn lemma_reaches_path(t: TarjanState, adj: Seq<Vec<usize>>, path: Seq<usize>, n: nat, j: int)
    requires
        tarjan_inv(t, n, Seq::empty()),
        reach_inv(t, adj, path),
        0 <= j < t.stack.len(),
    ensures
        exists|g: usize| #[trigger] path.contains(g) && visit_order(t, g) <= visit_order(t, t.stack@[j]) && preach(
            adj,
            t.stack@[j],
            g,
        ),
    decreases j,
{
    let x = t.stack@[j];
    if path.contains(x) {
        lemma_preach_refl(adj, x);
    } else {
        assert(finished_open(t, adj, x));
        assert(lowwit_ok(t, adj, x));
        let y = t.lowwit@[x as int];
        let k = choose|k: int| 0 <= k < t.stack.len() && t.stack@[k] == y;
        assert(visit_order(t, t.stack@[k]) < visit_order(t, t.stack@[j]));
        lemma_stack_pos_order(t, n, k, j);
        lemma_reaches_path(t, adj, path, n, k);
        let g = choose|g: usize| #[trigger] path.contains(g) && visit_order(t, g) <= visit_order(t, t.stack@[k]) && preach(
            adj,
            t.stack@[k],
            g,
        );
        lemma_preach_trans(adj, x, y, g);
    }
}

/// Entering `v` (marking it visited and pushing it) extends the path by
/// `v` and keeps what is known of reachability.
#[verifier::rlimit(60)]
#[verifier::spinoff_prover]
proof fn lemma_enter_reach(a: TarjanState, b: TarjanState, adj: Seq<Vec<usize>>, path: Seq<usize>, n: nat, v: usize)
    requires
        tarjan_inv(a, n, Seq::empty()),
        tarjan_inv(b, n, Seq::empty()),
        reach_inv(a, adj, path),
        adj.len() == n,
        adjacency_inv(adj),
        v < n,
        a.indices@[v as int] is None,
        path.len() == 0 ==> a.stack.len() == 0,
        path.len() > 0 ==> pedge(adj, path.last(), v),
        b.indices@ == a.indices@.update(v as int, Some(a.index)),
        b.lowlink@ == a.lowlink@.update(v as int, a.index),
        b.index == a.index + 1,
        b.stack@ == a.stack@.push(v),
        b.sccs@ == a.sccs@,
        b.lowwit@ == a.lowwit@.update(v as int, v),
    ensures
        reach_inv(b, adj, path.push(v)),
{
    let np = path.push(v);
    let m = a.stack.len() as int;
    let done = flat(a.sccs@);
    assert(b.stack@[m] == v);
    assert(b.stack@.contains(v));
    assert(!a.stack@.contains(v) && !done.contains(v)) by {
        assert(a.indices@[v as int] is None);
    }
    assert forall|i: int| 0 <= i < m implies #[trigger] b.stack@[i] == a.stack@[i] by {}
    // indices of stack nodes are unchanged
    assert forall|x: usize| #[trigger] a.stack@.contains(x) implies visit_order(b, x) == visit_order(a, x)
        && b.lowlink@[x as int] == a.lowlink@[x as int] && b.lowwit@[x as int] == a.lowwit@[x as int] by {
        assert(x != v);
    }
    // every stack node reaches v
    if path.len() > 0 {
        let c = path.last();
        assert(np.contains(c) || true);
        assert(a.stack@.contains(c)) by {
            assert(path[path.len() - 1] == c);
        }
        assert forall|i: int| 0 <= i < m implies preach(adj, a.stack@[i], v) by {
            lemma_reaches_path(a, adj, path, n, i);
            let g = choose|g: usize| #[trigger] path.contains(g) && visit_order(a, g) <= visit_order(a, a.stack@[i]) && preach(
                adj,
                a.stack@[i],
                g,
            );
            let gk = choose|gk: int| 0 <= gk < path.len() && path[gk] == g;
            if g != c {
                assert(gk < path.len() - 1);
                assert(visit_order(a, path[gk]) < visit_order(a, path[path.len() - 1]));
                let pg = choose|q: int| 0 <= q < a.stack.len() && a.stack@[q] == g;
                let pc = choose|q: int| 0 <= q < a.stack.len() && a.stack@[q] == c;
                lemma_stack_pos_order(a, n, pg, pc);
                assert(preach(adj, a.stack@[pg], a.stack@[pc]));
                lemma_preach_trans(adj, a.stack@[i], g, c);
            }
            lemma_preach_step(adj, a.stack@[i], c, v);
        }
    }
    assert forall|i: int, j: int| 0 <= i < j < b.stack.len() implies preach(adj, #[trigger] b.stack@[i], #[trigger] b.stack@[j]) by {
        if j < m {
            assert(preach(adj, a.stack@[i], a.stack@[j]));
        } else {
            assert(b.stack@[j] == v);
            assert(path.len() > 0) by {
                if path.len() == 0 {
                    assert(a.stack.len() == 0);
                }
            }
        }
    }
    assert forall|j: int| 0 <= j < b.stack.len() implies lowwit_ok(b, adj, #[trigger] b.stack@[j]) by {
        if j < m {
            let x = a.stack@[j];
            assert(a.stack@.contains(x));
            assert(lowwit_ok(a, adj, x));
            let y = a.lowwit@[x as int];
            let q = choose|q: int| 0 <= q < a.stack.len() && a.stack@[q] == y;
            assert(b.stack@[q] == y);
            assert(a.stack@.contains(y));
        } else {
            assert(b.stack@[j] == v);
            lemma_preach_refl(adj, v);
        }
    }
    assert forall|j: int| 0 <= j < b.stack.len() && !np.contains(#[trigger] b.stack@[j]) implies finished_open(
        b,
        adj,
        b.stack@[j],
    ) by {
        if j < m {
            let x = a.stack@[j];
            assert(a.stack@.contains(x));
            assert(!path.contains(x)) by {
                if path.contains(x) {
                    let k = choose|k: int| 0 <= k < path.len() && path[k] == x;
                    assert(np[k] == x);
                }
            }
            assert(finished_open(a, adj, x));
            assert forall|c: usize| #[trigger] pedge(adj, x, c) implies b.indices@[c as int] is Some by {
                assert(a.indices@[c as int] is Some);
                let q = choose|q: int| 0 <= q < adj[x as int].len() && adj[x as int]@[q] == c;
                assert(adj[x as int]@[q] < adj.len());
            }
        } else {
            assert(np[path.len() as int] == v);
        }
    }
    assert forall|k: int| 0 <= k < np.len() implies b.stack@.contains(#[trigger] np[k]) by {
        if k < path.len() {
            assert(np[k] == path[k]);
            assert(a.stack@.contains(path[k]));
            let q = choose|q: int| 0 <= q < a.stack.len() && a.stack@[q] == path[k];
            assert(b.stack@[q] == path[k]);
        }
    }
    assert forall|x: int, y: int| 0 <= x < y < np.len() implies visit_order(b, #[trigger] np[x]) < visit_order(b, #[trigger] np[y]) by {
        assert(np[x] == path[x]);
        assert(a.stack@.contains(path[x]));
        assert(a.indices@[path[x] as int] is Some);
        if y < path.len() {
            assert(np[y] == path[y]);
            assert(a.stack@.contains(path[y]));
        } else {
            assert(np[y] == v);
        }
    }
}

/// The components after recording `c`, one after another.
proof fn lemma_flat_push(s: Seq<Vec<usize>>, t: Seq<Vec<usize>>, c: Seq<usize>)
    requires
        t.len() == s.len() + 1,
        t.drop_last() == s,
        t.last()@ == c,
    ensures
        flat(t) == flat(s) + c,
{
}

/// Closing `v` at stack position `p`: the recorded components together
/// with the nodes from `p` up are closed under successors.
#[verifier::rlimit(60)]
#[verifier::spinoff_prover]
proof fn lemma_close_closed(tc: TarjanState, adj: Seq<Vec<usize>>, path: Seq<usize>, n: nat, v: usize, p: int, c: Seq<usize>)
    requires
        tarjan_inv(tc, n, Seq::empty()),
        reach_inv(tc, adj, path.push(v)),
        adjacency_inv(adj),
        adj.len() == n,
        0 <= p < tc.stack.len(),
        tc.stack@[p] == v,
        visit_order(tc, v) == tc.lowlink@[v as int],
        frame_low(tc, adj, p, v),
        forall|x: usize| c.contains(x) <==> tc.stack@.subrange(p, tc.stack.len() as int).contains(x),
    ensures
        forall|a: usize, b: usize| (flat(tc.sccs@) + c).contains(a) && #[trigger] pedge(adj, a, b) ==> (flat(
            tc.sccs@,
        ) + c).contains(b),
{
    let dc = flat(tc.sccs@);
    let df = dc + c;
    let top = tc.stack@.subrange(p, tc.stack.len() as int);
    assert(dc + Seq::<usize>::empty() =~= dc);
    assert forall|a: usize, b: usize| df.contains(a) && #[trigger] pedge(adj, a, b) implies df.contains(b) by {
        let ia = choose|i: int| 0 <= i < df.len() && df[i] == a;
        if ia < dc.len() {
            assert(dc[ia] == a);
            assert(dc.contains(b));
            let ib = choose|i: int| 0 <= i < dc.len() && dc[i] == b;
            assert(df[ib] == b);
        } else {
            assert(c[ia - dc.len()] == a);
            assert(c.contains(a));
            assert(top.contains(a));
            let ja = choose|i: int| 0 <= i < top.len() && top[i] == a;
            assert(tc.stack@[p + ja] == a);
            assert(pedge(adj, tc.stack@[p + ja], b));
            let qb = choose|q: int| 0 <= q < adj[a as int].len() && adj[a as int]@[q] == b;
            assert(adj[a as int]@[qb] < adj.len());
            assert(tc.indices@[b as int] is Some);
            if !dc.contains(b) {
                assert(tc.lowlink@[v as int] <= visit_order(tc, b));
                assert(tc.stack@.contains(b));
                let qs = choose|q: int| 0 <= q < tc.stack.len() && tc.stack@[q] == b;
                if qs < p {
                    assert(visit_order(tc, tc.stack@[qs]) < visit_order(tc, tc.stack@[p]));
                }
                assert(top[qs - p] == b);
                assert(c.contains(b));
                let ic = choose|i: int| 0 <= i < c.len() && c[i] == b;
                assert(df[dc.len() + ic] == b);
            } else {
                let ib = choose|i: int| 0 <= i < dc.len() && dc[i] == b;
                assert(df[ib] == b);
            }
        }
    }
}

/// Each node from stack position `p` up reaches `v` and is reached from it,
/// when those nodes and the recorded components are closed under
/// successors.
#[verifier::rlimit(60)]
#[verifier::spinoff_prover]
proof fn lemma_close_mutual(tc: TarjanState, adj: Seq<Vec<usize>>, path: Seq<usize>, n: nat, v: usize, p: int, j: int)
    requires
        tarjan_inv(tc, n, Seq::empty()),
        reach_inv(tc, adj, path.push(v)),
        0 <= p <= j < tc.stack.len(),
        tc.stack@[p] == v,
        forall|a: usize, b: usize| (flat(tc.sccs@) + tc.stack@.subrange(p, tc.stack.len() as int)).contains(a)
            && #[trigger] pedge(adj, a, b) ==> (flat(tc.sccs@) + tc.stack@.subrange(p, tc.stack.len() as int)).contains(b),
    ensures
        preach(adj, v, tc.stack@[j]),
        preach(adj, tc.stack@[j], v),
{
    let np = path.push(v);
    let x = tc.stack@[j];
    let dc = flat(tc.sccs@);
    let top = tc.stack@.subrange(p, tc.stack.len() as int);
    let df = dc + top;
    if j == p {
        lemma_preach_refl(adj, v);
    } else {
        assert(preach(adj, tc.stack@[p], tc.stack@[j]));
    }
    lemma_reaches_path(tc, adj, np, n, j);
    let g = choose|g: usize| #[trigger] np.contains(g) && visit_order(tc, g) <= visit_order(tc, tc.stack@[j]) && preach(
        adj,
        tc.stack@[j],
        g,
    );
    if g != v {
        let k = choose|k: int| 0 <= k < np.len() && np[k] == g;
        assert(k < path.len()) by {
            if k == path.len() {
                assert(np[k] == v);
            }
        }
        assert(visit_order(tc, np[k]) < visit_order(tc, np[path.len() as int]));
        assert(np[path.len() as int] == v);
        assert(tc.stack@.contains(g));
        let q = choose|q: int| 0 <= q < tc.stack.len() && tc.stack@[q] == g;
        lemma_stack_pos_order(tc, n, q, p);
        lemma_preach_trans(adj, v, x, g);
        assert(top[0] == v);
        assert(df[dc.len() as int] == v);
        lemma_preach_closed(adj, df, v, g);
        let i = choose|i: int| 0 <= i < df.len() && df[i] == g;
        if i < dc.len() {
            assert(dc[i] == g);
            assert(dc.contains(g));
        } else {
            assert(top[i - dc.len()] == g);
            assert(tc.stack@[p + i - dc.len()] == g);
        }
        assert(false);
    }
}

/// The nodes from stack position `p` up, when closed under successors
/// together with the recorded components, are strongly connected and hold
/// every node mutually reachable with one of them.
#[verifier::rlimit(60)]
#[verifier::spinoff_prover]
proof fn lemma_close_groups(tc: TarjanState, adj: Seq<Vec<usize>>, path: Seq<usize>, n: nat, v: usize, p: int)
    requires
        tarjan_inv(tc, n, Seq::empty()),
        reach_inv(tc, adj, path.push(v)),
        0 <= p < tc.stack.len(),
        tc.stack@[p] == v,
        forall|a: usize, b: usize| (flat(tc.sccs@) + tc.stack@.subrange(p, tc.stack.len() as int)).contains(a)
            && #[trigger] pedge(adj, a, b) ==> (flat(tc.sccs@) + tc.stack@.subrange(p, tc.stack.len() as int)).contains(b),
    ensures
        forall|a: int, b: int| 0 <= a < tc.stack.len() - p && 0 <= b < tc.stack.len() - p ==> preach(
            adj,
            #[trigger] tc.stack@.subrange(p, tc.stack.len() as int)[a],
            #[trigger] tc.stack@.subrange(p, tc.stack.len() as int)[b],
        ),
        forall|a: int, y: usize| 0 <= a < tc.stack.len() - p && #[trigger] preach(
            adj,
            tc.stack@.subrange(p, tc.stack.len() as int)[a],
            y,
        ) && preach(adj, y, tc.stack@.subrange(p, tc.stack.len() as int)[a]) ==> tc.stack@.subrange(
            p,
            tc.stack.len() as int,
        ).contains(y),
{
    let top = tc.stack@.subrange(p, tc.stack.len() as int);
    let dc = flat(tc.sccs@);
    let df = dc + top;
    assert forall|a: int, b: int| 0 <= a < tc.stack.len() - p && 0 <= b < tc.stack.len() - p implies preach(
        adj,
        #[trigger] top[a],
        #[trigger] top[b],
    ) by {
        lemma_close_mutual(tc, adj, path, n, v, p, p + a);
        lemma_close_mutual(tc, adj, path, n, v, p, p + b);
        lemma_preach_trans(adj, top[a], v, top[b]);
    }
    assert forall|a: int, y: usize| 0 <= a < tc.stack.len() - p && #[trigger] preach(adj, top[a], y) && preach(
        adj,
        y,
        top[a],
    ) implies top.contains(y) by {
        let x = top[a];
        lemma_close_mutual(tc, adj, path, n, v, p, p + a);
        lemma_preach_trans(adj, v, x, y);
        lemma_preach_trans(adj, y, x, v);
        assert(top[0] == v);
        assert(df[dc.len() as int] == v);
        lemma_preach_closed(adj, df, v, y);
        let i = choose|i: int| 0 <= i < df.len() && df[i] == y;
        if i < dc.len() {
            assert(dc[i] == y);
            lemma_preach_closed(adj, dc, y, v);
            assert(tc.stack@.contains(v));
            assert(false);
        } else {
            assert(top[i - dc.len()] == y);
        }
    }
}

/// Closing `v` at stack position `p` and recording the popped nodes `c` as
/// a component leaves the stack below `p` and keeps what is known of
/// reachability, with `v` off the path.
#[verifier::rlimit(80)]
#[verifier::spinoff_prover]
proof fn lemma_close_reach(
    tc: TarjanState,
    tf: TarjanState,
    adj: Seq<Vec<usize>>,
    path: Seq<usize>,
    n: nat,
    v: usize,
    p: int,
    c: Seq<usize>,
)
    requires
        tarjan_inv(tc, n, Seq::empty()),
        tarjan_inv(tf, n, Seq::empty()),
        reach_inv(tc, adj, path.push(v)),
        adjacency_inv(adj),
        adj.len() == n,
        0 <= p < tc.stack.len(),
        tc.stack@[p] == v,
        visit_order(tc, v) == tc.lowlink@[v as int],
        frame_low(tc, adj, p, v),
        forall|x: usize| c.contains(x) <==> tc.stack@.subrange(p, tc.stack.len() as int).contains(x),
        tf.stack@ == tc.stack@.take(p),
        tf.sccs@.len() == tc.sccs@.len() + 1,
        tf.sccs@.drop_last() == tc.sccs@,
        tf.sccs@.last()@ == c,
        tf.indices@ == tc.indices@,
        tf.lowlink@ == tc.lowlink@,
        tf.lowwit@ == tc.lowwit@,
        tf.index == tc.index,
    ensures
        reach_inv(tf, adj, path),
        flat(tf.sccs@) == flat(tc.sccs@) + c,
{
    let np = path.push(v);
    let top = tc.stack@.subrange(p, tc.stack.len() as int);
    let dc = flat(tc.sccs@);
    lemma_flat_push(tc.sccs@, tf.sccs@, c);
    lemma_close_closed(tc, adj, path, n, v, p, c);
    assert forall|a: usize, b: usize| (dc + top).contains(a) && #[trigger] pedge(adj, a, b) implies (dc + top).contains(b) by {
        let ia = choose|i: int| 0 <= i < (dc + top).len() && (dc + top)[i] == a;
        if ia >= dc.len() {
            assert(top[ia - dc.len()] == a);
            assert(c.contains(a));
            let ic = choose|i: int| 0 <= i < c.len() && c[i] == a;
            assert((dc + c)[dc.len() + ic] == a);
        } else {
            assert((dc + c)[ia] == a);
        }
        assert((dc + c).contains(b));
        let ib = choose|i: int| 0 <= i < (dc + c).len() && (dc + c)[i] == b;
        if ib >= dc.len() {
            assert(c[ib - dc.len()] == b);
            assert(c.contains(b));
            assert(top.contains(b));
            let it = choose|i: int| 0 <= i < top.len() && top[i] == b;
            assert((dc + top)[dc.len() + it] == b);
        } else {
            assert((dc + top)[ib] == b);
        }
    }
    lemma_close_groups(tc, adj, path, n, v, p);
    let last = tc.sccs.len() as int;
    assert(tf.sccs@[last]@ == c);
    assert forall|k: int| 0 <= k < last implies #[trigger] tf.sccs@[k] == tc.sccs@[k] by {
        assert(tf.sccs@.drop_last()[k] == tf.sccs@[k]);
    }
    assert forall|k: int, a: int, b: int| 0 <= k < tf.sccs.len() && 0 <= a < tf.sccs@[k].len() && 0 <= b
        < tf.sccs@[k].len() implies preach(adj, #[trigger] tf.sccs@[k]@[a], #[trigger] tf.sccs@[k]@[b]) by {
        if k < last {
            assert(preach(adj, tc.sccs@[k]@[a], tc.sccs@[k]@[b]));
        } else {
            assert(c.contains(c[a]) && c.contains(c[b]));
            let ia = choose|i: int| 0 <= i < top.len() && top[i] == c[a];
            let ib = choose|i: int| 0 <= i < top.len() && top[i] == c[b];
            assert(preach(adj, top[ia], top[ib]));
        }
    }
    assert forall|k: int, a: int, y: usize| 0 <= k < tf.sccs.len() && 0 <= a < tf.sccs@[k].len() && #[trigger] preach(
        adj,
        tf.sccs@[k]@[a],
        y,
    ) && preach(adj, y, tf.sccs@[k]@[a]) implies tf.sccs@[k]@.contains(y) by {
        if k < last {
            assert(preach(adj, tc.sccs@[k]@[a], y));
            assert(tc.sccs@[k]@.contains(y));
        } else {
            assert(c.contains(c[a]));
            let ia = choose|i: int| 0 <= i < top.len() && top[i] == c[a];
            assert(preach(adj, top[ia], y));
            assert(top.contains(y));
        }
    }
    // the stack below p
    assert forall|i: int| 0 <= i < p implies #[trigger] tf.stack@[i] == tc.stack@[i] by {}
    assert forall|x: usize| tc.stack@.contains(x) && visit_order(tc, x) < visit_order(tc, v) implies #[trigger] tf.stack@.contains(
        x,
    ) by {
        let q = choose|q: int| 0 <= q < tc.stack.len() && tc.stack@[q] == x;
        lemma_stack_pos_order(tc, n, q, p);
        assert(tf.stack@[q] == x);
    }
    assert forall|j: int| 0 <= j < tf.stack.len() implies lowwit_ok(tf, adj, #[trigger] tf.stack@[j]) by {
        let x = tc.stack@[j];
        assert(lowwit_ok(tc, adj, x));
        let y = tc.lowwit@[x as int];
        let q = choose|q: int| 0 <= q < tc.stack.len() && tc.stack@[q] == y;
        assert(tc.lowlink@[x as int] <= visit_order(tc, x));
        if q > j {
            assert(visit_order(tc, tc.stack@[j]) < visit_order(tc, tc.stack@[q]));
        }
        if j < p {
            assert(visit_order(tc, tc.stack@[j]) < visit_order(tc, tc.stack@[p]));
        }
        assert(tf.stack@.contains(y));
    }
    assert forall|j: int| 0 <= j < tf.stack.len() && !path.contains(#[trigger] tf.stack@[j]) implies finished_open(
        tf,
        adj,
        tf.stack@[j],
    ) by {
        let x = tc.stack@[j];
        assert(x != v);
        assert(!np.contains(x)) by {
            if np.contains(x) {
                let k = choose|k: int| 0 <= k < np.len() && np[k] == x;
                if k < path.len() {
                    assert(path[k] == x);
                }
            }
        }
        assert(finished_open(tc, adj, x));
    }
    assert forall|k: int| 0 <= k < path.len() implies tf.stack@.contains(#[trigger] path[k]) by {
        assert(np[k] == path[k]);
        assert(np[path.len() as int] == v);
        assert(visit_order(tc, np[k]) < visit_order(tc, np[path.len() as int]));
        assert(tc.stack@.contains(np[k]));
    }
    assert forall|a: int, b: int| 0 <= a < b < path.len() implies visit_order(tf, #[trigger] path[a]) < visit_order(
        tf,
        #[trigger] path[b],
    ) by {
        assert(np[a] == path[a] && np[b] == path[b]);
    }
    assert forall|a: usize, b: usize| flat(tf.sccs@).contains(a) && #[trigger] pedge(adj, a, b) implies flat(
        tf.sccs@,
    ).contains(b) by {
    }
}

/// Every successor among the first `k` of `v` (listed in `nb`) was visited
/// and is in a recorded component or has an index no lower than the low
/// link of `v`.
spec fn done_succ(t: TarjanState, v: usize, nb: Seq<usize>, k: int) -> bool {
    forall|i: int| 0 <= i < k ==> t.indices@[#[trigger] nb[i] as int] is Some && (flat(t.sccs@).contains(nb[i])
        || t.lowlink@[v as int] <= visit_order(t, nb[i]))
}


/// Lowering the low link of `v` (at stack position `p`, on the path) to
/// the index of a stack node `y` that `v` reaches keeps what is known of
/// reachability.
#[verifier::rlimit(40)]
proof fn lemma_lower_reach(a: TarjanState, b: TarjanState, adj: Seq<Vec<usize>>, np: Seq<usize>, n: nat, p: int, y: usize)
    requires
        tarjan_inv(a, n, Seq::empty()),
        reach_inv(a, adj, np),
        0 <= p < a.stack.len(),
        np.contains(a.stack@[p]),
        a.stack@.contains(y),
        preach(adj, a.stack@[p], y),
        same_but_lowlink(a, b, a.stack@[p]),
        b.lowlink@[a.stack@[p] as int] == visit_order(a, y),
        b.lowwit@ == a.lowwit@.update(a.stack@[p] as int, y),
        adj.len() == n,
    ensures
        reach_inv(b, adj, np),
{
    let v = a.stack@[p];
    assert forall|x: usize| visit_order(b, x) == visit_order(a, x) by {}
    assert(a.indices@[y as int] is Some) by {
        let q = choose|q: int| 0 <= q < a.stack.len() && a.stack@[q] == y;
    }
    assert forall|j: int| 0 <= j < b.stack.len() implies lowwit_ok(b, adj, #[trigger] b.stack@[j]) by {
        let x = a.stack@[j];
        if x != v {
            assert(lowwit_ok(a, adj, x));
            assert(b.lowwit@[x as int] == a.lowwit@[x as int]);
        } else {
            assert(b.lowwit@[x as int] == y);
            assert(b.stack@.contains(y));
        }
    }
    assert forall|j: int| 0 <= j < b.stack.len() && !np.contains(#[trigger] b.stack@[j]) implies finished_open(
        b,
        adj,
        b.stack@[j],
    ) by {
        let x = a.stack@[j];
        assert(finished_open(a, adj, x));
    }
    assert forall|a1: int, b1: int| 0 <= a1 < b1 < np.len() implies visit_order(b, #[trigger] np[a1]) < visit_order(
        b,
        #[trigger] np[b1],
    ) by {
        assert(visit_order(a, np[a1]) < visit_order(a, np[b1]));
    }
}

/// After visiting the child `w` of `v` (at stack position `p`) and taking
/// the lower of the two low links for `v`, the nodes above `v` and the
/// successors of `v` seen so far still meet the low link of `v`.
#[verifier::rlimit(60)]
#[verifier::spinoff_prover]
proof fn lemma_child_frames(
    t1: TarjanState,
    t2: TarjanState,
    t3: TarjanState,
    adj: Seq<Vec<usize>>,
    n: nat,
    p: int,
    v: usize,
    w: usize,
    nb: Seq<usize>,
    k: int,
)
    requires
        tarjan_inv(t1, n, Seq::empty()),
        tarjan_inv(t2, n, Seq::empty()),
        adjacency_inv(adj),
        adj.len() == n,
        0 <= p < t1.stack.len(),
        t1.stack@[p] == v,
        frame_low(t1, adj, p + 1, v),
        done_succ(t1, v, nb, k),
        nb == adj[v as int]@,
        0 <= k < nb.len(),
        w == nb[k],
        t1.indices@[w as int] is None,
        t2.stack.len() >= t1.stack.len(),
        t2.stack@.take(t1.stack.len() as int) == t1.stack@,
        forall|u: int| 0 <= u < n && (#[trigger] t1.indices@[u]) is Some ==> t2.indices@[u] == t1.indices@[u],
        forall|i: int| 0 <= i < t1.stack.len() ==> t2.lowlink@[#[trigger] t1.stack@[i] as int] == t1.lowlink@[t1.stack@[i] as int],
        t2.indices@[w as int] == Some(t1.index),
        t2.stack.len() == t1.stack.len() ==> flat(t2.sccs@).contains(w),
        t2.stack.len() > t1.stack.len() ==> t2.stack@[t1.stack.len() as int] == w && frame_low(
            t2,
            adj,
            t1.stack.len() as int,
            w,
        ),
        forall|b: usize| flat(t1.sccs@).contains(b) ==> #[trigger] flat(t2.sccs@).contains(b),
        t3.stack@ == t2.stack@,
        t3.indices@ == t2.indices@,
        t3.sccs@ == t2.sccs@,
        t3.lowlink@.len() == t2.lowlink@.len(),
        forall|u: int| 0 <= u < n && u != v ==> #[trigger] t3.lowlink@[u] == t2.lowlink@[u],
        t3.lowlink@[v as int] <= t2.lowlink@[v as int],
        t2.stack.len() > t1.stack.len() ==> t3.lowlink@[v as int] <= t2.lowlink@[w as int],
    ensures
        frame_low(t3, adj, p + 1, v),
        done_succ(t3, v, nb, k + 1),
{
    let m = t1.stack.len() as int;
    assert forall|i: int| 0 <= i < m implies #[trigger] t2.stack@[i] == t1.stack@[i] by {
        assert(t2.stack@.take(m)[i] == t1.stack@[i]);
    }
    assert(t2.lowlink@[v as int] == t1.lowlink@[v as int]) by {
        assert(t2.lowlink@[t1.stack@[p] as int] == t1.lowlink@[t1.stack@[p] as int]);
    }
    assert(t1.lowlink@[v as int] <= visit_order(t1, v)) by {
        assert(t1.lowlink@[t1.stack@[p] as int] <= visit_order(t1, t1.stack@[p]));
    }
    assert(t1.stack@.contains(v));
    assert(t1.indices@[v as int] is Some);
    assert(visit_order(t1, v) < t1.index);
    assert forall|j: int, b: usize| p + 1 <= j < t3.stack.len() && #[trigger] pedge(adj, t3.stack@[j], b) implies t3.indices@[
        b as int] is Some && (flat(t3.sccs@).contains(b) || t3.lowlink@[v as int] <= visit_order(t3, b)) by {
        let qb = choose|q: int| 0 <= q < adj[t3.stack@[j] as int].len() && adj[t3.stack@[j] as int]@[q] == b;
        assert(t3.stack@[j] < n);
        assert(adj[t3.stack@[j] as int]@[qb] < adj.len());
        if j < m {
            assert(t3.stack@[j] == t1.stack@[j]);
            assert(pedge(adj, t1.stack@[j], b));
            assert(t1.indices@[b as int] is Some);
            assert(t2.indices@[b as int] == t1.indices@[b as int]);
            if !flat(t1.sccs@).contains(b) {
                assert(t1.lowlink@[v as int] <= visit_order(t1, b));
            } else {
                assert(flat(t2.sccs@).contains(b));
            }
        } else {
            assert(pedge(adj, t2.stack@[j], b));
        }
    }
    assert forall|i: int| 0 <= i < k + 1 implies t3.indices@[#[trigger] nb[i] as int] is Some && (flat(
        t3.sccs@,
    ).contains(nb[i]) || t3.lowlink@[v as int] <= visit_order(t3, nb[i])) by {
        let b = nb[i];
        assert(b < adj.len());
        if i < k {
            assert(t1.indices@[b as int] is Some);
            assert(t2.indices@[b as int] == t1.indices@[b as int]);
            if !flat(t1.sccs@).contains(b) {
                assert(t1.lowlink@[v as int] <= visit_order(t1, b));
            } else {
                assert(flat(t2.sccs@).contains(b));
            }
        }
    }
}

/// After looking at a successor `w` of `v` that was visited already, and
/// lowering the low link of `v` to the index of `w` when `w` is on the
/// stack and lower, the nodes above `v` and the successors of `v` seen so
/// far still meet the low link of `v`.
#[verifier::rlimit(60)]
#[verifier::spinoff_prover]
proof fn lemma_seen_frames(
    t1: TarjanState,
    t3: TarjanState,
    adj: Seq<Vec<usize>>,
    n: nat,
    p: int,
    v: usize,
    w: usize,
    nb: Seq<usize>,
    k: int,
)
    requires
        tarjan_inv(t1, n, Seq::empty()),
        adjacency_inv(adj),
        adj.len() == n,
        0 <= p < t1.stack.len(),
        t1.stack@[p] == v,
        frame_low(t1, adj, p + 1, v),
        done_succ(t1, v, nb, k),
        nb == adj[v as int]@,
        0 <= k < nb.len(),
        w == nb[k],
        t1.indices@[w as int] is Some,
        t3.stack@ == t1.stack@,
        t3.indices@ == t1.indices@,
        t3.sccs@ == t1.sccs@,
        t3.lowlink@.len() == t1.lowlink@.len(),
        forall|u: int| 0 <= u < n && u != v ==> #[trigger] t3.lowlink@[u] == t1.lowlink@[u],
        t3.lowlink@[v as int] <= t1.lowlink@[v as int],
        t1.onstack@[w as int] ==> t3.lowlink@[v as int] <= visit_order(t1, w),
    ensures
        frame_low(t3, adj, p + 1, v),
        done_succ(t3, v, nb, k + 1),
{
    assert forall|j: int, b: usize| p + 1 <= j < t3.stack.len() && #[trigger] pedge(adj, t3.stack@[j], b) implies t3.indices@[
        b as int] is Some && (flat(t3.sccs@).contains(b) || t3.lowlink@[v as int] <= visit_order(t3, b)) by {
        assert(pedge(adj, t1.stack@[j], b));
    }
    assert(w < adj.len());
    assert forall|i: int| 0 <= i < k + 1 implies t3.indices@[#[trigger] nb[i] as int] is Some && (flat(
        t3.sccs@,
    ).contains(nb[i]) || t3.lowlink@[v as int] <= visit_order(t3, nb[i])) by {
        if i == k {
            if !t1.onstack@[w as int] {
                assert(!t1.stack@.contains(w));
                assert(flat(t1.sccs@) + Seq::<usize>::empty() =~= flat(t1.sccs@));
                assert(flat(t1.sccs@).contains(w));
            }
        }
    }
}

/// The successors of `v` seen in full, with the nodes above `v`, meet the
/// low link of `v` from the position of `v` up.
proof fn lemma_frame_full(t: TarjanState, adj: Seq<Vec<usize>>, p: int, v: usize, nb: Seq<usize>)
    requires
        0 <= p < t.stack.len(),
        t.stack@[p] == v,
        frame_low(t, adj, p + 1, v),
        done_succ(t, v, nb, nb.len() as int),
        nb == adj[v as int]@,
    ensures
        frame_low(t, adj, p, v),
{
    assert forall|j: int, b: usize| p <= j < t.stack.len() && #[trigger] pedge(adj, t.stack@[j], b) implies t.indices@[
        b as int] is Some && (flat(t.sccs@).contains(b) || t.lowlink@[v as int] <= visit_order(t, b)) by {
        if j == p {
            let i = choose|i: int| 0 <= i < nb.len() && nb[i] == b;
            assert(t.indices@[nb[i] as int] is Some);
        }
    }
}

/// A node that finished without closing leaves the path.
proof fn lemma_drop_path(t: TarjanState, adj: Seq<Vec<usize>>, path: Seq<usize>, v: usize, nb: Seq<usize>)
    requires
        reach_inv(t, adj, path.push(v)),
        t.lowlink@[v as int] < visit_order(t, v),
        done_succ(t, v, nb, nb.len() as int),
        nb == adj[v as int]@,
    ensures
        reach_inv(t, adj, path),
{
    let np = path.push(v);
    assert forall|b: usize| #[trigger] pedge(adj, v, b) implies t.indices@[b as int] is Some by {
        let i = choose|i: int| 0 <= i < nb.len() && nb[i] == b;
        assert(t.indices@[nb[i] as int] is Some);
    }
    assert forall|j: int| 0 <= j < t.stack.len() && !path.contains(#[trigger] t.stack@[j]) implies finished_open(
        t,
        adj,
        t.stack@[j],
    ) by {
        if t.stack@[j] != v {
            assert(!np.contains(t.stack@[j])) by {
                if np.contains(t.stack@[j]) {
                    let k = choose|k: int| 0 <= k < np.len() && np[k] == t.stack@[j];
                    if k < path.len() {
                        assert(path[k] == np[k]);
                    }
                }
            }
        }
    }
    assert forall|k: int| 0 <= k < path.len() implies t.stack@.contains(#[trigger] path[k]) by {
        assert(np[k] == path[k]);
    }
    assert forall|a: int, b: int| 0 <= a < b < path.len() implies visit_order(t, #[trigger] path[a]) < visit_order(
        t,
        #[trigger] path[b],
    ) by {
        assert(np[a] == path[a] && np[b] == path[b]);
    }
}

/// Two search states that differ at most in the low link of `v`.
spec fn same_but_lowlink(a: TarjanState, b: TarjanState, v: usize) -> bool {
    &&& a.index == b.index
    &&& a.stack@ == b.stack@
    &&& a.indices@ == b.indices@
    &&& a.onstack@ == b.onstack@
    &&& a.sccs@ == b.sccs@
    &&& a.lowlink.len() == b.lowlink.len()
    &&& forall|u: int| 0 <= u < a.lowlink.len() && u != v ==> #[trigger] b.lowlink@[u] == a.lowlink@[u]
}

/// Lowering the low link of the node at stack position `p` to a value not
/// below the index of the bottom of the stack keeps the invariant.
proof fn lemma_lower_lowlink(a: TarjanState, b: TarjanState, n: nat, p: int)
    requires
        tarjan_inv(a, n, Seq::empty()),
        0 <= p < a.stack.len(),
        same_but_lowlink(a, b, a.stack@[p]),
        visit_order(a, a.stack@[0]) <= b.lowlink@[a.stack@[p] as int] <= a.lowlink@[a.stack@[p] as int],
    ensures
        tarjan_inv(b, n, Seq::empty()),
{
    let v = a.stack@[p];
    assert forall|j: int| 0 <= j < b.stack.len() implies visit_order(b, b.stack@[0]) <= #[trigger] b.lowlink@[b.stack@[j] as int]
        <= visit_order(b, b.stack@[j]) by {
        assert(visit_order(a, a.stack@[0]) <= a.lowlink@[a.stack@[j] as int] <= visit_order(a, a.stack@[j]));
        if b.stack@[j] == v {
            assert(j == p) by {
                if j != p {
                    assert(a.stack@.no_duplicates());
                }
            }
        }
    }
    assert forall|i: int, j: int| 0 <= i < j < b.stack.len() implies visit_order(b, #[trigger] b.stack@[i]) < visit_order(
        b,
        #[trigger] b.stack@[j],
    ) by {
        assert(visit_order(a, a.stack@[i]) < visit_order(a, a.stack@[j]));
    }
}

/// Pops the stack down to `v` (at position `p`, whose low link is its own
/// index) into a new component, which is recorded.
#[verifier::rlimit(100)]
#[verifier::spinoff_prover]
fn close_component(
    t: &mut TarjanState,
    v: usize,
    adj: &Vec<Vec<usize>>,
    Ghost(path): Ghost<Seq<usize>>,
    Ghost(p): Ghost<int>,
    Ghost(t0): Ghost<TarjanState>,
)
    requires
        tarjan_inv(*old(t), adj.len() as nat, Seq::empty()),
        reach_inv(*old(t), adj@, path.push(v)),
        adjacency_inv(adj@),
        p == t0.stack.len(),
        0 <= p < old(t).stack.len(),
        old(t).stack@[p] == v,
        old(t).stack@.take(p) == t0.stack@,
        old(t).index > t0.index,
        old(t).indices@[v as int] == Some(t0.index),
        old(t).lowlink@[v as int] == t0.index,
        forall|u: int| 0 <= u < adj.len() && (#[trigger] t0.indices@[u]) is Some ==> old(t).indices@[u] == t0.indices@[u],
        forall|i: int| 0 <= i < p ==> old(t).lowlink@[#[trigger] t0.stack@[i] as int] == t0.lowlink@[t0.stack@[i] as int],
        frame_low(*old(t), adj@, p, v),
    ensures
        tarjan_inv(*final(t), adj.len() as nat, Seq::empty()),
        reach_inv(*final(t), adj@, path),
        final(t).stack@ == t0.stack@,
        final(t).index == old(t).index,
        final(t).indices@ == old(t).indices@,
        final(t).lowlink@ == old(t).lowlink@,
        forall|b: usize| flat(old(t).sccs@).contains(b) ==> #[trigger] flat(final(t).sccs@).contains(b),
        flat(final(t).sccs@).contains(v),
{
    let ghost n = adj.len() as nat;
    let ghost tc = *t;
    let mut scc: Vec<usize> = Vec::new();
    proof {
        assert(tc.stack@.subrange(tc.stack.len() as int, tc.stack.len() as int) =~= Seq::<usize>::empty());
        assert(tc.stack@.take(tc.stack.len() as int) =~= tc.stack@);
    }
    loop
        invariant_except_break
            t.stack.len() > p,
            t.stack@[p] == v,
        invariant
            tarjan_inv(*t, n, scc@),
            p == t0.stack.len(),
            t.index > t0.index,
            t.stack.len() >= p,
            t.stack@.take(p) == t0.stack@,
            t.indices@[v as int] == Some(t0.index),
            t.lowlink@[v as int] == t0.index,
            forall|u: int| 0 <= u < n && (#[trigger] t0.indices@[u]) is Some ==> t.indices@[u] == t0.indices@[u],
            forall|i: int| 0 <= i < p ==> t.lowlink@[#[trigger] t0.stack@[i] as int] == t0.lowlink@[t0.stack@[i] as int],
            scc.len() > 0 || t.stack.len() > p,
            t.sccs@ == tc.sccs@,
            t.indices@ == tc.indices@,
            t.lowlink@ == tc.lowlink@,
            t.lowwit@ == tc.lowwit@,
            t.index == tc.index,
            t.stack.len() <= tc.stack.len(),
            t.stack@ == tc.stack@.take(t.stack.len() as int),
            forall|x: usize| scc@.contains(x) <==> tc.stack@.subrange(t.stack.len() as int, tc.stack.len() as int).contains(x),
        ensures
            t.stack.len() == p,
            scc.len() > 0,
        decreases t.stack.len(),
    {
        let ghost t3 = *t;
        let ghost before = scc@;
        match t.stack.pop() {
            Some(w) => {
                t.onstack.set(w, false);
                scc.push(w);
                proof {
                    lemma_pop_into(t3, *t, n, before, w);
                    let m = t.stack.len() as int;
                    assert(w == tc.stack@[m]) by {
                        assert(t3.stack@[m] == tc.stack@.take(m + 1)[m]);
                    }
                    assert(t.stack@ =~= tc.stack@.take(m));
                    let sub = tc.stack@.subrange(m, tc.stack.len() as int);
                    let sub1 = tc.stack@.subrange(m + 1, tc.stack.len() as int);
                    assert forall|x: usize| scc@.contains(x) <==> sub.contains(x) by {
                        if scc@.contains(x) {
                            let i = choose|i: int| 0 <= i < scc.len() && scc@[i] == x;
                            if i < before.len() {
                                assert(before[i] == x);
                                assert(before.contains(x));
                                assert(sub1.contains(x));
                                let q = choose|q: int| 0 <= q < sub1.len() && sub1[q] == x;
                                assert(sub[q + 1] == x);
                            } else {
                                assert(sub[0] == x);
                            }
                        }
                        if sub.contains(x) {
                            let q = choose|q: int| 0 <= q < sub.len() && sub[q] == x;
                            if q == 0 {
                                assert(scc@[before.len() as int] == x);
                            } else {
                                assert(sub1[q - 1] == x);
                                assert(sub1.contains(x));
                                assert(before.contains(x));
                                let i = choose|i: int| 0 <= i < before.len() && before[i] == x;
                                assert(scc@[i] == x);
                            }
                        }
                    }
                }
                if w == v {
                    proof {
                        assert(t3.stack.len() == p + 1) by {
                            if t3.stack.len() > p + 1 {
                                assert(t3.stack@[p] == t3.stack@[t3.stack.len() - 1]);
                            }
                        }
                        assert(t.stack@.take(p) =~= t3.stack@.take(p));
                    }
                    break;
                }
                proof {
                    assert(t.stack.len() > p) by {
                        if t3.stack.len() == p + 1 {
                            assert(t3.stack@.last() == t3.stack@[p]);
                        }
                    }
                    assert(t.stack@[p] == t3.stack@[p]);
                    assert(t.stack@.take(p) =~= t3.stack@.take(p));
                }
            },
            None => {
                break;
            },
        }
    }
    let ghost t4 = *t;
    let ghost c = scc@;
    t.sccs.push(scc);
    proof {
        assert(t.sccs@.drop_last() =~= t4.sccs@);
        lemma_record(t4, *t, n, c);
        assert(t.stack@ =~= t0.stack@);
        assert(t.stack@ =~= tc.stack@.take(p));
        lemma_close_reach(tc, *t, adj@, path, n, v, p, c);
        assert(tc.stack@.subrange(p, tc.stack.len() as int)[0] == v);
        assert(c.contains(v));
        let i = choose|i: int| 0 <= i < c.len() && c[i] == v;
        assert((flat(tc.sccs@) + c)[flat(tc.sccs@).len() + i] == v);
        assert forall|b: usize| flat(tc.sccs@).contains(b) implies #[trigger] flat(t.sccs@).contains(b) by {
            let j = choose|j: int| 0 <= j < flat(tc.sccs@).len() && flat(tc.sccs@)[j] == b;
            assert((flat(tc.sccs@) + c)[j] == b);
        }
    }
}

/// Visits node `v` and, depth first, every unvisited node it leads to;
/// each node whose low link meets its own index closes a component, made
/// of the nodes popped from the stack down to it. The stack below `v` is
/// left as it was, and `v` either closes a component, leaving the stack
/// as it found it, or stays right above it with a lower low link. `path`
/// holds the nodes whose visits are under way, outermost first.
#[verifier::rlimit(100)]
#[verifier::spinoff_prover]
fn tarjan_visit(t: &mut TarjanState, v: usize, adj: &Vec<Vec<usize>>, Ghost(path): Ghost<Seq<usize>>)
    requires
        tarjan_inv(*old(t), adj.len() as nat, Seq::empty()),
        reach_inv(*old(t), adj@, path),
        adjacency_inv(adj@),
        v < adj.len(),
        old(t).indices@[v as int] is None,
        path.len() == 0 ==> old(t).stack.len() == 0,
        path.len() > 0 ==> pedge(adj@, path.last(), v),
    ensures
        tarjan_inv(*final(t), adj.len() as nat, Seq::empty()),
        reach_inv(*final(t), adj@, path),
        final(t).index > old(t).index,
        final(t).stack.len() >= old(t).stack.len(),
        final(t).stack@.take(old(t).stack.len() as int) == old(t).stack@,
        forall|u: int| 0 <= u < adj.len() && (#[trigger] old(t).indices@[u]) is Some ==> final(t).indices@[u] == old(
            t,
        ).indices@[u],
        forall|i: int| 0 <= i < old(t).stack.len() ==> final(t).lowlink@[#[trigger] old(t).stack@[i] as int] == old(
            t,
        ).lowlink@[old(t).stack@[i] as int],
        forall|b: usize| flat(old(t).sccs@).contains(b) ==> #[trigger] flat(final(t).sccs@).contains(b),
        final(t).indices@[v as int] == Some(old(t).index),
        final(t).stack.len() == old(t).stack.len() ==> final(t).lowlink@[v as int] == old(t).index && flat(
            final(t).sccs@,
        ).contains(v),
        final(t).stack.len() > old(t).stack.len() ==> final(t).stack@[old(t).stack.len() as int] == v
            && final(t).lowlink@[v as int] < old(t).index && frame_low(*final(t), adj@, old(t).stack.len() as int, v),
    decreases adj.len() - old(t).index,
{
    let ghost n = adj.len() as nat;
    let ghost t0 = *t;
    let ghost p = t0.stack.len() as int;
    let ghost np = path.push(v);
    proof {
        lemma_count_visited(t.indices@, v as int, t.index);
    }
    let idx = t.index;
    t.indices.set(v, Some(idx));
    t.lowlink.set(v, idx);
    t.index = idx + 1;
    t.stack.push(v);
    t.onstack.set(v, true);
    proof {
        t.lowwit@ = t.lowwit@.update(v as int, v);
        lemma_enter(t0, *t, n, v);
        lemma_enter_reach(t0, *t, adj@, path, n, v);
    }
    let nbrs = &adj[v];
    let mut k: usize = 0;
    while k < nbrs.len()
        invariant
            tarjan_inv(*t, n, Seq::empty()),
            reach_inv(*t, adj@, np),
            np == path.push(v),
            adjacency_inv(adj@),
            n == adj.len(),
            v < adj.len(),
            *nbrs == adj@[v as int],
            k <= nbrs.len(),
            p == t0.stack.len(),
            t.index > t0.index,
            t.stack.len() > p,
            t.stack@.take(p) == t0.stack@,
            t.stack@[p] == v,
            forall|u: int| 0 <= u < n && (#[trigger] t0.indices@[u]) is Some ==> t.indices@[u] == t0.indices@[u],
            forall|i: int| 0 <= i < p ==> t.lowlink@[#[trigger] t0.stack@[i] as int] == t0.lowlink@[t0.stack@[i] as int],
            t.indices@[v as int] == Some(t0.index),
            !t0.stack@.contains(v),
            t0.index == old(t).index,
            frame_low(*t, adj@, p + 1, v),
            done_succ(*t, v, nbrs@, k as int),
            forall|b: usize| flat(t0.sccs@).contains(b) ==> #[trigger] flat(t.sccs@).contains(b),
        decreases nbrs.len() - k,
    {
        let w = nbrs[k];
        assert(w < adj.len());
        assert(pedge(adj@, v, w)) by {
            assert(adj@[v as int]@[k as int] == w);
        }
        let ghost t1 = *t;
        match t.indices[w] {
            None => {
                proof {
                    lemma_count_visited_le(t.indices@);
                }
                tarjan_visit(t, w, adj, Ghost(np));
                proof {
                    lemma_after_child(t0, t1, *t, n, p, v, w);
                }
                let ghost t2 = *t;
                let lv = t.lowlink[v];
                let lw = t.lowlink[w];
                proof {
                    assert(t1.stack@.contains(v)) by {
                        assert(t1.stack@[p] == v);
                    }
                    assert(t1.lowlink@[v as int] <= visit_order(t1, v)) by {
                        assert(t1.lowlink@[t1.stack@[p] as int] <= visit_order(t1, t1.stack@[p]));
                    }
                    assert(t2.lowlink@[v as int] == t1.lowlink@[v as int]) by {
                        assert(t2.lowlink@[t1.stack@[p] as int] == t1.lowlink@[t1.stack@[p] as int]);
                    }
                }
                if lw < lv {
                    proof {
                        assert(t2.stack.len() > t1.stack.len());
                        assert(t2.stack@.contains(w)) by {
                            assert(t2.stack@[t1.stack.len() as int] == w);
                        }
                        assert(lowwit_ok(t2, adj@, w)) by {
                            assert(t2.stack@[t1.stack.len() as int] == w);
                        }
                        lemma_preach_edge(adj@, v, w);
                        lemma_preach_trans(adj@, v, w, t2.lowwit@[w as int]);
                    }
                    t.lowlink.set(v, lw);
                    proof {
                        t.lowwit@ = t.lowwit@.update(v as int, t2.lowwit@[w as int]);
                        lemma_lower_lowlink(t2, *t, n, p);
                        lemma_lower_reach(t2, *t, adj@, np, n, p, t2.lowwit@[w as int]);
                    }
                }
                proof {
                    lemma_child_frames(t1, t2, *t, adj@, n, p, v, w, nbrs@, k as int);
                }
            },
            Some(iw) => {
                if t.onstack[w] {
                    let lv = t.lowlink[v];
                    if iw < lv {
                        proof {
                            lemma_stack_order_at_least_bottom(t1, n, w);
                            lemma_preach_edge(adj@, v, w);
                            assert(t1.stack@.contains(w));
                            assert(np.contains(v)) by {
                                assert(np[path.len() as int] == v);
                            }
                        }
                        t.lowlink.set(v, iw);
                        proof {
                            t.lowwit@ = t.lowwit@.update(v as int, w);
                            lemma_lower_lowlink(t1, *t, n, p);
                            lemma_lower_reach(t1, *t, adj@, np, n, p, w);
                        }
                    }
                }
                proof {
                    lemma_seen_frames(t1, *t, adj@, n, p, v, w, nbrs@, k as int);
                }
            },
        }
        k += 1;
    }
    proof {
        lemma_frame_full(*t, adj@, p, v, nbrs@);
    }
    let closes = match t.indices[v] {
        Some(iv) => t.lowlink[v] == iv,
        None => false,
    };
    if closes {
        let ghost tb = *t;
        close_component(t, v, adj, Ghost(path), Ghost(p), Ghost(t0));
        proof {
            assert forall|b: usize| flat(t0.sccs@).contains(b) implies #[trigger] flat(t.sccs@).contains(b) by {
                assert(flat(tb.sccs@).contains(b));
            }
        }
    } else {
        proof {
            assert(t.lowlink@[v as int] <= visit_order(*t, v)) by {
                assert(t.lowlink@[t.stack@[p] as int] <= visit_order(*t, t.stack@[p]));
            }
            lemma_drop_path(*t, adj@, path, v, nbrs@);
        }
    }
}

/// Every node of a fully visited list is counted.
proof fn lemma_count_all(s: Seq<Option<usize>>)
    requires
        forall|k: int| 0 <= k < s.len() ==> #[trigger] s[k] is Some,
    ensures
        count_visited(s) == s.len(),
    decreases s.len(),
{
    if s.len() > 0 {
        lemma_count_all(s.drop_last());
    }
}

/// Marking `v` visited, with the next index as its index and low link, and
/// pushing it on the stack keeps the invariant.
proof fn lemma_enter(a: TarjanState, b: TarjanState, n: nat, v: usize)
    requires
        tarjan_inv(a, n, Seq::empty()),
        v < n,
        a.indices@[v as int] is None,
        b.indices@ == a.indices@.update(v as int, Some(a.index)),
        b.lowlink@ == a.lowlink@.update(v as int, a.index),
        b.index == a.index + 1,
        b.stack@ == a.stack@.push(v),
        b.onstack@ == a.onstack@.update(v as int, true),
        b.sccs@ == a.sccs@,
        count_visited(b.indices@) == count_visited(a.indices@) + 1,
    ensures
        tarjan_inv(b, n, Seq::empty()),
        !a.stack@.contains(v),
        !flat(a.sccs@).contains(v),
{
    let done = flat(a.sccs@) + Seq::<usize>::empty();
    assert(done =~= flat(a.sccs@));
    assert(!a.stack@.contains(v) && !done.contains(v));
    assert forall|w: usize| #[trigger] b.stack@.contains(w) implies !done.contains(w) by {
        if w != v {
            let k = choose|k: int| 0 <= k < b.stack.len() && b.stack@[k] == w;
            assert(a.stack@[k] == w);
            assert(a.stack@.contains(w));
        }
    }
    assert forall|w: int| 0 <= w < n implies (#[trigger] b.onstack@[w] <==> b.stack@.contains(w as usize)) by {
        if w != v as int {
            assert(a.onstack@[w] <==> a.stack@.contains(w as usize));
            if a.stack@.contains(w as usize) {
                let k = choose|k: int| 0 <= k < a.stack.len() && a.stack@[k] == w as usize;
                assert(b.stack@[k] == w as usize);
            }
            if b.stack@.contains(w as usize) {
                let k = choose|k: int| 0 <= k < b.stack.len() && b.stack@[k] == w as usize;
                assert(a.stack@[k] == w as usize);
            }
        } else {
            assert(b.stack@[a.stack.len() as int] == v);
        }
    }
    assert forall|w: int| 0 <= w < n implies ((#[trigger] b.indices@[w]) is Some <==> (b.stack@.contains(w as usize)
        || done.contains(w as usize))) by {
        if w != v as int {
            assert(a.indices@[w] is Some <==> (a.stack@.contains(w as usize) || done.contains(w as usize)));
            if a.stack@.contains(w as usize) {
                let k = choose|k: int| 0 <= k < a.stack.len() && a.stack@[k] == w as usize;
                assert(b.stack@[k] == w as usize);
            }
            if b.stack@.contains(w as usize) {
                let k = choose|k: int| 0 <= k < b.stack.len() && b.stack@[k] == w as usize;
                assert(a.stack@[k] == w as usize);
            }
        } else {
            assert(b.stack@[a.stack.len() as int] == v);
        }
    }
    assert forall|w: int| 0 <= w < n && (#[trigger] b.indices@[w]) is Some implies b.indices@[w]->0 < b.index by {
        if w != v as int {
            assert(a.indices@[w] is Some);
        }
    }
    assert forall|i: int, j: int| 0 <= i < j < b.stack.len() implies visit_order(b, #[trigger] b.stack@[i]) < visit_order(
        b,
        #[trigger] b.stack@[j],
    ) by {
        let x = b.stack@[i];
        assert(a.stack@[i] == x);
        assert(a.stack@.contains(x));
        assert(a.indices@[x as int] is Some);
        assert(x != v);
        if j < a.stack.len() {
            assert(a.stack@[j] == b.stack@[j]);
            assert(b.stack@[j] != v);
            assert(visit_order(a, a.stack@[i]) < visit_order(a, a.stack@[j]));
        } else {
            assert(b.stack@[j] == v);
        }
    }
    assert forall|j: int| 0 <= j < b.stack.len() implies visit_order(b, b.stack@[0]) <= #[trigger] b.lowlink@[b.stack@[j] as int]
        <= visit_order(b, b.stack@[j]) by {
        if a.stack.len() == 0 {
            assert(b.stack@[0] == v);
        } else {
            let x0 = a.stack@[0];
            assert(b.stack@[0] == x0);
            assert(a.stack@.contains(x0));
            assert(x0 != v);
            assert(a.indices@[x0 as int] is Some);
            if j < a.stack.len() {
                let x = a.stack@[j];
                assert(b.stack@[j] == x);
                assert(a.stack@.contains(x));
                assert(x != v);
                assert(visit_order(a, a.stack@[0]) <= a.lowlink@[a.stack@[j] as int] <= visit_order(a, a.stack@[j]));
            } else {
                assert(b.stack@[j] == v);
            }
        }
    }
    assert(b.stack@.no_duplicates()) by {
        assert forall|i: int, j: int| 0 <= i < b.stack.len() && 0 <= j < b.stack.len() && i != j implies b.stack@[i]
            != b.stack@[j] by {
            if i < a.stack.len() && j < a.stack.len() {
                assert(a.stack@[i] == b.stack@[i] && a.stack@[j] == b.stack@[j]);
            } else if i < a.stack.len() {
                assert(a.stack@.contains(b.stack@[i]) && a.stack@[i] == b.stack@[i]);
            } else if j < a.stack.len() {
                assert(a.stack@.contains(b.stack@[j]) && a.stack@[j] == b.stack@[j]);
            }
        }
    }
    assert(flat(b.sccs@) + Seq::<usize>::empty() =~= done);
}

/// A node on the stack was visited no earlier than the bottom of the stack.
proof fn lemma_stack_order_at_least_bottom(t: TarjanState, n: nat, w: usize)
    requires
        tarjan_inv(t, n, Seq::empty()),
        (w as int) < n,
        t.onstack@[w as int],
    ensures
        t.stack.len() > 0,
        visit_order(t, t.stack@[0]) <= visit_order(t, w),
{
    assert(t.stack@.contains(w));
    let k = choose|k: int| 0 <= k < t.stack.len() && t.stack@[k] == w;
    if k > 0 {
        assert(visit_order(t, t.stack@[0]) < visit_order(t, t.stack@[k]));
    }
}

/// After the visit of a child `w` from `v` (which sits at stack position
/// `p` above the stack `t0` it found), the loop's frame still holds, and the
/// low link of `w` is not below the index of the bottom of the stack.
proof fn lemma_after_child(t0: TarjanState, t1: TarjanState, t2: TarjanState, n: nat, p: int, v: usize, w: usize)
    requires
        tarjan_inv(t1, n, Seq::empty()),
        tarjan_inv(t2, n, Seq::empty()),
        p == t0.stack.len(),
        t1.stack.len() > p,
        t1.stack@.take(p) == t0.stack@,
        t1.stack@[p] == v,
        t1.index > t0.index,
        t1.indices@[v as int] == Some(t0.index),
        forall|u: int| 0 <= u < n && (#[trigger] t0.indices@[u]) is Some ==> t1.indices@[u] == t0.indices@[u],
        forall|i: int| 0 <= i < p ==> t1.lowlink@[#[trigger] t0.stack@[i] as int] == t0.lowlink@[t0.stack@[i] as int],
        (w as int) < n,
        t1.indices@[w as int] is None,
        t2.index > t1.index,
        t2.stack.len() >= t1.stack.len(),
        t2.stack@.take(t1.stack.len() as int) == t1.stack@,
        forall|u: int| 0 <= u < n && (#[trigger] t1.indices@[u]) is Some ==> t2.indices@[u] == t1.indices@[u],
        forall|i: int| 0 <= i < t1.stack.len() ==> t2.lowlink@[#[trigger] t1.stack@[i] as int] == t1.lowlink@[t1.stack@[i] as int],
        t2.indices@[w as int] == Some(t1.index),
        t2.stack.len() == t1.stack.len() ==> t2.lowlink@[w as int] == t1.index,
        t2.stack.len() > t1.stack.len() ==> t2.stack@[t1.stack.len() as int] == w,
    ensures
        t2.index > t0.index,
        t2.stack.len() > p,
        t2.stack@.take(p) == t0.stack@,
        t2.stack@[p] == v,
        forall|u: int| 0 <= u < n && (#[trigger] t0.indices@[u]) is Some ==> t2.indices@[u] == t0.indices@[u],
        forall|i: int| 0 <= i < p ==> t2.lowlink@[#[trigger] t0.stack@[i] as int] == t0.lowlink@[t0.stack@[i] as int],
        t2.indices@[v as int] == Some(t0.index),
        visit_order(t2, t2.stack@[0]) <= t2.lowlink@[w as int],
{
    let m = t1.stack.len() as int;
    assert forall|i: int| 0 <= i < m implies #[trigger] t2.stack@[i] == t1.stack@[i] by {
        assert(t2.stack@.take(m)[i] == t1.stack@[i]);
    }
    assert(t2.stack@.take(p) =~= t0.stack@) by {
        assert forall|i: int| 0 <= i < p implies t2.stack@.take(p)[i] == t0.stack@[i] by {
            assert(t1.stack@.take(p)[i] == t1.stack@[i]);
        }
    }
    assert forall|u: int| 0 <= u < n && (#[trigger] t0.indices@[u]) is Some implies t2.indices@[u] == t0.indices@[u] by {
        assert(t1.indices@[u] == t0.indices@[u]);
    }
    assert forall|i: int| 0 <= i < p implies t2.lowlink@[#[trigger] t0.stack@[i] as int] == t0.lowlink@[t0.stack@[i] as int] by {
        assert(t1.stack@.take(p)[i] == t1.stack@[i]);
        assert(t0.stack@[i] == t1.stack@[i]);
        assert(t2.lowlink@[t1.stack@[i] as int] == t1.lowlink@[t1.stack@[i] as int]);
    }
    assert(t1.stack@.contains(v));
    assert(t1.indices@[v as int] is Some);
    let b = t1.stack@[0];
    assert(t2.stack@[0] == b);
    assert(t1.stack@.contains(b));
    assert(t1.indices@[b as int] is Some);
    assert(t1.indices@[b as int]->0 < t1.index);
    if t2.stack.len() > t1.stack.len() {
        assert(visit_order(t2, t2.stack@[0]) <= t2.lowlink@[t2.stack@[m] as int]);
    }
}

/// Popping the top of the stack into the pending component keeps the
/// invariant.
proof fn lemma_pop_into(a: TarjanState, b: TarjanState, n: nat, pending: Seq<usize>, w: usize)
    requires
        tarjan_inv(a, n, pending),
        a.stack.len() > 0,
        w == a.stack@.last(),
        b.stack@ == a.stack@.drop_last(),
        b.onstack@ == a.onstack@.update(w as int, false),
        b.indices@ == a.indices@,
        b.lowlink@ == a.lowlink@,
        b.index == a.index,
        b.sccs@ == a.sccs@,
    ensures
        tarjan_inv(b, n, pending.push(w)),
{
    let da = flat(a.sccs@) + pending;
    let db = flat(b.sccs@) + pending.push(w);
    assert(db =~= da.push(w));
    let last = a.stack.len() - 1;
    assert(a.stack@[last] == w);
    assert(a.stack@.contains(w));
    assert(!da.contains(w));
    assert(!b.stack@.contains(w)) by {
        if b.stack@.contains(w) {
            let k = choose|k: int| 0 <= k < b.stack.len() && b.stack@[k] == w;
            assert(a.stack@[k] == w);
        }
    }
    assert forall|x: usize| #[trigger] b.stack@.contains(x) implies !db.contains(x) by {
        let k = choose|k: int| 0 <= k < b.stack.len() && b.stack@[k] == x;
        assert(a.stack@[k] == x);
        assert(a.stack@.contains(x));
        assert(x != w);
        if db.contains(x) {
            let j = choose|j: int| 0 <= j < db.len() && db[j] == x;
            if j < da.len() {
                assert(da[j] == x);
            }
        }
    }
    assert forall|x: int| 0 <= x < n implies (#[trigger] b.onstack@[x] <==> b.stack@.contains(x as usize)) by {
        if x != w as int {
            assert(a.onstack@[x] <==> a.stack@.contains(x as usize));
            if a.stack@.contains(x as usize) {
                let k = choose|k: int| 0 <= k < a.stack.len() && a.stack@[k] == x as usize;
                assert(k != last);
                assert(b.stack@[k] == x as usize);
            }
            if b.stack@.contains(x as usize) {
                let k = choose|k: int| 0 <= k < b.stack.len() && b.stack@[k] == x as usize;
                assert(a.stack@[k] == x as usize);
            }
        }
    }
    assert forall|x: int| 0 <= x < n implies ((#[trigger] b.indices@[x]) is Some <==> (b.stack@.contains(x as usize)
        || db.contains(x as usize))) by {
        assert(a.indices@[x] is Some <==> (a.stack@.contains(x as usize) || da.contains(x as usize)));
        if a.stack@.contains(x as usize) && x != w as int {
            let k = choose|k: int| 0 <= k < a.stack.len() && a.stack@[k] == x as usize;
            assert(k != last);
            assert(b.stack@[k] == x as usize);
        }
        if b.stack@.contains(x as usize) {
            let k = choose|k: int| 0 <= k < b.stack.len() && b.stack@[k] == x as usize;
            assert(a.stack@[k] == x as usize);
        }
        if da.contains(x as usize) {
            let j = choose|j: int| 0 <= j < da.len() && da[j] == x as usize;
            assert(db[j] == x as usize);
        }
        if db.contains(x as usize) && x != w as int {
            let j = choose|j: int| 0 <= j < db.len() && db[j] == x as usize;
            assert(j < da.len());
            assert(da[j] == x as usize);
        }
        if x == w as int {
            assert(db[da.len() as int] == w);
        }
    }
    assert(db.no_duplicates()) by {
        assert forall|i: int, j: int| 0 <= i < db.len() && 0 <= j < db.len() && i != j implies db[i] != db[j] by {
            if i < da.len() && j < da.len() {
            } else if i < da.len() {
                assert(da.contains(db[i]));
            } else if j < da.len() {
                assert(da.contains(db[j]));
            }
        }
    }
    assert forall|i: int, j: int| 0 <= i < j < b.stack.len() implies visit_order(b, #[trigger] b.stack@[i]) < visit_order(
        b,
        #[trigger] b.stack@[j],
    ) by {
        assert(visit_order(a, a.stack@[i]) < visit_order(a, a.stack@[j]));
    }
    assert forall|j: int| 0 <= j < b.stack.len() implies visit_order(b, b.stack@[0]) <= #[trigger] b.lowlink@[b.stack@[j] as int]
        <= visit_order(b, b.stack@[j]) by {
        assert(visit_order(a, a.stack@[0]) <= a.lowlink@[a.stack@[j] as int] <= visit_order(a, a.stack@[j]));
    }
    assert forall|k: int| 0 <= k < db.len() implies #[trigger] db[k] < n by {
        if k < da.len() {
            assert(da[k] < n);
        }
    }
}

/// Recording the pending component keeps the invariant.
proof fn lemma_record(a: TarjanState, b: TarjanState, n: nat, c: Seq<usize>)
    requires
        tarjan_inv(a, n, c),
        c.len() > 0,
        b.sccs@.len() == a.sccs@.len() + 1,
        b.sccs@.drop_last() == a.sccs@,
        b.sccs@.last()@ == c,
        b.stack@ == a.stack@,
        b.onstack@ == a.onstack@,
        b.indices@ == a.indices@,
        b.lowlink@ == a.lowlink@,
        b.index == a.index,
    ensures
        tarjan_inv(b, n, Seq::empty()),
{
    assert(flat(b.sccs@) + Seq::<usize>::empty() =~= flat(a.sccs@) + c);
    assert forall|k: int| 0 <= k < b.sccs.len() implies #[trigger] b.sccs@[k].len() > 0 by {
        if k < a.sccs.len() {
            assert(b.sccs@[k] == b.sccs@.drop_last()[k]);
        }
    }
}

/// The edge leads from the listed node at position `x` (not the start
/// sentinel) to the listed node at position `y` (not the end sentinel).
spec fn edge_links(e: Edge, nv: Seq<Seq<char>>, x: usize, y: usize) -> bool {
    &&& e.source() == nv[x as int]
    &&& nv[x as int] != START@
    &&& e.dests().contains(nv[y as int])
    &&& nv[y as int] != END@
}

/// The position of a listed name, when names are distinct.
proof fn lemma_unique_position(nv: Seq<Seq<char>>, x: int, y: int)
    requires
        nv.no_duplicates(),
        0 <= x < nv.len(),
        0 <= y < nv.len(),
        nv[x] == nv[y],
    ensures
        x == y,
{
}

/// The nodes an edge leads to in the search: none from the start sentinel,
/// and never the end sentinel.
fn push_successors(adj: &mut Vec<Vec<usize>>, names: &Vec<String>, edge: &Edge)
    requires
        old(adj).len() == names.len(),
        adjacency_inv(old(adj)@),
    ensures
        final(adj).len() == names.len(),
        adjacency_inv(final(adj)@),
        views(names@).no_duplicates() ==> forall|x: usize, y: usize| x < names.len() && y < names.len() ==> (#[trigger] pedge(
            final(adj)@,
            x,
            y,
        ) <==> (pedge(old(adj)@, x, y) || edge_links(*edge, views(names@), x, y))),
{
    let ghost nv = views(names@);
    let ghost a0 = adj@;
    match edge {
        Edge::Fixed { from, to } => {
            if !same_text(from.as_str(), START) && !same_text(to.as_str(), END) {
                match (position_of(names, from.as_str()), position_of(names, to.as_str())) {
                    (Some(f), Some(d)) => {
                        push_successor(adj, f, d);
                        proof {
                            if nv.no_duplicates() {
                                assert forall|x: usize, y: usize| x < names.len() && y < names.len() implies (#[trigger] pedge(
                                    adj@,
                                    x,
                                    y,
                                ) <==> (pedge(a0, x, y) || edge_links(*edge, nv, x, y))) by {
                                    if edge_links(*edge, nv, x, y) {
                                        assert(nv[x as int] == from@);
                                        assert(seq![to@][0] == to@);
                                        assert(nv[y as int] == to@);
                                        lemma_unique_position(nv, x as int, f as int);
                                        lemma_unique_position(nv, y as int, d as int);
                                    }
                                    if x == f && y == d {
                                        assert(nv[f as int] == from@);
                                        assert(nv[d as int] == to@);
                                        assert(seq![to@][0] == to@);
                                    }
                                }
                            }
                        }
                    },
                    (None, _) => {
                        proof {
                            assert forall|x: usize, y: usize| x < names.len() && y < names.len() implies !edge_links(*edge, nv, x, y) by {
                                if edge_links(*edge, nv, x, y) {
                                    assert(nv.contains(from@));
                                }
                            }
                        }
                    },
                    (_, None) => {
                        proof {
                            assert forall|x: usize, y: usize| x < names.len() && y < names.len() implies !edge_links(*edge, nv, x, y) by {
                                if edge_links(*edge, nv, x, y) {
                                    assert(seq![to@].contains(nv[y as int]));
                                    assert(nv[y as int] == to@);
                                    assert(nv.contains(to@));
                                }
                            }
                        }
                    },
                }
            } else {
                proof {
                    assert forall|x: usize, y: usize| x < names.len() && y < names.len() implies !edge_links(*edge, nv, x, y) by {
                        if edge_links(*edge, nv, x, y) {
                            assert(seq![to@].contains(nv[y as int]));
                            assert(nv[y as int] == to@);
                        }
                    }
                }
            }
        },
        Edge::Conditional { from, path_map } => {
            if !same_text(from.as_str(), START) {
                match position_of(names, from.as_str()) {
                    Some(f) => {
                        let pairs = path_map.iter();
                        let ghost tv = path_map.target_views();
                        assert(tv.len() == pairs.len());
                        let mut j: usize = 0;
                        while j < pairs.len()
                            invariant
                                adj.len() == names.len(),
                                adjacency_inv(adj@),
                                f < names.len(),
                                nv == views(names@),
                                nv[f as int] == from@,
                                j <= pairs.len(),
                                tv == path_map.target_views(),
                                tv.len() == pairs.len(),
                                pairs@.map_values(|p: (String, String)| pair_view(p)) == path_map.view(),
                                nv.no_duplicates() ==> forall|x: usize, y: usize| x < names.len() && y < names.len() ==> (
                                #[trigger] pedge(adj@, x, y) <==> (pedge(a0, x, y) || (x == f && nv[y as int] != END@
                                    && tv.take(j as int).contains(nv[y as int])))),
                            decreases pairs.len() - j,
                        {
                            let ghost a1 = adj@;
                            let ghost t1s = tv.take(j + 1);
                            let ghost t0s = tv.take(j as int);
                            assert(tv[j as int] == pairs@[j as int].1@);
                            if !same_text(pairs[j].1.as_str(), END) {
                                match position_of(names, pairs[j].1.as_str()) {
                                    Some(d) => {
                                        push_successor(adj, f, d);
                                        proof {
                                            if nv.no_duplicates() {
                                                assert forall|x: usize, y: usize| x < names.len() && y < names.len() implies (
                                                #[trigger] pedge(adj@, x, y) <==> (pedge(a0, x, y) || (x == f && nv[y as int] != END@
                                                    && t1s.contains(nv[y as int])))) by {
                                                    assert(pedge(a1, x, y) <==> (pedge(a0, x, y) || (x == f && nv[y as int] != END@
                                                        && t0s.contains(nv[y as int]))));
                                                    if t1s.contains(nv[y as int]) {
                                                        let q = choose|q: int| 0 <= q < j + 1 && t1s[q] == nv[y as int];
                                                        if q < j {
                                                            assert(t0s[q] == nv[y as int]);
                                                        } else if x == f {
                                                            lemma_unique_position(nv, y as int, d as int);
                                                        }
                                                    }
                                                    if t0s.contains(nv[y as int]) {
                                                        let q = choose|q: int| 0 <= q < j && t0s[q] == nv[y as int];
                                                        assert(t1s[q] == nv[y as int]);
                                                    }
                                                    if x == f && y == d {
                                                        assert(t1s[j as int] == nv[y as int]);
                                                    }
                                                }
                                            }
                                        }
                                    },
                                    None => {
                                        proof {
                                            assert forall|y: usize| y < names.len() implies (
                                            #[trigger] t1s.contains(nv[y as int]) <==> t0s.contains(nv[y as int])) by {
                                                if t1s.contains(nv[y as int]) {
                                                    let q = choose|q: int| 0 <= q < j + 1 && t1s[q] == nv[y as int];
                                                    if q == j {
                                                        assert(nv.contains(nv[y as int]));
                                                    } else {
                                                        assert(t0s[q] == nv[y as int]);
                                                    }
                                                }
                                                if t0s.contains(nv[y as int]) {
                                                    let q = choose|q: int| 0 <= q < j && t0s[q] == nv[y as int];
                                                    assert(t1s[q] == nv[y as int]);
                                                }
                                            }
                                        }
                                    },
                                }
                            } else {
                                proof {
                                    assert forall|y: usize| y < names.len() && nv[y as int] != END@ implies (
                                    #[trigger] t1s.contains(nv[y as int]) <==> t0s.contains(nv[y as int])) by {
                                        if t1s.contains(nv[y as int]) {
                                            let q = choose|q: int| 0 <= q < j + 1 && t1s[q] == nv[y as int];
                                            if q < j {
                                                assert(t0s[q] == nv[y as int]);
                                            }
                                        }
                                        if t0s.contains(nv[y as int]) {
                                            let q = choose|q: int| 0 <= q < j && t0s[q] == nv[y as int];
                                            assert(t1s[q] == nv[y as int]);
                                        }
                                    }
                                }
                            }
                            j += 1;
                        }
                        proof {
                            assert(tv.take(pairs.len() as int) =~= tv);
                            if nv.no_duplicates() {
                                assert forall|x: usize, y: usize| x < names.len() && y < names.len() implies (#[trigger] pedge(
                                    adj@,
                                    x,
                                    y,
                                ) <==> (pedge(a0, x, y) || edge_links(*edge, nv, x, y))) by {
                                    if edge_links(*edge, nv, x, y) {
                                        lemma_unique_position(nv, x as int, f as int);
                                    }
                                }
                            }
                        }
                    },
                    None => {
                        proof {
                            assert forall|x: usize, y: usize| x < names.len() && y < names.len() implies !edge_links(*edge, nv, x, y) by {
                                if edge_links(*edge, nv, x, y) {
                                    assert(nv.contains(from@));
                                }
                            }
                        }
                    },
                }
            }
        },
    }
}

/// Appends `d` to the successors of `f`.
fn push_successor(adj: &mut Vec<Vec<usize>>, f: usize, d: usize)
    requires
        f < old(adj).len(),
        d < old(adj).len(),
        adjacency_inv(old(adj)@),
    ensures
        final(adj).len() == old(adj).len(),
        adjacency_inv(final(adj)@),
        forall|x: usize, y: usize| #[trigger] pedge(final(adj)@, x, y) <==> (pedge(old(adj)@, x, y) || (x == f && y == d)),
{
    let ghost before = adj@;
    let mut list = adj[f].clone();
    assert(list@ =~= before[f as int]@);
    list.push(d);
    adj.set(f, list);
    proof {
        assert forall|i: int, j: int| 0 <= i < adj.len() && 0 <= j < adj@[i].len() implies #[trigger] adj@[i]@[j] < adj.len() by {
            if i != f as int {
                assert(adj@[i] == before[i]);
            } else if j < before[i].len() {
                assert(adj@[i]@[j] == before[i]@[j]);
            }
        }
        assert forall|x: usize, y: usize| #[trigger] pedge(adj@, x, y) <==> (pedge(before, x, y) || (x == f && y == d)) by {
            if (x as int) < adj.len() && x != f {
                assert(adj@[x as int] == before[x as int]);
            }
            if x == f {
                assert(adj@[f as int]@ == before[f as int]@.push(d));
                if before[f as int]@.contains(y) {
                    let q = choose|q: int| 0 <= q < before[f as int]@.len() && before[f as int]@[q] == y;
                    assert(adj@[f as int]@[q] == y);
                }
                if adj@[f as int]@.contains(y) {
                    let q = choose|q: int| 0 <= q < adj@[f as int]@.len() && adj@[f as int]@[q] == y;
                    if q < before[f as int]@.len() {
                        assert(before[f as int]@[q] == y);
                    }
                }
                assert(adj@[f as int]@[before[f as int]@.len() as int] == d);
            }
        }
    }
}

/// The listed names that a walk of names passes, when every edge leaving a
/// node leads to a listed node or the end.
proof fn lemma_walk_listed(nv: Seq<Seq<char>>, edges: Seq<Edge>, q: Seq<Seq<char>>, i: int)
    requires
        dests_listed(nv, edges),
        is_walk(edges, q),
        nv.contains(q[0]),
        0 <= i < q.len(),
    ensures
        nv.contains(q[i]),
    decreases i,
{
    if i > 0 {
        lemma_walk_listed(nv, edges, q, i - 1);
        let j = i - 1;
        assert(step(edges, q[j], q[j + 1]));
        let e = choose|e: int| 0 <= e < edges.len() && (#[trigger] edges[e]).source() == q[j] && edges[e].dests().contains(
            q[j + 1],
        );
        assert(edges[e].dests().contains(q[i]));
    }
}

/// With distinct names whose edges lead to listed nodes or the end, the
/// successor lists reach from one position to another exactly when the
/// names reach each other along the edges.
proof fn lemma_preach_reaches(nv: Seq<Seq<char>>, edges: Seq<Edge>, adj: Seq<Vec<usize>>, x: usize, y: usize)
    requires
        nv.no_duplicates(),
        dests_listed(nv, edges),
        adj.len() == nv.len(),
        nv.len() <= usize::MAX,
        adjacency_inv(adj),
        forall|a: usize, b: usize| a < nv.len() && b < nv.len() ==> (#[trigger] pedge(adj, a, b) <==> step(
            edges,
            nv[a as int],
            nv[b as int],
        )),
        x < nv.len(),
        y < nv.len(),
    ensures
        preach(adj, x, y) <==> reaches(edges, nv[x as int], nv[y as int]),
{
    if preach(adj, x, y) {
        let p = choose|p: Seq<usize>| #[trigger] is_pwalk(adj, p) && p[0] == x && p.last() == y;
        let q = Seq::new(p.len(), |i: int| nv[p[i] as int]);
        assert forall|i: int| 0 <= i < q.len() - 1 implies #[trigger] step(edges, q[i], q[i + 1]) by {
            assert(pedge(adj, p[i], p[i + 1]));
            let k = choose|k: int| 0 <= k < adj[p[i] as int].len() && adj[p[i] as int]@[k] == p[i + 1];
            assert(adj[p[i] as int]@[k] < adj.len());
        }
        assert(is_walk(edges, q));
    }
    if reaches(edges, nv[x as int], nv[y as int]) {
        let q = choose|q: Seq<Seq<char>>| #[trigger] is_walk(edges, q) && q[0] == nv[x as int] && q.last() == nv[y as int];
        assert(nv.contains(q[0]));
        let p = Seq::new(q.len(), |i: int| (choose|k: int| 0 <= k < nv.len() && nv[k] == q[i]) as usize);
        assert forall|i: int| 0 <= i < q.len() implies #[trigger] p[i] < nv.len() && nv[p[i] as int] == q[i] by {
            lemma_walk_listed(nv, edges, q, i);
            let k = choose|k: int| 0 <= k < nv.len() && nv[k] == q[i];
            assert(p[i] == k as usize);
        }
        assert forall|i: int| 0 <= i < p.len() - 1 implies #[trigger] pedge(adj, p[i], p[i + 1]) by {
            assert(step(edges, q[i], q[i + 1]));
            assert(p[i] < nv.len() && nv[p[i] as int] == q[i]);
            assert(p[i + 1] < nv.len() && nv[p[i + 1] as int] == q[i + 1]);
        }
        assert(is_pwalk(adj, p));
        assert(p[0] == x) by {
            assert(nv[p[0] as int] == q[0]);
        }
        assert(p.last() == y) by {
            assert(nv[p[p.len() - 1] as int] == q[q.len() - 1]);
        }
    }
}

/// A name is in the component of `u` exactly when it is listed and `u`
/// and it reach each other.
proof fn lemma_component_contains(names: Seq<Seq<char>>, edges: Seq<Edge>, u: Seq<char>, x: Seq<char>)
    ensures
        component(names, edges, u).contains(x) <==> (names.contains(x) && mutual(edges, u, x)),
    decreases names.len(),
{
    if names.len() > 0 {
        let rest = names.drop_last();
        lemma_component_contains(rest, edges, u, x);
        let c = component(names, edges, u);
        let cr = component(rest, edges, u);
        if c.contains(x) {
            let i = choose|i: int| 0 <= i < c.len() && c[i] == x;
            if i < cr.len() {
                assert(cr[i] == x);
                let j = choose|j: int| 0 <= j < rest.len() && rest[j] == x;
                assert(names[j] == x);
            } else {
                assert(names[names.len() - 1] == x);
            }
        }
        if names.contains(x) && mutual(edges, u, x) {
            let j = choose|j: int| 0 <= j < names.len() && names[j] == x;
            if j < names.len() - 1 {
                assert(rest[j] == x);
                let i = choose|i: int| 0 <= i < cr.len() && cr[i] == x;
                assert(c[i] == x);
            } else {
                assert(c[cr.len() as int] == x);
            }
        }
    }
}

/// The successor lists of the listed nodes, by position: with distinct
/// names, `y` follows `x` exactly when an edge leads from the node at `x`
/// (not the start sentinel) to the node at `y` (not the end sentinel).
fn successor_lists(names: &Vec<String>, edges: &Vec<Edge>) -> (adj: Vec<Vec<usize>>)
    ensures
        adj.len() == names.len(),
        adjacency_inv(adj@),
        views(names@).no_duplicates() ==> forall|x: usize, y: usize| x < names.len() && y < names.len() ==> (
        #[trigger] pedge(adj@, x, y) <==> step(edges@, views(names@)[x as int], views(names@)[y as int])),
{
    let ghost nv = views(names@);
    let n = names.len();
    let mut adj: Vec<Vec<usize>> = Vec::new();
    let mut i: usize = 0;
    while i < n
        invariant
            n == names.len(),
            i <= n,
            adj.len() == i,
            forall|k: int| 0 <= k < i ==> (#[trigger] adj@[k]).len() == 0,
        decreases n - i,
    {
        adj.push(Vec::new());
        i += 1;
    }
    let mut e: usize = 0;
    while e < edges.len()
        invariant
            n == names.len(),
            nv == views(names@),
            adj.len() == n,
            adjacency_inv(adj@),
            e <= edges.len(),
            nv.no_duplicates() ==> forall|x: usize, y: usize| x < n && y < n ==> (#[trigger] pedge(adj@, x, y) <==> exists|
                i: int,
            | 0 <= i < e && edge_links(#[trigger] edges@[i], nv, x, y)),
        decreases edges.len() - e,
    {
        let ghost a0 = adj@;
        push_successors(&mut adj, names, &edges[e]);
        proof {
            if nv.no_duplicates() {
                assert forall|x: usize, y: usize| x < n && y < n implies (#[trigger] pedge(adj@, x, y) <==> exists|i: int|
                    0 <= i < e + 1 && edge_links(#[trigger] edges@[i], nv, x, y)) by {
                    assert(pedge(a0, x, y) <==> exists|i: int| 0 <= i < e && edge_links(#[trigger] edges@[i], nv, x, y));
                    if edge_links(edges@[e as int], nv, x, y) {
                    }
                    if exists|i: int| 0 <= i < e + 1 && edge_links(#[trigger] edges@[i], nv, x, y) {
                        let i = choose|i: int| 0 <= i < e + 1 && edge_links(#[trigger] edges@[i], nv, x, y);
                        if i < e {
                        }
                    }
                }
            }
        }
        e += 1;
    }
    proof {
        if nv.no_duplicates() {
            assert forall|x: usize, y: usize| x < n && y < n implies (#[trigger] pedge(adj@, x, y) <==> step(
                edges@,
                nv[x as int],
                nv[y as int],
            )) by {
                if pedge(adj@, x, y) {
                    let i = choose|i: int| 0 <= i < edges.len() && edge_links(#[trigger] edges@[i], nv, x, y);
                    assert(edges@[i].source() == nv[x as int] && edges@[i].dests().contains(nv[y as int]));
                }
                if step(edges@, nv[x as int], nv[y as int]) {
                    let i = choose|i: int| 0 <= i < edges.len() && (#[trigger] edges@[i]).source() == nv[x as int]
                        && edges@[i].dests().contains(nv[y as int]);
                    assert(edge_links(edges@[i], nv, x, y));
                }
            }
        }
    }
    adj
}

/// The strongly connected components of the graph given by successor
/// lists, as Tarjan's algorithm finds them: roots tried in position order,
/// successors in list order, each component in the order its nodes leave
/// the stack. Every position lands in exactly one component; the members
/// of a component reach each other, and every node that a member reaches
/// and is reached from is in it.
fn tarjan_sccs(adj: &Vec<Vec<usize>>) -> (sccs: Vec<Vec<usize>>)
    requires
        adjacency_inv(adj@),
    ensures
        flat(sccs@).len() == adj.len(),
        flat(sccs@).no_duplicates(),
        forall|k: int| 0 <= k < flat(sccs@).len() ==> #[trigger] flat(sccs@)[k] < adj.len(),
        forall|p: usize| p < adj.len() ==> #[trigger] flat(sccs@).contains(p),
        forall|k: int| 0 <= k < sccs.len() ==> #[trigger] sccs@[k].len() > 0,
        forall|k: int, j: int| 0 <= k < sccs.len() && 0 <= j < sccs@[k].len() ==> #[trigger] sccs@[k]@[j] < adj.len(),
        forall|k: int, a: int, b: int| 0 <= k < sccs.len() && 0 <= a < sccs@[k].len() && 0 <= b < sccs@[k].len()
            ==> preach(adj@, #[trigger] sccs@[k]@[a], #[trigger] sccs@[k]@[b]),
        forall|k: int, a: int, y: usize| 0 <= k < sccs.len() && 0 <= a < sccs@[k].len() && #[trigger] preach(
            adj@,
            sccs@[k]@[a],
            y,
        ) && preach(adj@, y, sccs@[k]@[a]) ==> sccs@[k]@.contains(y),
{
    let n = adj.len();
    let mut indices: Vec<Option<usize>> = Vec::new();
    let mut lowlink: Vec<usize> = Vec::new();
    let mut onstack: Vec<bool> = Vec::new();
    let mut i: usize = 0;
    while i < n
        invariant
            n == adj.len(),
            i <= n,
            indices.len() == i,
            lowlink.len() == i,
            onstack.len() == i,
            forall|k: int| 0 <= k < i ==> #[trigger] indices@[k] is None,
            forall|k: int| 0 <= k < i ==> !#[trigger] onstack@[k],
        decreases n - i,
    {
        indices.push(None);
        lowlink.push(0);
        onstack.push(false);
        i += 1;
    }
    proof {
        lemma_count_none(indices@);
    }
    let mut t = TarjanState {
        index: 0,
        stack: Vec::new(),
        indices,
        lowlink,
        onstack,
        sccs: Vec::new(),
        lowwit: Ghost(Seq::new(n as nat, |i: int| i as usize)),
    };
    proof {
        assert(flat(t.sccs@) + Seq::<usize>::empty() =~= Seq::<usize>::empty());
    }
    let mut r: usize = 0;
    while r < n
        invariant
            n == adj.len(),
            adjacency_inv(adj@),
            tarjan_inv(t, n as nat, Seq::empty()),
            reach_inv(t, adj@, Seq::empty()),
            t.stack.len() == 0,
            r <= n,
            forall|k: int| 0 <= k < r ==> #[trigger] t.indices@[k] is Some,
        decreases n - r,
    {
        if t.indices[r].is_none() {
            let ghost before = t;
            tarjan_visit(&mut t, r, adj, Ghost(Seq::empty()));
            proof {
                assert forall|k: int| 0 <= k < r implies #[trigger] t.indices@[k] is Some by {
                    assert(before.indices@[k] is Some);
                }
                if t.stack.len() > 0 {
                    assert(visit_order(t, t.stack@[0]) <= t.lowlink@[t.stack@[0] as int]);
                }
            }
        }
        r += 1;
    }
    proof {
        lemma_count_all(t.indices@);
        let done = flat(t.sccs@) + Seq::<usize>::empty();
        assert(done =~= flat(t.sccs@));
        assert forall|p: usize| p < n implies #[trigger] flat(t.sccs@).contains(p) by {
            assert(t.indices@[p as int] is Some);
            assert(!t.stack@.contains(p));
        }
        assert forall|k: int, j: int| 0 <= k < t.sccs.len() && 0 <= j < t.sccs@[k].len() implies #[trigger] t.sccs@[k]@[j]
            < n by {
            lemma_in_flat(t.sccs@, k, j);
            let a = choose|a: int| 0 <= a < flat(t.sccs@).len() && flat(t.sccs@)[a] == t.sccs@[k]@[j];
            assert(done[a] < n);
        }
    }
    t.sccs
}

/// Each member of a component is among the components' nodes.
proof fn lemma_in_flat(s: Seq<Vec<usize>>, k: int, j: int)
    requires
        0 <= k < s.len(),
        0 <= j < s[k].len(),
    ensures
        flat(s).contains(s[k]@[j]),
    decreases s.len(),
{
    let f = flat(s);
    let r = flat(s.drop_last());
    if k == s.len() - 1 {
        assert(f[r.len() + j] == s.last()@[j]);
    } else {
        lemma_in_flat(s.drop_last(), k, j);
        let a = choose|a: int| 0 <= a < r.len() && r[a] == s[k]@[j];
        assert(f[a] == r[a]);
    }
}

/// All node names of the groups, one after another.
pub open spec fn group_names(s: Seq<Vec<String>>) -> Seq<Seq<char>>
    decreases s.len(),
{
    if s.len() == 0 {
        Seq::empty()
    } else {
        group_names(s.drop_last()) + views(s.last()@)
    }
}

/// A component taken from a list of components without repeats has no
/// repeats.
proof fn lemma_flat_part_distinct(s: Seq<Vec<usize>>, k: int)
    requires
        flat(s).no_duplicates(),
        0 <= k < s.len(),
    ensures
        s[k]@.no_duplicates(),
    decreases s.len(),
{
    let a = flat(s.drop_last());
    let b = s.last()@;
    assert(flat(s) == a + b);
    if k == s.len() - 1 {
        assert forall|i: int, j: int| 0 <= i < b.len() && 0 <= j < b.len() && i != j implies b[i] != b[j] by {
            assert(flat(s)[a.len() + i] == b[i]);
            assert(flat(s)[a.len() + j] == b[j]);
        }
    } else {
        assert forall|i: int, j: int| 0 <= i < a.len() && 0 <= j < a.len() && i != j implies a[i] != a[j] by {
            assert(flat(s)[i] == a[i]);
            assert(flat(s)[j] == a[j]);
        }
        lemma_flat_part_distinct(s.drop_last(), k);
        assert(s.drop_last()[k] == s[k]);
    }
}

/// The names at the given positions.
spec fn at_positions(names: Seq<Seq<char>>, ps: Seq<usize>) -> Seq<Seq<char>> {
    Seq::new(ps.len(), |i: int| names[ps[i] as int])
}

/// Find all strongly connected components of the graph with Tarjan's
/// algorithm: each component is a group of node names, the groups in the
/// order the search closes them. Every listed node lands in exactly one
/// group; when the names are distinct and every edge leads to a listed node
/// or the end, each group holds exactly the members of the component of
/// its first node.
pub fn find_sccs(names: &Vec<String>, edges: &Vec<Edge>) -> (sccs: Vec<Vec<String>>)
    ensures
        forall|k: int| 0 <= k < sccs.len() ==> #[trigger] sccs@[k].len() > 0,
        group_names(sccs@).len() == names.len(),
        forall|x: Seq<char>| #[trigger] group_names(sccs@).contains(x) <==> views(names@).contains(x),
        views(names@).no_duplicates() ==> group_names(sccs@).no_duplicates(),
        views(names@).no_duplicates() ==> forall|k: int| 0 <= k < sccs.len() ==> views(#[trigger] sccs@[k]@).no_duplicates(),
        views(names@).no_duplicates() && dests_listed(views(names@), edges@) ==> forall|k: int, x: Seq<char>|
            0 <= k < sccs.len() ==> (views(sccs@[k]@).contains(x) <==> #[trigger] component(
                views(names@),
                edges@,
                sccs@[k]@[0]@,
            ).contains(x)),
{
    let ghost nv = views(names@);
    let adj = successor_lists(names, edges);
    let pos = tarjan_sccs(&adj);
    let ghost pf = flat(pos@);
    let mut out: Vec<Vec<String>> = Vec::new();
    let mut k: usize = 0;
    while k < pos.len()
        invariant
            nv == views(names@),
            k <= pos.len(),
            out.len() == k,
            forall|a: int| 0 <= a < flat(pos@).len() ==> #[trigger] flat(pos@)[a] < names.len(),
            forall|a: int| 0 <= a < pos.len() ==> #[trigger] pos@[a].len() > 0,
            forall|a: int| 0 <= a < k ==> #[trigger] out@[a].len() > 0,
            forall|a: int| 0 <= a < k ==> views(#[trigger] out@[a]@) == at_positions(nv, pos@[a]@),
            group_names(out@) == at_positions(nv, flat(pos@.take(k as int))),
            forall|a: int, b: int| 0 <= a < pos.len() && 0 <= b < pos@[a].len() ==> #[trigger] pos@[a]@[b] < names.len(),
        decreases pos.len() - k,
    {
        let group = &pos[k];
        let mut g: Vec<String> = Vec::new();
        let mut j: usize = 0;
        while j < group.len()
            invariant
                nv == views(names@),
                *group == pos@[k as int],
                k < pos.len(),
                j <= group.len(),
                views(g@) == at_positions(nv, group@.take(j as int)),
                forall|a: int, b: int| 0 <= a < pos.len() && 0 <= b < pos@[a].len() ==> #[trigger] pos@[a]@[b] < names.len(),
            decreases group.len() - j,
        {
            let p = group[j];
            assert(p < names.len());
            let ghost before = views(g@);
            g.push(names[p].clone());
            assert(views(g@) =~= before.push(nv[p as int]));
            assert(views(g@) =~= at_positions(nv, group@.take(j + 1)));
            j += 1;
        }
        assert(group@.take(group.len() as int) =~= group@);
        let ghost before = out@;
        out.push(g);
        proof {
            assert(out@.drop_last() =~= before);
            assert(pos@.take(k + 1).drop_last() =~= pos@.take(k as int));
            assert(pos@.take(k + 1).last() == pos@[k as int]);
            assert(group_names(out@) =~= at_positions(nv, flat(pos@.take(k + 1))));
            assert forall|a: int| 0 <= a <= k implies #[trigger] out@[a].len() > 0 by {
                if a < k {
                    assert(out@[a] == before[a]);
                }
            }
            assert forall|a: int| 0 <= a <= k implies views(#[trigger] out@[a]@) == at_positions(nv, pos@[a]@) by {
                if a < k {
                    assert(out@[a] == before[a]);
                }
            }
        }
        k += 1;
    }
    proof {
        assert(pos@.take(pos.len() as int) =~= pos@);
        let gn = group_names(out@);
        assert(gn == at_positions(nv, pf));
        assert forall|x: Seq<char>| #[trigger] gn.contains(x) <==> nv.contains(x) by {
            if gn.contains(x) {
                let a = choose|a: int| 0 <= a < gn.len() && gn[a] == x;
                assert(pf[a] < names.len());
                assert(nv[pf[a] as int] == x);
            }
            if nv.contains(x) {
                let q = choose|q: int| 0 <= q < nv.len() && nv[q] == x;
                assert(pf.contains(q as usize));
                let a = choose|a: int| 0 <= a < pf.len() && pf[a] == q as usize;
                assert(gn[a] == x);
            }
        }
        if nv.no_duplicates() {
            assert forall|a: int, b: int| 0 <= a < gn.len() && 0 <= b < gn.len() && a != b implies gn[a] != gn[b] by {
                assert(pf[a] != pf[b]);
                assert(pf[a] < names.len() && pf[b] < names.len());
            }
        }
        if nv.no_duplicates() {
            assert forall|k: int| 0 <= k < out.len() implies views(#[trigger] out@[k]@).no_duplicates() by {
                let g = pos@[k]@;
                lemma_flat_part_distinct(pos@, k);
                assert(views(out@[k]@) == at_positions(nv, g));
                assert forall|a: int, b: int| 0 <= a < g.len() && 0 <= b < g.len() && a != b implies at_positions(nv, g)[a]
                    != at_positions(nv, g)[b] by {
                    assert(g[a] != g[b]);
                    assert(g[a] < names.len() && g[b] < names.len());
                }
            }
        }
        if nv.no_duplicates() && dests_listed(nv, edges@) {
            assert forall|k: int, x: Seq<char>| 0 <= k < out.len() implies (views(out@[k]@).contains(x) <==> #[trigger] component(
                nv,
                edges@,
                out@[k]@[0]@,
            ).contains(x)) by {
                let g = pos@[k]@;
                assert(views(out@[k]@) == at_positions(nv, g));
                assert(out@[k].len() > 0);
                assert(out@[k]@[0]@ == views(out@[k]@)[0]);
                let u = nv[g[0] as int];
                assert(out@[k]@[0]@ == u);
                lemma_component_contains(nv, edges@, u, x);
                if views(out@[k]@).contains(x) {
                    let i = choose|i: int| 0 <= i < g.len() && at_positions(nv, g)[i] == x;
                    assert(x == nv[g[i] as int]);
                    assert(preach(adj@, g[0], g[i]));
                    assert(preach(adj@, g[i], g[0]));
                    lemma_preach_reaches(nv, edges@, adj@, g[0], g[i]);
                    lemma_preach_reaches(nv, edges@, adj@, g[i], g[0]);
                    assert(nv.contains(x));
                }
                if component(nv, edges@, u).contains(x) {
                    let y = choose|y: int| 0 <= y < nv.len() && nv[y] == x;
                    lemma_preach_reaches(nv, edges@, adj@, g[0], y as usize);
                    lemma_preach_reaches(nv, edges@, adj@, y as usize, g[0]);
                    assert(preach(adj@, g[0], y as usize));
                    assert(g.contains(y as usize));
                    let i = choose|i: int| 0 <= i < g.len() && g[i] == y as usize;
                    assert(at_positions(nv, g)[i] == x);
                }
            }
        }
    }
    out
}

/// No node of an unvisited list is counted.
proof fn lemma_count_none(s: Seq<Option<usize>>)
    requires
        forall|k: int| 0 <= k < s.len() ==> #[trigger] s[k] is None,
    ensures
        count_visited(s) == 0,
    decreases s.len(),
{
    if s.len() > 0 {
        lemma_count_none(s.drop_last());
    }
}

/// A reported cycle: a listed node whose component is trapped, and the
/// nodes of that component, each once, in some order.
pub open spec fn reported_loop(names: Seq<Seq<char>>, edges: Seq<Edge>, c: Seq<Seq<char>>) -> bool {
    &&& c.len() > 0
    &&& names.contains(c[0])
    &&& trapped(names, edges, c[0])
    &&& c.len() == component(names, edges, c[0]).len()
    &&& c.to_set() == component(names, edges, c[0]).to_set()
}


/// A name in the groups is in one of them.
proof fn lemma_in_some_group(s: Seq<Vec<String>>, x: Seq<char>)
    requires
        group_names(s).contains(x),
    ensures
        exists|k: int| 0 <= k < s.len() && views(#[trigger] s[k]@).contains(x),
    decreases s.len(),
{
    let a = group_names(s.drop_last());
    let b = views(s.last()@);
    assert(group_names(s) == a + b);
    let i = choose|i: int| 0 <= i < (a + b).len() && (a + b)[i] == x;
    if i < a.len() {
        assert(a[i] == x);
        lemma_in_some_group(s.drop_last(), x);
        let k = choose|k: int| 0 <= k < s.drop_last().len() && views(#[trigger] s.drop_last()[k]@).contains(x);
        assert(s.drop_last()[k] == s[k]);
    } else {
        assert(b[i - a.len()] == x);
        assert(views(s[s.len() - 1]@).contains(x));
    }
}

/// The component of a node in a list without repeats has no repeats.
proof fn lemma_component_distinct(names: Seq<Seq<char>>, edges: Seq<Edge>, u: Seq<char>)
    requires
        names.no_duplicates(),
    ensures
        component(names, edges, u).no_duplicates(),
    decreases names.len(),
{
    if names.len() > 0 {
        let rest = names.drop_last();
        assert forall|i: int, j: int| 0 <= i < rest.len() && 0 <= j < rest.len() && i != j implies rest[i] != rest[j] by {
            assert(names[i] == rest[i] && names[j] == rest[j]);
        }
        lemma_component_distinct(rest, edges, u);
        let cr = component(rest, edges, u);
        if mutual(edges, u, names.last()) {
            lemma_component_contains(rest, edges, u, names.last());
            assert(!rest.contains(names.last())) by {
                if rest.contains(names.last()) {
                    let j = choose|j: int| 0 <= j < rest.len() && rest[j] == names.last();
                    assert(names[j] == names[names.len() - 1]);
                }
            }
            assert(!cr.contains(names.last()));
            let c = cr.push(names.last());
            assert forall|i: int, j: int| 0 <= i < c.len() && 0 <= j < c.len() && i != j implies c[i] != c[j] by {
                if i < cr.len() && j == cr.len() as int {
                    assert(cr.contains(cr[i]));
                }
                if j < cr.len() && i == cr.len() as int {
                    assert(cr.contains(cr[j]));
                }
            }
        }
    }
}

/// A group of nodes holding exactly the component of its first node, with
/// more than one node and none with a conditional exit to the end, is a
/// reported cycle.
proof fn lemma_group_reported(nv: Seq<Seq<char>>, edges: Seq<Edge>, g: Seq<Seq<char>>)
    requires
        nv.no_duplicates(),
        g.len() > 1,
        g.no_duplicates(),
        forall|x: Seq<char>| g.contains(x) <==> #[trigger] component(nv, edges, g[0]).contains(x),
        forall|i: int| 0 <= i < g.len() ==> !exits_to_end(edges, #[trigger] g[i]),
    ensures
        reported_loop(nv, edges, g),
{
    let c = component(nv, edges, g[0]);
    assert(g.contains(g[0]));
    lemma_component_contains(nv, edges, g[0], g[0]);
    assert(g.to_set() =~= c.to_set()) by {
        assert forall|x: Seq<char>| g.to_set().contains(x) <==> c.to_set().contains(x) by {
            assert(g.contains(x) <==> c.contains(x));
        }
    }
    lemma_component_distinct(nv, edges, g[0]);
    g.unique_seq_to_set();
    c.unique_seq_to_set();
    assert forall|k: int| 0 <= k < c.len() implies !exits_to_end(edges, #[trigger] c[k]) by {
        assert(c.contains(c[k]));
        assert(g.contains(c[k]));
        let i = choose|i: int| 0 <= i < g.len() && g[i] == c[k];
        assert(!exits_to_end(edges, g[i]));
    }
}

/// When every group holds exactly the component of its first node and
/// every group of more than one node has a node with a conditional exit to
/// the end, no listed node is trapped.
proof fn lemma_no_trapped(nv: Seq<Seq<char>>, edges: Seq<Edge>, s: Seq<Vec<String>>)
    requires
        nv.no_duplicates(),
        forall|x: Seq<char>| #[trigger] group_names(s).contains(x) <==> nv.contains(x),
        forall|k: int| 0 <= k < s.len() ==> #[trigger] s[k].len() > 0,
        forall|k: int| 0 <= k < s.len() ==> views(#[trigger] s[k]@).no_duplicates(),
        forall|k: int, x: Seq<char>| 0 <= k < s.len() ==> (views(s[k]@).contains(x) <==> #[trigger] component(
            nv,
            edges,
            s[k]@[0]@,
        ).contains(x)),
        forall|k: int| 0 <= k < s.len() ==> #[trigger] s[k].len() <= 1 || exists|i: int| 0 <= i < s[k].len()
            && exits_to_end(edges, s[k]@[i]@),
    ensures
        first_trapped(nv, nv, edges) is None,
{
    lemma_first_trapped_none(nv, nv, edges);
    assert forall|k: int| 0 <= k < nv.len() implies !trapped(nv, edges, #[trigger] nv[k]) by {
        let u = nv[k];
        if trapped(nv, edges, u) {
            assert(group_names(s).contains(u));
            lemma_in_some_group(s, u);
            let j = choose|j: int| 0 <= j < s.len() && views(#[trigger] s[j]@).contains(u);
            let g = views(s[j]@);
            let g0 = s[j]@[0]@;
            assert(g[0] == g0);
            assert(component(nv, edges, g0).contains(u));
            lemma_component_contains(nv, edges, g0, u);
            lemma_component_of_member(nv, edges, g0, u);
            let c = component(nv, edges, u);
            assert(c == component(nv, edges, g0));
            assert(g.to_set() =~= c.to_set()) by {
                assert forall|x: Seq<char>| g.to_set().contains(x) <==> c.to_set().contains(x) by {
                    assert(g.contains(x) <==> component(nv, edges, s[j]@[0]@).contains(x));
                }
            }
            lemma_component_distinct(nv, edges, u);
            g.unique_seq_to_set();
            c.unique_seq_to_set();
            assert(s[j].len() > 1);
            let i = choose|i: int| 0 <= i < s[j].len() && exits_to_end(edges, s[j]@[i]@);
            assert(g[i] == s[j]@[i]@);
            assert(g.contains(g[i]));
            assert(c.contains(g[i]));
            let q = choose|q: int| 0 <= q < c.len() && c[q] == g[i];
            assert(!exits_to_end(edges, c[q]));
        }
    }
}

/// A reported cycle's first node is trapped, so some listed node is.
proof fn lemma_reported_loop_trapped(names: Seq<Seq<char>>, edges: Seq<Edge>, c: Seq<Seq<char>>)
    requires
        reported_loop(names, edges, c),
    ensures
        first_trapped(names, names, edges) is Some,
{
    lemma_first_trapped_none(names, names, edges);
    let k = choose|k: int| 0 <= k < names.len() && names[k] == c[0];
    assert(trapped(names, edges, names[k]));
}

/// Fails when some cycle has no conditional exit to the end: the
/// components are taken in the order Tarjan's algorithm closes them, and
/// the first one with several nodes and no node with a conditional edge to
/// the end is reported, its nodes in the order they left the stack.
fn check_infinite_loops(names: &Vec<String>, edges: &Vec<Edge>) -> (r: Result<(), TopologyError>)
    requires
        dests_listed(views(names@), edges@),
        views(names@).no_duplicates(),
    ensures
        r is Ok <==> first_trapped(views(names@), views(names@), edges@) is None,
        r matches Err(e) ==> (e matches TopologyError::PotentialInfiniteLoop { cycle } && reported_loop(
            views(names@),
            edges@,
            views(cycle@),
        )),
{
    let ghost nv = views(names@);
    let sccs = find_sccs(names, edges);
    let mut s: usize = 0;
    while s < sccs.len()
        invariant
            nv == views(names@),
            nv.no_duplicates(),
            s <= sccs.len(),
            forall|k: int| 0 <= k < sccs.len() ==> #[trigger] sccs@[k].len() > 0,
            forall|k: int| 0 <= k < sccs.len() ==> views(#[trigger] sccs@[k]@).no_duplicates(),
            forall|k: int, x: Seq<char>| 0 <= k < sccs.len() ==> (views(sccs@[k]@).contains(x) <==> #[trigger] component(
                nv,
                edges@,
                sccs@[k]@[0]@,
            ).contains(x)),
            forall|k: int| 0 <= k < s ==> #[trigger] sccs@[k].len() <= 1 || exists|i: int| 0 <= i < sccs@[k].len()
                && exits_to_end(edges@, sccs@[k]@[i]@),
        decreases sccs.len() - s,
    {
        let scc = &sccs[s];
        if scc.len() > 1 {
            let mut has_exit = false;
            let mut q: usize = 0;
            while q < scc.len()
                invariant
                    *scc == sccs@[s as int],
                    q <= scc.len(),
                    has_exit == exists|i: int| 0 <= i < q && exits_to_end(edges@, #[trigger] scc@[i]@),
                decreases scc.len() - q,
            {
                let e = exits_to_end_exec(edges, scc[q].as_str());
                has_exit = has_exit || e;
                q += 1;
            }
            if !has_exit {
                let cycle = crate::graph::builder::copy_strings(scc);
                proof {
                    let g = views(cycle@);
                    assert(g == views(sccs@[s as int]@));
                    assert(g[0] == sccs@[s as int]@[0]@);
                    assert forall|i: int| 0 <= i < g.len() implies !exits_to_end(edges@, #[trigger] g[i]) by {
                        assert(g[i] == scc@[i]@);
                    }
                    lemma_group_reported(nv, edges@, g);
                    lemma_reported_loop_trapped(nv, edges@, g);
                }
                return Err(TopologyError::PotentialInfiniteLoop { cycle });
            }
        }
        s += 1;
    }
    proof {
        lemma_no_trapped(nv, edges@, sccs@);
    }
    Ok(())
}


/// Reachability is transitive.
proof fn lemma_reaches_trans(edges: Seq<Edge>, u: Seq<char>, v: Seq<char>, w: Seq<char>)
    requires
        reaches(edges, u, v),
        reaches(edges, v, w),
    ensures
        reaches(edges, u, w),
{
    let q = choose|q: Seq<Seq<char>>| #[trigger] is_walk(edges, q) && q[0] == v && q.last() == w;
    lemma_reaches_along_walk(edges, u, q, q.len() - 1);
}

/// Every node of a walk that starts at a node reached from `u` is reached from `u`.
proof fn lemma_reaches_along_walk(edges: Seq<Edge>, u: Seq<char>, q: Seq<Seq<char>>, i: int)
    requires
        is_walk(edges, q),
        reaches(edges, u, q[0]),
        0 <= i < q.len(),
    ensures
        reaches(edges, u, q[i]),
    decreases i,
{
    if i > 0 {
        lemma_reaches_along_walk(edges, u, q, i - 1);
        let j = i - 1;
        assert(step(edges, q[j], q[j + 1]));
        lemma_reaches_step(edges, u, q[j], q[i]);
    }
}

/// Every member of the component of `u` is listed and mutual with `u`.
proof fn lemma_component_members(names: Seq<Seq<char>>, edges: Seq<Edge>, u: Seq<char>)
    ensures
        forall|k: int| 0 <= k < component(names, edges, u).len() ==> mutual(edges, u, #[trigger] component(names, edges, u)[k])
            && names.contains(component(names, edges, u)[k]),
    decreases names.len(),
{
    if names.len() > 0 {
        let rest = names.drop_last();
        lemma_component_members(rest, edges, u);
        let c = component(names, edges, u);
        let cr = component(rest, edges, u);
        assert forall|k: int| 0 <= k < c.len() implies mutual(edges, u, #[trigger] c[k]) && names.contains(c[k]) by {
            if k < cr.len() {
                assert(c[k] == cr[k]);
                assert(rest.contains(cr[k]));
                let j = choose|j: int| 0 <= j < rest.len() && rest[j] == cr[k];
                assert(names[j] == rest[j]);
            } else {
                assert(c[k] == names.last());
                assert(names[names.len() - 1] == names.last());
            }
        }
    }
}

/// Two nodes that reach each other have the same component.
proof fn lemma_component_of_member(names: Seq<Seq<char>>, edges: Seq<Edge>, u: Seq<char>, m: Seq<char>)
    requires
        mutual(edges, u, m),
    ensures
        component(names, edges, m) == component(names, edges, u),
    decreases names.len(),
{
    if names.len() > 0 {
        lemma_component_of_member(names.drop_last(), edges, u, m);
        let x = names.last();
        if mutual(edges, u, x) {
            lemma_reaches_trans(edges, m, u, x);
            lemma_reaches_trans(edges, x, u, m);
        }
        if mutual(edges, m, x) {
            lemma_reaches_trans(edges, u, m, x);
            lemma_reaches_trans(edges, x, m, u);
        }
    }
}


/// Whether `e` reports `issue`: the same issue, except that a cycle is
/// reported as the nodes of a trapped component in the order the search
/// left them, which need not be the order of the node list.
pub open spec fn reports_issue(names: Seq<Seq<char>>, edges: Seq<Edge>, issue: TopologyIssue, e: TopologyError) -> bool {
    match issue {
        TopologyIssue::PotentialInfiniteLoop(_) => e matches TopologyError::PotentialInfiniteLoop { cycle }
            && reported_loop(names, edges, views(cycle@)),
        _ => e.issue() == issue,
    }
}

/// Validate the complete graph topology: an entry point is set, every edge
/// names existing nodes, every node is reachable from the entry point, no
/// node is isolated, and every cycle can leave for the end through a
/// conditional edge.
pub fn validate(names: &Vec<String>, edges: &Vec<Edge>, entry_point: Option<&str>) -> (r: Result<(), TopologyError>)
    requires
        views(names@).no_duplicates(),
    ensures
        r is Ok <==> validation_issue(views(names@), edges@, opt_text(entry_point)) is None,
        r matches Err(e) ==> reports_issue(
            views(names@),
            edges@,
            validation_issue(views(names@), edges@, opt_text(entry_point))->0,
            e,
        ),
{
    check_entry_point(entry_point)?;
    let entry = entry_point.unwrap();
    proof {
        lemma_first_edge_issue_kind(views(names@), edges@);
    }
    check_edge_targets(names, edges)?;
    proof {
        lemma_no_edge_issue_dests_listed(views(names@), edges@);
    }
    check_reachability(names, edges, entry)?;
    check_isolated_nodes(names, edges)?;
    check_infinite_loops(names, edges)?;
    Ok(())
}


/// No listed node is unreached exactly when the entry reaches all of them.
proof fn lemma_first_unreached_none(names: Seq<Seq<char>>, edges: Seq<Edge>, entry: Seq<char>)
    ensures
        first_unreached(names, edges, entry) is None <==> forall|k: int| 0 <= k < names.len() ==> reaches(
            edges,
            entry,
            #[trigger] names[k],
        ),
    decreases names.len(),
{
    if names.len() > 0 {
        let rest = names.drop_first();
        lemma_first_unreached_none(rest, edges, entry);
        assert forall|k: int| 0 <= k < rest.len() implies #[trigger] rest[k] == names[k + 1] by {}
        if first_unreached(names, edges, entry) is None {
            assert forall|k: int| 0 <= k < names.len() implies reaches(edges, entry, #[trigger] names[k]) by {
                if k > 0 {
                    assert(rest[k - 1] == names[k]);
                }
            }
        }
    }
}

/// No listed node is isolated exactly when each has an edge in or out.
proof fn lemma_first_isolated_none(names: Seq<Seq<char>>, edges: Seq<Edge>)
    ensures
        first_isolated(names, edges) is None <==> forall|k: int| 0 <= k < names.len() ==> (has_incoming(
            edges,
            #[trigger] names[k],
        ) || has_outgoing(edges, names[k])),
    decreases names.len(),
{
    if names.len() > 0 {
        let rest = names.drop_first();
        lemma_first_isolated_none(rest, edges);
        assert forall|k: int| 0 <= k < rest.len() implies #[trigger] rest[k] == names[k + 1] by {}
        if first_isolated(names, edges) is None {
            assert forall|k: int| 0 <= k < names.len() implies (has_incoming(edges, #[trigger] names[k])
                || has_outgoing(edges, names[k])) by {
                if k > 0 {
                    assert(rest[k - 1] == names[k]);
                }
            }
        }
    }
}

/// No listed node is trapped exactly when none of their components is.
proof fn lemma_first_trapped_none(all: Seq<Seq<char>>, names: Seq<Seq<char>>, edges: Seq<Edge>)
    ensures
        first_trapped(all, names, edges) is None <==> forall|k: int| 0 <= k < names.len() ==> !trapped(
            all,
            edges,
            #[trigger] names[k],
        ),
    decreases names.len(),
{
    if names.len() > 0 {
        let rest = names.drop_first();
        lemma_first_trapped_none(all, rest, edges);
        assert forall|k: int| 0 <= k < rest.len() implies #[trigger] rest[k] == names[k + 1] by {}
        if first_trapped(all, names, edges) is None {
            assert forall|k: int| 0 <= k < names.len() implies !trapped(all, edges, #[trigger] names[k]) by {
                if k > 0 {
                    assert(rest[k - 1] == names[k]);
                }
            }
        }
    }
}

/// A graph that passes validation has an entry point that reaches every
/// node, no node without edges, no cycle that no conditional edge can
/// leave for the end, and no edge from or to a node that is not there.
pub proof fn lemma_valid_graph_shape(names: Seq<Seq<char>>, edges: Seq<Edge>, entry: Option<Seq<char>>)
    requires
        validation_issue(names, edges, entry) is None,
    ensures
        entry is Some,
        forall|k: int| 0 <= k < names.len() ==> reaches(edges, entry->0, #[trigger] names[k]),
        forall|k: int| 0 <= k < names.len() ==> (has_incoming(edges, #[trigger] names[k]) || has_outgoing(edges, names[k])),
        forall|k: int| 0 <= k < names.len() ==> !trapped(names, edges, #[trigger] names[k]),
        forall|i: int| 0 <= i < edges.len() ==> (#[trigger] edges[i]).source() == START@ || names.contains(edges[i].source()),
        forall|i: int, d: Seq<char>|
            0 <= i < edges.len() && #[trigger] edges[i].dests().contains(d) ==> d == END@ || names.contains(d),
{
    assert forall|i: int| 0 <= i < edges.len() implies (#[trigger] edges[i]).source() == START@ || names.contains(
        edges[i].source(),
    ) by {
        lemma_first_edge_issue_none(names, edges, i);
    }
    assert forall|i: int, d: Seq<char>|
        0 <= i < edges.len() && #[trigger] edges[i].dests().contains(d) implies d == END@ || names.contains(d) by {
        lemma_first_edge_issue_none(names, edges, i);
        match edges[i] {
            Edge::Fixed { from, to } => {
                assert(d == to@);
            },
            Edge::Conditional { from, path_map } => {
                let k = choose|k: int| 0 <= k < path_map.target_views().len() && path_map.target_views()[k] == d;
                lemma_branch_issue_none(from@, path_map.view(), names, k);
            },
        }
    }
    lemma_first_unreached_none(names, edges, entry->0);
    lemma_first_isolated_none(names, edges);
    lemma_first_trapped_none(names, names, edges);
}

} // verus!
