//! The functional entrypoint: a workflow compiled into a graph of a single
//! node, and the cache keys of tasks.
use vstd::prelude::*;
use crate::edge::{CompiledEdgeView, Edge, TriggerSourceView, END, START};
use crate::graph::builder::{bad_name_reason, first_bad_name, trigger_tables, StateGraph};
use crate::graph::compiled::CompiledGraph;
use crate::graph::topology::{
    component, first_edge_issue, first_isolated, first_trapped, first_unreached, has_incoming, has_outgoing,
    lemma_reaches_self, opt_text, validation_issue, TopologyError, TopologyIssue,
};
use crate::text::{push_char, push_str, to_owned_string};
use crate::hashing::{default_hasher_digest, HashPiece, PieceHasher};

verus! {

/// The name of the entrypoint node: the configured name, else
/// `__entrypoint__`.
pub open spec fn entrypoint_name(name: Option<Seq<char>>) -> Seq<char> {
    match name {
        Some(n) => n,
        None => "__entrypoint__"@,
    }
}

/// The edges of a graph whose single node `n` is both entry and finish.
pub open spec fn single_node_edges(edges: Seq<Edge>, n: Seq<char>) -> bool {
    &&& edges.len() == 2
    &&& edges[0] matches Edge::Fixed { from, to } && from@ == START@ && to@ == n
    &&& edges[1] matches Edge::Fixed { from, to } && from@ == n && to@ == END@
}

/// A graph of one node that is both entry and finish passes the topology
/// checks, whatever the node's name.
proof fn lemma_single_node_valid(edges: Seq<Edge>, n: Seq<char>)
    requires
        single_node_edges(edges, n),
    ensures
        validation_issue(seq![n], edges, Some(n)) is None,
{
    let names = seq![n];
    assert(names[0] == n);
    assert(names.contains(n));
    assert(edges.drop_first()[0] == edges[1]);
    assert(edges.drop_first().drop_first() =~= Seq::<Edge>::empty());
    assert(first_edge_issue(names, edges.drop_first().drop_first()) is None);
    assert(first_edge_issue(names, edges.drop_first()) is None);
    assert(first_edge_issue(names, edges) is None);
    lemma_reaches_self(edges, n);
    assert(names.drop_first() =~= Seq::<Seq<char>>::empty());
    assert(first_unreached(names.drop_first(), edges, n) is None);
    assert(first_unreached(names, edges, n) is None);
    if n != END@ {
        assert(edges[0].dests().contains(n)) by {
            assert(edges[0].dests()[0] == n);
        }
        assert(has_incoming(edges, n));
    } else {
        assert(END@ != START@) by {
            reveal_strlit("__start__");
            reveal_strlit("__end__");
            assert(START@[2] != END@[2]);
        }
        assert(edges[1].source() == n);
        assert(has_outgoing(edges, n));
    }
    assert(first_isolated(names.drop_first(), edges) is None);
    assert(first_isolated(names, edges) is None);
    assert(names.drop_last() =~= Seq::<Seq<char>>::empty());
    assert(component(names.drop_last(), edges, n).len() == 0);
    assert(component(names, edges, n).len() <= 1);
    assert(!crate::graph::topology::trapped(names, edges, names[0]));
    assert(first_trapped(names, names.drop_first(), edges) is None);
    assert(first_trapped(names, names, edges) is None);
}

/// The trigger table of a graph whose single node `n` is both entry and
/// finish: no outgoing edges, and `n` triggered from the start.
proof fn lemma_single_node_table(edges: Seq<Edge>, n: Seq<char>)
    requires
        single_node_edges(edges, n),
        n != START@,
    ensures
        trigger_tables(edges) == (
            Seq::<(Seq<char>, Seq<CompiledEdgeView>)>::empty(),
            seq![(n, seq![TriggerSourceView::Edge(START@)])],
        ),
{
    let e1 = edges.drop_last();
    assert(e1.drop_last() =~= Seq::<Edge>::empty());
    assert(e1.last() == edges[0]);
    assert(edges.last() == edges[1]);
    assert(trigger_tables(e1.drop_last()) == (
        Seq::<(Seq<char>, Seq<CompiledEdgeView>)>::empty(),
        Seq::<(Seq<char>, Seq<TriggerSourceView>)>::empty(),
    ));
    let inc = crate::edge::table_add(Seq::<(Seq<char>, Seq<TriggerSourceView>)>::empty(), n, TriggerSourceView::Edge(START@));
    assert(inc =~= seq![(n, seq![TriggerSourceView::Edge(START@)])]);
    assert(trigger_tables(e1) == (Seq::<(Seq<char>, Seq<CompiledEdgeView>)>::empty(), inc));
}

/// Compile a functional workflow entrypoint: a graph with one node, named
/// as configured, that is both entry and finish point. The node's name
/// must be a valid node name.
pub fn compile_entrypoint_with_config(name: Option<&str>) -> (r: Result<CompiledGraph, TopologyError>)
    ensures
        r is Ok <==> first_bad_name(seq![entrypoint_name(opt_text(name))]) is None,
        r matches Err(e) ==> e.issue() == TopologyIssue::InvalidNodeName(
            entrypoint_name(opt_text(name)),
            bad_name_reason(entrypoint_name(opt_text(name))),
        ),
        r matches Ok(g) ==> g.wf() && g.node_views() == seq![entrypoint_name(opt_text(name))]
            && g.interrupt_before_views().len() == 0 && g.interrupt_after_views().len() == 0
            && g.subgraph_list().len() == 0
            && (entrypoint_name(opt_text(name)) != START@ ==> (g.outgoing_view().len() == 0
                && g.incoming_view() == seq![(entrypoint_name(opt_text(name)), seq![TriggerSourceView::Edge(START@)])])),
{
    let entry = match name {
        Some(n) => n,
        None => "__entrypoint__",
    };
    let ghost n = entry@;
    assert(n == entrypoint_name(opt_text(name)));
    let mut graph = StateGraph::new();
    let added = graph.add_node_simple(entry);
    assert(added is Ok);
    assert(graph.node_views() =~= seq![n]);
    let ghost g1 = graph;
    graph.set_entry_point(entry);
    graph.set_finish_point(entry);
    proof {
        StateGraph::lemma_same_table_same_names(&g1, &graph);
        assert(graph.node_views() == seq![n]);
        assert(seq![n][0] == n);
        assert(seq![n].contains(n));
        assert(graph.finish_views()[0] == n);
        let edges = graph.edge_list();
        assert(edges.drop_last().len() == 1);
        assert(edges[0] == edges.drop_last().last());
        assert(single_node_edges(edges, n));
        lemma_single_node_valid(edges, n);
        assert(graph.finish_views() =~= seq![n]);
        assert(graph.state_schema().replace_field_indices@ =~= Seq::<usize>::empty());
        assert(graph.state_schema().replace_after_finish_field_indices@ =~= Seq::<usize>::empty());
        assert(seq![n].drop_first() =~= Seq::<Seq<char>>::empty());
        if n != START@ {
            lemma_single_node_table(edges, n);
        }
        assert(graph.entry_view() == Some(n));
        assert(validation_issue(graph.node_views(), graph.edge_list(), graph.entry_view()) is None);
        assert(crate::graph::builder::first_missing(seq![n].drop_first(), seq![n]) is None);
        assert(crate::graph::builder::first_missing(graph.finish_views(), graph.node_views()) is None);
        assert(crate::graph::builder::first_out_of_range(graph.state_schema().replace_field_indices@, graph.state_schema().field_count) is None);
        assert(crate::graph::builder::first_out_of_range(graph.state_schema().replace_after_finish_field_indices@, graph.state_schema().field_count) is None);
        assert(first_bad_name(seq![n].drop_first()) is None);
        assert(first_bad_name(seq![n]) is Some ==> first_bad_name(seq![n])->0 == n);
    }
    graph.compile()
}

/// Compile a functional workflow entrypoint under the default node name.
pub fn compile_entrypoint() -> (r: Result<CompiledGraph, TopologyError>)
    ensures
        r is Ok,
        r matches Ok(g) ==> g.wf() && g.node_views() == seq!["__entrypoint__"@] && g.outgoing_view().len() == 0
            && g.incoming_view() == seq![("__entrypoint__"@, seq![TriggerSourceView::Edge(START@)])],
{
    proof {
        reveal_strlit("__entrypoint__");
        reveal_strlit("__start__");
        let n = "__entrypoint__"@;
        assert(n.len() > 0);
        assert(!n.contains(':')) by {
            assert forall|i: int| 0 <= i < n.len() implies n[i] != ':' by {}
        }
        assert(!n.contains('/')) by {
            assert forall|i: int| 0 <= i < n.len() implies n[i] != '/' by {}
        }
        assert(!n.contains('\\')) by {
            assert forall|i: int| 0 <= i < n.len() implies n[i] != '\\' by {}
        }
        assert(seq![n].drop_first() =~= Seq::<Seq<char>>::empty());
        assert(first_bad_name(seq![n].drop_first()) is None);
        assert(first_bad_name(seq![n]) is None);
        assert(n != START@) by {
            assert(n[2] != START@[2]);
        }
    }
    compile_entrypoint_with_config(None)
}

/// The lower-case hexadecimal digit of `d`.
pub open spec fn hex_digit(d: nat) -> char {
    if d < 10 {
        crate::text::digit_char(d)
    } else if d == 10 {
        'a'
    } else if d == 11 {
        'b'
    } else if d == 12 {
        'c'
    } else if d == 13 {
        'd'
    } else if d == 14 {
        'e'
    } else {
        'f'
    }
}

/// The last `width` hexadecimal digits of `n`, most significant first.
pub open spec fn hex_digits(n: nat, width: nat) -> Seq<char>
    decreases width,
{
    if width == 0 {
        Seq::empty()
    } else {
        hex_digits(n / 16, (width - 1) as nat).push(hex_digit(n % 16))
    }
}

/// The hexadecimal digit of `d`.
fn hex_char(d: u128) -> (c: char)
    requires
        d < 16,
    ensures
        c == hex_digit(d as nat),
{
    if d < 10 {
        crate::text::digit(d as u64)
    } else if d == 10 {
        'a'
    } else if d == 11 {
        'b'
    } else if d == 12 {
        'c'
    } else if d == 13 {
        'd'
    } else if d == 14 {
        'e'
    } else {
        'f'
    }
}

/// `n` as 16 lower-case hexadecimal digits, zero-padded (`{:016x}`).
pub fn hex16(n: u64) -> (s: String)
    ensures
        s@ == hex_digits(n as nat, 16),
{
    hex_text(n as u128, 16)
}

/// `n` as 32 lower-case hexadecimal digits, zero-padded (`{:032x}`).
pub fn hex32(n: u128) -> (s: String)
    ensures
        s@ == hex_digits(n as nat, 32),
{
    hex_text(n, 32)
}

/// The last `width` hexadecimal digits of `n`, most significant first.
fn hex_text(n: u128, width: usize) -> (s: String)
    requires
        width <= 32,
    ensures
        s@ == hex_digits(n as nat, width as nat),
{
    proof {
        vstd::arithmetic::power::lemma_pow0(16);
        assert(vstd::arithmetic::power::pow(16, 0) == 1);
        assert(n as nat / 1 == n as nat);
    }
    let mut digits: Vec<char> = Vec::new();
    let mut rest: u128 = n;
    let mut k: usize = 0;
    while k < width
        invariant
            width <= 32,
            k <= width,
            digits.len() == k,
            rest as nat == n as nat / vstd::arithmetic::power::pow(16, k as nat) as nat,
            forall|j: int| 0 <= j < k ==> #[trigger] digits@[j] == hex_digit(
                (n as nat / vstd::arithmetic::power::pow(16, j as nat) as nat) % 16,
            ),
        decreases width - k,
    {
        proof {
            vstd::arithmetic::power::lemma_pow_positive(16, k as nat);
            vstd::arithmetic::power::lemma_pow_adds(16, k as nat, 1);
            vstd::arithmetic::power::lemma_pow1(16);
            vstd::arithmetic::div_mod::lemma_div_denominator(
                n as int,
                vstd::arithmetic::power::pow(16, k as nat),
                16,
            );
        }
        digits.push(hex_char(rest % 16));
        rest = rest / 16;
        k += 1;
    }
    let mut s = String::new();
    let mut j: usize = width;
    assert(hex_digits(n as nat / vstd::arithmetic::power::pow(16, width as nat) as nat, 0) == Seq::<char>::empty());
    while j > 0
        invariant
            j <= width,
            digits.len() == width,
            forall|i: int| 0 <= i < width ==> #[trigger] digits@[i] == hex_digit(
                (n as nat / vstd::arithmetic::power::pow(16, i as nat) as nat) % 16,
            ),
            s@ == hex_digits(n as nat / vstd::arithmetic::power::pow(16, j as nat) as nat, (width - j) as nat),
        decreases j,
    {
        proof {
            lemma_hex_step(n as nat, (j - 1) as nat, (width - j) as nat);
        }
        push_char(&mut s, digits[j - 1]);
        j -= 1;
    }
    proof {
        vstd::arithmetic::power::lemma_pow0(16);
    }
    s
}

/// Every character of a run of hexadecimal digits is a decimal digit or a
/// lower-case letter up to `f`, and there are `width` of them.
pub proof fn lemma_hex_digits_shape(n: nat, width: nat)
    ensures
        hex_digits(n, width).len() == width,
        forall|i: int| 0 <= i < width ==> ('0' <= #[trigger] hex_digits(n, width)[i] <= '9' || 'a' <= hex_digits(
            n,
            width,
        )[i] <= 'f'),
    decreases width,
{
    if width > 0 {
        lemma_hex_digits_shape(n / 16, (width - 1) as nat);
        let rest = hex_digits(n / 16, (width - 1) as nat);
        let c = hex_digit(n % 16);
        assert('0' <= c <= '9' || 'a' <= c <= 'f');
        assert forall|i: int| 0 <= i < width implies ('0' <= #[trigger] hex_digits(n, width)[i] <= '9' || 'a'
            <= hex_digits(n, width)[i] <= 'f') by {
            if i < width - 1 {
                assert(hex_digits(n, width)[i] == rest[i]);
            }
        }
    }
}

/// Filling digits from the most significant one: one more digit below is
/// the digits so far followed by it.
proof fn lemma_hex_step(n: nat, j: nat, w: nat)
    ensures
        hex_digits(n / vstd::arithmetic::power::pow(16, j) as nat, w + 1) == hex_digits(
            n / vstd::arithmetic::power::pow(16, j + 1) as nat,
            w,
        ).push(hex_digit((n / vstd::arithmetic::power::pow(16, j) as nat) % 16)),
{
    vstd::arithmetic::power::lemma_pow_positive(16, j);
    vstd::arithmetic::power::lemma_pow_adds(16, j, 1);
    vstd::arithmetic::power::lemma_pow1(16);
    vstd::arithmetic::div_mod::lemma_div_denominator(n as int, vstd::arithmetic::power::pow(16, j), 16);
}

/// The cache key of a task call, given the hash of its namespace and
/// arguments: `task:`, the namespace, `:`, and the hash in 16 hexadecimal
/// digits.
pub open spec fn cache_key_text(namespace: Seq<char>, hash: u64) -> Seq<char> {
    "task:"@ + namespace + ":"@ + hex_digits(hash as nat, 16)
}

/// The cache key of a task call with a given hash.
pub fn cache_key_with_hash(namespace: &str, hash: u64) -> (s: String)
    ensures
        s@ == cache_key_text(namespace@, hash),
{
    let mut s = to_owned_string("task:");
    push_str(&mut s, namespace);
    push_str(&mut s, ":");
    let h = hex16(hash);
    push_str(&mut s, h.as_str());
    s
}

/// What the hash of a task's cache key is computed from: the namespace,
/// then the arguments.
pub open spec fn task_key_pieces(namespace: Seq<char>, args: serde_json::Value) -> Seq<HashPiece> {
    seq![HashPiece::Text(namespace), HashPiece::Json(args)]
}

/// Build a stable cache key for a task invocation: the namespace and the
/// hash of the namespace and the arguments.
pub fn task_cache_key(namespace: &str, args: &serde_json::Value) -> (s: String)
    ensures
        exists|h: u64| #[trigger] default_hasher_digest(h, task_key_pieces(namespace@, *args)) && s@ == cache_key_text(
            namespace@,
            h,
        ),
{
    let mut hasher = PieceHasher::new();
    hasher.write_text(namespace);
    hasher.write_json(args);
    let h = hasher.finish();
    assert(hasher.written() =~= task_key_pieces(namespace@, *args));
    cache_key_with_hash(namespace, h)
}

/// Law of task cache keys: the hash is computed from both the namespace
/// and the arguments, so calls that differ in either are hashed from
/// different pieces.
pub proof fn lemma_task_key_pieces(ns1: Seq<char>, ns2: Seq<char>, a1: serde_json::Value, a2: serde_json::Value)
    ensures
        task_key_pieces(ns1, a1) == task_key_pieces(ns2, a2) <==> (ns1 == ns2 && a1 == a2),
{
    if task_key_pieces(ns1, a1) == task_key_pieces(ns2, a2) {
        assert(task_key_pieces(ns1, a1)[0] == task_key_pieces(ns2, a2)[0]);
        assert(task_key_pieces(ns1, a1)[1] == task_key_pieces(ns2, a2)[1]);
    }
}

} // verus!
