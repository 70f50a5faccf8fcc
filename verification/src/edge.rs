//! Edges between graph nodes, routing results, path maps and the compiled
//! trigger table.
use vstd::prelude::*;
use crate::text::same_text;

verus! {

/// Sentinel name of the virtual start node.
pub const START: &'static str = "__start__";

/// Sentinel name of the virtual end node.
pub const END: &'static str = "__end__";

/// The text of a key/value pair of strings.
pub open spec fn pair_view(p: (String, String)) -> (Seq<char>, Seq<char>) {
    (p.0@, p.1@)
}

/// No key occurs twice among the pairs.
pub open spec fn keys_distinct(s: Seq<(Seq<char>, Seq<char>)>) -> bool {
    forall|i: int, j: int| 0 <= i < j < s.len() ==> s[i].0 != s[j].0
}

/// The index of the pair with key `k`, if any.
pub open spec fn index_of_key(s: Seq<(Seq<char>, Seq<char>)>, k: Seq<char>) -> Option<int> {
    if exists|i: int| 0 <= i < s.len() && s[i].0 == k {
        Some(choose|i: int| 0 <= i < s.len() && s[i].0 == k)
    } else {
        None
    }
}

/// The pairs as a map from key to value.
pub open spec fn pairs_map(s: Seq<(Seq<char>, Seq<char>)>) -> Map<Seq<char>, Seq<char>> {
    Map::new(
        |k: Seq<char>| exists|i: int| 0 <= i < s.len() && s[i].0 == k,
        |k: Seq<char>| s[index_of_key(s, k)->0].1,
    )
}

/// The pairs after inserting `(k, v)`: an existing key keeps its place and
/// takes the new value; a new key comes last.
pub open spec fn pairs_after_insert(s: Seq<(Seq<char>, Seq<char>)>, k: Seq<char>, v: Seq<char>) -> Seq<(Seq<char>, Seq<char>)> {
    match index_of_key(s, k) {
        Some(i) => s.update(i, (k, v)),
        None => s.push((k, v)),
    }
}

/// The pairs of a path map built by inserting the given pairs in order.
pub open spec fn pairs_inserted(s: Seq<(Seq<char>, Seq<char>)>) -> Seq<(Seq<char>, Seq<char>)>
    decreases s.len(),
{
    if s.len() == 0 {
        Seq::empty()
    } else {
        pairs_after_insert(pairs_inserted(s.drop_last()), s.last().0, s.last().1)
    }
}

/// Reading a path map after an insert gives the inserted target under its
/// key, and every other key keeps its target; keys stay distinct.
pub proof fn lemma_path_map_read_after_insert(s: Seq<(Seq<char>, Seq<char>)>, k: Seq<char>, v: Seq<char>)
    requires
        keys_distinct(s),
    ensures
        keys_distinct(pairs_after_insert(s, k, v)),
        pairs_map(pairs_after_insert(s, k, v)) == pairs_map(s).insert(k, v),
{
    let t = pairs_after_insert(s, k, v);
    match index_of_key(s, k) {
        Some(i) => {
            assert(s[i].0 == k);
            assert(keys_distinct(t)) by {
                assert forall|a: int, b: int| 0 <= a < b < t.len() implies t[a].0 != t[b].0 by {
                    assert(t[a].0 == s[a].0);
                    assert(t[b].0 == s[b].0);
                }
            }
        },
        None => {
            assert(keys_distinct(t)) by {
                assert forall|a: int, b: int| 0 <= a < b < t.len() implies t[a].0 != t[b].0 by {
                    if b == s.len() {
                        assert(s[a].0 != k);
                    }
                }
            }
        },
    }
    assert forall|x: Seq<char>| #[trigger] pairs_map(t).contains_key(x) <==> pairs_map(s).insert(k, v).contains_key(x) by {
        if pairs_map(t).contains_key(x) && x != k {
            let a = choose|a: int| 0 <= a < t.len() && t[a].0 == x;
            assert(a < s.len() && s[a].0 == x);
        }
        if pairs_map(s).contains_key(x) {
            let a = choose|a: int| 0 <= a < s.len() && s[a].0 == x;
            assert(t[a].0 == x);
        }
        if x == k {
            match index_of_key(s, k) {
                Some(i) => assert(t[i].0 == k),
                None => assert(t[s.len() as int].0 == k),
            }
        }
    }
    assert forall|x: Seq<char>| pairs_map(t).contains_key(x) implies #[trigger] pairs_map(t)[x] == pairs_map(s).insert(k, v)[x] by {
        let a = index_of_key(t, x)->0;
        assert(t[a].0 == x);
        if x == k {
            match index_of_key(s, k) {
                Some(i) => {
                    assert(t[i].0 == k);
                    assert(a == i);
                },
                None => {
                    assert(a == s.len()) by {
                        if a < s.len() {
                            assert(s[a].0 == k);
                        }
                    }
                },
            }
        } else {
            assert(a < s.len());
            assert(s[a].0 == x);
            let b = index_of_key(s, x)->0;
            assert(s[b].0 == x);
            assert(a == b);
        }
    }
    assert(pairs_map(t) =~= pairs_map(s).insert(k, v));
}

/// Path mapping for conditional edges: router return values to target
/// node names, each key at most once, in insertion order.
#[derive(Clone, Debug)]
pub struct PathMap {
    entries: Vec<(String, String)>,
}

impl PathMap {
    /// The mappings, in insertion order.
    pub closed spec fn view(&self) -> Seq<(Seq<char>, Seq<char>)> {
        self.entries@.map_values(|p: (String, String)| pair_view(p))
    }

    /// The mappings as a map from route value to target.
    pub open spec fn as_map(&self) -> Map<Seq<char>, Seq<char>> {
        pairs_map(self.view())
    }

    /// The target names, in insertion order.
    pub open spec fn target_views(&self) -> Seq<Seq<char>> {
        self.view().map_values(|p: (Seq<char>, Seq<char>)| p.1)
    }

    /// Keys are distinct.
    pub open spec fn wf(&self) -> bool {
        keys_distinct(self.view())
    }

    /// Create a new empty path map
    pub fn new() -> (m: Self)
        ensures
            m.wf(),
            m.view() == Seq::<(Seq<char>, Seq<char>)>::empty(),
    {
        let m = PathMap { entries: Vec::new() };
        assert(m.view() =~= Seq::<(Seq<char>, Seq<char>)>::empty());
        m
    }

    /// The position of the mapping for `key`, if any.
    fn find(&self, key: &str) -> (r: Option<usize>)
        requires
            self.wf(),
        ensures
            r is None <==> !(exists|i: int| 0 <= i < self.view().len() && self.view()[i].0 == key@),
            r matches Some(i) ==> i < self.view().len() && self.view()[i as int].0 == key@,
    {
        let mut i: usize = 0;
        while i < self.entries.len()
            invariant
                i <= self.entries.len(),
                forall|j: int| 0 <= j < i ==> self.view()[j].0 != key@,
            decreases self.entries.len() - i,
        {
            assert(self.view()[i as int] == pair_view(self.entries@[i as int]));
            if same_text(self.entries[i].0.as_str(), key) {
                return Some(i);
            }
            i += 1;
        }
        None
    }

    /// A path map holding the given pairs, inserted in order: a repeated
    /// key keeps its first place and takes its last target.
    pub fn from_pairs(pairs: &[(&str, &str)]) -> (m: Self)
        ensures
            m.wf(),
            m.view() == pairs_inserted(pairs@.map_values(|p: (&str, &str)| (p.0@, p.1@))),
    {
        let ghost pv = pairs@.map_values(|p: (&str, &str)| (p.0@, p.1@));
        let mut m = PathMap::new();
        let mut i: usize = 0;
        assert(pv.take(0) =~= Seq::<(Seq<char>, Seq<char>)>::empty());
        while i < pairs.len()
            invariant
                pv == pairs@.map_values(|p: (&str, &str)| (p.0@, p.1@)),
                i <= pairs.len(),
                m.wf(),
                m.view() == pairs_inserted(pv.take(i as int)),
            decreases pairs.len() - i,
        {
            let (k, v) = pairs[i];
            m.insert(k, v);
            assert(pv.take(i + 1).drop_last() =~= pv.take(i as int));
            assert(pv.take(i + 1).last() == (k@, v@));
            i += 1;
        }
        assert(pv.take(pairs.len() as int) =~= pv);
        m
    }

    /// Add a path mapping, replacing the target of an existing key in place.
    pub fn insert(&mut self, key: &str, value: &str)
        requires
            old(self).wf(),
        ensures
            final(self).wf(),
            final(self).view() == pairs_after_insert(old(self).view(), key@, value@),
    {
        let ghost before = self.view();
        match self.find(key) {
            Some(i) => {
                let k = crate::text::to_owned_string(key);
                let v = crate::text::to_owned_string(value);
                self.entries.set(i, (k, v));
                proof {
                    let ki = index_of_key(before, key@)->0;
                    assert(ki == i as int) by {
                        if ki != i as int {
                            assert(before[ki].0 == before[i as int].0);
                        }
                    }
                    assert(self.view() =~= before.update(i as int, (key@, value@)));
                }
            },
            None => {
                let k = crate::text::to_owned_string(key);
                let v = crate::text::to_owned_string(value);
                self.entries.push((k, v));
                assert(self.view() =~= before.push((key@, value@)));
            },
        }
    }

    /// Get the target for a given route value
    pub fn get(&self, key: &str) -> (r: Option<&String>)
        requires
            self.wf(),
        ensures
            r is Some <==> self.as_map().dom().contains(key@),
            r matches Some(t) ==> t@ == self.as_map()[key@],
    {
        match self.find(key) {
            Some(i) => {
                proof {
                    let ki = index_of_key(self.view(), key@)->0;
                    assert(ki == i as int) by {
                        if ki != i as int {
                            assert(self.view()[ki].0 == self.view()[i as int].0);
                        }
                    }
                }
                Some(&self.entries[i].1)
            },
            None => None,
        }
    }

    /// Check if the map contains a key
    pub fn contains_key(&self, key: &str) -> (b: bool)
        requires
            self.wf(),
        ensures
            b == self.as_map().dom().contains(key@),
    {
        self.find(key).is_some()
    }

    /// All mappings, in insertion order.
    pub fn iter(&self) -> (v: &Vec<(String, String)>)
        ensures
            v@.map_values(|p: (String, String)| pair_view(p)) == self.view(),
    {
        &self.entries
    }

    /// A copy of this path map.
    pub fn copy(&self) -> (r: Self)
        ensures
            r.view() == self.view(),
    {
        let mut entries: Vec<(String, String)> = Vec::new();
        let mut i: usize = 0;
        while i < self.entries.len()
            invariant
                i <= self.entries.len(),
                entries@ == self.entries@.take(i as int),
            decreases self.entries.len() - i,
        {
            let k = self.entries[i].0.clone();
            let v = self.entries[i].1.clone();
            entries.push((k, v));
            assert(entries@ =~= self.entries@.take(i + 1));
            i += 1;
        }
        assert(self.entries@.take(self.entries.len() as int) =~= self.entries@);
        let r = PathMap { entries };
        assert(r.view() =~= self.view());
        r
    }

    /// Get the number of mappings
    pub fn len(&self) -> (n: usize)
        ensures
            n == self.view().len(),
    {
        self.entries.len()
    }

    /// Check if the map is empty
    pub fn is_empty(&self) -> (b: bool)
        ensures
            b == (self.view().len() == 0),
    {
        self.entries.len() == 0
    }
}

/// Result of routing computation
#[derive(Clone, Debug)]
pub enum RouteResult {
    /// Route to a single node
    One(String),
    /// Route to multiple nodes in parallel
    Multiple(Vec<String>),
}

impl RouteResult {
    /// The target node name if this is a single target
    pub fn as_target(&self) -> (r: Option<&str>)
        ensures
            match self {
                RouteResult::One(t) => r matches Some(x) && x@ == t@,
                RouteResult::Multiple(_) => r is None,
            },
    {
        match self {
            RouteResult::One(target) => Some(target.as_str()),
            RouteResult::Multiple(_) => None,
        }
    }

    /// All target node names
    pub fn targets(&self) -> (v: Vec<&str>)
        ensures
            match self {
                RouteResult::One(t) => v.len() == 1 && v@[0]@ == t@,
                RouteResult::Multiple(ts) => v.len() == ts.len() && forall|k: int| 0 <= k < v.len() ==> #[trigger] v@[k]@ == ts@[k]@,
            },
    {
        let mut v: Vec<&str> = Vec::new();
        match self {
            RouteResult::One(target) => {
                v.push(target.as_str());
            },
            RouteResult::Multiple(targets) => {
                let mut i: usize = 0;
                while i < targets.len()
                    invariant
                        i <= targets.len(),
                        v.len() == i,
                        forall|k: int| 0 <= k < i ==> #[trigger] v@[k]@ == targets@[k]@,
                    decreases targets.len() - i,
                {
                    let ghost old_v = v@;
                    let t = targets[i].as_str();
                    v.push(t);
                    assert(v@ == old_v.push(t));
                    i += 1;
                }
            },
        }
        v
    }
}

/// Edge in a graph; a conditional edge is routed at run time by a router
/// (which this library does not hold), and lists its possible targets in
/// its path map.
#[derive(Clone, Debug)]
pub enum Edge {
    /// Fixed edge that always routes to the same target
    Fixed {
        /// Source node name
        from: String,
        /// Target node name
        to: String,
    },
    /// Conditional edge that routes based on state
    Conditional {
        /// Source node name
        from: String,
        /// Mapping of router return values to target node names
        path_map: PathMap,
    },
}

/// What an edge says, as text.
pub enum EdgeView {
    Fixed(Seq<char>, Seq<char>),
    Conditional(Seq<char>, Seq<(Seq<char>, Seq<char>)>),
}

impl View for Edge {
    type V = EdgeView;

    open spec fn view(&self) -> EdgeView {
        match self {
            Edge::Fixed { from, to } => EdgeView::Fixed(from@, to@),
            Edge::Conditional { from, path_map } => EdgeView::Conditional(from@, path_map.view()),
        }
    }
}

impl Edge {
    /// A copy of this edge.
    pub fn copy(&self) -> (r: Self)
        ensures
            r.view() == self.view(),
    {
        match self {
            Edge::Fixed { from, to } => Edge::Fixed { from: from.clone(), to: to.clone() },
            Edge::Conditional { from, path_map } => Edge::Conditional { from: from.clone(), path_map: path_map.copy() },
        }
    }

    /// The source node of the edge.
    pub open spec fn source(&self) -> Seq<char> {
        match self {
            Edge::Fixed { from, .. } => from@,
            Edge::Conditional { from, .. } => from@,
        }
    }

    /// The nodes the edge may lead to.
    pub open spec fn dests(&self) -> Seq<Seq<char>> {
        match self {
            Edge::Fixed { to, .. } => seq![to@],
            Edge::Conditional { path_map, .. } => path_map.target_views(),
        }
    }
}

/// Compiled edge for efficient execution
#[derive(Clone, Debug)]
pub enum CompiledEdge {
    /// Fixed edge to a single target
    Fixed {
        /// Target node name
        target: String,
    },
    /// Conditional edge, routed by the router of the edge it was compiled from
    Conditional {
        /// Path mapping for validation
        path_map: PathMap,
    },
}

/// What a compiled edge says, as text.
pub enum CompiledEdgeView {
    Fixed(Seq<char>),
    Conditional(Seq<(Seq<char>, Seq<char>)>),
}

impl View for CompiledEdge {
    type V = CompiledEdgeView;

    open spec fn view(&self) -> CompiledEdgeView {
        match self {
            CompiledEdge::Fixed { target } => CompiledEdgeView::Fixed(target@),
            CompiledEdge::Conditional { path_map } => CompiledEdgeView::Conditional(path_map.view()),
        }
    }
}

/// What a trigger source says, as text.
pub enum TriggerSourceView {
    Edge(Seq<char>),
    Send(Seq<char>),
}

impl View for TriggerSource {
    type V = TriggerSourceView;

    open spec fn view(&self) -> TriggerSourceView {
        match self {
            TriggerSource::Edge { from } => TriggerSourceView::Edge(from@),
            TriggerSource::Send { from } => TriggerSourceView::Send(from@),
        }
    }
}

/// Source of a node trigger
#[derive(Clone, Debug)]
pub enum TriggerSource {
    /// Triggered by an edge from another node
    Edge {
        /// Source node name
        from: String,
    },
    /// Triggered by a Send operation
    Send {
        /// Source node name
        from: String,
    },
}

/// Adds `item` to the list kept under `key`, creating it at the end when absent.
pub open spec fn table_add<T>(table: Seq<(Seq<char>, Seq<T>)>, key: Seq<char>, item: T) -> Seq<(Seq<char>, Seq<T>)> {
    if exists|i: int| 0 <= i < table.len() && table[i].0 == key {
        let i = table_key_index(table, key);
        table.update(i, (key, table[i].1.push(item)))
    } else {
        table.push((key, seq![item]))
    }
}

/// The position of `key` in the table, when it occurs.
pub open spec fn table_key_index<T>(table: Seq<(Seq<char>, Seq<T>)>, key: Seq<char>) -> int {
    choose|i: int| 0 <= i < table.len() && table[i].0 == key
}

/// No key occurs twice in the table.
pub open spec fn table_keys_distinct<T>(table: Seq<(Seq<char>, Seq<T>)>) -> bool {
    forall|i: int, j: int| 0 <= i < j < table.len() ==> table[i].0 != table[j].0
}

/// The list a table keeps under `key` (empty when the key is absent).
pub open spec fn table_list<T>(table: Seq<(Seq<char>, Seq<T>)>, key: Seq<char>) -> Seq<T> {
    if exists|i: int| 0 <= i < table.len() && table[i].0 == key {
        table[table_key_index(table, key)].1
    } else {
        Seq::empty()
    }
}

/// Adding an item to a table of lists appends it to its key's list and
/// leaves every other key's list as it was; keys stay distinct.
pub proof fn lemma_table_add<T>(table: Seq<(Seq<char>, Seq<T>)>, key: Seq<char>, item: T, other: Seq<char>)
    requires
        table_keys_distinct(table),
    ensures
        table_keys_distinct(table_add(table, key, item)),
        table_list(table_add(table, key, item), key) == table_list(table, key).push(item),
        other != key ==> table_list(table_add(table, key, item), other) == table_list(table, other),
{
    let t = table_add(table, key, item);
    if exists|i: int| 0 <= i < table.len() && table[i].0 == key {
        let i = table_key_index(table, key);
        assert(t[i].0 == key);
        assert(table_keys_distinct(t)) by {
            assert forall|a: int, b: int| 0 <= a < b < t.len() implies t[a].0 != t[b].0 by {
                assert(t[a].0 == table[a].0);
                assert(t[b].0 == table[b].0);
            }
        }
        let j = table_key_index(t, key);
        assert(j == i) by {
            if j != i {
                assert(t[j].0 == key);
            }
        }
        if other != key {
            if exists|a: int| 0 <= a < table.len() && table[a].0 == other {
                let a = table_key_index(table, other);
                assert(t[a].0 == other);
                let b = table_key_index(t, other);
                assert(t[b].0 == other);
                assert(a == b);
            } else {
                if exists|b: int| 0 <= b < t.len() && t[b].0 == other {
                    let b = choose|b: int| 0 <= b < t.len() && t[b].0 == other;
                    assert(table[b].0 == other);
                }
            }
        }
    } else {
        assert(table_keys_distinct(t)) by {
            assert forall|a: int, b: int| 0 <= a < b < t.len() implies t[a].0 != t[b].0 by {
                if b == table.len() {
                    assert(table[a].0 != key);
                }
            }
        }
        assert(t[table.len() as int].0 == key);
        let j = table_key_index(t, key);
        assert(j == table.len()) by {
            if j < table.len() {
                assert(table[j].0 == key);
            }
        }
        assert(seq![item] =~= Seq::<T>::empty().push(item));
        if other != key {
            if exists|a: int| 0 <= a < table.len() && table[a].0 == other {
                let a = table_key_index(table, other);
                assert(t[a].0 == other);
                let b = table_key_index(t, other);
                assert(t[b].0 == other);
                assert(b < table.len());
                assert(a == b);
            } else {
                if exists|b: int| 0 <= b < t.len() && t[b].0 == other {
                    let b = choose|b: int| 0 <= b < t.len() && t[b].0 == other;
                    assert(b < table.len());
                    assert(table[b].0 == other);
                }
            }
        }
    }
}

/// The table that adding each item under its key, in order, builds from
/// an empty one.
pub open spec fn built_table<T>(adds: Seq<(Seq<char>, T)>) -> Seq<(Seq<char>, Seq<T>)>
    decreases adds.len(),
{
    if adds.len() == 0 {
        Seq::empty()
    } else {
        table_add(built_table(adds.drop_last()), adds.last().0, adds.last().1)
    }
}

/// The keys a table lists, in order.
pub open spec fn table_keys<T>(table: Seq<(Seq<char>, Seq<T>)>) -> Seq<Seq<char>> {
    table.map_values(|e: (Seq<char>, Seq<T>)| e.0)
}

/// A table built from nothing lists each key that was added exactly once,
/// and no other key.
pub proof fn lemma_built_table_keys<T>(adds: Seq<(Seq<char>, T)>)
    ensures
        table_keys_distinct(built_table(adds)),
        table_keys(built_table(adds)).no_duplicates(),
        table_keys(built_table(adds)).to_set() == adds.map_values(|a: (Seq<char>, T)| a.0).to_set(),
    decreases adds.len(),
{
    let t = built_table(adds);
    let added = adds.map_values(|a: (Seq<char>, T)| a.0);
    if adds.len() == 0 {
        assert(table_keys(t).to_set() =~= Set::empty());
        assert(added.to_set() =~= Set::empty());
    } else {
        let pre = adds.drop_last();
        let b = built_table(pre);
        let key = adds.last().0;
        let item = adds.last().1;
        lemma_built_table_keys(pre);
        lemma_table_add(b, key, item, key);
        let pre_added = pre.map_values(|a: (Seq<char>, T)| a.0);
        assert(added =~= pre_added.push(key));
        if exists|i: int| 0 <= i < b.len() && b[i].0 == key {
            let i = table_key_index(b, key);
            assert(table_keys(t) =~= table_keys(b));
            assert(table_keys(b)[i] == key);
            assert(added.to_set() =~= pre_added.to_set()) by {
                assert(pre_added.to_set().contains(key)) by {
                    assert(table_keys(b).to_set().contains(key));
                }
                assert forall|x: Seq<char>| added.to_set().contains(x) implies pre_added.to_set().contains(x) by {
                    let j = choose|j: int| 0 <= j < added.len() && added[j] == x;
                    if j < pre_added.len() {
                        assert(pre_added[j] == x);
                    }
                }
                assert forall|x: Seq<char>| pre_added.to_set().contains(x) implies added.to_set().contains(x) by {
                    let j = choose|j: int| 0 <= j < pre_added.len() && pre_added[j] == x;
                    assert(added[j] == x);
                }
            }
        } else {
            assert(table_keys(t) =~= table_keys(b).push(key));
            assert forall|x: Seq<char>| added.to_set().contains(x) <==> table_keys(t).to_set().contains(x) by {
                if added.to_set().contains(x) {
                    let j = choose|j: int| 0 <= j < added.len() && added[j] == x;
                    if j < pre_added.len() {
                        assert(pre_added[j] == x);
                        assert(pre_added.to_set().contains(x));
                        assert(table_keys(b).to_set().contains(x));
                        let m = choose|m: int| 0 <= m < table_keys(b).len() && table_keys(b)[m] == x;
                        assert(table_keys(t)[m] == x);
                    } else {
                        assert(table_keys(t)[b.len() as int] == x);
                    }
                }
                if table_keys(t).to_set().contains(x) {
                    let m = choose|m: int| 0 <= m < table_keys(t).len() && table_keys(t)[m] == x;
                    if m < b.len() {
                        assert(table_keys(b)[m] == x);
                        assert(table_keys(b).to_set().contains(x));
                        assert(pre_added.to_set().contains(x));
                        let j = choose|j: int| 0 <= j < pre_added.len() && pre_added[j] == x;
                        assert(added[j] == x);
                    } else {
                        assert(added[pre_added.len() as int] == x);
                    }
                }
            }
            assert(table_keys(t).to_set() =~= added.to_set());
        }
    }
    assert(table_keys(t).no_duplicates()) by {
        assert forall|i: int, j: int| 0 <= i < table_keys(t).len() && 0 <= j < table_keys(t).len() && i != j
            implies table_keys(t)[i] != table_keys(t)[j] by {
            if i < j {
                assert(t[i].0 != t[j].0);
            } else {
                assert(t[j].0 != t[i].0);
            }
        }
    }
}

/// The view of a table entry.
pub open spec fn entry_view<T: View>(e: (String, Vec<T>)) -> (Seq<char>, Seq<T::V>) {
    (e.0@, e.1@.map_values(|t: T| t@))
}

/// Adds `item` under `key` in a table of lists, creating the entry at the
/// end when the key is absent.
fn add_to_table<T: View>(table: &mut Vec<(String, Vec<T>)>, key: String, item: T)
    requires
        table_keys_distinct(old(table)@.map_values(|e: (String, Vec<T>)| entry_view(e))),
    ensures
        table_keys_distinct(final(table)@.map_values(|e: (String, Vec<T>)| entry_view(e))),
        final(table)@.map_values(|e: (String, Vec<T>)| entry_view(e))
            == table_add(old(table)@.map_values(|e: (String, Vec<T>)| entry_view(e)), key@, item@),
{
    let ghost before = table@.map_values(|e: (String, Vec<T>)| entry_view(e));
    let mut i: usize = 0;
    while i < table.len()
        invariant
            i <= table.len(),
            before == table@.map_values(|e: (String, Vec<T>)| entry_view(e)),
            before == old(table)@.map_values(|e: (String, Vec<T>)| entry_view(e)),
            table_keys_distinct(before),
            forall|j: int| 0 <= j < i ==> before[j].0 != key@,
        decreases table.len() - i,
    {
        assert(before[i as int] == entry_view(table@[i as int]));
        if same_text(table[i].0.as_str(), key.as_str()) {
            proof {
                assert(before[i as int].0 == key@);
                let k = table_key_index(before, key@);
                assert(k == i as int) by {
                    if k != i as int {
                        assert(before[k].0 == before[i as int].0);
                    }
                }
            }
            let (k, mut items) = table.remove(i);
            let ghost old_items = items@;
            items.push(item);
            table.insert(i, (k, items));
            proof {
                let after = table@.map_values(|e: (String, Vec<T>)| entry_view(e));
                assert(items@.map_values(|t: T| t@) =~= old_items.map_values(|t: T| t@).push(item@));
                assert(after =~= before.update(i as int, (key@, before[i as int].1.push(item@))));
                assert(after == table_add(before, key@, item@));
                assert(before == old(table)@.map_values(|e: (String, Vec<T>)| entry_view(e)));
                assert(table@.map_values(|e: (String, Vec<T>)| entry_view(e))
                    == table_add(old(table)@.map_values(|e: (String, Vec<T>)| entry_view(e)), key@, item@));
            }
            return;
        }
        i += 1;
    }
    let mut items = Vec::new();
    items.push(item);
    table.push((key, items));
    proof {
        let after = table@.map_values(|e: (String, Vec<T>)| entry_view(e));
        assert(items@.map_values(|t: T| t@) =~= seq![item@]);
        assert(after =~= before.push((key@, seq![item@])));
    }
}

/// Trigger table for compiled graph execution: for each node, its outgoing
/// edges and the sources that trigger it, each node listed once, in the
/// order in which it was first added.
#[derive(Clone, Debug)]
pub struct TriggerTable {
    outgoing: Vec<(String, Vec<CompiledEdge>)>,
    incoming: Vec<(String, Vec<TriggerSource>)>,
}

impl TriggerTable {
    /// Outgoing edges per node.
    pub closed spec fn outgoing_view(&self) -> Seq<(Seq<char>, Seq<CompiledEdgeView>)> {
        self.outgoing@.map_values(|e: (String, Vec<CompiledEdge>)| entry_view(e))
    }

    /// Incoming trigger sources per node.
    pub closed spec fn incoming_view(&self) -> Seq<(Seq<char>, Seq<TriggerSourceView>)> {
        self.incoming@.map_values(|e: (String, Vec<TriggerSource>)| entry_view(e))
    }

    /// Each node is listed once on each side.
    pub open spec fn wf(&self) -> bool {
        table_keys_distinct(self.outgoing_view()) && table_keys_distinct(self.incoming_view())
    }

    /// Create a new empty trigger table
    pub fn new() -> (t: Self)
        ensures
            t.wf(),
            t.outgoing_view().len() == 0,
            t.incoming_view().len() == 0,
    {
        TriggerTable { outgoing: Vec::new(), incoming: Vec::new() }
    }

    /// Add an outgoing edge for a node
    pub fn add_outgoing(&mut self, from: String, edge: CompiledEdge)
        requires
            old(self).wf(),
        ensures
            final(self).wf(),
            final(self).outgoing_view() == table_add(old(self).outgoing_view(), from@, edge@),
            final(self).incoming_view() == old(self).incoming_view(),
    {
        add_to_table(&mut self.outgoing, from, edge);
    }

    /// Add an incoming trigger for a node
    pub fn add_incoming(&mut self, to: String, source: TriggerSource)
        requires
            old(self).wf(),
        ensures
            final(self).wf(),
            final(self).incoming_view() == table_add(old(self).incoming_view(), to@, source@),
            final(self).outgoing_view() == old(self).outgoing_view(),
    {
        add_to_table(&mut self.incoming, to, source);
    }

    /// Outgoing edges, per node.
    pub fn outgoing(&self) -> (v: &Vec<(String, Vec<CompiledEdge>)>)
        ensures
            v@.map_values(|e: (String, Vec<CompiledEdge>)| entry_view(e)) == self.outgoing_view(),
    {
        &self.outgoing
    }

    /// Incoming trigger sources, per node.
    pub fn incoming(&self) -> (v: &Vec<(String, Vec<TriggerSource>)>)
        ensures
            v@.map_values(|e: (String, Vec<TriggerSource>)| entry_view(e)) == self.incoming_view(),
    {
        &self.incoming
    }

    /// Laws of the table's two sides: a table that `new` started and a run
    /// of `add_outgoing` and `add_incoming` calls filled has, as its
    /// outgoing side, the table built from the `add_outgoing` calls alone
    /// (and as its incoming side the one built from the `add_incoming`
    /// calls); `sources` then yields each node passed to `add_outgoing`
    /// exactly once and no other, and `targets` each node passed to
    /// `add_incoming` exactly once and no other.
    pub proof fn lemma_sides_list_added_nodes(
        &self,
        outgoing_adds: Seq<(Seq<char>, CompiledEdgeView)>,
        incoming_adds: Seq<(Seq<char>, TriggerSourceView)>,
    )
        requires
            self.outgoing_view() == built_table(outgoing_adds),
            self.incoming_view() == built_table(incoming_adds),
        ensures
            self.wf(),
            table_keys(self.outgoing_view()).no_duplicates(),
            table_keys(self.outgoing_view()).to_set() == outgoing_adds.map_values(|a: (Seq<char>, CompiledEdgeView)| a.0).to_set(),
            table_keys(self.incoming_view()).no_duplicates(),
            table_keys(self.incoming_view()).to_set() == incoming_adds.map_values(|a: (Seq<char>, TriggerSourceView)| a.0).to_set(),
    {
        lemma_built_table_keys(outgoing_adds);
        lemma_built_table_keys(incoming_adds);
    }

    /// A new table is the one built from no calls, and each `add_outgoing`
    /// (or `add_incoming`) call extends the calls its side was built from by
    /// that one.
    pub proof fn lemma_built_by_adds<T>(adds: Seq<(Seq<char>, T)>, key: Seq<char>, item: T)
        ensures
            built_table(Seq::<(Seq<char>, T)>::empty()) == Seq::<(Seq<char>, Seq<T>)>::empty(),
            built_table(adds.push((key, item))) == table_add(built_table(adds), key, item),
    {
        assert(adds.push((key, item)).drop_last() =~= adds);
    }

    /// All nodes that have outgoing edges
    pub fn sources(&self) -> (v: Vec<&String>)
        ensures
            v@.map_values(|r: &String| r@) == table_keys(self.outgoing_view()),
            v.len() == self.outgoing_view().len(),
            forall|k: int| 0 <= k < v.len() ==> #[trigger] v@[k]@ == self.outgoing_view()[k].0,
    {
        let mut v: Vec<&String> = Vec::new();
        let mut i: usize = 0;
        while i < self.outgoing.len()
            invariant
                i <= self.outgoing.len(),
                v.len() == i,
                forall|k: int| 0 <= k < i ==> #[trigger] v@[k]@ == self.outgoing_view()[k].0,
            decreases self.outgoing.len() - i,
        {
            let ghost old_v = v@;
            v.push(&self.outgoing[i].0);
            assert(v@ == old_v.push(&self.outgoing@[i as int].0));
            assert(self.outgoing_view()[i as int] == entry_view(self.outgoing@[i as int]));
            i += 1;
        }
        v
    }

    /// All nodes that have incoming edges
    pub fn targets(&self) -> (v: Vec<&String>)
        ensures
            v@.map_values(|r: &String| r@) == table_keys(self.incoming_view()),
            v.len() == self.incoming_view().len(),
            forall|k: int| 0 <= k < v.len() ==> #[trigger] v@[k]@ == self.incoming_view()[k].0,
    {
        let mut v: Vec<&String> = Vec::new();
        let mut i: usize = 0;
        while i < self.incoming.len()
            invariant
                i <= self.incoming.len(),
                v.len() == i,
                forall|k: int| 0 <= k < i ==> #[trigger] v@[k]@ == self.incoming_view()[k].0,
            decreases self.incoming.len() - i,
        {
            let ghost old_v = v@;
            v.push(&self.incoming[i].0);
            assert(v@ == old_v.push(&self.incoming@[i as int].0));
            assert(self.incoming_view()[i as int] == entry_view(self.incoming@[i as int]));
            i += 1;
        }
        v
    }
}

} // verus!
