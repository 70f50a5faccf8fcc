//! Checkpoint namespaces, checkpoint errors and identifiers, and the small
//! records that describe checkpoints.
use vstd::prelude::*;
use crate::text::same_text;
use crate::func::hex_digits;
use crate::text::{
    join, lemma_join_split, lemma_split_join, push_str, seq_join, split, split_on, to_owned_string, views,
};

verus! {

/// Separator used between namespace segments in checkpoint namespace strings.
pub const CHECKPOINT_NS_SEPARATOR: &'static str = "|";

/// The separator character of namespace strings.
pub open spec fn ns_sep() -> char {
    '|'
}

/// Checkpoint operation errors
#[derive(Clone, Debug)]
pub enum CheckpointError {
    /// Serialization failed
    Serialize(String),
    /// Deserialization failed
    Deserialize(String),
    /// Checkpoint not found
    NotFound {
        /// Thread identifier
        thread_id: String,
        /// Checkpoint identifier
        checkpoint_id: String,
    },
    /// Storage operation error
    Storage(String),
    /// Other checkpoint errors
    Other(String),
}

/// The message of a checkpoint error.
pub open spec fn checkpoint_error_text(e: CheckpointError) -> Seq<char> {
    match e {
        CheckpointError::Serialize(m) => "Serialization failed: "@ + m@,
        CheckpointError::Deserialize(m) => "Deserialization failed: "@ + m@,
        CheckpointError::NotFound { thread_id, checkpoint_id } => "Checkpoint not found: thread="@ + thread_id@
            + ", id="@ + checkpoint_id@,
        CheckpointError::Storage(m) => "Storage error: "@ + m@,
        CheckpointError::Other(m) => "Checkpoint error: "@ + m@,
    }
}

impl CheckpointError {
    /// The error message.
    pub fn to_string(&self) -> (s: String)
        ensures
            s@ == checkpoint_error_text(*self),
    {
        match self {
            CheckpointError::Serialize(m) => {
                let mut s = to_owned_string("Serialization failed: ");
                push_str(&mut s, m.as_str());
                s
            },
            CheckpointError::Deserialize(m) => {
                let mut s = to_owned_string("Deserialization failed: ");
                push_str(&mut s, m.as_str());
                s
            },
            CheckpointError::NotFound { thread_id, checkpoint_id } => {
                let mut s = to_owned_string("Checkpoint not found: thread=");
                push_str(&mut s, thread_id.as_str());
                push_str(&mut s, ", id=");
                push_str(&mut s, checkpoint_id.as_str());
                s
            },
            CheckpointError::Storage(m) => {
                let mut s = to_owned_string("Storage error: ");
                push_str(&mut s, m.as_str());
                s
            },
            CheckpointError::Other(m) => {
                let mut s = to_owned_string("Checkpoint error: ");
                push_str(&mut s, m.as_str());
                s
            },
        }
    }
}

/// The text of a namespace made of these segments.
pub open spec fn ns_text(segments: Seq<Seq<char>>) -> Seq<char> {
    seq_join(segments, seq![ns_sep()])
}

/// The segments a namespace string stands for: none for the empty string,
/// else the pieces between separators.
pub open spec fn ns_parse(s: Seq<char>) -> Seq<Seq<char>> {
    if s.len() == 0 {
        Seq::empty()
    } else {
        split_on(s, ns_sep())
    }
}

/// Namespace for checkpoint isolation in subgraph execution
#[derive(Clone, Debug, Hash)]
pub struct CheckpointNamespace {
    /// Namespace segments forming a hierarchical path
    pub segments: Vec<String>,
}

impl View for CheckpointNamespace {
    type V = Seq<Seq<char>>;

    open spec fn view(&self) -> Seq<Seq<char>> {
        views(self.segments@)
    }
}

impl CheckpointNamespace {
    /// Create a new root namespace (empty path)
    pub fn root() -> (ns: Self)
        ensures
            ns@ == Seq::<Seq<char>>::empty(),
    {
        let ns = CheckpointNamespace { segments: Vec::new() };
        assert(ns@ =~= Seq::<Seq<char>>::empty());
        ns
    }

    /// Create a namespace from segments
    pub fn new(segments: Vec<String>) -> (ns: Self)
        ensures
            ns.segments == segments,
    {
        CheckpointNamespace { segments }
    }

    /// Create a child namespace
    pub fn child(&self, name: &str) -> (ns: Self)
        ensures
            ns@ == self@.push(name@),
    {
        let mut segments = crate::graph::builder::copy_strings(&self.segments);
        let ghost before = segments@;
        segments.push(to_owned_string(name));
        let ns = CheckpointNamespace { segments };
        assert(ns@ =~= views(before).push(name@));
        ns
    }

    /// Get the parent namespace: `None` at the root.
    pub fn parent(&self) -> (r: Option<Self>)
        ensures
            self@.len() == 0 ==> r is None,
            self@.len() > 0 ==> (r matches Some(p) && p@ == self@.drop_last()),
    {
        if self.segments.len() == 0 {
            None
        } else {
            let n = self.segments.len() - 1;
            let mut segments: Vec<String> = Vec::new();
            let mut i: usize = 0;
            while i < n
                invariant
                    n == self.segments.len() - 1,
                    i <= n,
                    segments@ == self.segments@.take(i as int),
                decreases n - i,
            {
                segments.push(self.segments[i].clone());
                assert(segments@ =~= self.segments@.take(i + 1));
                i += 1;
            }
            let p = CheckpointNamespace { segments };
            assert(p@ =~= self@.drop_last());
            Some(p)
        }
    }

    /// Check if this is a root namespace
    pub fn is_root(&self) -> (b: bool)
        ensures
            b == (self@.len() == 0),
    {
        self.segments.len() == 0
    }

    /// The segments joined by the separator.
    pub fn as_str(&self) -> (s: String)
        ensures
            s@ == ns_text(self@),
    {
        proof {
            reveal_strlit("|");
            assert(CHECKPOINT_NS_SEPARATOR@ =~= seq![ns_sep()]);
        }
        let s = join(&self.segments, CHECKPOINT_NS_SEPARATOR);
        assert(self.segments@.map_values(|p: String| p@) =~= self@);
        s
    }

    /// Convert to string representation (the same as `as_str`)
    pub fn to_string(&self) -> (s: String)
        ensures
            s@ == ns_text(self@),
    {
        self.as_str()
    }

    /// Parse from string representation: the empty string is the root,
    /// any other string splits on the separator.
    pub fn parse(s: &str) -> (ns: Self)
        ensures
            ns@ == ns_parse(s@),
    {
        if s.is_empty() {
            Self::root()
        } else {
            let pieces = split(s, '|');
            let ns = CheckpointNamespace { segments: pieces };
            assert(ns@ =~= split_on(s@, '|'));
            ns
        }
    }
}

impl Default for CheckpointNamespace {
    /// The root namespace.
    fn default() -> (ns: Self)
        ensures
            ns@ == Seq::<Seq<char>>::empty(),
    {
        Self::root()
    }
}

impl PartialEq for CheckpointNamespace {
    fn eq(&self, other: &Self) -> (r: bool) {
        if self.segments.len() != other.segments.len() {
            assert(self@.len() != other@.len());
            return false;
        }
        let mut i: usize = 0;
        while i < self.segments.len()
            invariant
                self.segments.len() == other.segments.len(),
                i <= self.segments.len(),
                forall|k: int| 0 <= k < i ==> self@[k] == other@[k],
            decreases self.segments.len() - i,
        {
            if !same_text(self.segments[i].as_str(), other.segments[i].as_str()) {
                assert(self@[i as int] == self.segments@[i as int]@);
                assert(other@[i as int] == other.segments@[i as int]@);
                assert(self@[i as int] != other@[i as int]);
                return false;
            }
            i += 1;
        }
        assert(self@ =~= other@);
        true
    }
}

impl vstd::std_specs::cmp::PartialEqSpecImpl for CheckpointNamespace {
    open spec fn obeys_eq_spec() -> bool {
        true
    }

    open spec fn eq_spec(&self, other: &Self) -> bool {
        self@ == other@
    }
}

impl Eq for CheckpointNamespace {
}

impl From<Vec<String>> for CheckpointNamespace {
    fn from(segments: Vec<String>) -> (ns: Self) {
        Self::new(segments)
    }
}

impl vstd::std_specs::convert::FromSpecImpl<Vec<String>> for CheckpointNamespace {
    open spec fn obeys_from_spec() -> bool {
        true
    }

    open spec fn from_spec(segments: Vec<String>) -> Self {
        CheckpointNamespace { segments }
    }
}

impl<'a> From<&'a str> for CheckpointNamespace {
    fn from(s: &'a str) -> (ns: Self)
        ensures
            ns@ == ns_parse(s@),
    {
        Self::parse(s)
    }
}

impl<'a> vstd::std_specs::convert::FromSpecImpl<&'a str> for CheckpointNamespace {
    open spec fn obeys_from_spec() -> bool {
        false
    }

    open spec fn from_spec(s: &'a str) -> Self {
        choose|ns: CheckpointNamespace| ns@ == ns_parse(s@)
    }
}

/// Printing a parsed namespace gives back the string it was parsed from.
pub proof fn lemma_ns_text_of_parse(s: Seq<char>)
    ensures
        ns_text(ns_parse(s)) == s,
{
    if s.len() > 0 {
        lemma_join_split(s, ns_sep());
    }
}

/// Parsing a printed namespace gives back its segments, when no segment
/// holds the separator and the namespace is not the single empty segment
/// (which prints like the root).
pub proof fn lemma_ns_parse_of_text(segments: Seq<Seq<char>>)
    requires
        forall|i: int| 0 <= i < segments.len() ==> !(#[trigger] segments[i]).contains(ns_sep()),
        segments != seq![Seq::<char>::empty()],
    ensures
        ns_parse(ns_text(segments)) == segments,
{
    if segments.len() == 0 {
    } else {
        lemma_split_join(segments, ns_sep());
        if ns_text(segments).len() == 0 {
            lemma_ns_text_empty(segments);
            assert(false);
        }
    }
}

/// A namespace of two or more segments, or of one non-empty segment,
/// prints as a non-empty string.
proof fn lemma_ns_text_empty(segments: Seq<Seq<char>>)
    requires
        segments.len() >= 1,
        ns_text(segments).len() == 0,
    ensures
        segments == seq![Seq::<char>::empty()],
{
    if segments.len() >= 2 {
        assert(ns_text(segments) == seq_join(segments.drop_last(), seq![ns_sep()]) + seq![ns_sep()]
            + segments.last());
        assert(false);
    } else {
        assert(ns_text(segments) == segments[0]);
        assert(segments[0] =~= Seq::<char>::empty());
        assert(segments =~= seq![Seq::<char>::empty()]);
    }
}

/// The parent of a child namespace is the namespace it was made from.
pub proof fn lemma_child_parent(ns: Seq<Seq<char>>, name: Seq<char>)
    ensures
        ns.push(name).len() > 0,
        ns.push(name).drop_last() == ns,
{
    assert(ns.push(name).drop_last() =~= ns);
}

/// Single namespace segment with node name and invocation UUID
#[derive(Clone, Debug)]
pub struct NamespaceSegment {
    /// Node name for this segment
    pub node_name: String,
    /// Unique invocation identifier (UUID v4)
    pub invocation_id: String,
}

impl NamespaceSegment {
    /// Create a new namespace segment
    pub fn new(node_name: String, invocation_id: String) -> (s: Self)
        ensures
            s.node_name == node_name,
            s.invocation_id == invocation_id,
    {
        NamespaceSegment { node_name, invocation_id }
    }

    /// The segment in the format `node_name:invocation_id`.
    pub fn as_str(&self) -> (s: String)
        ensures
            s@ == self.node_name@ + ":"@ + self.invocation_id@,
    {
        let mut s = self.node_name.clone();
        push_str(&mut s, ":");
        push_str(&mut s, self.invocation_id.as_str());
        s
    }
}

/// Delta tracking counters for a channel
#[derive(Clone, Copy, Debug)]
pub struct DeltaCounters {
    /// Number of updates since last snapshot
    pub updates: u64,
    /// Number of supersteps since last snapshot
    pub supersteps: u64,
}

impl DeltaCounters {
    /// Counters at zero.
    pub fn default() -> (c: Self)
        ensures
            c.updates == 0,
            c.supersteps == 0,
    {
        DeltaCounters { updates: 0, supersteps: 0 }
    }
}

/// Source of checkpoint creation
#[derive(Clone, Debug, PartialEq, Eq)]
pub enum CheckpointSource {
    /// Initial state when graph execution begins
    Input,
    /// End of each superstep loop iteration
    Loop,
    /// External state update via `update_state()`
    Update,
    /// Fork from a historical checkpoint
    Fork,
    /// Interrupt triggered by human-in-the-loop interaction
    Interrupt {
        /// The interrupted node
        node: String,
    },
}

/// Delta operation type
#[derive(Clone, Copy, Debug, PartialEq, Eq, Structural)]
pub enum DeltaOp {
    /// Append values to existing channel data
    Append,
    /// Replace entire channel data
    Replace,
}

/// Checkpoint listing filter
#[derive(Clone, Debug)]
pub struct CheckpointFilter {
    /// Filter by checkpoint source
    pub source: Option<CheckpointSource>,
    /// Minimum step number (inclusive)
    pub step_gte: Option<i64>,
    /// Maximum step number (inclusive)
    pub step_lte: Option<i64>,
    /// Only checkpoints before this `checkpoint_id`
    pub before: Option<String>,
    /// Only checkpoints after this `checkpoint_id`
    pub after: Option<String>,
    /// Maximum number of checkpoints to return
    pub limit: Option<usize>,
}

impl CheckpointFilter {
    /// A filter that keeps every checkpoint.
    pub fn default() -> (f: Self)
        ensures
            f.source is None,
            f.step_gte is None,
            f.step_lte is None,
            f.before is None,
            f.after is None,
            f.limit is None,
    {
        CheckpointFilter { source: None, step_gte: None, step_lte: None, before: None, after: None, limit: None }
    }
}

/// A lower-case hexadecimal digit.
pub open spec fn is_lower_hex(c: char) -> bool {
    ('0' <= c <= '9') || ('a' <= c <= 'f')
}

/// Whether position `i` of a hyphenated UUID holds a digit (not a hyphen).
pub open spec fn uuid_digit_position(i: int) -> bool {
    0 <= i < 36 && i != 8 && i != 13 && i != 18 && i != 23
}

/// A hyphenated lower-case UUID text: 36 characters, hyphens at positions
/// 8, 13, 18 and 23, lower-case hexadecimal digits everywhere else.
pub open spec fn is_hyphenated_uuid(s: Seq<char>) -> bool {
    &&& s.len() == 36
    &&& s[8] == '-'
    &&& s[13] == '-'
    &&& s[18] == '-'
    &&& s[23] == '-'
    &&& forall|i: int| uuid_digit_position(i) ==> is_lower_hex(#[trigger] s[i])
}

/// A hyphenated lower-case UUID text of the given version whose variant
/// is the standard one: the version digit at position 14, and one of `8`,
/// `9`, `a`, `b` at position 19.
pub open spec fn is_uuid_of_version(s: Seq<char>, version: char) -> bool {
    &&& is_hyphenated_uuid(s)
    &&& s[14] == version
    &&& (s[19] == '8' || s[19] == '9' || s[19] == 'a' || s[19] == 'b')
}

/// The twelve hexadecimal digits of a six-byte node id, two per byte, in
/// order.
pub open spec fn node_hex(node: Seq<u8>) -> Seq<char> {
    hex_digits(node[0] as nat, 2) + hex_digits(node[1] as nat, 2) + hex_digits(node[2] as nat, 2) + hex_digits(
        node[3] as nat,
        2,
    ) + hex_digits(node[4] as nat, 2) + hex_digits(node[5] as nat, 2)
}

/// `rand::random::<[u8; 6]>()`: six random bytes.
#[verifier::external_body]
fn random_node_id() -> (r: [u8; 6]) {
    rand::random()
}

/// `uuid::Uuid::now_v6(node_id)`, printed: a version 6 UUID made from the
/// current time and the node id, in hyphenated lower-case form. The version
/// digit is `6`, the variant bits are `10`, and the last twelve digits are
/// the node id's bytes; the time and clock sequence digits are not stated.
#[verifier::external_body]
fn uuid_now_v6_text(node_id: &[u8; 6]) -> (s: String)
    ensures
        is_uuid_of_version(s@, '6'),
        s@.subrange(24, 36) == node_hex(node_id@),
{
    uuid::Uuid::now_v6(node_id).to_string()
}

/// Generate a new time-ordered checkpoint ID (a version 6 UUID with a
/// random node id).
pub fn generate_checkpoint_id() -> (s: String)
    ensures
        is_uuid_of_version(s@, '6'),
        exists|node: Seq<u8>| node.len() == 6 && s@.subrange(24, 36) == #[trigger] node_hex(node),
{
    let node_id = random_node_id();
    uuid_now_v6_text(&node_id)
}

} // verus!
