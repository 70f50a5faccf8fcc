//! Human-in-the-loop support: interrupt identifiers and namespaces, hidden
//! nodes, the interrupt decision taken before a superstep, resume values,
//! and the scratchpad that records interrupts.
use vstd::prelude::*;
use vstd::string::StrSliceExecFns;
use crate::func::{hex32, hex_digits, lemma_hex_digits_shape};
use crate::text::{decimal, decimal_usize, ends_with, has_prefix, has_suffix, same_text, starts_with, views};
use crate::hashing::{xxh3_hasher_digest, HashPiece, Xxh3PieceHasher};

verus! {

/// `chrono::Utc::now()`, as microseconds since the Unix epoch.
#[verifier::external_body]
fn utc_now_micros() -> (t: i64) {
    chrono::Utc::now().timestamp_micros()
}

/// Tag used to mark nodes that are hidden from external consumers
pub const HIDDEN_TAG: &'static str = "__hidden__";

/// The position of the first `c` in `s`, if any.
pub open spec fn first_index_of(s: Seq<char>, c: char) -> Option<int>
    decreases s.len(),
{
    if s.len() == 0 {
        None
    } else if s[0] == c {
        Some(0)
    } else {
        match first_index_of(s.drop_first(), c) {
            Some(i) => Some(i + 1),
            None => None,
        }
    }
}

/// The namespace of an interrupt id: the text before its first `:`, when
/// that text is not empty.
pub open spec fn namespace_of(id: Seq<char>) -> Option<Seq<char>> {
    match first_index_of(id, ':') {
        Some(i) => if i > 0 {
            Some(id.take(i))
        } else {
            None
        },
        None => None,
    }
}

/// The first occurrence of `c` in `s` is at the position `i` exactly when
/// `s[i]` is `c` and no earlier character is.
proof fn lemma_first_index_of(s: Seq<char>, c: char, i: int)
    requires
        0 <= i < s.len(),
        s[i] == c,
        !s.take(i).contains(c),
    ensures
        first_index_of(s, c) == Some(i),
    decreases s.len(),
{
    if i > 0 {
        assert(s[0] == s.take(i)[0]);
        let t = s.drop_first().take(i - 1);
        assert(t =~= s.take(i).drop_first());
        if t.contains(c) {
            let k = choose|k: int| 0 <= k < t.len() && t[k] == c;
            assert(s.take(i)[k + 1] == c);
        }
        lemma_first_index_of(s.drop_first(), c, i - 1);
    }
}

/// A string without `c` has no first occurrence of it.
proof fn lemma_first_index_of_none(s: Seq<char>, c: char)
    requires
        !s.contains(c),
    ensures
        first_index_of(s, c) is None,
    decreases s.len(),
{
    if s.len() > 0 {
        let t = s.drop_first();
        if t.contains(c) {
            let k = choose|k: int| 0 <= k < t.len() && t[k] == c;
            assert(s[k + 1] == c);
        }
        lemma_first_index_of_none(s.drop_first(), c);
    }
}

/// The part of `s` before the first occurrence of `c` (as the first part
/// `str::split_once` gives): `None` when `c` does not occur.
fn text_before_first<'a>(s: &'a str, c: char) -> (r: Option<&'a str>)
    ensures
        r is None <==> !s@.contains(c),
        r matches Some(p) ==> p@.len() < s@.len() && p@ == s@.take(p@.len() as int) && !p@.contains(c)
            && s@[p@.len() as int] == c,
{
    let v = crate::text::chars_of(s);
    let mut i: usize = 0;
    while i < v.len()
        invariant
            v@ == s@,
            i <= v.len(),
            forall|k: int| 0 <= k < i ==> s@[k] != c,
        decreases v.len() - i,
    {
        if v[i] == c {
            let p = s.substring_char(0, i);
            assert(p@ =~= s@.take(i as int));
            assert(!p@.contains(c)) by {
                if p@.contains(c) {
                    let k = choose|k: int| 0 <= k < p@.len() && p@[k] == c;
                    assert(s@[k] == c);
                }
            }
            return Some(p);
        }
        i += 1;
    }
    assert(!s@.contains(c)) by {
        if s@.contains(c) {
            let k = choose|k: int| 0 <= k < s@.len() && s@[k] == c;
            assert(s@[k] != c);
        }
    }
    None
}

/// Extract the namespace from an interrupt ID: the text before the first
/// `:`, when there is such text.
pub fn extract_namespace(interrupt_id: &str) -> (r: Option<&str>)
    ensures
        match r {
            Some(ns) => namespace_of(interrupt_id@) == Some(ns@),
            None => namespace_of(interrupt_id@) is None,
        },
{
    match text_before_first(interrupt_id, ':') {
        Some(prefix) => {
            proof {
                lemma_first_index_of(interrupt_id@, ':', prefix@.len() as int);
            }
            if prefix.is_empty() {
                None
            } else {
                Some(prefix)
            }
        },
        None => {
            proof {
                lemma_first_index_of_none(interrupt_id@, ':');
            }
            None
        },
    }
}

/// Whether a node name marks a hidden node: it starts and ends with `__`
/// and is longer than four bytes.
pub open spec fn hidden_text(name: Seq<char>) -> bool {
    has_prefix(name, "__"@) && has_suffix(name, "__"@) && (vstd::utf8::encode_utf8(name).len() as usize) > 4
}

/// Whether a node is hidden: by its name, or because its tags hold the
/// hidden tag.
pub open spec fn hidden(name: &str, tags: Seq<String>) -> bool {
    hidden_text(name@) || views(tags).contains(HIDDEN_TAG@)
}

/// Whether a node name marks a hidden node.
fn hidden_name(node_name: &str) -> (b: bool)
    ensures
        b == hidden_text(node_name@),
{
    starts_with(node_name, "__") && ends_with(node_name, "__") && node_name.len() > 4
}

/// Check if a node name indicates a hidden (internal) node.
pub fn is_hidden_node(node_name: &str, tags: &[String]) -> (b: bool)
    ensures
        b == hidden(node_name, tags@),
{
    let by_name = hidden_name(node_name);
    let mut by_tag = false;
    let mut i: usize = 0;
    while i < tags.len()
        invariant
            i <= tags.len(),
            by_tag == views(tags@.take(i as int)).contains(HIDDEN_TAG@),
        decreases tags.len() - i,
    {
        let ghost before = views(tags@.take(i as int));
        proof {
            let t = views(tags@.take(i + 1));
            assert(t =~= before.push(tags@[i as int]@));
            if before.contains(HIDDEN_TAG@) {
                let k = choose|k: int| 0 <= k < before.len() && before[k] == HIDDEN_TAG@;
                assert(t[k] == HIDDEN_TAG@);
            }
            if t.contains(HIDDEN_TAG@) {
                let k = choose|k: int| 0 <= k < t.len() && t[k] == HIDDEN_TAG@;
                if k < i {
                    assert(before[k] == HIDDEN_TAG@);
                }
            }
            if tags@[i as int]@ == HIDDEN_TAG@ {
                assert(t[i as int] == HIDDEN_TAG@);
            }
        }
        let here = same_text(tags[i].as_str(), HIDDEN_TAG);
        by_tag = by_tag || here;
        i += 1;
    }
    assert(tags@.take(tags.len() as int) =~= tags@);
    by_name || by_tag
}

/// Signal sent when a node requests interruption
#[derive(Clone, Debug)]
pub struct InterruptSignal {
    /// Interrupt index (for position-based resume)
    pub index: usize,
    /// Optional named interrupt ID (for ID-based resume)
    pub id: Option<String>,
    /// Interrupt payload (human-readable context)
    pub payload: serde_json::Value,
    /// When the interrupt was created, in microseconds since the Unix epoch
    pub timestamp: i64,
}

/// Record of an interrupt event for audit trail purposes
#[derive(Clone, Debug)]
pub struct InterruptRecord {
    /// Unique identifier for this interrupt
    pub id: String,
    /// Node name where the interrupt occurred
    pub node: String,
    /// Payload associated with the interrupt
    pub payload: serde_json::Value,
    /// When the interrupt was created, in microseconds since the Unix epoch
    pub timestamp: i64,
    /// When the interrupt was resumed (None if still pending)
    pub resumed_at: Option<i64>,
    /// Value provided when resuming (None if still pending)
    pub resume_value: Option<serde_json::Value>,
}

/// The keys of an association list of resume values.
pub open spec fn resume_keys(rv: Seq<(String, serde_json::Value)>) -> Seq<Seq<char>> {
    rv.map_values(|e: (String, serde_json::Value)| e.0@)
}

/// The ids of the pending interrupts that no resume value covers, in
/// order; interrupts without an id are not counted.
pub open spec fn uncovered_ids(pending: Seq<InterruptSignal>, keys: Seq<Seq<char>>) -> Seq<Seq<char>>
    decreases pending.len(),
{
    if pending.len() == 0 {
        Seq::empty()
    } else {
        let rest = uncovered_ids(pending.drop_last(), keys);
        match pending.last().id {
            Some(id) => if keys.contains(id@) {
                rest
            } else {
                rest.push(id@)
            },
            None => rest,
        }
    }
}

/// Validate that resume values cover all pending interrupts: the error
/// lists the ids left uncovered.
pub fn validate_resume_coverage(
    pending: &[InterruptSignal],
    resume_values: &Vec<(String, serde_json::Value)>,
) -> (r: Result<(), Vec<String>>)
    ensures
        r is Ok <==> uncovered_ids(pending@, resume_keys(resume_values@)).len() == 0,
        r matches Err(v) ==> views(v@) == uncovered_ids(pending@, resume_keys(resume_values@)),
{
    let ghost keys = resume_keys(resume_values@);
    let mut uncovered: Vec<String> = Vec::new();
    let mut i: usize = 0;
    while i < pending.len()
        invariant
            keys == resume_keys(resume_values@),
            i <= pending.len(),
            views(uncovered@) == uncovered_ids(pending@.take(i as int), keys),
        decreases pending.len() - i,
    {
        assert(pending@.take(i + 1).drop_last() =~= pending@.take(i as int));
        assert(pending@.take(i + 1).last() == pending@[i as int]);
        match &pending[i].id {
            Some(id) => {
                if !has_key(resume_values, id.as_str()) {
                    let ghost before = uncovered@;
                    uncovered.push(id.clone());
                    assert(views(uncovered@) =~= views(before).push(id@));
                }
            },
            None => {},
        }
        i += 1;
    }
    assert(pending@.take(pending.len() as int) =~= pending@);
    if uncovered.len() == 0 {
        Ok(())
    } else {
        Err(uncovered)
    }
}

/// Whether some entry of the association list has the key `k`.
fn has_key(rv: &Vec<(String, serde_json::Value)>, k: &str) -> (b: bool)
    ensures
        b == resume_keys(rv@).contains(k@),
{
    let mut i: usize = 0;
    while i < rv.len()
        invariant
            i <= rv.len(),
            forall|j: int| 0 <= j < i ==> resume_keys(rv@)[j] != k@,
        decreases rv.len() - i,
    {
        if same_text(rv[i].0.as_str(), k) {
            assert(resume_keys(rv@)[i as int] == k@);
            return true;
        }
        i += 1;
    }
    false
}

/// Value provided when resuming from an interrupt
#[derive(Clone, Debug)]
pub enum ResumeValue {
    /// Single value for position-based resume
    Single(serde_json::Value),
    /// Resume values keyed by interrupt ID
    ById(Vec<(String, serde_json::Value)>),
    /// Resume values keyed by namespace (or by position, as decimal text)
    ByNamespace(Vec<(String, serde_json::Value)>),
}

impl ResumeValue {
    /// Resume values by position: none gives the single value null, one
    /// gives that value, more are keyed by their position in decimal.
    pub fn from_values(values: Vec<serde_json::Value>) -> (r: Self)
        ensures
            values.len() == 0 ==> r == ResumeValue::Single(crate::json::json_from_option(None)),
            values.len() == 1 ==> r == ResumeValue::Single(values@[0]),
            values.len() > 1 ==> (r matches ResumeValue::ByNamespace(m) && m.len() == values.len()
                && forall|k: int| 0 <= k < m.len() ==> (#[trigger] m@[k]).0@ == decimal(k as nat) && m@[k].1 == values@[k]),
    {
        if values.len() == 0 {
            ResumeValue::Single(crate::json::json_from_opt(None))
        } else if values.len() == 1 {
            let mut values = values;
            let v = values.remove(0);
            ResumeValue::Single(v)
        } else {
            let mut m: Vec<(String, serde_json::Value)> = Vec::new();
            let mut i: usize = 0;
            while i < values.len()
                invariant
                    i <= values.len(),
                    m.len() == i,
                    forall|k: int| 0 <= k < i ==> (#[trigger] m@[k]).0@ == decimal(k as nat) && m@[k].1 == values@[k],
                decreases values.len() - i,
            {
                m.push((decimal_usize(i), values[i].clone()));
                i += 1;
            }
            ResumeValue::ByNamespace(m)
        }
    }
}

/// A text of 32 lower-case hexadecimal digits.
pub open spec fn is_hex32(s: Seq<char>) -> bool {
    s.len() == 32 && forall|i: int| 0 <= i < 32 ==> ('0' <= #[trigger] s[i] <= '9' || 'a' <= s[i] <= 'f')
}

/// The interrupt id of a digest: its 32 lower-case hexadecimal digits.
pub fn interrupt_id_from_digest(digest: u128) -> (s: String)
    ensures
        s@ == hex_digits(digest as nat, 32),
        is_hex32(s@),
{
    proof {
        lemma_hex_digits_shape(digest as nat, 32);
    }
    hex32(digest)
}

/// What the hash of an interrupt id is computed from: the node name, then
/// the index.
pub open spec fn interrupt_id_pieces(node_name: Seq<char>, index: usize) -> Seq<HashPiece> {
    seq![HashPiece::Text(node_name), HashPiece::Usize(index)]
}

/// Generate an interrupt ID from node name and index: the `xxh3_128` hash
/// of the two, as 32 lower-case hexadecimal digits.
pub fn generate_interrupt_id(node_name: &str, index: usize) -> (s: String)
    ensures
        is_hex32(s@),
        exists|d: u128| #[trigger] xxh3_hasher_digest(d, interrupt_id_pieces(node_name@, index)) && s@ == hex_digits(d as nat, 32),
{
    let mut hasher = Xxh3PieceHasher::new();
    hasher.write_text(node_name);
    hasher.write_usize(index);
    let digest = hasher.digest128();
    assert(hasher.written() =~= interrupt_id_pieces(node_name@, index));
    interrupt_id_from_digest(digest)
}

/// Law of interrupt ids: the hash is computed from both the node name and
/// the index, so interrupts that differ in either are hashed from
/// different pieces.
pub proof fn lemma_interrupt_id_pieces(n1: Seq<char>, n2: Seq<char>, i1: usize, i2: usize)
    ensures
        interrupt_id_pieces(n1, i1) == interrupt_id_pieces(n2, i2) <==> (n1 == n2 && i1 == i2),
{
    if interrupt_id_pieces(n1, i1) == interrupt_id_pieces(n2, i2) {
        assert(interrupt_id_pieces(n1, i1)[0] == interrupt_id_pieces(n2, i2)[0]);
        assert(interrupt_id_pieces(n1, i1)[1] == interrupt_id_pieces(n2, i2)[1]);
    }
}

/// The interrupts a superstep raises, in order, as node and reason: each
/// pending task whose node is not hidden raises one before-interrupt when
/// listed to interrupt before, then one after-interrupt when listed to
/// interrupt after.
pub open spec fn planned_interrupts(
    tasks: Seq<Seq<char>>,
    before: Seq<Seq<char>>,
    after: Seq<Seq<char>>,
) -> Seq<(Seq<char>, Seq<char>)>
    decreases tasks.len(),
{
    if tasks.len() == 0 {
        Seq::empty()
    } else {
        let rest = planned_interrupts(tasks.drop_last(), before, after);
        let n = tasks.last();
        if hidden_text(n) {
            rest
        } else {
            rest + (if before.contains(n) {
                seq![(n, "interrupt_before"@)]
            } else {
                Seq::empty()
            }) + (if after.contains(n) {
                seq![(n, "interrupt_after"@)]
            } else {
                Seq::empty()
            })
        }
    }
}

/// The version last seen for a channel: that of its first entry, else 0.
pub open spec fn seen_version(seen: Seq<(String, u64)>, chan: Seq<char>) -> u64
    decreases seen.len(),
{
    if seen.len() == 0 {
        0
    } else if seen[0].0@ == chan {
        seen[0].1
    } else {
        seen_version(seen.drop_first(), chan)
    }
}

/// Whether some channel moved past the version last seen for it.
pub open spec fn any_updates(versions: Seq<(String, u64)>, seen: Seq<(String, u64)>) -> bool {
    exists|i: int| 0 <= i < versions.len() && versions[i].1 > seen_version(seen, #[trigger] versions[i].0@)
}

/// The payload of an interrupt: the node and the reason.
pub open spec fn signal_payload(node: Seq<char>, reason: Seq<char>) -> serde_json::Value {
    crate::json::json_object(Map::empty().insert("node"@, crate::json::json_string(node)).insert(
        "reason"@,
        crate::json::json_string(reason),
    ))
}

/// The signals carry the planned interrupts in order: positions as
/// indices, a hexadecimal id, and the node and reason as payload.
pub open spec fn signals_match(v: Seq<InterruptSignal>, plan: Seq<(Seq<char>, Seq<char>)>) -> bool {
    &&& v.len() == plan.len()
    &&& forall|k: int| 0 <= k < v.len() ==> {
        &&& (#[trigger] v[k]).index == k
        &&& v[k].id matches Some(id) && is_hex32(id@)
        &&& v[k].payload == signal_payload(plan[k].0, plan[k].1)
    }
}

/// Appends the interrupt signal of `node` for `reason`, numbered by its
/// position.
fn push_signal(signals: &mut Vec<InterruptSignal>, node: &str, reason: &str)
    ensures
        final(signals)@.drop_last() == old(signals)@,
        final(signals).len() == old(signals).len() + 1,
        final(signals)@.last().index == old(signals).len(),
        final(signals)@.last().id matches Some(id) && is_hex32(id@),
        final(signals)@.last().payload == signal_payload(node@, reason@),
{
    let index = signals.len();
    let id = generate_interrupt_id(node, index);
    let mut m = crate::json::json_map_new();
    crate::json::json_map_insert(&mut m, crate::text::to_owned_string("node"), crate::json::json_from_string(crate::text::to_owned_string(node)));
    crate::json::json_map_insert(&mut m, crate::text::to_owned_string("reason"), crate::json::json_from_string(crate::text::to_owned_string(reason)));
    let payload = crate::json::json_from_map(m);
    let timestamp = utc_now_micros();
    let ghost before = signals@;
    signals.push(InterruptSignal { index, id: Some(id), payload, timestamp });
    assert(signals@.drop_last() =~= before);
}

/// Check if execution should interrupt before the next superstep.
///
/// Nothing interrupts when no channel moved past the versions seen at the
/// previous interrupt (unless none were seen yet); otherwise each pending
/// task whose node is not hidden raises the interrupts its node is listed
/// for, and `None` means there were none.
pub fn should_interrupt(
    pending_tasks: &Vec<String>,
    interrupt_before: &Vec<String>,
    interrupt_after: &Vec<String>,
    channel_versions: &Vec<(String, u64)>,
    versions_seen_for_interrupt: &Vec<(String, u64)>,
) -> (r: Option<Vec<InterruptSignal>>)
    ensures
        !any_updates(channel_versions@, versions_seen_for_interrupt@) && versions_seen_for_interrupt.len() > 0
            ==> r is None,
        (any_updates(channel_versions@, versions_seen_for_interrupt@) || versions_seen_for_interrupt.len() == 0)
            ==> {
            let plan = planned_interrupts(views(pending_tasks@), views(interrupt_before@), views(interrupt_after@));
            &&& plan.len() == 0 ==> r is None
            &&& plan.len() > 0 ==> (r matches Some(v) && signals_match(v@, plan))
        },
{
    let gate = has_updates(channel_versions, versions_seen_for_interrupt);
    if !gate && versions_seen_for_interrupt.len() > 0 {
        return None;
    }
    let ghost tv = views(pending_tasks@);
    let ghost bv = views(interrupt_before@);
    let ghost av = views(interrupt_after@);
    let mut signals: Vec<InterruptSignal> = Vec::new();
    let mut i: usize = 0;
    assert(tv.take(0) =~= Seq::<Seq<char>>::empty());
    while i < pending_tasks.len()
        invariant
            tv == views(pending_tasks@),
            bv == views(interrupt_before@),
            av == views(interrupt_after@),
            i <= pending_tasks.len(),
            signals_match(signals@, planned_interrupts(tv.take(i as int), bv, av)),
        decreases pending_tasks.len() - i,
    {
        let ghost prev = planned_interrupts(tv.take(i as int), bv, av);
        assert(tv.take(i + 1).drop_last() =~= tv.take(i as int));
        assert(tv.take(i + 1).last() == pending_tasks@[i as int]@);
        let name = pending_tasks[i].as_str();
        if !hidden_name(name) {
            let ghost s0 = signals@;
            let ghost mid = prev + (if bv.contains(name@) {
                seq![(name@, "interrupt_before"@)]
            } else {
                Seq::empty()
            });
            if crate::text::contains_text(interrupt_before, name) {
                push_signal(&mut signals, name, "interrupt_before");
                assert(signals_match(signals@, mid)) by {
                    assert forall|k: int| 0 <= k < signals@.len() implies {
                        &&& (#[trigger] signals@[k]).index == k
                        &&& signals@[k].id matches Some(id) && is_hex32(id@)
                        &&& signals@[k].payload == signal_payload(mid[k].0, mid[k].1)
                    } by {
                        if k < s0.len() {
                            assert(signals@[k] == s0[k]);
                        }
                    }
                }
            } else {
                assert(mid =~= prev);
            }
            let ghost s1 = signals@;
            let ghost full = mid + (if av.contains(name@) {
                seq![(name@, "interrupt_after"@)]
            } else {
                Seq::empty()
            });
            if crate::text::contains_text(interrupt_after, name) {
                push_signal(&mut signals, name, "interrupt_after");
                assert(signals_match(signals@, full)) by {
                    assert forall|k: int| 0 <= k < signals@.len() implies {
                        &&& (#[trigger] signals@[k]).index == k
                        &&& signals@[k].id matches Some(id) && is_hex32(id@)
                        &&& signals@[k].payload == signal_payload(full[k].0, full[k].1)
                    } by {
                        if k < s1.len() {
                            assert(signals@[k] == s1[k]);
                        }
                    }
                }
            } else {
                assert(full =~= mid);
            }
            assert(planned_interrupts(tv.take(i + 1), bv, av) == full);
        }
        i += 1;
    }
    assert(tv.take(pending_tasks.len() as int) =~= tv);
    if signals.len() == 0 {
        None
    } else {
        Some(signals)
    }
}

/// Whether some channel moved past the version last seen for it.
fn has_updates(versions: &Vec<(String, u64)>, seen: &Vec<(String, u64)>) -> (b: bool)
    ensures
        b == any_updates(versions@, seen@),
{
    let mut i: usize = 0;
    while i < versions.len()
        invariant
            i <= versions.len(),
            forall|j: int| 0 <= j < i ==> !(versions@[j].1 > seen_version(seen@, #[trigger] versions@[j].0@)),
        decreases versions.len() - i,
    {
        let last = seen_lookup(seen, versions[i].0.as_str());
        if versions[i].1 > last {
            return true;
        }
        i += 1;
    }
    false
}

/// The version last seen for a channel: that of its first entry, else 0.
fn seen_lookup(seen: &Vec<(String, u64)>, chan: &str) -> (v: u64)
    ensures
        v == seen_version(seen@, chan@),
{
    let mut i: usize = 0;
    assert(seen@.skip(0) =~= seen@);
    while i < seen.len()
        invariant
            i <= seen.len(),
            seen_version(seen@, chan@) == seen_version(seen@.skip(i as int), chan@),
        decreases seen.len() - i,
    {
        assert(seen@.skip(i as int)[0] == seen@[i as int]);
        assert(seen@.skip(i as int).drop_first() =~= seen@.skip(i + 1));
        if same_text(seen[i].0.as_str(), chan) {
            return seen[i].1;
        }
        i += 1;
    }
    0
}

/// The position of the entry with key `k`.
pub open spec fn data_key_index(e: Seq<(String, serde_json::Value)>, k: Seq<char>) -> int {
    choose|i: int| 0 <= i < e.len() && e[i].0@ == k
}

/// The map an association list with distinct keys stands for.
pub open spec fn data_map(e: Seq<(String, serde_json::Value)>) -> Map<Seq<char>, serde_json::Value> {
    Map::new(
        |k: Seq<char>| exists|i: int| 0 <= i < e.len() && (#[trigger] e[i]).0@ == k,
        |k: Seq<char>| e[data_key_index(e, k)].1,
    )
}

/// No key occurs twice.
pub open spec fn data_keys_distinct(e: Seq<(String, serde_json::Value)>) -> bool {
    forall|i: int, j: int| 0 <= i < j < e.len() ==> (#[trigger] e[i]).0@ != (#[trigger] e[j]).0@
}

/// Keys of persistent scratchpad entries begin with this prefix.
pub open spec fn is_persistent_key(k: Seq<char>) -> bool {
    has_prefix(k, "null_resume:"@)
}

/// The keys of persistent scratchpad entries.
pub open spec fn persistent_keys() -> Set<Seq<char>> {
    Set::new(|k: Seq<char>| is_persistent_key(k))
}

/// Scratchpad for interrupt handling and transient data storage
#[derive(Clone, Debug)]
pub struct Scratchpad {
    processed_interrupts: Vec<String>,
    data: Vec<(String, serde_json::Value)>,
    interrupt_history: Vec<InterruptRecord>,
}

impl Scratchpad {
    /// The ids of the processed interrupts.
    pub closed spec fn processed(&self) -> Set<Seq<char>> {
        views(self.processed_interrupts@).to_set()
    }

    /// The transient and persistent data, by key.
    pub closed spec fn data_view(&self) -> Map<Seq<char>, serde_json::Value> {
        data_map(self.data@)
    }

    /// The interrupt records, oldest first.
    pub closed spec fn history(&self) -> Seq<InterruptRecord> {
        self.interrupt_history@
    }

    /// Data keys are distinct.
    pub closed spec fn wf(&self) -> bool {
        data_keys_distinct(self.data@)
    }

    /// Create a new empty scratchpad
    pub fn new() -> (p: Self)
        ensures
            p.wf(),
            p.processed() == Set::<Seq<char>>::empty(),
            p.data_view() == Map::<Seq<char>, serde_json::Value>::empty(),
            p.history().len() == 0,
    {
        let p = Scratchpad { processed_interrupts: Vec::new(), data: Vec::new(), interrupt_history: Vec::new() };
        assert(p.processed() =~= Set::<Seq<char>>::empty());
        assert(p.data_view() =~= Map::<Seq<char>, serde_json::Value>::empty());
        p
    }

    /// Check if an interrupt has been processed
    pub fn is_interrupt_processed(&self, id: &str) -> (b: bool)
        ensures
            b == self.processed().contains(id@),
    {
        crate::text::contains_text(&self.processed_interrupts, id)
    }

    /// Whether a confirmation-only resume is valid: the interrupt has been
    /// processed already.
    pub fn get_null_resume(&self, interrupt_id: &str) -> (b: bool)
        ensures
            b == self.processed().contains(interrupt_id@),
    {
        self.is_interrupt_processed(interrupt_id)
    }

    /// Mark an interrupt as processed
    pub fn mark_interrupt_processed(&mut self, id: &str)
        ensures
            final(self).processed() == old(self).processed().insert(id@),
            final(self).data_view() == old(self).data_view(),
            final(self).wf() == old(self).wf(),
            final(self).history() == old(self).history(),
    {
        let ghost before = views(self.processed_interrupts@);
        self.processed_interrupts.push(crate::text::to_owned_string(id));
        assert(views(self.processed_interrupts@) =~= before.push(id@));
        assert(self.processed() =~= before.to_set().insert(id@)) by {
            assert forall|x: Seq<char>| self.processed().contains(x) <==> before.to_set().insert(id@).contains(x) by {
                if before.push(id@).contains(x) && x != id@ {
                    let k = choose|k: int| 0 <= k < before.push(id@).len() && before.push(id@)[k] == x;
                    assert(before[k] == x);
                }
                if before.contains(x) {
                    let k = choose|k: int| 0 <= k < before.len() && before[k] == x;
                    assert(before.push(id@)[k] == x);
                }
                if x == id@ {
                    assert(before.push(id@)[before.len() as int] == x);
                }
            }
        }
    }

    /// Get transient data by key
    pub fn get_data(&self, key: &str) -> (r: Option<&serde_json::Value>)
        requires
            self.wf(),
        ensures
            r is Some <==> self.data_view().contains_key(key@),
            r matches Some(v) ==> *v == self.data_view()[key@],
    {
        let mut i: usize = 0;
        while i < self.data.len()
            invariant
                self.wf(),
                i <= self.data.len(),
                forall|j: int| 0 <= j < i ==> self.data@[j].0@ != key@,
            decreases self.data.len() - i,
        {
            if same_text(self.data[i].0.as_str(), key) {
                proof {
                    let k = data_key_index(self.data@, key@);
                    assert(self.data@[i as int].0@ == key@);
                    if k != i as int {
                        assert(self.data@[k].0@ == key@);
                    }
                }
                return Some(&self.data[i].1);
            }
            i += 1;
        }
        None
    }

    /// Set transient data: the value under the key is replaced, or added.
    pub fn set_data(&mut self, key: String, value: serde_json::Value)
        requires
            old(self).wf(),
        ensures
            final(self).wf(),
            final(self).data_view() == old(self).data_view().insert(key@, value),
            final(self).processed() == old(self).processed(),
            final(self).history() == old(self).history(),
    {
        let ghost before = self.data@;
        let mut i: usize = 0;
        while i < self.data.len()
            invariant
                *self == *old(self),
                before == self.data@,
                data_keys_distinct(before),
                i <= self.data.len(),
                forall|j: int| 0 <= j < i ==> self.data@[j].0@ != key@,
            decreases self.data.len() - i,
        {
            if same_text(self.data[i].0.as_str(), key.as_str()) {
                self.data.set(i, (key, value));
                proof {
                    let after = self.data@;
                    assert(after == before.update(i as int, after[i as int]));
                    assert(data_keys_distinct(after));
                    assert(data_map(after) =~= data_map(before).insert(key@, value)) by {
                        assert forall|k: Seq<char>| #[trigger] data_map(after).contains_key(k) <==> data_map(before).insert(key@, value).contains_key(k) by {
                            if data_map(after).contains_key(k) {
                                let j = choose|j: int| 0 <= j < after.len() && after[j].0@ == k;
                                if j != i as int {
                                    assert(before[j].0@ == k);
                                }
                            }
                            if data_map(before).contains_key(k) {
                                let j = choose|j: int| 0 <= j < before.len() && before[j].0@ == k;
                                if j != i as int {
                                    assert(after[j].0@ == k);
                                } else {
                                    assert(after[i as int].0@ == k);
                                }
                            }
                            if k == key@ {
                                assert(after[i as int].0@ == k);
                            }
                        }
                        assert forall|k: Seq<char>| data_map(after).contains_key(k) implies #[trigger] data_map(after)[k] == data_map(before).insert(key@, value)[k] by {
                            let ja = data_key_index(after, k);
                            if k == key@ {
                                assert(after[i as int].0@ == k);
                                assert(ja == i as int);
                            } else {
                                let jb = data_key_index(before, k);
                                assert(after[ja].0@ == k);
                                assert(ja != i as int);
                                assert(before[ja].0@ == k);
                                assert(before[jb].0@ == k);
                                assert(ja == jb);
                            }
                        }
                    }
                }
                return;
            }
            i += 1;
        }
        self.data.push((key, value));
        proof {
            let after = self.data@;
            assert(after == before.push(after[before.len() as int]));
            assert(data_map(after) =~= data_map(before).insert(key@, value)) by {
                assert forall|k: Seq<char>| #[trigger] data_map(after).contains_key(k) <==> data_map(before).insert(key@, value).contains_key(k) by {
                    if data_map(after).contains_key(k) {
                        let j = choose|j: int| 0 <= j < after.len() && after[j].0@ == k;
                        if j < before.len() {
                            assert(before[j].0@ == k);
                        }
                    }
                    if data_map(before).contains_key(k) {
                        let j = choose|j: int| 0 <= j < before.len() && before[j].0@ == k;
                        assert(after[j].0@ == k);
                    }
                    if k == key@ {
                        assert(after[before.len() as int].0@ == k);
                    }
                }
                assert forall|k: Seq<char>| data_map(after).contains_key(k) implies #[trigger] data_map(after)[k] == data_map(before).insert(key@, value)[k] by {
                    let ja = data_key_index(after, k);
                    if k == key@ {
                        assert(after[before.len() as int].0@ == k);
                        assert(ja == before.len() as int);
                    } else {
                        let jb = data_key_index(before, k);
                        assert(after[ja].0@ == k);
                        assert(before[ja].0@ == k);
                        assert(before[jb].0@ == k);
                        assert(ja == jb);
                    }
                }
            }
        }
    }

    /// Record an interrupt event in the audit trail, stamped with the
    /// current time and not yet resumed.
    pub fn record_interrupt(&mut self, id: String, node: String, payload: serde_json::Value)
        ensures
            final(self).history().len() == old(self).history().len() + 1,
            final(self).history().drop_last() == old(self).history(),
            final(self).history().last().id == id,
            final(self).history().last().node == node,
            final(self).history().last().payload == payload,
            final(self).history().last().resumed_at is None,
            final(self).history().last().resume_value is None,
            final(self).processed() == old(self).processed(),
            final(self).data_view() == old(self).data_view(),
            final(self).wf() == old(self).wf(),
    {
        let record = InterruptRecord {
            id,
            node,
            payload,
            timestamp: utc_now_micros(),
            resumed_at: None,
            resume_value: None,
        };
        let ghost before = self.interrupt_history@;
        self.interrupt_history.push(record);
        assert(self.interrupt_history@.drop_last() =~= before);
    }

    /// Record that an interrupt was resumed: the first record with this id
    /// takes the current time and the value; with no such record nothing
    /// changes.
    pub fn record_resume(&mut self, id: &str, value: serde_json::Value)
        ensures
            final(self).history().len() == old(self).history().len(),
            (forall|j: int| 0 <= j < old(self).history().len() ==> (#[trigger] old(self).history()[j]).id@ != id@)
                ==> final(self).history() == old(self).history(),
            forall|j: int| 0 <= j < old(self).history().len() && old(self).history()[j].id@ == id@
                && (forall|l: int| 0 <= l < j ==> (#[trigger] old(self).history()[l]).id@ != id@)
                ==> {
                let r = final(self).history()[j];
                let o = old(self).history()[j];
                &&& final(self).history() == old(self).history().update(j, r)
                &&& r.id == o.id && r.node == o.node && r.payload == o.payload && r.timestamp == o.timestamp
                &&& r.resumed_at is Some
                &&& r.resume_value == Some(value)
            },
            final(self).processed() == old(self).processed(),
            final(self).data_view() == old(self).data_view(),
            final(self).wf() == old(self).wf(),
    {
        let mut i: usize = 0;
        while i < self.interrupt_history.len()
            invariant
                *self == *old(self),
                i <= self.interrupt_history.len(),
                forall|l: int| 0 <= l < i ==> (#[trigger] self.interrupt_history@[l]).id@ != id@,
            decreases self.interrupt_history.len() - i,
        {
            if same_text(self.interrupt_history[i].id.as_str(), id) {
                let record = InterruptRecord {
                    id: self.interrupt_history[i].id.clone(),
                    node: self.interrupt_history[i].node.clone(),
                    payload: self.interrupt_history[i].payload.clone(),
                    timestamp: self.interrupt_history[i].timestamp,
                    resumed_at: Some(utc_now_micros()),
                    resume_value: Some(value),
                };
                let ghost before = self.interrupt_history@;
                self.interrupt_history.set(i, record);
                proof {
                    assert forall|j: int| 0 <= j < before.len() && before[j].id@ == id@
                        && (forall|l: int| 0 <= l < j ==> (#[trigger] before[l]).id@ != id@) implies j == i by {
                        if j < i {
                            assert(before[j].id@ != id@);
                        }
                        if j > i {
                            assert(before[i as int].id@ != id@);
                        }
                    }
                }
                return;
            }
            i += 1;
        }
    }

    /// The complete interrupt history, oldest first.
    pub fn interrupt_history(&self) -> (h: &Vec<InterruptRecord>)
        ensures
            h@ == self.history(),
    {
        &self.interrupt_history
    }

    /// Clear transient entries: only the entries whose key begins with
    /// `null_resume:` stay.
    pub fn clear_transient(&mut self)
        requires
            old(self).wf(),
        ensures
            final(self).wf(),
            final(self).data_view() == old(self).data_view().restrict(persistent_keys()),
            final(self).processed() == old(self).processed(),
            final(self).history() == old(self).history(),
    {
        let ghost before = self.data@;
        let mut kept: Vec<(String, serde_json::Value)> = Vec::new();
        let mut i: usize = 0;
        while i < self.data.len()
            invariant
                *self == *old(self),
                before == self.data@,
                data_keys_distinct(before),
                i <= self.data.len(),
                forall|j: int| 0 <= j < kept.len() ==> exists|m: int| 0 <= m < i && (#[trigger] kept@[j]) == before[m]
                    && is_persistent_key(before[m].0@),
                forall|m: int| 0 <= m < i && is_persistent_key(before[m].0@) ==> exists|j: int| 0 <= j < kept.len()
                    && (#[trigger] kept@[j]) == #[trigger] before[m],
                forall|j: int, l: int| 0 <= j < l < kept.len() ==> (#[trigger] kept@[j]).0@ != (#[trigger] kept@[l]).0@,
            decreases self.data.len() - i,
        {
            if starts_with(self.data[i].0.as_str(), "null_resume:") {
                let ghost k0 = kept@;
                let e = (self.data[i].0.clone(), self.data[i].1.clone());
                assert(e == before[i as int]);
                kept.push(e);
                proof {
                    assert forall|j: int| 0 <= j < kept.len() implies exists|m: int| 0 <= m < i + 1 && (#[trigger] kept@[j]) == before[m]
                        && is_persistent_key(before[m].0@) by {
                        if j < k0.len() {
                            assert(kept@[j] == k0[j]);
                        } else {
                            assert(kept@[j] == before[i as int]);
                        }
                    }
                    assert forall|m: int| 0 <= m < i + 1 && is_persistent_key(before[m].0@) implies exists|j: int| 0 <= j < kept.len()
                        && (#[trigger] kept@[j]) == #[trigger] before[m] by {
                        if m < i {
                            let j = choose|j: int| 0 <= j < k0.len() && k0[j] == before[m];
                            assert(kept@[j] == k0[j]);
                        } else {
                            assert(kept@[k0.len() as int] == before[m]);
                        }
                    }
                    assert forall|j: int, l: int| 0 <= j < l < kept.len() implies (#[trigger] kept@[j]).0@ != (#[trigger] kept@[l]).0@ by {
                        if l == k0.len() {
                            let m = choose|m: int| 0 <= m < i && k0[j] == before[m] && is_persistent_key(before[m].0@);
                            assert(kept@[j] == k0[j]);
                            assert(before[m].0@ != before[i as int].0@);
                        } else {
                            assert(kept@[j] == k0[j]);
                            assert(kept@[l] == k0[l]);
                        }
                    }
                }
            }
            i += 1;
        }
        self.data = kept;
        proof {
            let after = self.data@;
            let target = data_map(before).restrict(persistent_keys());
            assert(data_map(after) =~= target) by {
                assert forall|k: Seq<char>| #[trigger] data_map(after).contains_key(k) <==> target.contains_key(k) by {
                    if data_map(after).contains_key(k) {
                        let j = choose|j: int| 0 <= j < after.len() && after[j].0@ == k;
                        let m = choose|m: int| 0 <= m < before.len() && after[j] == before[m] && is_persistent_key(before[m].0@);
                        assert(before[m].0@ == k);
                    }
                    if target.contains_key(k) {
                        let m = choose|m: int| 0 <= m < before.len() && before[m].0@ == k;
                        let j = choose|j: int| 0 <= j < after.len() && after[j] == before[m];
                        assert(after[j].0@ == k);
                    }
                }
                assert forall|k: Seq<char>| data_map(after).contains_key(k) implies #[trigger] data_map(after)[k] == target[k] by {
                    let ja = data_key_index(after, k);
                    let m = choose|m: int| 0 <= m < before.len() && after[ja] == before[m] && is_persistent_key(before[m].0@);
                    let mb = data_key_index(before, k);
                    assert(before[m].0@ == k);
                    assert(before[mb].0@ == k);
                    assert(m == mb);
                }
            }
        }
    }
}

/// What a read of the scratchpad gives back after a write: the value
/// written under the key, while the other keys keep their values.
pub proof fn lemma_get_after_set(data: Map<Seq<char>, serde_json::Value>, key: Seq<char>, value: serde_json::Value, other: Seq<char>)
    ensures
        data.insert(key, value).contains_key(key),
        data.insert(key, value)[key] == value,
        other != key ==> (data.insert(key, value).contains_key(other) == data.contains_key(other)
            && (data.contains_key(other) ==> data.insert(key, value)[other] == data[other])),
{
}

/// Marking an interrupt processed makes it processed, and keeps every
/// other interrupt's status.
pub proof fn lemma_processed_after_mark(processed: Set<Seq<char>>, id: Seq<char>, other: Seq<char>)
    ensures
        processed.insert(id).contains(id),
        other != id ==> processed.insert(id).contains(other) == processed.contains(other),
{
}

/// Clearing transient data keeps exactly the persistent entries, and a
/// second clearing changes nothing.
pub proof fn lemma_clear_transient(data: Map<Seq<char>, serde_json::Value>)
    ensures
        forall|k: Seq<char>| #[trigger] data.restrict(persistent_keys()).contains_key(k)
            <==> (data.contains_key(k) && is_persistent_key(k)),
        data.restrict(persistent_keys()).restrict(persistent_keys())
            == data.restrict(persistent_keys()),
{
    assert(data.restrict(persistent_keys()).restrict(persistent_keys()) =~= data.restrict(persistent_keys()));
}

/// The resume value recorded for an interrupt position, if any.
pub open spec fn resume_at(values: Seq<Option<serde_json::Value>>, index: usize) -> Option<serde_json::Value> {
    if index < values.len() {
        values[index as int]
    } else {
        None
    }
}

/// The resume value recorded for an interrupt position, if any.
pub fn get_resume_value(values: &Vec<Option<serde_json::Value>>, index: usize) -> (r: Option<serde_json::Value>)
    ensures
        r == resume_at(values@, index),
{
    if index < values.len() {
        match &values[index] {
            Some(v) => Some(v.clone()),
            None => None,
        }
    } else {
        None
    }
}

/// What an interrupt at a position does: it resumes with the value
/// recorded for the position, or else raises a signal for the position
/// with the given id (by default the id of `current_node` at the
/// position) and the payload.
pub fn resume_or_signal(
    values: &Vec<Option<serde_json::Value>>,
    index: usize,
    payload: serde_json::Value,
    id: Option<&str>,
) -> (r: Result<serde_json::Value, InterruptSignal>)
    ensures
        resume_at(values@, index) is Some ==> r == Ok::<serde_json::Value, InterruptSignal>(resume_at(values@, index)->0),
        resume_at(values@, index) is None ==> (r matches Err(s) && s.index == index && s.payload == payload
            && (s.id matches Some(t) && match id {
                Some(given) => t@ == given@,
                None => is_hex32(t@),
            })),
{
    match get_resume_value(values, index) {
        Some(v) => Ok(v),
        None => {
            let interrupt_id = match id {
                Some(given) => crate::text::to_owned_string(given),
                None => generate_interrupt_id("current_node", index),
            };
            Err(InterruptSignal { index, id: Some(interrupt_id), payload, timestamp: utc_now_micros() })
        },
    }
}

/// The version seen for the channel of an entry is that entry's version,
/// when no channel is listed twice.
proof fn lemma_seen_version_at(seen: Seq<(String, u64)>, i: int)
    requires
        0 <= i < seen.len(),
        forall|a: int, b: int| 0 <= a < b < seen.len() ==> (#[trigger] seen[a]).0@ != (#[trigger] seen[b]).0@,
    ensures
        seen_version(seen, seen[i].0@) == seen[i].1,
    decreases i,
{
    if i > 0 {
        assert(seen[0].0@ != seen[i].0@);
        let rest = seen.drop_first();
        assert(rest[i - 1] == seen[i]);
        assert forall|a: int, b: int| 0 <= a < b < rest.len() implies (#[trigger] rest[a]).0@ != (#[trigger] rest[b]).0@ by {
            assert(rest[a] == seen[a + 1]);
            assert(rest[b] == seen[b + 1]);
        }
        lemma_seen_version_at(rest, i - 1);
    }
}

/// Nothing interrupts again while the channels stand at the versions seen
/// at the previous interrupt: with each channel listed once, no channel
/// has moved past its own version.
pub proof fn lemma_no_updates_at_seen_versions(versions: Seq<(String, u64)>)
    requires
        forall|a: int, b: int| 0 <= a < b < versions.len() ==> (#[trigger] versions[a]).0@ != (#[trigger] versions[b]).0@,
    ensures
        !any_updates(versions, versions),
{
    assert forall|i: int| 0 <= i < versions.len() implies !(versions[i].1 > seen_version(versions, #[trigger] versions[i].0@)) by {
        lemma_seen_version_at(versions, i);
    }
}

/// Laws of the interrupts a superstep raises: each pending task whose node
/// is not hidden raises a before-interrupt when its node is listed to
/// interrupt before, and an after-interrupt when listed to interrupt after;
/// and every interrupt raised names a pending, not hidden node with a
/// reason its node is listed for.
pub proof fn lemma_planned_interrupts_laws(tasks: Seq<Seq<char>>, before: Seq<Seq<char>>, after: Seq<Seq<char>>)
    ensures
        forall|i: int|
            0 <= i < tasks.len() && !hidden_text(#[trigger] tasks[i]) && before.contains(tasks[i]) ==> planned_interrupts(
                tasks,
                before,
                after,
            ).contains((tasks[i], "interrupt_before"@)),
        forall|i: int|
            0 <= i < tasks.len() && !hidden_text(#[trigger] tasks[i]) && after.contains(tasks[i]) ==> planned_interrupts(
                tasks,
                before,
                after,
            ).contains((tasks[i], "interrupt_after"@)),
        forall|k: int|
            0 <= k < planned_interrupts(tasks, before, after).len() ==> {
                let e = #[trigger] planned_interrupts(tasks, before, after)[k];
                &&& tasks.contains(e.0)
                &&& !hidden_text(e.0)
                &&& (e.1 == "interrupt_before"@ && before.contains(e.0)) || (e.1 == "interrupt_after"@ && after.contains(
                    e.0,
                ))
            },
    decreases tasks.len(),
{
    if tasks.len() > 0 {
        let init = tasks.drop_last();
        lemma_planned_interrupts_laws(init, before, after);
        let rest = planned_interrupts(init, before, after);
        let p = planned_interrupts(tasks, before, after);
        let n = tasks.last();
        let bpart = if before.contains(n) {
            seq![(n, "interrupt_before"@)]
        } else {
            Seq::empty()
        };
        let apart = if after.contains(n) {
            seq![(n, "interrupt_after"@)]
        } else {
            Seq::empty()
        };
        if !hidden_text(n) {
            assert(p == rest + bpart + apart);
        } else {
            assert(p == rest);
        }
        assert forall|i: int|
            0 <= i < tasks.len() && !hidden_text(#[trigger] tasks[i]) && before.contains(tasks[i]) implies p.contains(
            (tasks[i], "interrupt_before"@),
        ) by {
            if i < init.len() {
                assert(init[i] == tasks[i]);
                let a = choose|a: int| 0 <= a < rest.len() && rest[a] == (tasks[i], "interrupt_before"@);
                assert(p[a] == rest[a]);
            } else {
                assert(tasks[i] == n);
                assert(p[rest.len() as int] == (n, "interrupt_before"@));
            }
        }
        assert forall|i: int|
            0 <= i < tasks.len() && !hidden_text(#[trigger] tasks[i]) && after.contains(tasks[i]) implies p.contains(
            (tasks[i], "interrupt_after"@),
        ) by {
            if i < init.len() {
                assert(init[i] == tasks[i]);
                let a = choose|a: int| 0 <= a < rest.len() && rest[a] == (tasks[i], "interrupt_after"@);
                assert(p[a] == rest[a]);
            } else {
                assert(tasks[i] == n);
                assert(p[rest.len() + bpart.len() as int] == (n, "interrupt_after"@));
            }
        }
        assert forall|k: int| 0 <= k < p.len() implies {
            let e = #[trigger] p[k];
            &&& tasks.contains(e.0)
            &&& !hidden_text(e.0)
            &&& (e.1 == "interrupt_before"@ && before.contains(e.0)) || (e.1 == "interrupt_after"@ && after.contains(e.0))
        } by {
            if k < rest.len() {
                assert(p[k] == rest[k]);
                let j = choose|j: int| 0 <= j < init.len() && init[j] == rest[k].0;
                assert(tasks[j] == init[j]);
            } else {
                assert(tasks[tasks.len() - 1] == n);
                if k < rest.len() + bpart.len() {
                    assert(p[k] == bpart[k - rest.len()]);
                } else {
                    assert(p[k] == apart[k - rest.len() - bpart.len()]);
                }
            }
        }
    }
}

/// A channel with no entry among the seen versions counts as seen at
/// version 0.
proof fn lemma_unseen_is_zero(seen: Seq<(String, u64)>, chan: Seq<char>)
    requires
        forall|j: int| 0 <= j < seen.len() ==> (#[trigger] seen[j]).0@ != chan,
    ensures
        seen_version(seen, chan) == 0,
    decreases seen.len(),
{
    if seen.len() > 0 {
        assert(seen[0].0@ != chan);
        let rest = seen.drop_first();
        assert forall|j: int| 0 <= j < rest.len() implies (#[trigger] rest[j]).0@ != chan by {
            assert(rest[j] == seen[j + 1]);
        }
        lemma_unseen_is_zero(rest, chan);
    }
}

/// The first entry for a channel among the seen versions gives the version
/// seen for it.
proof fn lemma_first_entry_seen(seen: Seq<(String, u64)>, j: int)
    requires
        0 <= j < seen.len(),
        forall|k: int| 0 <= k < j ==> (#[trigger] seen[k]).0@ != seen[j].0@,
    ensures
        seen_version(seen, seen[j].0@) == seen[j].1,
    decreases j,
{
    if j > 0 {
        assert(seen[0].0@ != seen[j].0@);
        let rest = seen.drop_first();
        assert(rest[j - 1] == seen[j]);
        assert forall|k: int| 0 <= k < j - 1 implies (#[trigger] rest[k]).0@ != rest[j - 1].0@ by {
            assert(rest[k] == seen[k + 1]);
        }
        lemma_first_entry_seen(rest, j - 1);
    }
}

/// Laws of the interrupt gate: a channel written (version above 0) that no
/// entry of the seen versions names counts as an update, since a channel
/// never seen was seen at version 0; and a channel whose version is above
/// the one its first seen entry records counts as an update too.
pub proof fn lemma_updates_past_seen(versions: Seq<(String, u64)>, seen: Seq<(String, u64)>, i: int)
    requires
        0 <= i < versions.len(),
    ensures
        versions[i].1 > 0 && (forall|j: int| 0 <= j < seen.len() ==> (#[trigger] seen[j]).0@ != versions[i].0@)
            ==> any_updates(versions, seen),
        forall|j: int|
            0 <= j < seen.len() && (#[trigger] seen[j]).0@ == versions[i].0@ && versions[i].1 > seen[j].1 && (forall|k: int|
                0 <= k < j ==> (#[trigger] seen[k]).0@ != versions[i].0@) ==> any_updates(versions, seen),
{
    if versions[i].1 > 0 && (forall|j: int| 0 <= j < seen.len() ==> (#[trigger] seen[j]).0@ != versions[i].0@) {
        lemma_unseen_is_zero(seen, versions[i].0@);
    }
    assert forall|j: int|
        0 <= j < seen.len() && (#[trigger] seen[j]).0@ == versions[i].0@ && versions[i].1 > seen[j].1 && (forall|k: int|
            0 <= k < j ==> (#[trigger] seen[k]).0@ != versions[i].0@) implies any_updates(versions, seen) by {
        lemma_first_entry_seen(seen, j);
    }
}

/// An id made of a non-empty namespace without `:`, a `:`, and any rest
/// has that namespace.
pub proof fn lemma_namespace_of_prefixed(ns: Seq<char>, rest: Seq<char>)
    requires
        ns.len() > 0,
        !ns.contains(':'),
    ensures
        namespace_of(ns + seq![':'] + rest) == Some(ns),
{
    let id = ns + seq![':'] + rest;
    assert(id[ns.len() as int] == ':');
    assert(id.take(ns.len() as int) =~= ns);
    lemma_first_index_of(id, ':', ns.len() as int);
}

/// Every pending interrupt with an id is covered exactly when no id is
/// left uncovered.
pub proof fn lemma_uncovered_empty(pending: Seq<InterruptSignal>, keys: Seq<Seq<char>>)
    ensures
        uncovered_ids(pending, keys).len() == 0 <==> forall|k: int| 0 <= k < pending.len() ==> ((#[trigger] pending[k]).id
            matches Some(id) ==> keys.contains(id@)),
    decreases pending.len(),
{
    if pending.len() > 0 {
        let init = pending.drop_last();
        lemma_uncovered_empty(init, keys);
        assert forall|k: int| 0 <= k < init.len() implies #[trigger] init[k] == pending[k] by {}
        if uncovered_ids(pending, keys).len() == 0 {
            assert forall|k: int| 0 <= k < pending.len() implies ((#[trigger] pending[k]).id matches Some(id)
                ==> keys.contains(id@)) by {
                if k < init.len() {
                    assert(init[k] == pending[k]);
                }
            }
        }
        if forall|k: int| 0 <= k < pending.len() ==> ((#[trigger] pending[k]).id matches Some(id) ==> keys.contains(id@)) {
            assert forall|k: int| 0 <= k < init.len() implies ((#[trigger] init[k]).id matches Some(id) ==> keys.contains(id@)) by {
                assert(init[k] == pending[k]);
            }
            assert(pending.last() == pending[pending.len() - 1]);
        }
    }
}

} // verus!
