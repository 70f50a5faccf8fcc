//! The key under which a model call's response is cached.
use vstd::prelude::*;
use crate::hashing::{default_hasher_digest, HashPiece, PieceHasher};
use crate::json::json_compact_text;
use crate::response::ToolCall;
use crate::llm::ToolDefinition;
use crate::request::{Content, ContentPart, ImageSource, Message};

verus! {

/// The call settings that take part in a cache key: the sampling settings
/// by the bits of their 32-bit floating-point values, and the token limit
#[derive(Clone, Copy, Debug)]
pub struct HashedOptions {
    /// Bits of the sampling temperature, when set
    pub temperature_bits: Option<u32>,
    /// Token limit, when set
    pub max_tokens: Option<u32>,
    /// Bits of the nucleus sampling threshold, when set
    pub top_p_bits: Option<u32>,
}

/// Cache key input for model response caching
#[derive(Clone, Debug)]
pub struct CacheKeyInput {
    /// Model name
    pub model: String,
    /// Messages
    pub messages: Vec<Message>,
    /// Tools
    pub tools: Vec<ToolDefinition>,
    /// Call settings, when given
    pub config: Option<HashedOptions>,
}

/// `serde_json::to_string`: the compact JSON text of a value. Writing a
/// `Value` into memory does not fail (its maps have string keys and its
/// numbers are finite), so the text is always there.
#[verifier::external_body]
fn json_text_checked(v: &serde_json::Value) -> (r: Option<String>)
    ensures
        r is Some,
        r matches Some(s) ==> s@ == json_compact_text(*v),
{
    serde_json::to_string(v).ok()
}

/// A number, when set.
pub open spec fn opt_u32_pieces(o: Option<u32>) -> Seq<HashPiece> {
    match o {
        Some(n) => seq![HashPiece::U32(n)],
        None => Seq::empty(),
    }
}

/// What a content part adds: its text; an image's media type and its
/// data or URL; a reasoning part's text and signature.
pub open spec fn part_pieces(p: ContentPart) -> Seq<HashPiece> {
    match p {
        ContentPart::Text { text } => seq![HashPiece::Text(text@)],
        ContentPart::Image(d) => seq![
            HashPiece::Text(d.media_type@),
            HashPiece::Text(
                match d.source {
                    ImageSource::Base64(x) => x@,
                    ImageSource::Url(u) => u@,
                },
            ),
        ],
        ContentPart::Thinking { text, signature } => seq![HashPiece::Text(text@), HashPiece::Text(signature@)],
    }
}

/// What the content parts add, in order.
pub open spec fn parts_pieces(ps: Seq<ContentPart>) -> Seq<HashPiece>
    decreases ps.len(),
{
    if ps.len() == 0 {
        Seq::empty()
    } else {
        parts_pieces(ps.drop_last()) + part_pieces(ps.last())
    }
}

/// What a message's content adds: its text, or its parts'.
pub open spec fn content_pieces(c: Content) -> Seq<HashPiece> {
    match c {
        Content::Text(t) => seq![HashPiece::Text(t@)],
        Content::MultiPart(ps) => parts_pieces(ps@),
    }
}

/// What a tool call adds: its id, its name and its printed arguments.
pub open spec fn call_pieces(c: ToolCall) -> Seq<HashPiece> {
    seq![HashPiece::Text(c.id@), HashPiece::Text(c.name@), HashPiece::Text(json_compact_text(c.arguments))]
}

/// What the tool calls add, in order.
pub open spec fn calls_pieces(cs: Seq<ToolCall>) -> Seq<HashPiece>
    decreases cs.len(),
{
    if cs.len() == 0 {
        Seq::empty()
    } else {
        calls_pieces(cs.drop_last()) + call_pieces(cs.last())
    }
}

/// What a message adds: its role, its content and its tool calls (its id,
/// name and usage take no part).
pub open spec fn message_pieces(m: Message) -> Seq<HashPiece> {
    seq![HashPiece::Role(m.role)] + content_pieces(m.content) + calls_pieces(m.tool_calls@)
}

/// What the messages add, in order.
pub open spec fn messages_pieces(ms: Seq<Message>) -> Seq<HashPiece>
    decreases ms.len(),
{
    if ms.len() == 0 {
        Seq::empty()
    } else {
        messages_pieces(ms.drop_last()) + message_pieces(ms.last())
    }
}

/// What the tools add, in order: each one's name and printed parameters.
pub open spec fn tools_pieces(ts: Seq<ToolDefinition>) -> Seq<HashPiece>
    decreases ts.len(),
{
    if ts.len() == 0 {
        Seq::empty()
    } else {
        tools_pieces(ts.drop_last()) + seq![
            HashPiece::Text(ts.last().name@),
            HashPiece::Text(json_compact_text(ts.last().parameters)),
        ]
    }
}

/// What the settings add: those that are set, in the order temperature,
/// token limit, nucleus threshold.
pub open spec fn config_pieces(c: Option<HashedOptions>) -> Seq<HashPiece> {
    match c {
        Some(o) => opt_u32_pieces(o.temperature_bits) + opt_u32_pieces(o.max_tokens) + opt_u32_pieces(o.top_p_bits),
        None => Seq::empty(),
    }
}

/// What the cache key's hash is computed from, in order: the model, the
/// messages, the tools and the settings.
pub open spec fn cache_pieces(c: CacheKeyInput) -> Seq<HashPiece> {
    seq![HashPiece::Text(c.model@)] + messages_pieces(c.messages@) + tools_pieces(c.tools@) + config_pieces(c.config)
}

/// What the tools add holds each tool's name and printed parameters, two
/// pieces per tool.
proof fn lemma_tools_pieces_hold(ts: Seq<ToolDefinition>)
    ensures
        tools_pieces(ts).len() == 2 * ts.len(),
        forall|i: int| 0 <= i < ts.len() ==> tools_pieces(ts).contains(HashPiece::Text((#[trigger] ts[i]).name@))
            && tools_pieces(ts).contains(HashPiece::Text(json_compact_text(ts[i].parameters))),
    decreases ts.len(),
{
    if ts.len() > 0 {
        let init = ts.drop_last();
        lemma_tools_pieces_hold(init);
        let p = tools_pieces(ts);
        let last = seq![HashPiece::Text(ts.last().name@), HashPiece::Text(json_compact_text(ts.last().parameters))];
        assert(p == tools_pieces(init) + last);
        assert forall|i: int| 0 <= i < ts.len() implies p.contains(HashPiece::Text((#[trigger] ts[i]).name@)) && p.contains(
            HashPiece::Text(json_compact_text(ts[i].parameters)),
        ) by {
            if i < init.len() {
                assert(init[i] == ts[i]);
                let a = choose|a: int| 0 <= a < tools_pieces(init).len() && tools_pieces(init)[a] == HashPiece::Text(ts[i].name@);
                let b = choose|b: int| 0 <= b < tools_pieces(init).len() && tools_pieces(init)[b] == HashPiece::Text(
                    json_compact_text(ts[i].parameters),
                );
                assert(p[a] == tools_pieces(init)[a]);
                assert(p[b] == tools_pieces(init)[b]);
            } else {
                assert(p[2 * init.len() as int] == last[0]);
                assert(p[2 * init.len() as int + 1] == last[1]);
            }
        }
    }
}

/// What the messages add holds each message's role, and the text of each
/// message whose content is plain text.
proof fn lemma_messages_pieces_hold(ms: Seq<Message>)
    ensures
        forall|i: int| 0 <= i < ms.len() ==> messages_pieces(ms).contains(HashPiece::Role((#[trigger] ms[i]).role)),
        forall|i: int|
            0 <= i < ms.len() && (#[trigger] ms[i]).content is Text ==> messages_pieces(ms).contains(
                HashPiece::Text(ms[i].content->Text_0@),
            ),
    decreases ms.len(),
{
    if ms.len() > 0 {
        let init = ms.drop_last();
        lemma_messages_pieces_hold(init);
        let p = messages_pieces(ms);
        let q = messages_pieces(init);
        let m = ms.last();
        assert(p == q + message_pieces(m));
        assert forall|i: int| 0 <= i < ms.len() implies p.contains(HashPiece::Role((#[trigger] ms[i]).role)) by {
            if i < init.len() {
                assert(init[i] == ms[i]);
                let a = choose|a: int| 0 <= a < q.len() && q[a] == HashPiece::Role(ms[i].role);
                assert(p[a] == q[a]);
            } else {
                assert(message_pieces(m)[0] == HashPiece::Role(m.role));
                assert(p[q.len() as int] == HashPiece::Role(m.role));
            }
        }
        assert forall|i: int| 0 <= i < ms.len() && (#[trigger] ms[i]).content is Text implies p.contains(
            HashPiece::Text(ms[i].content->Text_0@),
        ) by {
            if i < init.len() {
                assert(init[i] == ms[i]);
                let a = choose|a: int| 0 <= a < q.len() && q[a] == HashPiece::Text(ms[i].content->Text_0@);
                assert(p[a] == q[a]);
            } else {
                assert(message_pieces(m)[1] == HashPiece::Text(m.content->Text_0@));
                assert(p[q.len() as int + 1] == HashPiece::Text(m.content->Text_0@));
            }
        }
    }
}

/// Laws of the cache key: what it is hashed from begins with the model and
/// holds every message's role, the text of every plain-text message, every
/// tool's name and printed parameters, and every setting that is set; and
/// two calls that differ only in how many tools they offer are hashed from
/// different pieces.
pub proof fn lemma_cache_key_covers(c: CacheKeyInput, d: CacheKeyInput)
    ensures
        cache_pieces(c)[0] == HashPiece::Text(c.model@),
        forall|i: int| 0 <= i < c.messages@.len() ==> cache_pieces(c).contains(HashPiece::Role((#[trigger] c.messages@[i]).role)),
        forall|i: int|
            0 <= i < c.messages@.len() && (#[trigger] c.messages@[i]).content is Text ==> cache_pieces(c).contains(
                HashPiece::Text(c.messages@[i].content->Text_0@),
            ),
        forall|i: int|
            0 <= i < c.tools@.len() ==> cache_pieces(c).contains(HashPiece::Text((#[trigger] c.tools@[i]).name@))
                && cache_pieces(c).contains(HashPiece::Text(json_compact_text(c.tools@[i].parameters))),
        c.config is Some && c.config->0.temperature_bits is Some ==> cache_pieces(c).contains(
            HashPiece::U32(c.config->0.temperature_bits->0),
        ),
        c.config is Some && c.config->0.max_tokens is Some ==> cache_pieces(c).contains(HashPiece::U32(c.config->0.max_tokens->0)),
        c.config is Some && c.config->0.top_p_bits is Some ==> cache_pieces(c).contains(HashPiece::U32(c.config->0.top_p_bits->0)),
        c.model == d.model && c.messages@ == d.messages@ && c.config == d.config && c.tools@.len() != d.tools@.len()
            ==> cache_pieces(c) != cache_pieces(d),
{
    let p = cache_pieces(c);
    let head = seq![HashPiece::Text(c.model@)];
    let mp = messages_pieces(c.messages@);
    let tp = tools_pieces(c.tools@);
    let cp = config_pieces(c.config);
    assert(p == head + mp + tp + cp);
    lemma_messages_pieces_hold(c.messages@);
    lemma_tools_pieces_hold(c.tools@);
    lemma_tools_pieces_hold(d.tools@);
    assert forall|i: int| 0 <= i < c.messages@.len() implies p.contains(HashPiece::Role((#[trigger] c.messages@[i]).role)) by {
        let a = choose|a: int| 0 <= a < mp.len() && mp[a] == HashPiece::Role(c.messages@[i].role);
        assert(p[1 + a] == mp[a]);
    }
    assert forall|i: int| 0 <= i < c.messages@.len() && (#[trigger] c.messages@[i]).content is Text implies p.contains(
        HashPiece::Text(c.messages@[i].content->Text_0@),
    ) by {
        let a = choose|a: int| 0 <= a < mp.len() && mp[a] == HashPiece::Text(c.messages@[i].content->Text_0@);
        assert(p[1 + a] == mp[a]);
    }
    assert forall|i: int| 0 <= i < c.tools@.len() implies p.contains(HashPiece::Text((#[trigger] c.tools@[i]).name@))
        && p.contains(HashPiece::Text(json_compact_text(c.tools@[i].parameters))) by {
        let a = choose|a: int| 0 <= a < tp.len() && tp[a] == HashPiece::Text(c.tools@[i].name@);
        let b = choose|b: int| 0 <= b < tp.len() && tp[b] == HashPiece::Text(json_compact_text(c.tools@[i].parameters));
        assert(p[1 + mp.len() + a] == tp[a]);
        assert(p[1 + mp.len() + b] == tp[b]);
    }
    if c.config is Some {
        let o = c.config->0;
        let t = opt_u32_pieces(o.temperature_bits);
        let m = opt_u32_pieces(o.max_tokens);
        let u = opt_u32_pieces(o.top_p_bits);
        assert(cp == t + m + u);
        let base: int = 1 + mp.len() as int + tp.len() as int;
        if o.temperature_bits is Some {
            assert(p[base] == HashPiece::U32(o.temperature_bits->0));
        }
        if o.max_tokens is Some {
            assert(p[base + t.len() as int] == HashPiece::U32(o.max_tokens->0));
        }
        if o.top_p_bits is Some {
            assert(p[base + t.len() as int + m.len() as int] == HashPiece::U32(o.top_p_bits->0));
        }
    }
    if c.model == d.model && c.messages@ == d.messages@ && c.config == d.config && c.tools@.len() != d.tools@.len() {
        assert(cache_pieces(d) == head + mp + tools_pieces(d.tools@) + cp);
        assert(cache_pieces(d).len() != p.len());
    }
}

/// Write a number, when set.
fn write_opt_u32(h: &mut PieceHasher, o: Option<u32>)
    ensures
        final(h).written() == old(h).written() + opt_u32_pieces(o),
{
    match o {
        Some(n) => h.write_u32(n),
        None => {
            assert(old(h).written() + Seq::<HashPiece>::empty() =~= old(h).written());
        },
    }
}

/// Write a printed JSON value.
fn write_printed(h: &mut PieceHasher, v: &serde_json::Value)
    ensures
        final(h).written() == old(h).written().push(HashPiece::Text(json_compact_text(*v))),
{
    match json_text_checked(v) {
        Some(s) => h.write_text(s.as_str()),
        None => {},
    }
}

/// Write a message's content.
fn write_content(h: &mut PieceHasher, c: &Content)
    ensures
        final(h).written() == old(h).written() + content_pieces(*c),
{
    match c {
        Content::Text(text) => {
            h.write_text(text.as_str());
            assert(old(h).written().push(HashPiece::Text(text@)) =~= old(h).written() + seq![HashPiece::Text(text@)]);
        },
        Content::MultiPart(parts) => {
            let ghost start = h.written();
            let mut j: usize = 0;
            assert(start + parts_pieces(parts@.take(0)) =~= start);
            while j < parts.len()
                invariant
                    j <= parts.len(),
                    h.written() == start + parts_pieces(parts@.take(j as int)),
                decreases parts.len() - j,
            {
                let ghost before = h.written();
                assert(parts@.take(j + 1).drop_last() =~= parts@.take(j as int));
                match &parts[j] {
                    ContentPart::Text { text } => h.write_text(text.as_str()),
                    ContentPart::Image(data) => {
                        h.write_text(data.media_type.as_str());
                        match &data.source {
                            ImageSource::Base64(d) => h.write_text(d.as_str()),
                            ImageSource::Url(u) => h.write_text(u.as_str()),
                        }
                    },
                    ContentPart::Thinking { text, signature } => {
                        h.write_text(text.as_str());
                        h.write_text(signature.as_str());
                    },
                }
                assert(h.written() =~= before + part_pieces(parts@[j as int]));
                assert(start + parts_pieces(parts@.take(j + 1)) =~= start + parts_pieces(parts@.take(j as int))
                    + part_pieces(parts@[j as int]));
                j += 1;
            }
            assert(parts@.take(parts.len() as int) =~= parts@);
        },
    }
}

/// Write a message's tool calls.
fn write_calls(h: &mut PieceHasher, calls: &Vec<ToolCall>)
    ensures
        final(h).written() == old(h).written() + calls_pieces(calls@),
{
    let ghost start = h.written();
    let mut k: usize = 0;
    assert(start + calls_pieces(calls@.take(0)) =~= start);
    while k < calls.len()
        invariant
            k <= calls.len(),
            h.written() == start + calls_pieces(calls@.take(k as int)),
        decreases calls.len() - k,
    {
        let ghost before = h.written();
        assert(calls@.take(k + 1).drop_last() =~= calls@.take(k as int));
        let call = &calls[k];
        h.write_text(call.id.as_str());
        h.write_text(call.name.as_str());
        write_printed(h, &call.arguments);
        assert(h.written() =~= before + call_pieces(calls@[k as int]));
        assert(start + calls_pieces(calls@.take(k + 1)) =~= start + calls_pieces(calls@.take(k as int)) + call_pieces(
            calls@[k as int],
        ));
        k += 1;
    }
    assert(calls@.take(calls.len() as int) =~= calls@);
}

/// Write the messages.
fn write_messages(h: &mut PieceHasher, messages: &Vec<Message>)
    ensures
        final(h).written() == old(h).written() + messages_pieces(messages@),
{
    let ghost start = h.written();
    let mut i: usize = 0;
    assert(start + messages_pieces(messages@.take(0)) =~= start);
    while i < messages.len()
        invariant
            i <= messages.len(),
            h.written() == start + messages_pieces(messages@.take(i as int)),
        decreases messages.len() - i,
    {
        let ghost before = h.written();
        assert(messages@.take(i + 1).drop_last() =~= messages@.take(i as int));
        let msg = &messages[i];
        h.write_role(msg.role);
        write_content(h, &msg.content);
        write_calls(h, &msg.tool_calls);
        assert(h.written() =~= before + message_pieces(messages@[i as int]));
        assert(start + messages_pieces(messages@.take(i + 1)) =~= start + messages_pieces(messages@.take(i as int))
            + message_pieces(messages@[i as int]));
        i += 1;
    }
    assert(messages@.take(messages.len() as int) =~= messages@);
}

/// Write the tools.
fn write_tools(h: &mut PieceHasher, tools: &Vec<ToolDefinition>)
    ensures
        final(h).written() == old(h).written() + tools_pieces(tools@),
{
    let ghost start = h.written();
    let mut t: usize = 0;
    assert(start + tools_pieces(tools@.take(0)) =~= start);
    while t < tools.len()
        invariant
            t <= tools.len(),
            h.written() == start + tools_pieces(tools@.take(t as int)),
        decreases tools.len() - t,
    {
        let ghost before = h.written();
        assert(tools@.take(t + 1).drop_last() =~= tools@.take(t as int));
        let tool = &tools[t];
        h.write_text(tool.name.as_str());
        write_printed(h, &tool.parameters);
        assert(start + tools_pieces(tools@.take(t + 1)) =~= before + seq![
            HashPiece::Text(tool.name@),
            HashPiece::Text(json_compact_text(tool.parameters)),
        ]);
        t += 1;
    }
    assert(tools@.take(tools.len() as int) =~= tools@);
}

/// Write the settings that are set.
fn write_config(h: &mut PieceHasher, config: &Option<HashedOptions>)
    ensures
        final(h).written() == old(h).written() + config_pieces(*config),
{
    match config {
        Some(o) => {
            let ghost start = h.written();
            write_opt_u32(h, o.temperature_bits);
            write_opt_u32(h, o.max_tokens);
            write_opt_u32(h, o.top_p_bits);
            assert(h.written() =~= start + config_pieces(*config));
        },
        None => {
            assert(old(h).written() + Seq::<HashPiece>::empty() =~= old(h).written());
        },
    }
}

impl CacheKeyInput {
    /// Create new cache key input
    pub fn new(model: String, messages: Vec<Message>, tools: Vec<ToolDefinition>, config: Option<HashedOptions>) -> (c:
        Self)
        ensures
            c.model == model,
            c.messages == messages,
            c.tools == tools,
            c.config == config,
    {
        CacheKeyInput { model, messages, tools, config }
    }

    /// The hash of this input with the default hasher: the digest of the
    /// model; for each message its role, its text (or each part's texts)
    /// and each tool call's id, name and printed arguments (ids and
    /// timestamps of messages are left out); each tool's name and printed
    /// parameters; and the settings that are set. The number itself
    /// depends on the machine and the standard library's version.
    pub fn hash(&self) -> (d: u64)
        ensures
            default_hasher_digest(d, cache_pieces(*self)),
    {
        let mut h = PieceHasher::new();
        h.write_text(self.model.as_str());
        write_messages(&mut h, &self.messages);
        write_tools(&mut h, &self.tools);
        write_config(&mut h, &self.config);
        assert(h.written() =~= cache_pieces(*self));
        h.finish()
    }
}

} // verus!
