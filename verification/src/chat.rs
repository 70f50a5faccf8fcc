//! Streaming message chunks and the parsers of the providers' streaming
//! formats: server-sent events and newline-delimited JSON.
use vstd::prelude::*;
use crate::json::{
    json_as_bool, json_as_text, json_as_u64, json_bool_of, json_field, json_get, json_parse,
    json_parse_outcome, json_str, json_u64, JsonParseOutcome,
};
use crate::text::{
    contains_str, has_prefix, has_substring, lines, lines_of, push_str, same_text, strip_prefix, to_owned_string, trim,
    trim_ws,
};

verus! {

/// The role of a message author
#[derive(Clone, Copy, Debug, PartialEq, Eq, Structural, Hash)]
pub enum Role {
    /// A human user
    Human,
    /// The system prompt
    System,
    /// The model
    Ai,
    /// A tool result
    Tool,
}

/// Token usage reported by a provider
#[derive(Clone, Copy, Debug, PartialEq, Eq, Structural)]
pub struct TokenUsage {
    /// Prompt tokens
    pub input_tokens: u64,
    /// Completion tokens
    pub output_tokens: u64,
    /// Total tokens
    pub total_tokens: u64,
}

/// Streaming tool call chunk
#[derive(Clone, Debug)]
pub struct ToolCallChunk {
    /// Tool call id (on the first chunk of a call)
    pub id: Option<String>,
    /// Tool name (on the first chunk of a call)
    pub name: Option<String>,
    /// Piece of the JSON arguments
    pub args_delta: String,
    /// Position of the call in the message
    pub index: usize,
}

/// Streaming message chunk
#[derive(Clone, Debug)]
pub struct MessageChunk {
    /// Role, on the first chunk of a message
    pub role: Option<Role>,
    /// Text delta
    pub content: String,
    /// Tool call deltas
    pub tool_call_chunks: Vec<ToolCallChunk>,
    /// Token usage, when reported
    pub usage: Option<TokenUsage>,
}

/// What a tool call chunk says.
pub struct CallView {
    pub id: Option<Seq<char>>,
    pub name: Option<Seq<char>>,
    pub args_delta: Seq<char>,
    pub index: usize,
}

/// What a message chunk says.
pub struct ChunkView {
    pub role: Option<Role>,
    pub content: Seq<char>,
    pub calls: Seq<CallView>,
    pub usage: Option<TokenUsage>,
}

/// The text of an optional string.
pub open spec fn opt_text(o: Option<String>) -> Option<Seq<char>> {
    match o {
        Some(s) => Some(s@),
        None => None,
    }
}

impl View for ToolCallChunk {
    type V = CallView;

    open spec fn view(&self) -> CallView {
        CallView { id: opt_text(self.id), name: opt_text(self.name), args_delta: self.args_delta@, index: self.index }
    }
}

impl View for MessageChunk {
    type V = ChunkView;

    open spec fn view(&self) -> ChunkView {
        ChunkView {
            role: self.role,
            content: self.content@,
            calls: self.tool_call_chunks@.map_values(|c: ToolCallChunk| c@),
            usage: self.usage,
        }
    }
}

/// A chunk with nothing in it.
pub open spec fn empty_view() -> ChunkView {
    ChunkView { role: None, content: Seq::empty(), calls: Seq::empty(), usage: None }
}

/// Construct an empty [`MessageChunk`] with no content.
pub fn empty_chunk() -> (c: MessageChunk)
    ensures
        c@ == empty_view(),
{
    let c = MessageChunk { role: None, content: String::new(), tool_call_chunks: Vec::new(), usage: None };
    assert(c@.calls =~= Seq::<CallView>::empty());
    c
}

/// The event type of an event stream record: the trimmed rest of its last
/// `event:` line.
pub open spec fn sse_event_type(lines: Seq<Seq<char>>) -> Option<Seq<char>>
    decreases lines.len(),
{
    if lines.len() == 0 {
        None
    } else if has_prefix(lines.last(), "event:"@) {
        Some(trim_ws(lines.last().skip(6)))
    } else {
        sse_event_type(lines.drop_last())
    }
}

/// The data of an event stream record: the trimmed rest of its last
/// `data:` line (a line that starts with `event:` is no data line).
pub open spec fn sse_data(lines: Seq<Seq<char>>) -> Option<Seq<char>>
    decreases lines.len(),
{
    if lines.len() == 0 {
        None
    } else if !has_prefix(lines.last(), "event:"@) && has_prefix(lines.last(), "data:"@) {
        Some(trim_ws(lines.last().skip(5)))
    } else {
        sse_data(lines.drop_last())
    }
}

/// An event type with its data.
pub type SseFields<'a> = (String, &'a str);

/// Parse a raw event stream record into its event type and its data: no
/// record without an `event:` line; the data is `{}` when there is no
/// `data:` line.
pub fn extract_sse_fields<'a>(raw: &'a str) -> (r: Option<SseFields<'a>>)
    ensures
        r is None <==> sse_event_type(lines_of(raw@)) is None,
        r matches Some(f) ==> f.0@ == sse_event_type(lines_of(raw@))->0 && f.1@ == (match sse_data(lines_of(raw@)) {
            Some(d) => d,
            None => "{}"@,
        }),
{
    proof {
        reveal_strlit("event:");
        reveal_strlit("data:");
    }
    let ls = lines(raw);
    let ghost lv = ls@.map_values(|l: &str| l@);
    let mut event_type: Option<String> = None;
    let mut data_line: Option<&str> = None;
    let mut i: usize = 0;
    assert(lv.take(0) =~= Seq::<Seq<char>>::empty());
    while i < ls.len()
        invariant
            lv == ls@.map_values(|l: &str| l@),
            lv == lines_of(raw@),
            i <= ls.len(),
            match event_type {
                Some(e) => sse_event_type(lv.take(i as int)) == Some(e@),
                None => sse_event_type(lv.take(i as int)) is None,
            },
            match data_line {
                Some(d) => sse_data(lv.take(i as int)) == Some(d@),
                None => sse_data(lv.take(i as int)) is None,
            },
        decreases ls.len() - i,
    {
        proof {
            reveal_strlit("event:");
            reveal_strlit("data:");
        }
        let line = ls[i];
        assert(lv.take(i + 1).drop_last() =~= lv.take(i as int));
        assert(lv.take(i + 1).last() == line@);
        match strip_prefix(line, "event:") {
            Some(rest) => {
                assert("event:"@.len() == 6);
                assert(rest@ == line@.skip(6));
                assert(sse_event_type(lv.take(i + 1)) == Some(trim_ws(line@.skip(6))));
                assert(sse_data(lv.take(i + 1)) == sse_data(lv.take(i as int)));
                event_type = Some(to_owned_string(trim(rest)));
            },
            None => {
                match strip_prefix(line, "data:") {
                    Some(rest) => {
                        assert("data:"@.len() == 5);
                        assert(sse_data(lv.take(i + 1)) == Some(trim_ws(line@.skip(5))));
                        assert(sse_event_type(lv.take(i + 1)) == sse_event_type(lv.take(i as int)));
                        data_line = Some(trim(rest));
                    },
                    None => {
                        assert(sse_data(lv.take(i + 1)) == sse_data(lv.take(i as int)));
                        assert(sse_event_type(lv.take(i + 1)) == sse_event_type(lv.take(i as int)));
                    },
                }
            },
        }
        i += 1;
    }
    assert(lv.take(ls.len() as int) =~= lv);
    match event_type {
        Some(et) => {
            let d = match data_line {
                Some(d) => d,
                None => "{}",
            };
            Some((et, d))
        },
        None => None,
    }
}

/// The text under a key, or the empty text.
pub open spec fn text_field(v: serde_json::Value, key: Seq<char>) -> Seq<char> {
    match json_field(v, key) {
        Some(x) => match json_as_text(x) {
            Some(t) => t,
            None => Seq::empty(),
        },
        None => Seq::empty(),
    }
}

/// The number under a key, if it is a non-negative integer that fits.
pub open spec fn u64_field(v: serde_json::Value, key: Seq<char>) -> Option<u64> {
    match json_field(v, key) {
        Some(x) => json_as_u64(x),
        None => None,
    }
}

/// The text under a key of the object under another key, or the empty
/// text.
pub open spec fn nested_text(v: serde_json::Value, outer: Seq<char>, key: Seq<char>) -> Seq<char> {
    match json_field(v, outer) {
        Some(o) => text_field(o, key),
        None => Seq::empty(),
    }
}

/// The content block index of an event (0 when absent; larger numbers
/// are cut to the machine word).
pub open spec fn event_index(v: serde_json::Value) -> usize {
    match u64_field(v, "index"@) {
        Some(n) => n as usize,
        None => 0,
    }
}

/// The text under a key, or the empty text.
pub(crate) fn get_text(v: &serde_json::Value, key: &str) -> (s: String)
    ensures
        s@ == text_field(*v, key@),
{
    match json_get(v, key) {
        Some(x) => match json_str(x) {
            Some(t) => to_owned_string(t),
            None => String::new(),
        },
        None => String::new(),
    }
}

/// The number under a key, if any.
pub(crate) fn get_u64(v: &serde_json::Value, key: &str) -> (n: Option<u64>)
    ensures
        n == u64_field(*v, key@),
{
    match json_get(v, key) {
        Some(x) => json_u64(x),
        None => None,
    }
}

/// The text under a key of the object under another key, or the empty
/// text.
fn get_nested_text(v: &serde_json::Value, outer: &str, key: &str) -> (s: String)
    ensures
        s@ == nested_text(*v, outer@, key@),
{
    match json_get(v, outer) {
        Some(o) => get_text(o, key),
        None => String::new(),
    }
}

/// Extract a content block index from an event payload.
fn extract_index(json: &serde_json::Value) -> (i: usize)
    ensures
        i == event_index(*json),
{
    match get_u64(json, "index") {
        Some(n) => n as usize,
        None => 0,
    }
}

/// What a `content_block_start` event says: a tool use block starts a tool
/// call with its id and name; any other block says nothing.
pub open spec fn block_start_view(v: serde_json::Value) -> ChunkView {
    if nested_text(v, "content_block"@, "type"@) == "tool_use"@ {
        ChunkView {
            role: None,
            content: Seq::empty(),
            calls: seq![
                CallView {
                    id: Some(nested_text(v, "content_block"@, "id"@)),
                    name: Some(nested_text(v, "content_block"@, "name"@)),
                    args_delta: Seq::empty(),
                    index: event_index(v),
                },
            ],
            usage: None,
        }
    } else {
        empty_view()
    }
}

/// Parse a `content_block_start` event.
pub fn parse_content_block_start(json: &serde_json::Value) -> (c: MessageChunk)
    ensures
        c@ == block_start_view(*json),
{
    let index = extract_index(json);
    let block_type = get_nested_text(json, "content_block", "type");
    if same_text(block_type.as_str(), "tool_use") {
        let id = get_nested_text(json, "content_block", "id");
        let name = get_nested_text(json, "content_block", "name");
        let mut calls: Vec<ToolCallChunk> = Vec::new();
        calls.push(ToolCallChunk { id: Some(id), name: Some(name), args_delta: String::new(), index });
        let c = MessageChunk { role: None, content: String::new(), tool_call_chunks: calls, usage: None };
        assert(c@.calls =~= block_start_view(*json).calls);
        c
    } else {
        empty_chunk()
    }
}

/// What a `content_block_delta` event says: a text delta carries text, an
/// input JSON delta carries a piece of tool call arguments; any other delta
/// says nothing.
pub open spec fn block_delta_view(v: serde_json::Value) -> ChunkView {
    let t = nested_text(v, "delta"@, "type"@);
    if t == "text_delta"@ {
        ChunkView { role: None, content: nested_text(v, "delta"@, "text"@), calls: Seq::empty(), usage: None }
    } else if t == "input_json_delta"@ {
        ChunkView {
            role: None,
            content: Seq::empty(),
            calls: seq![
                CallView {
                    id: None,
                    name: None,
                    args_delta: nested_text(v, "delta"@, "partial_json"@),
                    index: event_index(v),
                },
            ],
            usage: None,
        }
    } else {
        empty_view()
    }
}

/// Parse a `content_block_delta` event.
pub fn parse_content_block_delta(json: &serde_json::Value) -> (c: MessageChunk)
    ensures
        c@ == block_delta_view(*json),
{
    let index = extract_index(json);
    let delta_type = get_nested_text(json, "delta", "type");
    if same_text(delta_type.as_str(), "text_delta") {
        let text = get_nested_text(json, "delta", "text");
        let c = MessageChunk { role: None, content: text, tool_call_chunks: Vec::new(), usage: None };
        assert(c@.calls =~= Seq::<CallView>::empty());
        c
    } else if same_text(delta_type.as_str(), "input_json_delta") {
        let partial = get_nested_text(json, "delta", "partial_json");
        let mut calls: Vec<ToolCallChunk> = Vec::new();
        calls.push(ToolCallChunk { id: None, name: None, args_delta: partial, index });
        let c = MessageChunk { role: None, content: String::new(), tool_call_chunks: calls, usage: None };
        assert(c@.calls =~= block_delta_view(*json).calls);
        c
    } else {
        empty_chunk()
    }
}

/// The output token count of a `message_delta` event, 0 when absent.
pub open spec fn delta_output_tokens(v: serde_json::Value) -> u64 {
    match json_field(v, "usage"@) {
        Some(u) => match u64_field(u, "output_tokens"@) {
            Some(n) => n,
            None => 0,
        },
        None => 0,
    }
}

/// What a `message_delta` event says: the output token usage.
pub open spec fn message_delta_view(v: serde_json::Value) -> ChunkView {
    ChunkView {
        role: None,
        content: Seq::empty(),
        calls: Seq::empty(),
        usage: Some(
            TokenUsage { input_tokens: 0, output_tokens: delta_output_tokens(v), total_tokens: delta_output_tokens(v) },
        ),
    }
}

/// Parse a `message_delta` event (usage and stop reason).
pub fn parse_message_delta(json: &serde_json::Value) -> (c: MessageChunk)
    ensures
        c@ == message_delta_view(*json),
{
    let output_tokens = match json_get(json, "usage") {
        Some(u) => match get_u64(u, "output_tokens") {
            Some(n) => n,
            None => 0,
        },
        None => 0,
    };
    let usage = TokenUsage { input_tokens: 0, output_tokens, total_tokens: output_tokens };
    let c = MessageChunk { role: None, content: String::new(), tool_call_chunks: Vec::new(), usage: Some(usage) };
    assert(c@.calls =~= Seq::<CallView>::empty());
    c
}

/// The usage a `message_start` event reports: both token counts of its
/// message must be present (their sum wraps past the largest `u64`).
pub open spec fn start_usage(v: serde_json::Value) -> Option<TokenUsage> {
    match json_field(v, "message"@) {
        Some(m) => match json_field(m, "usage"@) {
            Some(u) => match (u64_field(u, "input_tokens"@), u64_field(u, "output_tokens"@)) {
                (Some(i), Some(o)) => Some(
                    TokenUsage { input_tokens: i, output_tokens: o, total_tokens: ((i + o) % 0x1_0000_0000_0000_0000) as u64 },
                ),
                _ => None,
            },
            None => None,
        },
        None => None,
    }
}

/// The usage of a `message_start` event.
fn message_start_usage(json: &serde_json::Value) -> (u: Option<TokenUsage>)
    ensures
        u == start_usage(*json),
{
    let m = match json_get(json, "message") {
        Some(m) => m,
        None => return None,
    };
    let u = match json_get(m, "usage") {
        Some(u) => u,
        None => return None,
    };
    let i = match get_u64(u, "input_tokens") {
        Some(i) => i,
        None => return None,
    };
    let o = match get_u64(u, "output_tokens") {
        Some(o) => o,
        None => return None,
    };
    Some(TokenUsage { input_tokens: i, output_tokens: o, total_tokens: i.wrapping_add(o) })
}

/// The outcome of a stream record: a chunk, or the message of an invalid
/// response.
pub type ChunkOutcome = Result<ChunkView, Seq<char>>;

/// What a server-sent event record says. A record without an event type
/// says nothing; data that is not JSON is an invalid response; a
/// `message_start` event starts a model message with its usage; the
/// content block and message delta events say what their parsers give; an
/// `error` event is an invalid response with the error's message; any
/// other event says nothing.
pub open spec fn sse_event_view(raw: Seq<char>) -> ChunkOutcome {
    match sse_event_type(lines_of(raw)) {
        None => ChunkOutcome::Ok(empty_view()),
        Some(event_type) => {
            let data = match sse_data(lines_of(raw)) {
                Some(d) => d,
                None => "{}"@,
            };
            match json_parse_outcome(data) {
                JsonParseOutcome::Err(e) => ChunkOutcome::Err("Invalid SSE data JSON: "@ + e),
                JsonParseOutcome::Ok(json) => if event_type == "message_start"@ {
                    ChunkOutcome::Ok(
                        ChunkView { role: Some(Role::Ai), content: Seq::empty(), calls: Seq::empty(), usage: start_usage(json) },
                    )
                } else if event_type == "content_block_start"@ {
                    ChunkOutcome::Ok(block_start_view(json))
                } else if event_type == "content_block_delta"@ {
                    ChunkOutcome::Ok(block_delta_view(json))
                } else if event_type == "message_delta"@ {
                    ChunkOutcome::Ok(message_delta_view(json))
                } else if event_type == "error"@ {
                    ChunkOutcome::Err(
                        match json_field(json, "error"@) {
                            Some(e) => match json_field(e, "message"@) {
                                Some(m) => match json_as_text(m) {
                                    Some(t) => t,
                                    None => "Unknown streaming error"@,
                                },
                                None => "Unknown streaming error"@,
                            },
                            None => "Unknown streaming error"@,
                        },
                    )
                } else {
                    ChunkOutcome::Ok(empty_view())
                },
            }
        },
    }
}

/// The outcome of a stream record.
pub type ParsedChunk = Result<MessageChunk, String>;

/// Whether a parsed chunk is what a record says.
pub open spec fn parsed_as(r: ParsedChunk, o: ChunkOutcome) -> bool {
    match r {
        Ok(c) => o == ChunkOutcome::Ok(c@),
        Err(m) => o == ChunkOutcome::Err(m@),
    }
}

/// The message of an `error` event.
fn error_message(json: &serde_json::Value) -> (s: String)
    ensures
        s@ == (match json_field(*json, "error"@) {
            Some(e) => match json_field(e, "message"@) {
                Some(m) => match json_as_text(m) {
                    Some(t) => t,
                    None => "Unknown streaming error"@,
                },
                None => "Unknown streaming error"@,
            },
            None => "Unknown streaming error"@,
        }),
{
    match json_get(json, "error") {
        Some(e) => match json_get(e, "message") {
            Some(m) => match json_str(m) {
                Some(t) => to_owned_string(t),
                None => to_owned_string("Unknown streaming error"),
            },
            None => to_owned_string("Unknown streaming error"),
        },
        None => to_owned_string("Unknown streaming error"),
    }
}

/// Parse a single raw server-sent event record into a chunk, or the
/// message of an invalid response.
pub fn parse_sse_event(raw: &str) -> (r: ParsedChunk)
    ensures
        parsed_as(r, sse_event_view(raw@)),
{
    let (event_type, data) = match extract_sse_fields(raw) {
        Some(f) => f,
        None => return Ok(empty_chunk()),
    };
    let json = match json_parse(data) {
        Ok(v) => v,
        Err(e) => {
            let mut m = to_owned_string("Invalid SSE data JSON: ");
            push_str(&mut m, e.as_str());
            return Err(m);
        },
    };
    let et = event_type.as_str();
    if same_text(et, "message_start") {
        let c = MessageChunk {
            role: Some(Role::Ai),
            content: String::new(),
            tool_call_chunks: Vec::new(),
            usage: message_start_usage(&json),
        };
        assert(c@.calls =~= Seq::<CallView>::empty());
        Ok(c)
    } else if same_text(et, "content_block_start") {
        Ok(parse_content_block_start(&json))
    } else if same_text(et, "content_block_delta") {
        Ok(parse_content_block_delta(&json))
    } else if same_text(et, "message_delta") {
        Ok(parse_message_delta(&json))
    } else if same_text(et, "error") {
        Err(error_message(&json))
    } else {
        Ok(empty_chunk())
    }
}

/// Whether a newline-delimited JSON line reports the final chunk.
pub open spec fn line_done(v: serde_json::Value) -> bool {
    match json_field(v, "done"@) {
        Some(d) => json_as_bool(d) == Some(true),
        None => false,
    }
}

/// A count under a key, 0 when absent.
pub open spec fn count_field(v: serde_json::Value, key: Seq<char>) -> u64 {
    match u64_field(v, key) {
        Some(n) => n,
        None => 0,
    }
}

/// What a newline-delimited JSON line of the local model server says: a
/// line that is not JSON is an invalid response, as is one with an error
/// text; otherwise its message content, and on the final chunk the model
/// role and the token counts (their sum wraps past the largest `u64`).
pub open spec fn ndjson_line_view(line: Seq<char>) -> ChunkOutcome {
    match json_parse_outcome(line) {
        JsonParseOutcome::Err(e) => ChunkOutcome::Err("Invalid Ollama NDJSON: "@ + e),
        JsonParseOutcome::Ok(json) => match json_field(json, "error"@) {
            Some(err) if json_as_text(err) is Some => ChunkOutcome::Err(json_as_text(err)->0),
            _ => {
                let done = line_done(json);
                let input = count_field(json, "prompt_eval_count"@);
                let output = count_field(json, "eval_count"@);
                ChunkOutcome::Ok(
                    ChunkView {
                        role: if done { Some(Role::Ai) } else { None },
                        content: nested_text(json, "message"@, "content"@),
                        calls: Seq::empty(),
                        usage: if done {
                            Some(
                                TokenUsage {
                                    input_tokens: input,
                                    output_tokens: output,
                                    total_tokens: ((input + output) % 0x1_0000_0000_0000_0000) as u64,
                                },
                            )
                        } else {
                            None
                        },
                    },
                )
            },
        },
    }
}

/// A count under a key, 0 when absent.
fn get_count(v: &serde_json::Value, key: &str) -> (n: u64)
    ensures
        n == count_field(*v, key@),
{
    match get_u64(v, key) {
        Some(n) => n,
        None => 0,
    }
}

/// Parse a single line of the local model server's streaming output into
/// a chunk, or the message of an invalid response.
pub fn parse_ollama_ndjson_line(line: &str) -> (r: ParsedChunk)
    ensures
        parsed_as(r, ndjson_line_view(line@)),
{
    let json = match json_parse(line) {
        Ok(v) => v,
        Err(e) => {
            let mut m = to_owned_string("Invalid Ollama NDJSON: ");
            push_str(&mut m, e.as_str());
            return Err(m);
        },
    };
    match json_get(&json, "error") {
        Some(err) => match json_str(err) {
            Some(t) => return Err(to_owned_string(t)),
            None => {},
        },
        None => {},
    }
    let content = get_nested_text(&json, "message", "content");
    let done = match json_get(&json, "done") {
        Some(d) => match json_bool_of(d) {
            Some(b) => b,
            None => false,
        },
        None => false,
    };
    let usage = if done {
        let input = get_count(&json, "prompt_eval_count");
        let output = get_count(&json, "eval_count");
        Some(TokenUsage { input_tokens: input, output_tokens: output, total_tokens: input.wrapping_add(output) })
    } else {
        None
    };
    let c = MessageChunk { role: if done { Some(Role::Ai) } else { None }, content, tool_call_chunks: Vec::new(), usage };
    assert(c@.calls =~= Seq::<CallView>::empty());
    Ok(c)
}

/// Why a provider's answer is refused
#[derive(Clone, Debug)]
pub enum LlmFailure {
    /// Authentication failed
    AuthError(String),
    /// Rate limited (no retry time is given)
    RateLimited,
    /// Context length exceeded (counts are not reported)
    ContextLengthExceeded,
    /// Invalid response
    InvalidResponse(String),
}

/// What a refusal says.
pub enum FailureView {
    AuthError(Seq<char>),
    RateLimited,
    ContextLengthExceeded,
    InvalidResponse(Seq<char>),
}

impl View for LlmFailure {
    type V = FailureView;

    open spec fn view(&self) -> FailureView {
        match self {
            LlmFailure::AuthError(m) => FailureView::AuthError(m@),
            LlmFailure::RateLimited => FailureView::RateLimited,
            LlmFailure::ContextLengthExceeded => FailureView::ContextLengthExceeded,
            LlmFailure::InvalidResponse(m) => FailureView::InvalidResponse(m@),
        }
    }
}

/// The view of an optional refusal.
pub open spec fn opt_failure(f: Option<LlmFailure>) -> Option<FailureView> {
    match f {
        Some(x) => Some(x@),
        None => None,
    }
}

/// Whether an error text reports an exceeded context window.
pub open spec fn says_context_exceeded(body: Seq<char>) -> bool {
    has_substring(body, "context_length_exceeded"@) || has_substring(body, "maximum context length"@)
}

/// The refusal of an unsuccessful status not handled otherwise.
pub open spec fn http_failure(status_text: Seq<char>, body: Seq<char>) -> FailureView {
    FailureView::InvalidResponse("HTTP "@ + status_text + ": "@ + body)
}

/// How a hosted provider's status reads (`status_text` is the printed
/// status, such as `500 Internal Server Error`): 401 is an authentication
/// failure with the given message, 429 a rate limit, 400 an exceeded
/// context when the text says so and else an invalid response with the
/// text, any other unsuccessful status an invalid response naming the
/// status; a success is no refusal.
pub open spec fn hosted_status_failure(status: u16, status_text: Seq<char>, body: Seq<char>, auth_message: Seq<char>) -> Option<FailureView> {
    if status == 401 {
        Some(FailureView::AuthError(auth_message))
    } else if status == 429 {
        Some(FailureView::RateLimited)
    } else if status == 400 {
        if says_context_exceeded(body) {
            Some(FailureView::ContextLengthExceeded)
        } else {
            Some(FailureView::InvalidResponse(body))
        }
    } else if !(200 <= status < 300) {
        Some(http_failure(status_text, body))
    } else {
        None
    }
}

/// The refusal for a hosted provider's status, given the message of an
/// authentication failure.
fn hosted_status(status: u16, status_text: &str, body: &str, auth_message: String) -> (f: Option<LlmFailure>)
    ensures
        opt_failure(f) == hosted_status_failure(status, status_text@, body@, auth_message@),
{
    if status == 401 {
        Some(LlmFailure::AuthError(auth_message))
    } else if status == 429 {
        Some(LlmFailure::RateLimited)
    } else if status == 400 {
        if contains_str(body, "context_length_exceeded") || contains_str(body, "maximum context length") {
            Some(LlmFailure::ContextLengthExceeded)
        } else {
            Some(LlmFailure::InvalidResponse(to_owned_string(body)))
        }
    } else if !(200 <= status && status < 300) {
        let mut m = to_owned_string("HTTP ");
        push_str(&mut m, status_text);
        push_str(&mut m, ": ");
        push_str(&mut m, body);
        Some(LlmFailure::InvalidResponse(m))
    } else {
        None
    }
}

/// How the hosted messages API's answer status reads; an authentication
/// failure carries the answer's text.
pub fn anthropic_status_failure(status: u16, status_text: &str, body: &str) -> (f: Option<LlmFailure>)
    ensures
        opt_failure(f) == hosted_status_failure(status, status_text@, body@, "Invalid API key: "@ + body@),
{
    let mut auth = to_owned_string("Invalid API key: ");
    push_str(&mut auth, body);
    hosted_status(status, status_text, body, auth)
}

/// How the hosted chat completions API's answer status reads; an
/// authentication failure says only that the key is invalid.
pub fn openai_status_failure(status: u16, status_text: &str, body: &str) -> (f: Option<LlmFailure>)
    ensures
        opt_failure(f) == hosted_status_failure(status, status_text@, body@, "Invalid API key"@),
{
    hosted_status(status, status_text, body, to_owned_string("Invalid API key"))
}

/// How the local model server's answer status reads: an unsuccessful
/// status whose text mentions a model not found asks to pull the model;
/// any other unsuccessful status names the status.
pub open spec fn local_status_failure(status: u16, status_text: Seq<char>, body: Seq<char>, model: Seq<char>) -> Option<FailureView> {
    if 200 <= status < 300 {
        None
    } else if has_substring(body, "model"@) && has_substring(body, "not found"@) {
        Some(FailureView::InvalidResponse("Model '"@ + model + "' not found in Ollama. Run: ollama pull "@ + model))
    } else {
        Some(http_failure(status_text, body))
    }
}

/// How the local model server's answer status reads.
pub fn ollama_status_failure(status: u16, status_text: &str, body: &str, model: &str) -> (f: Option<LlmFailure>)
    ensures
        opt_failure(f) == local_status_failure(status, status_text@, body@, model@),
{
    if 200 <= status && status < 300 {
        None
    } else if contains_str(body, "model") && contains_str(body, "not found") {
        let mut m = to_owned_string("Model '");
        push_str(&mut m, model);
        push_str(&mut m, "' not found in Ollama. Run: ollama pull ");
        push_str(&mut m, model);
        Some(LlmFailure::InvalidResponse(m))
    } else {
        let mut m = to_owned_string("HTTP ");
        push_str(&mut m, status_text);
        push_str(&mut m, ": ");
        push_str(&mut m, body);
        Some(LlmFailure::InvalidResponse(m))
    }
}

} // verus!
