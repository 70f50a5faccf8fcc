//! The providers' whole (not streamed) replies: reading the JSON text a
//! provider answers with into the reply's text, tool calls and token
//! usage, and cutting a streamed body into its records.
use vstd::prelude::*;
use crate::chat::{get_text, get_u64, text_field, u64_field, FailureView, LlmFailure, TokenUsage};
use crate::json::{
    json_as_array, json_as_text, json_field, json_from_opt, json_from_option, json_get, json_get_at, json_items,
    json_parse, json_parse_outcome, json_str, JsonParseOutcome,
};
use crate::text::{lemma_split_on_nonempty, push_str, seq_join, split, split_on, string_from_range, to_owned_string, trim, trim_ws, views};

verus! {

/// A tool call the model asks for
#[derive(Clone, Debug)]
pub struct ToolCall {
    /// Call id
    pub id: String,
    /// Tool name
    pub name: String,
    /// Arguments, as JSON
    pub arguments: serde_json::Value,
}

/// What a tool call says.
pub struct ToolCallView {
    pub id: Seq<char>,
    pub name: Seq<char>,
    pub arguments: serde_json::Value,
}

impl View for ToolCall {
    type V = ToolCallView;

    open spec fn view(&self) -> ToolCallView {
        ToolCallView { id: self.id@, name: self.name@, arguments: self.arguments }
    }
}

/// The model's whole reply
#[derive(Clone, Debug)]
pub struct ResponseMessage {
    /// Text of the reply
    pub text: String,
    /// Tool calls the model asks for
    pub tool_calls: Vec<ToolCall>,
    /// Token usage, when reported
    pub usage: Option<TokenUsage>,
}

/// What a reply says.
pub struct ResponseView {
    pub text: Seq<char>,
    pub calls: Seq<ToolCallView>,
    pub usage: Option<TokenUsage>,
}

impl View for ResponseMessage {
    type V = ResponseView;

    open spec fn view(&self) -> ResponseView {
        ResponseView {
            text: self.text@,
            calls: self.tool_calls@.map_values(|c: ToolCall| c@),
            usage: self.usage,
        }
    }
}

/// The outcome of reading a reply: what it says, or why it is refused.
pub type ResponseOutcome = Result<ResponseView, FailureView>;

/// What a reply, or its refusal, says.
pub open spec fn response_view(r: Result<ResponseMessage, LlmFailure>) -> ResponseOutcome {
    match r {
        Ok(m) => ResponseOutcome::Ok(m@),
        Err(f) => ResponseOutcome::Err(f@),
    }
}

/// The refusal of a reply that is not JSON.
pub open spec fn invalid_json(e: Seq<char>) -> FailureView {
    FailureView::InvalidResponse("Invalid JSON: "@ + e)
}

/// The usage given by two counts under two keys, both of which must be
/// present (their sum wraps past the largest `u64`).
pub open spec fn pair_usage(u: serde_json::Value, input_key: Seq<char>, output_key: Seq<char>) -> Option<TokenUsage> {
    match (u64_field(u, input_key), u64_field(u, output_key)) {
        (Some(i), Some(o)) => Some(
            TokenUsage { input_tokens: i, output_tokens: o, total_tokens: ((i + o) % 0x1_0000_0000_0000_0000) as u64 },
        ),
        _ => None,
    }
}

/// Whether a content block's type is the given text.
pub open spec fn block_type_is(b: serde_json::Value, t: Seq<char>) -> bool {
    match json_field(b, "type"@) {
        Some(x) => json_as_text(x) == Some(t),
        None => false,
    }
}

/// The text a content block adds: a text block's text (or nothing when it
/// has none), nothing for any other block.
pub open spec fn block_text(b: serde_json::Value) -> Seq<char> {
    if block_type_is(b, "text"@) {
        text_field(b, "text"@)
    } else {
        Seq::empty()
    }
}

/// The tool call a content block adds: a tool use block asks for one, with
/// its id and name (empty when absent) and its input (`null` when absent).
pub open spec fn block_calls(b: serde_json::Value) -> Seq<ToolCallView> {
    if block_type_is(b, "tool_use"@) {
        seq![
            ToolCallView {
                id: text_field(b, "id"@),
                name: text_field(b, "name"@),
                arguments: json_from_option(json_field(b, "input"@)),
            },
        ]
    } else {
        Seq::empty()
    }
}

/// The text of the content blocks, in order.
pub open spec fn blocks_text(bs: Seq<serde_json::Value>) -> Seq<char>
    decreases bs.len(),
{
    if bs.len() == 0 {
        Seq::empty()
    } else {
        blocks_text(bs.drop_last()) + block_text(bs.last())
    }
}

/// The tool calls of the content blocks, in order.
pub open spec fn blocks_calls(bs: Seq<serde_json::Value>) -> Seq<ToolCallView>
    decreases bs.len(),
{
    if bs.len() == 0 {
        Seq::empty()
    } else {
        blocks_calls(bs.drop_last()) + block_calls(bs.last())
    }
}

/// What a hosted messages reply says: without a content array it is an
/// invalid response; otherwise the text and tool calls of its content
/// blocks and the usage with both of its counts.
pub open spec fn anthropic_json_view(json: serde_json::Value) -> ResponseOutcome {
    let no_content = ResponseOutcome::Err(FailureView::InvalidResponse("No content in response"@));
    match json_field(json, "content"@) {
        Some(c) => match json_as_array(c) {
            Some(bs) => ResponseOutcome::Ok(
                ResponseView {
                    text: blocks_text(bs),
                    calls: blocks_calls(bs),
                    usage: match json_field(json, "usage"@) {
                        Some(u) => pair_usage(u, "input_tokens"@, "output_tokens"@),
                        None => None,
                    },
                },
            ),
            None => no_content,
        },
        None => no_content,
    }
}

/// What the text of a hosted messages reply says.
pub open spec fn anthropic_response_view(parsed: JsonParseOutcome) -> ResponseOutcome {
    match parsed {
        JsonParseOutcome::Err(e) => ResponseOutcome::Err(invalid_json(e)),
        JsonParseOutcome::Ok(json) => anthropic_json_view(json),
    }
}

/// Appends the text and tool calls of the content blocks.
fn read_blocks(blocks: &Vec<serde_json::Value>, text: &mut String, calls: &mut Vec<ToolCall>)
    requires
        old(text)@.len() == 0,
        old(calls)@.len() == 0,
    ensures
        final(text)@ == blocks_text(blocks@),
        final(calls)@.map_values(|c: ToolCall| c@) == blocks_calls(blocks@),
{
    let mut i: usize = 0;
    while i < blocks.len()
        invariant
            i <= blocks.len(),
            text@ == blocks_text(blocks@.take(i as int)),
            calls@.map_values(|c: ToolCall| c@) == blocks_calls(blocks@.take(i as int)),
        decreases blocks.len() - i,
    {
        let b = &blocks[i];
        assert(blocks@.take(i + 1).drop_last() =~= blocks@.take(i as int));
        assert(blocks@.take(i + 1).last() == *b);
        let is_text = match json_get(b, "type") {
            Some(t) => match json_str(t) {
                Some(s) => crate::text::same_text(s, "text"),
                None => false,
            },
            None => false,
        };
        let is_tool = match json_get(b, "type") {
            Some(t) => match json_str(t) {
                Some(s) => crate::text::same_text(s, "tool_use"),
                None => false,
            },
            None => false,
        };
        proof {
            reveal_strlit("text");
            reveal_strlit("tool_use");
            assert("text"@.len() != "tool_use"@.len());
        }
        assert(is_text == block_type_is(*b, "text"@));
        assert(is_tool == block_type_is(*b, "tool_use"@));
        if is_text {
            let t = get_text(b, "text");
            push_str(text, t.as_str());
        }
        if is_tool {
            let id = get_text(b, "id");
            let name = get_text(b, "name");
            let input = match json_get(b, "input") {
                Some(x) => Some(x.clone()),
                None => None,
            };
            let arguments = json_from_opt(input);
            let ghost before = calls@;
            calls.push(ToolCall { id, name, arguments });
            assert(calls@.map_values(|c: ToolCall| c@) =~= before.map_values(|c: ToolCall| c@).push(
                calls@[before.len() as int]@,
            ));
        } else {
            assert(block_calls(*b) =~= Seq::<ToolCallView>::empty());
        }
        assert(blocks_calls(blocks@.take(i + 1)) =~= blocks_calls(blocks@.take(i as int)) + block_calls(*b));
        assert(block_type_is(*b, "text"@) ==> !block_type_is(*b, "tool_use"@));
        i += 1;
    }
    assert(blocks@.take(blocks.len() as int) =~= blocks@);
}

/// Read a hosted messages reply from its JSON.
pub fn anthropic_reply(json: &serde_json::Value) -> (r: Result<ResponseMessage, LlmFailure>)
    ensures
        response_view(r) == anthropic_json_view(*json),
{
    let blocks = match json_get(json, "content") {
        Some(c) => match json_items(c) {
            Some(bs) => bs,
            None => return Err(LlmFailure::InvalidResponse(to_owned_string("No content in response"))),
        },
        None => return Err(LlmFailure::InvalidResponse(to_owned_string("No content in response"))),
    };
    let mut text = String::new();
    let mut tool_calls: Vec<ToolCall> = Vec::new();
    read_blocks(blocks, &mut text, &mut tool_calls);
    let usage = match json_get(json, "usage") {
        Some(u) => read_pair_usage(u, "input_tokens", "output_tokens"),
        None => None,
    };
    Ok(ResponseMessage { text, tool_calls, usage })
}

/// The usage given by two counts under two keys.
fn read_pair_usage(u: &serde_json::Value, input_key: &str, output_key: &str) -> (r: Option<TokenUsage>)
    ensures
        r == pair_usage(*u, input_key@, output_key@),
{
    let i = match get_u64(u, input_key) {
        Some(i) => i,
        None => return None,
    };
    let o = match get_u64(u, output_key) {
        Some(o) => o,
        None => return None,
    };
    Some(TokenUsage { input_tokens: i, output_tokens: o, total_tokens: i.wrapping_add(o) })
}

/// The refusal of a reply that is not JSON.
fn invalid_json_failure(e: String) -> (f: LlmFailure)
    ensures
        f@ == invalid_json(e@),
{
    let mut m = to_owned_string("Invalid JSON: ");
    push_str(&mut m, e.as_str());
    LlmFailure::InvalidResponse(m)
}

/// Read the text of a hosted messages reply.
pub fn parse_anthropic_response(text: &str) -> (r: Result<ResponseMessage, LlmFailure>)
    ensures
        response_view(r) == anthropic_response_view(json_parse_outcome(text@)),
{
    match json_parse(text) {
        Ok(json) => anthropic_reply(&json),
        Err(e) => Err(invalid_json_failure(e)),
    }
}

/// The item at a position of an array value, if any.
pub open spec fn item_at(v: serde_json::Value, i: int) -> Option<serde_json::Value> {
    match json_as_array(v) {
        Some(a) => if 0 <= i < a.len() {
            Some(a[i])
        } else {
            None
        },
        None => None,
    }
}

/// The arguments of a chat completions function: its `arguments` text
/// read as JSON, or `null` when absent, not text, or not JSON.
pub open spec fn call_arguments(f: serde_json::Value) -> serde_json::Value {
    match json_field(f, "arguments"@) {
        Some(a) => match json_as_text(a) {
            Some(s) => match json_parse_outcome(s) {
                JsonParseOutcome::Ok(v) => v,
                JsonParseOutcome::Err(_) => json_from_option(None),
            },
            None => json_from_option(None),
        },
        None => json_from_option(None),
    }
}

/// The tool call a chat completions entry asks for: one with a text id and
/// a function with a text name; an entry lacking either asks for none.
pub open spec fn openai_call(tc: serde_json::Value) -> Seq<ToolCallView> {
    match json_field(tc, "id"@) {
        Some(idv) => match json_as_text(idv) {
            Some(id) => match json_field(tc, "function"@) {
                Some(f) => match json_field(f, "name"@) {
                    Some(nv) => match json_as_text(nv) {
                        Some(name) => seq![ToolCallView { id, name, arguments: call_arguments(f) }],
                        None => Seq::empty(),
                    },
                    None => Seq::empty(),
                },
                None => Seq::empty(),
            },
            None => Seq::empty(),
        },
        None => Seq::empty(),
    }
}

/// The tool calls of the chat completions entries, in order.
pub open spec fn openai_calls(entries: Seq<serde_json::Value>) -> Seq<ToolCallView>
    decreases entries.len(),
{
    if entries.len() == 0 {
        Seq::empty()
    } else {
        openai_calls(entries.drop_last()) + openai_call(entries.last())
    }
}

/// The usage of a chat completions reply: all three counts must be present.
pub open spec fn openai_usage(resp: serde_json::Value) -> Option<TokenUsage> {
    match json_field(resp, "usage"@) {
        Some(u) => match (u64_field(u, "prompt_tokens"@), u64_field(u, "completion_tokens"@), u64_field(u, "total_tokens"@)) {
            (Some(i), Some(o), Some(t)) => Some(TokenUsage { input_tokens: i, output_tokens: o, total_tokens: t }),
            _ => None,
        },
        None => None,
    }
}

/// What a chat completions reply says: without a first choice, or without
/// a message in it, it is an invalid response; otherwise the message's
/// text (empty when absent), the tool calls of its `tool_calls` array and
/// the reply's usage.
pub open spec fn openai_json_view(resp: serde_json::Value) -> ResponseOutcome {
    match json_field(resp, "choices"@) {
        Some(cs) => match item_at(cs, 0) {
            Some(choice) => match json_field(choice, "message"@) {
                Some(m) => ResponseOutcome::Ok(
                    ResponseView {
                        text: text_field(m, "content"@),
                        calls: match json_field(m, "tool_calls"@) {
                            Some(tc) => match json_as_array(tc) {
                                Some(entries) => openai_calls(entries),
                                None => Seq::empty(),
                            },
                            None => Seq::empty(),
                        },
                        usage: openai_usage(resp),
                    },
                ),
                None => ResponseOutcome::Err(FailureView::InvalidResponse("No message in choice"@)),
            },
            None => ResponseOutcome::Err(FailureView::InvalidResponse("No choices in response"@)),
        },
        None => ResponseOutcome::Err(FailureView::InvalidResponse("No choices in response"@)),
    }
}

/// What the text of a chat completions reply says.
pub open spec fn openai_response_view(parsed: JsonParseOutcome) -> ResponseOutcome {
    match parsed {
        JsonParseOutcome::Err(e) => ResponseOutcome::Err(invalid_json(e)),
        JsonParseOutcome::Ok(json) => openai_json_view(json),
    }
}

/// The arguments of a chat completions function.
fn read_call_arguments(f: &serde_json::Value) -> (v: serde_json::Value)
    ensures
        v == call_arguments(*f),
{
    match json_get(f, "arguments") {
        Some(a) => match json_str(a) {
            Some(s) => match json_parse(s) {
                Ok(v) => v,
                Err(_) => json_from_opt(None),
            },
            None => json_from_opt(None),
        },
        None => json_from_opt(None),
    }
}

/// The tool call of a chat completions entry, if it asks for one.
fn read_openai_call(tc: &serde_json::Value) -> (r: Option<ToolCall>)
    ensures
        match r {
            Some(c) => openai_call(*tc) == seq![c@],
            None => openai_call(*tc) =~= Seq::<ToolCallView>::empty(),
        },
{
    let id = match json_get(tc, "id") {
        Some(v) => match json_str(v) {
            Some(t) => to_owned_string(t),
            None => return None,
        },
        None => return None,
    };
    let f = match json_get(tc, "function") {
        Some(f) => f,
        None => return None,
    };
    let name = match json_get(f, "name") {
        Some(v) => match json_str(v) {
            Some(t) => to_owned_string(t),
            None => return None,
        },
        None => return None,
    };
    let arguments = read_call_arguments(f);
    Some(ToolCall { id, name, arguments })
}

/// Read a chat completions reply from its JSON.
pub fn openai_reply(resp: &serde_json::Value) -> (r: Result<ResponseMessage, LlmFailure>)
    ensures
        response_view(r) == openai_json_view(*resp),
{
    let choice = match json_get(resp, "choices") {
        Some(cs) => match json_get_at(cs, 0) {
            Some(c) => c,
            None => return Err(LlmFailure::InvalidResponse(to_owned_string("No choices in response"))),
        },
        None => return Err(LlmFailure::InvalidResponse(to_owned_string("No choices in response"))),
    };
    let message = match json_get(choice, "message") {
        Some(m) => m,
        None => return Err(LlmFailure::InvalidResponse(to_owned_string("No message in choice"))),
    };
    let text = get_text(message, "content");
    let mut tool_calls: Vec<ToolCall> = Vec::new();
    match json_get(message, "tool_calls") {
        Some(tc) => match json_items(tc) {
            Some(entries) => {
                let mut i: usize = 0;
                while i < entries.len()
                    invariant
                        i <= entries.len(),
                        tool_calls@.map_values(|c: ToolCall| c@) == openai_calls(entries@.take(i as int)),
                    decreases entries.len() - i,
                {
                    assert(entries@.take(i + 1).drop_last() =~= entries@.take(i as int));
                    let ghost before = tool_calls@;
                    match read_openai_call(&entries[i]) {
                        Some(c) => {
                            tool_calls.push(c);
                            assert(tool_calls@.map_values(|c: ToolCall| c@) =~= before.map_values(|c: ToolCall| c@)
                                + openai_call(entries@[i as int]));
                        },
                        None => {
                            assert(tool_calls@.map_values(|c: ToolCall| c@) =~= before.map_values(|c: ToolCall| c@)
                                + openai_call(entries@[i as int]));
                        },
                    }
                    i += 1;
                }
                assert(entries@.take(entries.len() as int) =~= entries@);
            },
            None => {
                assert(tool_calls@.map_values(|c: ToolCall| c@) =~= Seq::<ToolCallView>::empty());
            },
        },
        None => {
            assert(tool_calls@.map_values(|c: ToolCall| c@) =~= Seq::<ToolCallView>::empty());
        },
    }
    let usage = match json_get(resp, "usage") {
        Some(u) => {
            let i = get_u64(u, "prompt_tokens");
            let o = get_u64(u, "completion_tokens");
            let t = get_u64(u, "total_tokens");
            match (i, o, t) {
                (Some(i), Some(o), Some(t)) => Some(TokenUsage { input_tokens: i, output_tokens: o, total_tokens: t }),
                _ => None,
            }
        },
        None => None,
    };
    Ok(ResponseMessage { text, tool_calls, usage })
}

/// Read the text of a chat completions reply.
pub fn parse_openai_response(text: &str) -> (r: Result<ResponseMessage, LlmFailure>)
    ensures
        response_view(r) == openai_response_view(json_parse_outcome(text@)),
{
    match json_parse(text) {
        Ok(json) => openai_reply(&json),
        Err(e) => Err(invalid_json_failure(e)),
    }
}

/// What a local model server's reply says: without a message it is an
/// invalid response; otherwise the message's text (empty when absent), no
/// tool calls, and the usage when both counts are present.
pub open spec fn ollama_json_view(json: serde_json::Value) -> ResponseOutcome {
    match json_field(json, "message"@) {
        Some(m) => ResponseOutcome::Ok(
            ResponseView {
                text: text_field(m, "content"@),
                calls: Seq::empty(),
                usage: pair_usage(json, "prompt_eval_count"@, "eval_count"@),
            },
        ),
        None => ResponseOutcome::Err(FailureView::InvalidResponse("No message in response"@)),
    }
}

/// What the text of a local model server's reply says.
pub open spec fn ollama_response_view(parsed: JsonParseOutcome) -> ResponseOutcome {
    match parsed {
        JsonParseOutcome::Err(e) => ResponseOutcome::Err(invalid_json(e)),
        JsonParseOutcome::Ok(json) => ollama_json_view(json),
    }
}

/// Read a local model server's reply from its JSON.
pub fn ollama_reply(json: &serde_json::Value) -> (r: Result<ResponseMessage, LlmFailure>)
    ensures
        response_view(r) == ollama_json_view(*json),
{
    let message = match json_get(json, "message") {
        Some(m) => m,
        None => return Err(LlmFailure::InvalidResponse(to_owned_string("No message in response"))),
    };
    let text = get_text(message, "content");
    let usage = read_pair_usage(json, "prompt_eval_count", "eval_count");
    let r = ResponseMessage { text, tool_calls: Vec::new(), usage };
    assert(r@.calls =~= Seq::<ToolCallView>::empty());
    Ok(r)
}

/// Read the text of a local model server's reply.
pub fn parse_ollama_response(text: &str) -> (r: Result<ResponseMessage, LlmFailure>)
    ensures
        response_view(r) == ollama_response_view(json_parse_outcome(text@)),
{
    match json_parse(text) {
        Ok(json) => ollama_reply(&json),
        Err(e) => Err(invalid_json_failure(e)),
    }
}

/// The lines of a newline-delimited body that a read completes: the pieces
/// before each newline, trimmed, the empty ones left out.
pub open spec fn ndjson_lines(pieces: Seq<Seq<char>>) -> Seq<Seq<char>>
    decreases pieces.len(),
{
    if pieces.len() == 0 {
        Seq::empty()
    } else {
        let prev = ndjson_lines(pieces.drop_last());
        let t = trim_ws(pieces.last());
        if t.len() == 0 {
            prev
        } else {
            prev.push(t)
        }
    }
}

/// Cut the complete lines off a newline-delimited body read so far: the
/// trimmed, non-empty lines ended by a newline, in order, and the text
/// after the last newline, kept for the next read.
pub fn take_ndjson_lines(buf: &str) -> (r: (Vec<String>, String))
    ensures
        views(r.0@) == ndjson_lines(split_on(buf@, '\n').drop_last()),
        r.1@ == split_on(buf@, '\n').last(),
{
    let pieces = split(buf, '\n');
    let ghost ps = split_on(buf@, '\n');
    proof {
        lemma_split_on_nonempty(buf@, '\n');
    }
    assert(pieces@.len() == ps.len());
    let n = pieces.len() - 1;
    let mut lines: Vec<String> = Vec::new();
    let mut i: usize = 0;
    while i < n
        invariant
            n == pieces.len() - 1,
            pieces@.map_values(|p: String| p@) == ps,
            i <= n,
            views(lines@) == ndjson_lines(ps.take(i as int)),
        decreases n - i,
    {
        assert(ps.take(i + 1).drop_last() =~= ps.take(i as int));
        assert(ps.take(i + 1).last() == pieces@[i as int]@);
        let t = trim(pieces[i].as_str());
        if !t.is_empty() {
            let ghost before = lines@;
            lines.push(to_owned_string(t));
            assert(views(lines@) =~= views(before).push(t@));
        }
        i += 1;
    }
    assert(ps.take(n as int) =~= ps.drop_last());
    let rest = pieces[n].clone();
    assert(rest@ == ps.last());
    (lines, rest)
}

/// Whether a blank line (two newlines) starts at position `i`.
pub open spec fn blank_at(s: Seq<char>, i: int) -> bool {
    0 <= i && i + 1 < s.len() && s[i] == '\n' && s[i + 1] == '\n'
}

/// Scanning from `i`, with the current record begun at `start`: the
/// records ended by a blank line, each cut at the first blank line after
/// the previous one, and the text after the last, kept for the next read.
pub open spec fn sse_scan(s: Seq<char>, start: int, i: int) -> (Seq<Seq<char>>, Seq<char>)
    decreases s.len() - i,
{
    if i < 0 || i + 1 >= s.len() {
        (Seq::empty(), s.subrange(start, s.len() as int))
    } else if blank_at(s, i) {
        let rest = sse_scan(s, i + 2, i + 2);
        (seq![s.subrange(start, i)] + rest.0, rest.1)
    } else {
        sse_scan(s, start, i + 1)
    }
}

/// Cut the complete records off a server-sent event body read so far:
/// the records ended by a blank line, in order, and the text after the
/// last one, kept for the next read.
pub fn take_sse_events(buf: &str) -> (r: (Vec<String>, String))
    ensures
        views(r.0@) == sse_scan(buf@, 0, 0).0,
        r.1@ == sse_scan(buf@, 0, 0).1,
{
    let v = crate::text::chars_of(buf);
    let mut events: Vec<String> = Vec::new();
    let mut start: usize = 0;
    let mut i: usize = 0;
    while i < v.len() && v.len() - i > 1
        invariant
            v@ == buf@,
            start <= i <= v.len(),
            sse_scan(buf@, 0, 0) == (views(events@) + sse_scan(buf@, start as int, i as int).0, sse_scan(buf@, start as int, i as int).1),
        decreases v.len() - i,
    {
        if v[i] == '\n' && v[i + 1] == '\n' {
            let ghost before = events@;
            let ghost rest = sse_scan(buf@, (i + 2) as int, (i + 2) as int);
            assert(blank_at(buf@, i as int));
            assert(sse_scan(buf@, start as int, i as int) == (seq![buf@.subrange(start as int, i as int)] + rest.0, rest.1));
            events.push(string_from_range(&v, start, i));
            assert(views(events@) =~= views(before).push(buf@.subrange(start as int, i as int)));
            assert(views(events@) + rest.0 =~= views(before) + (seq![buf@.subrange(start as int, i as int)] + rest.0));
            start = i + 2;
            i = i + 2;
        } else {
            assert(!blank_at(buf@, i as int));
            i += 1;
        }
    }
    let rest = string_from_range(&v, start, v.len());
    assert(sse_scan(buf@, start as int, i as int).0 =~= Seq::<Seq<char>>::empty());
    assert(views(events@) + Seq::<Seq<char>>::empty() =~= views(events@));
    (events, rest)
}

/// Joining a first part before the others puts it, and a separator, in
/// front of their join.
pub proof fn lemma_join_front(a: Seq<char>, rest: Seq<Seq<char>>, sep: Seq<char>)
    requires
        rest.len() >= 1,
    ensures
        seq_join(seq![a] + rest, sep) == a + sep + seq_join(rest, sep),
    decreases rest.len(),
{
    let all = seq![a] + rest;
    if rest.len() == 1 {
        assert(all.drop_last() =~= seq![a]);
        assert(all.last() == rest[0]);
        assert(seq_join(seq![a], sep) == a);
        assert(seq_join(rest, sep) == rest[0]);
        assert(all.len() == 2);
        assert(seq_join(all, sep) == seq_join(all.drop_last(), sep) + sep + all.last());
    } else {
        assert(all.drop_last() =~= seq![a] + rest.drop_last());
        assert(all.last() == rest.last());
        lemma_join_front(a, rest.drop_last(), sep);
        assert(seq_join(all, sep) == seq_join(all.drop_last(), sep) + sep + all.last());
        assert(seq_join(rest, sep) == seq_join(rest.drop_last(), sep) + sep + rest.last());
        assert(a + sep + seq_join(rest.drop_last(), sep) + sep + rest.last() =~= a + sep + (seq_join(
            rest.drop_last(),
            sep,
        ) + sep + rest.last()));
    }
}

/// Scanning from a position gives back, joined by blank lines, the text
/// from the start of the current record on.
pub proof fn lemma_sse_scan_reassembles(s: Seq<char>, start: int, i: int)
    requires
        0 <= start <= i <= s.len(),
    ensures
        seq_join(sse_scan(s, start, i).0.push(sse_scan(s, start, i).1), "\n\n"@) == s.subrange(start, s.len() as int),
    decreases s.len() - i,
{
    let r = sse_scan(s, start, i);
    if i + 1 >= s.len() {
        assert(r.0.push(r.1) =~= seq![r.1]);
    } else if blank_at(s, i) {
        let rest = sse_scan(s, i + 2, i + 2);
        lemma_sse_scan_reassembles(s, i + 2, i + 2);
        let first = s.subrange(start, i);
        assert(r.0.push(r.1) =~= seq![first] + rest.0.push(rest.1));
        lemma_join_front(first, rest.0.push(rest.1), "\n\n"@);
        assert("\n\n"@ =~= s.subrange(i, i + 2)) by {
            reveal_strlit("\n\n");
        }
        assert(first + s.subrange(i, i + 2) + s.subrange(i + 2, s.len() as int) =~= s.subrange(start, s.len() as int));
    } else {
        lemma_sse_scan_reassembles(s, start, i + 1);
    }
}

/// Law of the event framing: the records cut off a body and the text
/// kept, joined by blank lines, are the body again; nothing is lost or
/// added.
pub proof fn lemma_sse_events_reassemble(buf: Seq<char>)
    ensures
        seq_join(sse_scan(buf, 0, 0).0.push(sse_scan(buf, 0, 0).1), "\n\n"@) == buf,
{
    lemma_sse_scan_reassembles(buf, 0, 0);
    assert(buf.subrange(0, buf.len() as int) =~= buf);
}

/// Every line a body's complete lines give is non-empty and trimmed.
pub proof fn lemma_ndjson_lines_trimmed(pieces: Seq<Seq<char>>)
    ensures
        forall|k: int| 0 <= k < ndjson_lines(pieces).len() ==> (#[trigger] ndjson_lines(pieces)[k]).len() > 0
            && exists|j: int| 0 <= j < pieces.len() && ndjson_lines(pieces)[k] == trim_ws(pieces[j]),
    decreases pieces.len(),
{
    if pieces.len() > 0 {
        lemma_ndjson_lines_trimmed(pieces.drop_last());
        let prev = ndjson_lines(pieces.drop_last());
        assert forall|k: int| 0 <= k < ndjson_lines(pieces).len() implies (#[trigger] ndjson_lines(pieces)[k]).len() > 0
            && exists|j: int| 0 <= j < pieces.len() && ndjson_lines(pieces)[k] == trim_ws(pieces[j]) by {
            if k < prev.len() {
                assert(ndjson_lines(pieces)[k] == prev[k]);
                let j = choose|j: int| 0 <= j < pieces.drop_last().len() && prev[k] == trim_ws(pieces.drop_last()[j]);
                assert(pieces[j] == pieces.drop_last()[j]);
            } else {
                assert(ndjson_lines(pieces)[k] == trim_ws(pieces.last()));
                assert(pieces[pieces.len() - 1] == pieces.last());
            }
        }
    }
}

/// Law of the line framing: each line cut off a body is a trimmed,
/// non-empty line the body ended with a newline, and the text kept holds
/// no newline (it is the unfinished last line).
pub proof fn lemma_ndjson_framing(buf: Seq<char>)
    ensures
        forall|k: int| 0 <= k < ndjson_lines(split_on(buf, '\n').drop_last()).len() ==> (
        #[trigger] ndjson_lines(split_on(buf, '\n').drop_last())[k]).len() > 0,
        !split_on(buf, '\n').last().contains('\n'),
{
    lemma_ndjson_lines_trimmed(split_on(buf, '\n').drop_last());
    crate::text::lemma_split_on_pieces_free(buf, '\n');
    lemma_split_on_nonempty(buf, '\n');
    assert(split_on(buf, '\n').last() == split_on(buf, '\n')[split_on(buf, '\n').len() - 1]);
}

} // verus!
