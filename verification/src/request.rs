//! Conversation messages, and the request body a chat completions
//! provider is sent.
use vstd::prelude::*;
use crate::chat::{Role, TokenUsage};
use crate::json::{
    json_array, json_bool, json_field, json_compact_text, json_from_bool, json_from_map, json_from_opt, json_from_option, json_from_string, json_from_u32,
    json_from_vec, json_map_insert, json_map_new, json_object, json_string, json_to_text, json_u32, JsonMap,
};
use crate::llm::ToolDefinition;
use crate::response::ToolCall;
use crate::text::{join, seq_join, to_owned_string, views};

verus! {

/// Where an image comes from
#[derive(Clone, Debug)]
pub enum ImageSource {
    /// Inline, base64-encoded
    Base64(String),
    /// At a URL
    Url(String),
}

/// An image in a message
#[derive(Clone, Debug)]
pub struct ImageData {
    /// Media type, such as `image/png`
    pub media_type: String,
    /// Where the image comes from
    pub source: ImageSource,
}

/// A part of a message's content
#[derive(Clone, Debug)]
pub enum ContentPart {
    /// Text
    Text { text: String },
    /// An image
    Image(ImageData),
    /// The model's reasoning, with its signature
    Thinking { text: String, signature: String },
}

/// A message's content
#[derive(Clone, Debug)]
pub enum Content {
    /// Plain text
    Text(String),
    /// Several parts
    MultiPart(Vec<ContentPart>),
}

/// A message of a conversation
#[derive(Clone, Debug)]
pub struct Message {
    /// Message id
    pub id: String,
    /// Author
    pub role: Role,
    /// Content
    pub content: Content,
    /// Tool calls the model asks for
    pub tool_calls: Vec<ToolCall>,
    /// The call a tool result answers
    pub tool_call_id: Option<String>,
    /// Author name
    pub name: Option<String>,
    /// Token usage, when reported
    pub usage: Option<TokenUsage>,
}

/// The role name a chat completions provider uses.
pub open spec fn role_name(r: Role) -> Seq<char> {
    match r {
        Role::System => "system"@,
        Role::Human => "user"@,
        Role::Ai => "assistant"@,
        Role::Tool => "tool"@,
    }
}

/// The JSON of a content part: a text part is a typed text object; any
/// other part is `null`.
pub open spec fn part_json(p: ContentPart) -> serde_json::Value {
    match p {
        ContentPart::Text { text } => json_object(
            Map::empty().insert("type"@, json_string("text"@)).insert("text"@, json_string(text@)),
        ),
        _ => json_from_option(None),
    }
}

/// The JSON of a message's content: text as a string, parts as an array.
pub open spec fn content_json(c: Content) -> serde_json::Value {
    match c {
        Content::Text(t) => json_string(t@),
        Content::MultiPart(ps) => json_array(ps@.map_values(|p: ContentPart| part_json(p))),
    }
}

/// The JSON of a tool call: its id, the type `function`, and the function
/// with its name and its arguments printed as JSON text.
pub open spec fn call_json(tc: ToolCall) -> serde_json::Value {
    json_object(
        Map::empty().insert("id"@, json_string(tc.id@)).insert("type"@, json_string("function"@)).insert(
            "function"@,
            json_object(
                Map::empty().insert("name"@, json_string(tc.name@)).insert(
                    "arguments"@,
                    json_string(json_compact_text(tc.arguments)),
                ),
            ),
        ),
    )
}

/// The JSON of a message: its role and content, its tool calls when it
/// has some, and the call it answers when it answers one.
pub open spec fn message_entries(m: Message) -> Map<Seq<char>, serde_json::Value> {
    let base = Map::empty().insert("role"@, json_string(role_name(m.role))).insert("content"@, content_json(m.content));
    let with_calls = if m.tool_calls@.len() > 0 {
        base.insert("tool_calls"@, json_array(m.tool_calls@.map_values(|tc: ToolCall| call_json(tc))))
    } else {
        base
    };
    match m.tool_call_id {
        Some(id) => with_calls.insert("tool_call_id"@, json_string(id@)),
        None => with_calls,
    }
}

/// The JSON of a message: the object holding its entries.
pub open spec fn message_json(m: Message) -> serde_json::Value {
    json_object(message_entries(m))
}

/// The JSON of a tool definition: the type `function` and the function
/// with its name, description and parameter schema.
pub open spec fn tool_json(t: ToolDefinition) -> serde_json::Value {
    json_object(
        Map::empty().insert("type"@, json_string("function"@)).insert(
            "function"@,
            json_object(
                Map::empty().insert("name"@, json_string(t.name@)).insert("description"@, json_string(t.description@)).insert(
                    "parameters"@,
                    t.parameters,
                ),
            ),
        ),
    )
}

/// The entries of the chat completions request body, without its sampling settings: the
/// model and the messages; the token limit, the stop sequences and the
/// tools when there are any.
pub open spec fn openai_body_entries(
    model: Seq<char>,
    messages: Seq<Message>,
    tools: Seq<ToolDefinition>,
    max_tokens: Option<u32>,
    stop: Option<Vec<String>>,
) -> Map<Seq<char>, serde_json::Value> {
    let base = Map::empty().insert("model"@, json_string(model)).insert(
        "messages"@,
        json_array(messages.map_values(|m: Message| message_json(m))),
    );
    let with_limit = match max_tokens {
        Some(n) => base.insert("max_tokens"@, json_u32(n)),
        None => base,
    };
    let with_stop = match stop {
        Some(s) => with_limit.insert("stop"@, json_array(s@.map_values(|x: String| json_string(x@)))),
        None => with_limit,
    };
    if tools.len() > 0 {
        with_stop.insert("tools"@, json_array(tools.map_values(|t: ToolDefinition| tool_json(t))))
    } else {
        with_stop
    }
}

/// The request body: the object holding those entries.
pub open spec fn openai_body_view(
    model: Seq<char>,
    messages: Seq<Message>,
    tools: Seq<ToolDefinition>,
    max_tokens: Option<u32>,
    stop: Option<Vec<String>>,
) -> serde_json::Value {
    json_object(openai_body_entries(model, messages, tools, max_tokens, stop))
}

/// An object with two entries.
fn object2(k1: String, v1: serde_json::Value, k2: String, v2: serde_json::Value) -> (v: serde_json::Value)
    ensures
        v == json_object(Map::empty().insert(k1@, v1).insert(k2@, v2)),
{
    let mut m: JsonMap = json_map_new();
    json_map_insert(&mut m, k1, v1);
    json_map_insert(&mut m, k2, v2);
    json_from_map(m)
}

/// An object with three entries.
fn object3(k1: String, v1: serde_json::Value, k2: String, v2: serde_json::Value, k3: String, v3: serde_json::Value) -> (v:
    serde_json::Value)
    ensures
        v == json_object(Map::empty().insert(k1@, v1).insert(k2@, v2).insert(k3@, v3)),
{
    let mut m: JsonMap = json_map_new();
    json_map_insert(&mut m, k1, v1);
    json_map_insert(&mut m, k2, v2);
    json_map_insert(&mut m, k3, v3);
    json_from_map(m)
}

/// An owned string of a literal.
fn lit(s: &str) -> (r: String)
    ensures
        r@ == s@,
{
    to_owned_string(s)
}

/// The JSON of a content part.
fn part_to_json(p: &ContentPart) -> (v: serde_json::Value)
    ensures
        v == part_json(*p),
{
    match p {
        ContentPart::Text { text } => {
            object2(lit("type"), json_from_string(lit("text")), lit("text"), json_from_string(text.clone()))
        },
        _ => json_from_opt(None),
    }
}

/// The JSON of a message's content.
fn content_to_json(c: &Content) -> (v: serde_json::Value)
    ensures
        v == content_json(*c),
{
    match c {
        Content::Text(t) => json_from_string(t.clone()),
        Content::MultiPart(ps) => {
            let mut items: Vec<serde_json::Value> = Vec::new();
            let mut i: usize = 0;
            while i < ps.len()
                invariant
                    i <= ps.len(),
                    items@ == ps@.take(i as int).map_values(|p: ContentPart| part_json(p)),
                decreases ps.len() - i,
            {
                items.push(part_to_json(&ps[i]));
                assert(items@ =~= ps@.take(i + 1).map_values(|p: ContentPart| part_json(p)));
                i += 1;
            }
            assert(ps@.take(ps.len() as int) =~= ps@);
            json_from_vec(items)
        },
    }
}

/// The JSON of a tool call.
fn call_to_json(tc: &ToolCall) -> (v: serde_json::Value)
    ensures
        v == call_json(*tc),
{
    let fv = object2(
        lit("name"),
        json_from_string(tc.name.clone()),
        lit("arguments"),
        json_from_string(json_to_text(&tc.arguments)),
    );
    object3(lit("id"), json_from_string(tc.id.clone()), lit("type"), json_from_string(lit("function")), lit("function"), fv)
}

/// The role name of a message author.
fn role_text(r: Role) -> (s: String)
    ensures
        s@ == role_name(r),
{
    match r {
        Role::System => lit("system"),
        Role::Human => lit("user"),
        Role::Ai => lit("assistant"),
        Role::Tool => lit("tool"),
    }
}

/// The JSON of a message.
pub fn message_to_json(m: &Message) -> (v: serde_json::Value)
    ensures
        v == message_json(*m),
{
    let mut map: JsonMap = json_map_new();
    json_map_insert(&mut map, lit("role"), json_from_string(role_text(m.role)));
    json_map_insert(&mut map, lit("content"), content_to_json(&m.content));
    if m.tool_calls.len() > 0 {
        let mut calls: Vec<serde_json::Value> = Vec::new();
        let mut i: usize = 0;
        while i < m.tool_calls.len()
            invariant
                i <= m.tool_calls.len(),
                calls@ == m.tool_calls@.take(i as int).map_values(|tc: ToolCall| call_json(tc)),
            decreases m.tool_calls.len() - i,
        {
            calls.push(call_to_json(&m.tool_calls[i]));
            assert(calls@ =~= m.tool_calls@.take(i + 1).map_values(|tc: ToolCall| call_json(tc)));
            i += 1;
        }
        assert(m.tool_calls@.take(m.tool_calls.len() as int) =~= m.tool_calls@);
        json_map_insert(&mut map, lit("tool_calls"), json_from_vec(calls));
    }
    match &m.tool_call_id {
        Some(id) => json_map_insert(&mut map, lit("tool_call_id"), json_from_string(id.clone())),
        None => {},
    }
    json_from_map(map)
}

/// The JSON of a tool definition.
fn tool_to_json(t: &ToolDefinition) -> (v: serde_json::Value)
    ensures
        v == tool_json(*t),
{
    let fv = object3(
        lit("name"),
        json_from_string(t.name.clone()),
        lit("description"),
        json_from_string(t.description.clone()),
        lit("parameters"),
        t.parameters.clone(),
    );
    object2(lit("type"), json_from_string(lit("function")), lit("function"), fv)
}

/// The chat completions request body for a conversation, without its
/// sampling settings (the temperature and nucleus settings are added by
/// the caller).
pub fn openai_request_body(
    model: &str,
    messages: &Vec<Message>,
    tools: &Vec<ToolDefinition>,
    max_tokens: Option<u32>,
    stop: &Option<Vec<String>>,
) -> (b: serde_json::Value)
    ensures
        b == openai_body_view(model@, messages@, tools@, max_tokens, *stop),
        forall|k: Seq<char>| #[trigger] json_field(b, k) == openai_body_entries(model@, messages@, tools@, max_tokens, *stop).get(k),
{
    let mut msgs: Vec<serde_json::Value> = Vec::new();
    let mut i: usize = 0;
    while i < messages.len()
        invariant
            i <= messages.len(),
            msgs@ == messages@.take(i as int).map_values(|m: Message| message_json(m)),
        decreases messages.len() - i,
    {
        msgs.push(message_to_json(&messages[i]));
        assert(msgs@ =~= messages@.take(i + 1).map_values(|m: Message| message_json(m)));
        i += 1;
    }
    assert(messages@.take(messages.len() as int) =~= messages@);
    let mut body: JsonMap = json_map_new();
    json_map_insert(&mut body, lit("model"), json_from_string(to_owned_string(model)));
    json_map_insert(&mut body, lit("messages"), json_from_vec(msgs));
    match max_tokens {
        Some(n) => json_map_insert(&mut body, lit("max_tokens"), json_from_u32(n)),
        None => {},
    }
    match stop {
        Some(s) => json_map_insert(&mut body, lit("stop"), strings_json(s)),
        None => {},
    }
    if tools.len() > 0 {
        let mut ts: Vec<serde_json::Value> = Vec::new();
        let mut k: usize = 0;
        while k < tools.len()
            invariant
                k <= tools.len(),
                ts@ == tools@.take(k as int).map_values(|t: ToolDefinition| tool_json(t)),
            decreases tools.len() - k,
        {
            ts.push(tool_to_json(&tools[k]));
            assert(ts@ =~= tools@.take(k + 1).map_values(|t: ToolDefinition| tool_json(t)));
            k += 1;
        }
        assert(tools@.take(tools.len() as int) =~= tools@);
        json_map_insert(&mut body, lit("tools"), json_from_vec(ts));
    }
    json_from_map(body)
}

/// The role name a messages provider uses: only the model is the
/// assistant; system and tool messages are sent as the user's.
pub open spec fn anthropic_role_name(r: Role) -> Seq<char> {
    match r {
        Role::Ai => "assistant"@,
        _ => "user"@,
    }
}

/// A typed text block.
pub open spec fn text_block(t: Seq<char>) -> serde_json::Value {
    json_object(Map::empty().insert("type"@, json_string("text"@)).insert("text"@, json_string(t)))
}

/// The block of a content part: a text part's text, an empty text for any
/// other part.
pub open spec fn anthropic_part_json(p: ContentPart) -> serde_json::Value {
    match p {
        ContentPart::Text { text } => text_block(text@),
        _ => text_block(Seq::empty()),
    }
}

/// The JSON of a message for a messages provider: its role, and its
/// content as an array of text blocks.
pub open spec fn anthropic_message_json(m: Message) -> serde_json::Value {
    json_object(
        Map::empty().insert("role"@, json_string(anthropic_role_name(m.role))).insert(
            "content"@,
            match m.content {
                Content::Text(t) => json_array(seq![text_block(t@)]),
                Content::MultiPart(ps) => json_array(ps@.map_values(|p: ContentPart| anthropic_part_json(p))),
            },
        ),
    )
}

/// The JSON of a tool definition for a messages provider.
pub open spec fn anthropic_tool_json(t: ToolDefinition) -> serde_json::Value {
    json_object(
        Map::empty().insert("name"@, json_string(t.name@)).insert("description"@, json_string(t.description@)).insert(
            "input_schema"@,
            t.parameters,
        ),
    )
}

/// The entries of the messages request body, without its sampling settings: the model,
/// the token limit (the call's when it sets one, else the model's), the
/// messages; the stop sequences and the tools when there are any.
pub open spec fn anthropic_body_entries(
    model: Seq<char>,
    model_max_tokens: u32,
    messages: Seq<Message>,
    tools: Seq<ToolDefinition>,
    max_tokens: Option<u32>,
    stop: Option<Vec<String>>,
) -> Map<Seq<char>, serde_json::Value> {
    let base = Map::empty().insert("model"@, json_string(model)).insert(
        "max_tokens"@,
        json_u32(
            match max_tokens {
                Some(n) => n,
                None => model_max_tokens,
            },
        ),
    ).insert("messages"@, json_array(messages.map_values(|m: Message| anthropic_message_json(m))));
    let with_stop = match stop {
        Some(s) => base.insert("stop_sequences"@, json_array(s@.map_values(|x: String| json_string(x@)))),
        None => base,
    };
    if tools.len() > 0 {
        with_stop.insert("tools"@, json_array(tools.map_values(|t: ToolDefinition| anthropic_tool_json(t))))
    } else {
        with_stop
    }
}

/// The request body: the object holding those entries.
pub open spec fn anthropic_body_view(
    model: Seq<char>,
    model_max_tokens: u32,
    messages: Seq<Message>,
    tools: Seq<ToolDefinition>,
    max_tokens: Option<u32>,
    stop: Option<Vec<String>>,
) -> serde_json::Value {
    json_object(anthropic_body_entries(model, model_max_tokens, messages, tools, max_tokens, stop))
}

/// A typed text block.
fn text_block_json(t: String) -> (v: serde_json::Value)
    ensures
        v == text_block(t@),
{
    object2(lit("type"), json_from_string(lit("text")), lit("text"), json_from_string(t))
}

/// The JSON of a message for a messages provider.
pub fn anthropic_message_to_json(m: &Message) -> (v: serde_json::Value)
    ensures
        v == anthropic_message_json(*m),
{
    let role = match m.role {
        Role::Ai => lit("assistant"),
        _ => lit("user"),
    };
    let content = match &m.content {
        Content::Text(t) => {
            let items = vec![text_block_json(t.clone())];
            assert(items@ =~= seq![text_block(t@)]);
            json_from_vec(items)
        },
        Content::MultiPart(ps) => {
            let mut items: Vec<serde_json::Value> = Vec::new();
            let mut i: usize = 0;
            while i < ps.len()
                invariant
                    i <= ps.len(),
                    items@ == ps@.take(i as int).map_values(|p: ContentPart| anthropic_part_json(p)),
                decreases ps.len() - i,
            {
                let b = match &ps[i] {
                    ContentPart::Text { text } => text_block_json(text.clone()),
                    _ => text_block_json(String::new()),
                };
                items.push(b);
                assert(items@ =~= ps@.take(i + 1).map_values(|p: ContentPart| anthropic_part_json(p)));
                i += 1;
            }
            assert(ps@.take(ps.len() as int) =~= ps@);
            json_from_vec(items)
        },
    };
    object2(lit("role"), json_from_string(role), lit("content"), content)
}

/// The texts, as JSON strings.
fn strings_json(s: &Vec<String>) -> (v: serde_json::Value)
    ensures
        v == json_array(s@.map_values(|x: String| json_string(x@))),
{
    let mut items: Vec<serde_json::Value> = Vec::new();
    let mut j: usize = 0;
    while j < s.len()
        invariant
            j <= s.len(),
            items@ == s@.take(j as int).map_values(|x: String| json_string(x@)),
        decreases s.len() - j,
    {
        items.push(json_from_string(s[j].clone()));
        assert(items@ =~= s@.take(j + 1).map_values(|x: String| json_string(x@)));
        j += 1;
    }
    assert(s@.take(s.len() as int) =~= s@);
    json_from_vec(items)
}

/// The messages request body for a conversation, without its sampling
/// settings (the temperature and nucleus settings are added by the
/// caller).
pub fn anthropic_request_body(
    model: &str,
    model_max_tokens: u32,
    messages: &Vec<Message>,
    tools: &Vec<ToolDefinition>,
    max_tokens: Option<u32>,
    stop: &Option<Vec<String>>,
) -> (b: serde_json::Value)
    ensures
        b == anthropic_body_view(model@, model_max_tokens, messages@, tools@, max_tokens, *stop),
        forall|k: Seq<char>| #[trigger] json_field(b, k) == anthropic_body_entries(model@, model_max_tokens, messages@, tools@, max_tokens, *stop).get(k),
{
    let mut msgs: Vec<serde_json::Value> = Vec::new();
    let mut i: usize = 0;
    while i < messages.len()
        invariant
            i <= messages.len(),
            msgs@ == messages@.take(i as int).map_values(|m: Message| anthropic_message_json(m)),
        decreases messages.len() - i,
    {
        msgs.push(anthropic_message_to_json(&messages[i]));
        assert(msgs@ =~= messages@.take(i + 1).map_values(|m: Message| anthropic_message_json(m)));
        i += 1;
    }
    assert(messages@.take(messages.len() as int) =~= messages@);
    let limit = match max_tokens {
        Some(n) => n,
        None => model_max_tokens,
    };
    let mut body: JsonMap = json_map_new();
    json_map_insert(&mut body, lit("model"), json_from_string(to_owned_string(model)));
    json_map_insert(&mut body, lit("max_tokens"), json_from_u32(limit));
    json_map_insert(&mut body, lit("messages"), json_from_vec(msgs));
    match stop {
        Some(s) => json_map_insert(&mut body, lit("stop_sequences"), strings_json(s)),
        None => {},
    }
    if tools.len() > 0 {
        let mut ts: Vec<serde_json::Value> = Vec::new();
        let mut k: usize = 0;
        while k < tools.len()
            invariant
                k <= tools.len(),
                ts@ == tools@.take(k as int).map_values(|t: ToolDefinition| anthropic_tool_json(t)),
            decreases tools.len() - k,
        {
            let t = &tools[k];
            let tj = object3(
                lit("name"),
                json_from_string(t.name.clone()),
                lit("description"),
                json_from_string(t.description.clone()),
                lit("input_schema"),
                t.parameters.clone(),
            );
            ts.push(tj);
            assert(ts@ =~= tools@.take(k + 1).map_values(|t: ToolDefinition| anthropic_tool_json(t)));
            k += 1;
        }
        assert(tools@.take(tools.len() as int) =~= tools@);
        json_map_insert(&mut body, lit("tools"), json_from_vec(ts));
    }
    json_from_map(body)
}

/// The texts of the text parts, in order.
pub open spec fn text_parts(ps: Seq<ContentPart>) -> Seq<Seq<char>>
    decreases ps.len(),
{
    if ps.len() == 0 {
        Seq::empty()
    } else {
        let prev = text_parts(ps.drop_last());
        match ps.last() {
            ContentPart::Text { text } => prev.push(text@),
            _ => prev,
        }
    }
}

/// The JSON of a message for a local model server: its role, and its
/// content as one text, the texts of several parts joined by spaces.
pub open spec fn ollama_message_json(m: Message) -> serde_json::Value {
    json_object(
        Map::empty().insert("role"@, json_string(role_name(m.role))).insert(
            "content"@,
            json_string(
                match m.content {
                    Content::Text(t) => t@,
                    Content::MultiPart(ps) => seq_join(text_parts(ps@), " "@),
                },
            ),
        ),
    )
}

/// The entries of the chat request body of a local model server, without its sampling
/// settings: the model, the messages and whether to stream; the stop
/// sequences when there are any, and the token limit under the options
/// when there is one.
pub open spec fn ollama_body_entries(
    model: Seq<char>,
    messages: Seq<Message>,
    stream: bool,
    max_tokens: Option<u32>,
    stop: Option<Vec<String>>,
) -> Map<Seq<char>, serde_json::Value> {
    let base = Map::empty().insert("model"@, json_string(model)).insert(
        "messages"@,
        json_array(messages.map_values(|m: Message| ollama_message_json(m))),
    ).insert("stream"@, json_bool(stream));
    let with_stop = match stop {
        Some(s) => base.insert("stop"@, json_array(s@.map_values(|x: String| json_string(x@)))),
        None => base,
    };
    match max_tokens {
        Some(n) => with_stop.insert("options"@, json_object(Map::empty().insert("num_predict"@, json_u32(n)))),
        None => with_stop,
    }
}

/// The request body: the object holding those entries.
pub open spec fn ollama_body_view(
    model: Seq<char>,
    messages: Seq<Message>,
    stream: bool,
    max_tokens: Option<u32>,
    stop: Option<Vec<String>>,
) -> serde_json::Value {
    json_object(ollama_body_entries(model, messages, stream, max_tokens, stop))
}

/// The JSON of a message for a local model server.
pub fn ollama_message_to_json(m: &Message) -> (v: serde_json::Value)
    ensures
        v == ollama_message_json(*m),
{
    let text = match &m.content {
        Content::Text(t) => t.clone(),
        Content::MultiPart(ps) => {
            let mut texts: Vec<String> = Vec::new();
            let mut i: usize = 0;
            while i < ps.len()
                invariant
                    i <= ps.len(),
                    views(texts@) == text_parts(ps@.take(i as int)),
                decreases ps.len() - i,
            {
                assert(ps@.take(i + 1).drop_last() =~= ps@.take(i as int));
                match &ps[i] {
                    ContentPart::Text { text } => {
                        let ghost before = texts@;
                        texts.push(text.clone());
                        assert(views(texts@) =~= views(before).push(text@));
                    },
                    _ => {},
                }
                i += 1;
            }
            assert(ps@.take(ps.len() as int) =~= ps@);
            join(&texts, " ")
        },
    };
    object2(lit("role"), json_from_string(role_text(m.role)), lit("content"), json_from_string(text))
}

/// The chat request body of a local model server for a conversation,
/// without its sampling settings (the temperature and nucleus settings
/// are added to the options by the caller).
pub fn ollama_request_body(
    model: &str,
    messages: &Vec<Message>,
    stream: bool,
    max_tokens: Option<u32>,
    stop: &Option<Vec<String>>,
) -> (b: serde_json::Value)
    ensures
        b == ollama_body_view(model@, messages@, stream, max_tokens, *stop),
        forall|k: Seq<char>| #[trigger] json_field(b, k) == ollama_body_entries(model@, messages@, stream, max_tokens, *stop).get(k),
{
    let mut msgs: Vec<serde_json::Value> = Vec::new();
    let mut i: usize = 0;
    while i < messages.len()
        invariant
            i <= messages.len(),
            msgs@ == messages@.take(i as int).map_values(|m: Message| ollama_message_json(m)),
        decreases messages.len() - i,
    {
        msgs.push(ollama_message_to_json(&messages[i]));
        assert(msgs@ =~= messages@.take(i + 1).map_values(|m: Message| ollama_message_json(m)));
        i += 1;
    }
    assert(messages@.take(messages.len() as int) =~= messages@);
    let mut body: JsonMap = json_map_new();
    json_map_insert(&mut body, lit("model"), json_from_string(to_owned_string(model)));
    json_map_insert(&mut body, lit("messages"), json_from_vec(msgs));
    json_map_insert(&mut body, lit("stream"), json_from_bool(stream));
    match stop {
        Some(s) => json_map_insert(&mut body, lit("stop"), strings_json(s)),
        None => {},
    }
    match max_tokens {
        Some(n) => {
            let mut opts: JsonMap = json_map_new();
            json_map_insert(&mut opts, lit("num_predict"), json_from_u32(n));
            json_map_insert(&mut body, lit("options"), json_from_map(opts));
        },
        None => {},
    }
    json_from_map(body)
}

/// The JSON array of the texts, in order.
pub open spec fn texts_json(s: Seq<String>) -> serde_json::Value {
    json_array(s.map_values(|x: String| json_string(x@)))
}

/// The keys a request body uses, all distinct.
proof fn lemma_body_keys_distinct()
    ensures
        "model"@ != "messages"@,
        "model"@ != "max_tokens"@,
        "model"@ != "stop"@,
        "model"@ != "tools"@,
        "model"@ != "stop_sequences"@,
        "model"@ != "stream"@,
        "model"@ != "options"@,
        "messages"@ != "max_tokens"@,
        "messages"@ != "stop"@,
        "messages"@ != "tools"@,
        "messages"@ != "stop_sequences"@,
        "messages"@ != "stream"@,
        "messages"@ != "options"@,
        "max_tokens"@ != "stop"@,
        "max_tokens"@ != "tools"@,
        "max_tokens"@ != "stop_sequences"@,
        "stop"@ != "tools"@,
        "stop"@ != "stream"@,
        "stop"@ != "options"@,
        "stop_sequences"@ != "tools"@,
        "stream"@ != "options"@,
{
    reveal_strlit("model");
    reveal_strlit("messages");
    reveal_strlit("max_tokens");
    reveal_strlit("stop");
    reveal_strlit("tools");
    reveal_strlit("stop_sequences");
    reveal_strlit("stream");
    reveal_strlit("options");
    assert("model"@[0] != "tools"@[0]);
    assert("messages"@[1] != "max_tokens"@[1]);
    assert("stop"@.len() != "stream"@.len());
}

/// Law of the chat completions body: it holds the model and the messages;
/// the token limit exactly when one is given; the stop sequences, as a
/// JSON array of their texts in order, exactly when they are given; the
/// tools exactly when there are some; and nothing else.
pub proof fn lemma_openai_body_entries(
    model: Seq<char>,
    messages: Seq<Message>,
    tools: Seq<ToolDefinition>,
    max_tokens: Option<u32>,
    stop: Option<Vec<String>>,
)
    ensures
        openai_body_entries(model, messages, tools, max_tokens, stop).get("model"@) == Some(json_string(model)),
        openai_body_entries(model, messages, tools, max_tokens, stop).get("messages"@) == Some(
            json_array(messages.map_values(|m: Message| message_json(m))),
        ),
        openai_body_entries(model, messages, tools, max_tokens, stop).get("max_tokens"@) == (match max_tokens {
            Some(n) => Some(json_u32(n)),
            None => None,
        }),
        openai_body_entries(model, messages, tools, max_tokens, stop).get("stop"@) == (match stop {
            Some(s) => Some(texts_json(s@)),
            None => None,
        }),
        openai_body_entries(model, messages, tools, max_tokens, stop).get("tools"@) == (if tools.len() > 0 {
            Some(json_array(tools.map_values(|t: ToolDefinition| tool_json(t))))
        } else {
            None
        }),
        forall|k: Seq<char>|
            #[trigger] openai_body_entries(model, messages, tools, max_tokens, stop).contains_key(k) ==> k == "model"@ || k
                == "messages"@ || k == "max_tokens"@ || k == "stop"@ || k == "tools"@,
{
    lemma_body_keys_distinct();
}

/// Law of the messages body: it holds the model, the token limit (the
/// call's when given, else the model's) and the messages; the stop
/// sequences, as a JSON array of their texts in order, exactly when they
/// are given; the tools exactly when there are some; and nothing else.
pub proof fn lemma_anthropic_body_entries(
    model: Seq<char>,
    model_max_tokens: u32,
    messages: Seq<Message>,
    tools: Seq<ToolDefinition>,
    max_tokens: Option<u32>,
    stop: Option<Vec<String>>,
)
    ensures
        anthropic_body_entries(model, model_max_tokens, messages, tools, max_tokens, stop).get("model"@) == Some(
            json_string(model),
        ),
        anthropic_body_entries(model, model_max_tokens, messages, tools, max_tokens, stop).get("max_tokens"@) == Some(
            json_u32(
                match max_tokens {
                    Some(n) => n,
                    None => model_max_tokens,
                },
            ),
        ),
        anthropic_body_entries(model, model_max_tokens, messages, tools, max_tokens, stop).get("messages"@) == Some(
            json_array(messages.map_values(|m: Message| anthropic_message_json(m))),
        ),
        anthropic_body_entries(model, model_max_tokens, messages, tools, max_tokens, stop).get("stop_sequences"@)
            == (match stop {
            Some(s) => Some(texts_json(s@)),
            None => None,
        }),
        anthropic_body_entries(model, model_max_tokens, messages, tools, max_tokens, stop).get("tools"@) == (if tools.len()
            > 0 {
            Some(json_array(tools.map_values(|t: ToolDefinition| anthropic_tool_json(t))))
        } else {
            None
        }),
        forall|k: Seq<char>|
            #[trigger] anthropic_body_entries(model, model_max_tokens, messages, tools, max_tokens, stop).contains_key(k)
                ==> k == "model"@ || k == "max_tokens"@ || k == "messages"@ || k == "stop_sequences"@ || k == "tools"@,
{
    lemma_body_keys_distinct();
}

/// Law of the local model server's body: it holds the model, the messages
/// and whether to stream; the stop sequences, as a JSON array of their
/// texts in order, exactly when they are given; the token limit, under the
/// options, exactly when one is given; and nothing else.
pub proof fn lemma_ollama_body_entries(
    model: Seq<char>,
    messages: Seq<Message>,
    stream: bool,
    max_tokens: Option<u32>,
    stop: Option<Vec<String>>,
)
    ensures
        ollama_body_entries(model, messages, stream, max_tokens, stop).get("model"@) == Some(json_string(model)),
        ollama_body_entries(model, messages, stream, max_tokens, stop).get("messages"@) == Some(
            json_array(messages.map_values(|m: Message| ollama_message_json(m))),
        ),
        ollama_body_entries(model, messages, stream, max_tokens, stop).get("stream"@) == Some(json_bool(stream)),
        ollama_body_entries(model, messages, stream, max_tokens, stop).get("stop"@) == (match stop {
            Some(s) => Some(texts_json(s@)),
            None => None,
        }),
        ollama_body_entries(model, messages, stream, max_tokens, stop).get("options"@) == (match max_tokens {
            Some(n) => Some(json_object(Map::empty().insert("num_predict"@, json_u32(n)))),
            None => None,
        }),
        forall|k: Seq<char>|
            #[trigger] ollama_body_entries(model, messages, stream, max_tokens, stop).contains_key(k) ==> k == "model"@ || k
                == "messages"@ || k == "stream"@ || k == "stop"@ || k == "options"@,
{
    lemma_body_keys_distinct();
}

/// Law of a message sent to a chat completions provider: it holds its
/// role (by the provider's name for it) and its content; its tool calls
/// exactly when it has some, each in order; the call it answers exactly
/// when it answers one; and nothing else. Different roles get different
/// names.
pub proof fn lemma_message_entries(m: Message, r1: Role, r2: Role)
    ensures
        message_entries(m).get("role"@) == Some(json_string(role_name(m.role))),
        message_entries(m).get("content"@) == Some(content_json(m.content)),
        message_entries(m).get("tool_calls"@) == (if m.tool_calls@.len() > 0 {
            Some(json_array(m.tool_calls@.map_values(|tc: ToolCall| call_json(tc))))
        } else {
            None
        }),
        message_entries(m).get("tool_call_id"@) == (match m.tool_call_id {
            Some(id) => Some(json_string(id@)),
            None => None,
        }),
        forall|k: Seq<char>|
            #[trigger] message_entries(m).contains_key(k) ==> k == "role"@ || k == "content"@ || k == "tool_calls"@ || k
                == "tool_call_id"@,
        r1 != r2 ==> role_name(r1) != role_name(r2),
{
    reveal_strlit("role");
    reveal_strlit("content");
    reveal_strlit("tool_calls");
    reveal_strlit("tool_call_id");
    reveal_strlit("system");
    reveal_strlit("user");
    reveal_strlit("assistant");
    reveal_strlit("tool");
    assert("role"@.len() != "content"@.len());
    assert("tool_calls"@.len() != "tool_call_id"@.len());
    assert("system"@[0] != "user"@[0]);
    assert("system"@[0] != "assistant"@[0]);
    assert("system"@[0] != "tool"@[0]);
    assert("user"@[0] != "assistant"@[0]);
    assert("user"@[0] != "tool"@[0]);
    assert("assistant"@[0] != "tool"@[0]);
}

} // verus!
