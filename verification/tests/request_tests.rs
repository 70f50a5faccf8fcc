use juncture_core::chat::Role;
use juncture_core::llm::ToolDefinition;
use juncture_core::request::{
    anthropic_request_body, ollama_request_body, openai_request_body, Content, ContentPart, ImageData, ImageSource,
    Message,
};
use juncture_core::response::ToolCall;

fn msg(role: Role, content: Content) -> Message {
    Message { id: "1".to_string(), role, content, tool_calls: vec![], tool_call_id: None, name: None, usage: None }
}

fn tool() -> ToolDefinition {
    ToolDefinition {
        name: "search".to_string(),
        description: "Search the web".to_string(),
        parameters: serde_json::from_str(r#"{"type":"object"}"#).unwrap(),
    }
}

#[test]
fn test_ollama_build_request_body_stream() {
    let messages = vec![msg(Role::Human, Content::Text("hello".to_string()))];
    let body = ollama_request_body("llama3", &messages, true, None, &None);
    assert_eq!(body["stream"], true);
    assert_eq!(body["model"], "llama3");
}

#[test]
fn ollama_body_joins_text_parts_and_sets_limits() {
    let parts = vec![
        ContentPart::Text { text: "a".to_string() },
        ContentPart::Image(ImageData { media_type: "image/png".to_string(), source: ImageSource::Url("u".to_string()) }),
        ContentPart::Text { text: "b".to_string() },
    ];
    let messages = vec![msg(Role::System, Content::MultiPart(parts)), msg(Role::Tool, Content::Text("r".to_string()))];
    let body = ollama_request_body("m", &messages, false, Some(64), &Some(vec!["END".to_string()]));
    assert_eq!(body["messages"][0]["role"], "system");
    assert_eq!(body["messages"][0]["content"], "a b");
    assert_eq!(body["messages"][1]["role"], "tool");
    assert_eq!(body["stream"], false);
    assert_eq!(body["options"]["num_predict"], 64);
    assert_eq!(body["stop"][0], "END");
    assert!(body.get("tools").is_none());
}

#[test]
fn openai_body_carries_messages_calls_and_tools() {
    let mut ai = msg(Role::Ai, Content::Text("calling".to_string()));
    ai.tool_calls = vec![ToolCall {
        id: "c1".to_string(),
        name: "search".to_string(),
        arguments: serde_json::from_str(r#"{"q":"x"}"#).unwrap(),
    }];
    let mut tool_reply = msg(Role::Tool, Content::Text("found".to_string()));
    tool_reply.tool_call_id = Some("c1".to_string());
    let parts = vec![
        ContentPart::Text { text: "look".to_string() },
        ContentPart::Thinking { text: "t".to_string(), signature: "s".to_string() },
    ];
    let messages = vec![msg(Role::Human, Content::MultiPart(parts)), ai, tool_reply];
    let body = openai_request_body("gpt-4", &messages, &vec![tool()], Some(100), &None);
    assert_eq!(body["model"], "gpt-4");
    assert_eq!(body["max_tokens"], 100);
    assert!(body.get("stop").is_none());
    assert_eq!(body["messages"][0]["role"], "user");
    assert_eq!(body["messages"][0]["content"][0]["type"], "text");
    assert_eq!(body["messages"][0]["content"][0]["text"], "look");
    assert!(body["messages"][0]["content"][1].is_null());
    assert!(body["messages"][0].get("tool_calls").is_none());
    assert_eq!(body["messages"][1]["role"], "assistant");
    assert_eq!(body["messages"][1]["tool_calls"][0]["id"], "c1");
    assert_eq!(body["messages"][1]["tool_calls"][0]["type"], "function");
    assert_eq!(body["messages"][1]["tool_calls"][0]["function"]["name"], "search");
    assert_eq!(body["messages"][1]["tool_calls"][0]["function"]["arguments"], "{\"q\":\"x\"}");
    assert_eq!(body["messages"][2]["tool_call_id"], "c1");
    assert_eq!(body["tools"][0]["type"], "function");
    assert_eq!(body["tools"][0]["function"]["name"], "search");
    assert_eq!(body["tools"][0]["function"]["description"], "Search the web");
    assert_eq!(body["tools"][0]["function"]["parameters"]["type"], "object");
}

#[test]
fn anthropic_body_uses_blocks_and_token_limit() {
    let parts = vec![
        ContentPart::Text { text: "x".to_string() },
        ContentPart::Image(ImageData { media_type: "image/png".to_string(), source: ImageSource::Base64("AA".to_string()) }),
    ];
    let messages = vec![
        msg(Role::System, Content::Text("be brief".to_string())),
        msg(Role::Ai, Content::MultiPart(parts)),
    ];
    let body = anthropic_request_body("sonnet-model", 4096, &messages, &vec![tool()], None, &Some(vec!["STOP".to_string()]));
    assert_eq!(body["model"], "sonnet-model");
    assert_eq!(body["max_tokens"], 4096);
    assert_eq!(body["messages"][0]["role"], "user");
    assert_eq!(body["messages"][0]["content"][0]["type"], "text");
    assert_eq!(body["messages"][0]["content"][0]["text"], "be brief");
    assert_eq!(body["messages"][1]["role"], "assistant");
    assert_eq!(body["messages"][1]["content"][1]["text"], "");
    assert_eq!(body["stop_sequences"][0], "STOP");
    assert_eq!(body["tools"][0]["name"], "search");
    assert_eq!(body["tools"][0]["input_schema"]["type"], "object");
    let body = anthropic_request_body("sonnet-model", 4096, &messages, &vec![], Some(10), &None);
    assert_eq!(body["max_tokens"], 10);
    assert!(body.get("tools").is_none());
}
