use juncture_core::chat::{LlmFailure, TokenUsage};
use juncture_core::response::{
    parse_anthropic_response, parse_ollama_response, parse_openai_response, take_ndjson_lines, take_sse_events,
};

#[test]
fn anthropic_reply_collects_text_calls_and_usage() {
    let text = r#"{"content":[{"type":"text","text":"Hello "},{"type":"tool_use","id":"tu_1","name":"search","input":{"q":"rust"}},{"type":"text","text":"world"},{"type":"image"}],"usage":{"input_tokens":10,"output_tokens":5}}"#;
    let m = parse_anthropic_response(text).unwrap();
    assert_eq!(m.text, "Hello world");
    assert_eq!(m.tool_calls.len(), 1);
    assert_eq!(m.tool_calls[0].id, "tu_1");
    assert_eq!(m.tool_calls[0].name, "search");
    assert_eq!(m.tool_calls[0].arguments["q"], "rust");
    assert_eq!(m.usage, Some(TokenUsage { input_tokens: 10, output_tokens: 5, total_tokens: 15 }));
}

#[test]
fn anthropic_tool_use_without_fields_gets_defaults() {
    let m = parse_anthropic_response(r#"{"content":[{"type":"tool_use"}]}"#).unwrap();
    assert_eq!(m.text, "");
    assert_eq!(m.tool_calls[0].id, "");
    assert_eq!(m.tool_calls[0].name, "");
    assert!(m.tool_calls[0].arguments.is_null());
    assert_eq!(m.usage, None);
}

#[test]
fn anthropic_reply_refusals() {
    match parse_anthropic_response(r#"{"id":"x"}"#) {
        Err(LlmFailure::InvalidResponse(m)) => assert_eq!(m, "No content in response"),
        other => panic!("unexpected {:?}", other),
    }
    match parse_anthropic_response(r#"{"content":"text"}"#) {
        Err(LlmFailure::InvalidResponse(m)) => assert_eq!(m, "No content in response"),
        other => panic!("unexpected {:?}", other),
    }
    match parse_anthropic_response("not json") {
        Err(LlmFailure::InvalidResponse(m)) => assert!(m.starts_with("Invalid JSON: ")),
        other => panic!("unexpected {:?}", other),
    }
}

#[test]
fn openai_reply_reads_first_choice() {
    let text = r#"{"choices":[{"message":{"content":"Hi","tool_calls":[{"id":"c1","function":{"name":"f","arguments":"{\"x\":1}"}},{"id":"c2","function":{"name":"g","arguments":"oops"}},{"function":{"name":"h"}}]}},{"message":{"content":"second"}}],"usage":{"prompt_tokens":3,"completion_tokens":4,"total_tokens":7}}"#;
    let m = parse_openai_response(text).unwrap();
    assert_eq!(m.text, "Hi");
    assert_eq!(m.tool_calls.len(), 2);
    assert_eq!(m.tool_calls[0].id, "c1");
    assert_eq!(m.tool_calls[0].name, "f");
    assert_eq!(m.tool_calls[0].arguments["x"], 1);
    assert_eq!(m.tool_calls[1].name, "g");
    assert!(m.tool_calls[1].arguments.is_null());
    assert_eq!(m.usage, Some(TokenUsage { input_tokens: 3, output_tokens: 4, total_tokens: 7 }));
}

#[test]
fn openai_reply_refusals() {
    match parse_openai_response(r#"{"choices":[]}"#) {
        Err(LlmFailure::InvalidResponse(m)) => assert_eq!(m, "No choices in response"),
        other => panic!("unexpected {:?}", other),
    }
    match parse_openai_response(r#"{"choices":[{"index":0}]}"#) {
        Err(LlmFailure::InvalidResponse(m)) => assert_eq!(m, "No message in choice"),
        other => panic!("unexpected {:?}", other),
    }
    let m = parse_openai_response(r#"{"choices":[{"message":{}}],"usage":{"prompt_tokens":1}}"#).unwrap();
    assert_eq!(m.text, "");
    assert!(m.tool_calls.is_empty());
    assert_eq!(m.usage, None);
}

#[test]
fn ollama_reply_reads_message_and_counts() {
    let m = parse_ollama_response(r#"{"message":{"role":"assistant","content":"yo"},"prompt_eval_count":2,"eval_count":9}"#).unwrap();
    assert_eq!(m.text, "yo");
    assert!(m.tool_calls.is_empty());
    assert_eq!(m.usage, Some(TokenUsage { input_tokens: 2, output_tokens: 9, total_tokens: 11 }));
    let m = parse_ollama_response(r#"{"message":{"content":"a"},"eval_count":9}"#).unwrap();
    assert_eq!(m.usage, None);
    match parse_ollama_response(r#"{"done":true}"#) {
        Err(LlmFailure::InvalidResponse(m)) => assert_eq!(m, "No message in response"),
        other => panic!("unexpected {:?}", other),
    }
}

#[test]
fn ndjson_framing_keeps_the_unfinished_line() {
    let (lines, rest) = take_ndjson_lines("{\"a\":1}\n  \n {\"b\":2} \r\n{\"c\"");
    assert_eq!(lines, vec!["{\"a\":1}".to_string(), "{\"b\":2}".to_string()]);
    assert_eq!(rest, "{\"c\"");
    let (lines, rest) = take_ndjson_lines("no newline yet");
    assert!(lines.is_empty());
    assert_eq!(rest, "no newline yet");
    let (lines, rest) = take_ndjson_lines("x\n");
    assert_eq!(lines, vec!["x".to_string()]);
    assert_eq!(rest, "");
}

#[test]
fn sse_framing_cuts_at_blank_lines() {
    let (events, rest) = take_sse_events("event: a\ndata: {}\n\nevent: b\n\n\npartial");
    assert_eq!(events, vec!["event: a\ndata: {}".to_string(), "event: b".to_string()]);
    assert_eq!(rest, "\npartial");
    let (events, rest) = take_sse_events("event: a\n");
    assert!(events.is_empty());
    assert_eq!(rest, "event: a\n");
    let (events, rest) = take_sse_events("\n\n\n\n");
    assert_eq!(events, vec!["".to_string(), "".to_string()]);
    assert_eq!(rest, "");
}

#[test]
fn sse_framing_loses_nothing() {
    let buf = "event: a\ndata: 1\n\n\n\nevent: b\n\nrest\n";
    let (mut parts, rest) = take_sse_events(buf);
    parts.push(rest);
    assert_eq!(parts.join("\n\n"), buf);
}

#[test]
fn ndjson_framing_trims_unicode_whitespace() {
    let (lines, rest) = take_ndjson_lines("\u{a0}\u{3000}{\"a\":1}\u{2003}\t\n\u{85}\n");
    assert_eq!(lines, vec!["{\"a\":1}".to_string()]);
    assert_eq!(rest, "");
}
