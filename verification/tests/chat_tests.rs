use juncture_core::chat::{
    anthropic_status_failure, ollama_status_failure, openai_status_failure, LlmFailure,
    empty_chunk, extract_sse_fields, parse_ollama_ndjson_line, parse_sse_event, Role,
};

#[test]
fn test_extract_sse_fields_valid_event() {
    let raw = "event: content_block_delta\ndata: {\"type\":\"content_block_delta\"}";
    let (event_type, data) = extract_sse_fields(raw).expect("should parse");
    assert_eq!(event_type, "content_block_delta");
    assert_eq!(data, "{\"type\":\"content_block_delta\"}");
}

#[test]
fn test_extract_sse_fields_no_event_prefix() {
    let raw = "data: {}";
    assert!(extract_sse_fields(raw).is_none());
}

#[test]
fn test_extract_sse_fields_empty() {
    assert!(extract_sse_fields("").is_none());
}

#[test]
fn test_empty_chunk() {
    let chunk = empty_chunk();
    assert!(chunk.role.is_none());
    assert!(chunk.content.is_empty());
    assert!(chunk.tool_call_chunks.is_empty());
    assert!(chunk.usage.is_none());
}

#[test]
fn test_extract_sse_fields_whitespace_in_prefix() {
    let raw = "event: content_block_start\ndata: {\"type\":\"content_block_start\"}";
    let (event_type, data) = extract_sse_fields(raw).expect("should parse");
    assert_eq!(event_type, "content_block_start");
    assert_eq!(data, "{\"type\":\"content_block_start\"}");
}

#[test]
fn sse_fields_default_data_and_last_lines_win() {
    let (e, d) = extract_sse_fields("event: ping").unwrap();
    assert_eq!(e, "ping");
    assert_eq!(d, "{}");
    let (e, d) = extract_sse_fields("event:a\r\ndata: 1\r\nevent:  b \ndata:2\n").unwrap();
    assert_eq!(e, "b");
    assert_eq!(d, "2");
}

#[test]
fn parse_sse_text_delta() {
    let raw = "event: content_block_delta\ndata: {\"type\":\"content_block_delta\",\"index\":0,\"delta\":{\"type\":\"text_delta\",\"text\":\"Hello\"}}";
    let chunk = parse_sse_event(raw).expect("should parse");
    assert_eq!(chunk.content, "Hello");
    assert!(chunk.tool_call_chunks.is_empty());
}

#[test]
fn parse_sse_message_start_and_usage() {
    let raw = "event: message_start\ndata: {\"message\":{\"usage\":{\"input_tokens\":10,\"output_tokens\":1}}}";
    let chunk = parse_sse_event(raw).unwrap();
    assert_eq!(chunk.role, Some(Role::Ai));
    let u = chunk.usage.unwrap();
    assert_eq!((u.input_tokens, u.output_tokens, u.total_tokens), (10, 1, 11));
    let raw = "event: message_delta\ndata: {\"usage\":{\"output_tokens\":15}}";
    let u = parse_sse_event(raw).unwrap().usage.unwrap();
    assert_eq!((u.input_tokens, u.output_tokens, u.total_tokens), (0, 15, 15));
}

#[test]
fn parse_sse_tool_use_and_json_delta() {
    let raw = "event: content_block_start\ndata: {\"index\":1,\"content_block\":{\"type\":\"tool_use\",\"id\":\"toolu_1\",\"name\":\"search\"}}";
    let chunk = parse_sse_event(raw).unwrap();
    assert_eq!(chunk.tool_call_chunks.len(), 1);
    let call = &chunk.tool_call_chunks[0];
    assert_eq!(call.id.as_deref(), Some("toolu_1"));
    assert_eq!(call.name.as_deref(), Some("search"));
    assert_eq!(call.index, 1);
    let raw = "event: content_block_delta\ndata: {\"index\":1,\"delta\":{\"type\":\"input_json_delta\",\"partial_json\":\"{\\\"q\\\":\"}}";
    let chunk = parse_sse_event(raw).unwrap();
    assert_eq!(chunk.tool_call_chunks[0].args_delta, "{\"q\":");
    assert!(chunk.tool_call_chunks[0].id.is_none());
}

#[test]
fn parse_sse_errors_and_unknown_events() {
    let raw = "event: error\ndata: {\"error\":{\"message\":\"Overloaded\"}}";
    assert_eq!(parse_sse_event(raw).unwrap_err(), "Overloaded");
    let raw = "event: error\ndata: {}";
    assert_eq!(parse_sse_event(raw).unwrap_err(), "Unknown streaming error");
    let raw = "event: ping\ndata: {}";
    assert_eq!(parse_sse_event(raw).unwrap().content, "");
    let raw = "event: message_start\ndata: not json";
    assert!(parse_sse_event(raw).unwrap_err().starts_with("Invalid SSE data JSON: "));
    assert!(parse_sse_event("data: {}").unwrap().usage.is_none());
}

#[test]
fn parse_ollama_lines() {
    let line = r#"{"model":"llama3","created_at":"2024-01-01T00:00:00Z","message":{"role":"assistant","content":"Hello"},"done":false}"#;
    let chunk = parse_ollama_ndjson_line(line).unwrap();
    assert_eq!(chunk.content, "Hello");
    assert!(chunk.role.is_none());
    assert!(chunk.usage.is_none());
    let line = r#"{"message":{"content":""},"done":true,"prompt_eval_count":26,"eval_count":298}"#;
    let chunk = parse_ollama_ndjson_line(line).unwrap();
    assert_eq!(chunk.role, Some(Role::Ai));
    let u = chunk.usage.unwrap();
    assert_eq!((u.input_tokens, u.output_tokens, u.total_tokens), (26, 298, 324));
    let line = r#"{"done":true}"#;
    let u = parse_ollama_ndjson_line(line).unwrap().usage.unwrap();
    assert_eq!((u.input_tokens, u.output_tokens, u.total_tokens), (0, 0, 0));
    assert_eq!(parse_ollama_ndjson_line(r#"{"error":"model not found"}"#).unwrap_err(), "model not found");
    assert!(parse_ollama_ndjson_line("not json").unwrap_err().starts_with("Invalid Ollama NDJSON: "));
}

#[test]
fn provider_status_decisions() {
    assert!(anthropic_status_failure(200, "200 OK", "").is_none());
    match anthropic_status_failure(401, "401 Unauthorized", "bad key") {
        Some(LlmFailure::AuthError(m)) => assert_eq!(m, "Invalid API key: bad key"),
        other => panic!("unexpected {other:?}"),
    }
    match openai_status_failure(401, "401 Unauthorized", "bad key") {
        Some(LlmFailure::AuthError(m)) => assert_eq!(m, "Invalid API key"),
        other => panic!("unexpected {other:?}"),
    }
    assert!(matches!(openai_status_failure(429, "429 Too Many Requests", ""), Some(LlmFailure::RateLimited)));
    assert!(matches!(
        anthropic_status_failure(400, "400 Bad Request", "error: maximum context length is 8192"),
        Some(LlmFailure::ContextLengthExceeded)
    ));
    match anthropic_status_failure(400, "400 Bad Request", "malformed") {
        Some(LlmFailure::InvalidResponse(m)) => assert_eq!(m, "malformed"),
        other => panic!("unexpected {other:?}"),
    }
    match openai_status_failure(503, "503 Service Unavailable", "later") {
        Some(LlmFailure::InvalidResponse(m)) => assert_eq!(m, "HTTP 503 Service Unavailable: later"),
        other => panic!("unexpected {other:?}"),
    }
    match ollama_status_failure(404, "404 Not Found", "{\"error\":\"model 'x' not found\"}", "llama3") {
        Some(LlmFailure::InvalidResponse(m)) => {
            assert_eq!(m, "Model 'llama3' not found in Ollama. Run: ollama pull llama3")
        }
        other => panic!("unexpected {other:?}"),
    }
    match ollama_status_failure(500, "500 Internal Server Error", "oops", "llama3") {
        Some(LlmFailure::InvalidResponse(m)) => assert_eq!(m, "HTTP 500 Internal Server Error: oops"),
        other => panic!("unexpected {other:?}"),
    }
    assert!(ollama_status_failure(200, "200 OK", "model not found", "m").is_none());
}

#[test]
fn test_parse_sse_event_text_delta() {
    let raw = "event: content_block_delta\ndata: {\"type\":\"content_block_delta\",\"index\":0,\"delta\":{\"type\":\"text_delta\",\"text\":\"Hello\"}}";
    let chunk = parse_sse_event(raw).expect("should parse");
    assert_eq!(chunk.content, "Hello");
    assert!(chunk.tool_call_chunks.is_empty());
}

#[test]
fn test_parse_sse_event_message_start() {
    let raw = "event: message_start\ndata: {\"type\":\"message_start\",\"message\":{\"id\":\"msg_1\",\"role\":\"assistant\",\"content\":[],\"model\":\"example-model\",\"usage\":{\"input_tokens\":10,\"output_tokens\":1}}}";
    let chunk = parse_sse_event(raw).expect("should parse");
    assert_eq!(chunk.role, Some(Role::Ai));
    let usage = chunk.usage.expect("should have usage");
    assert_eq!(usage.input_tokens, 10);
    assert_eq!(usage.output_tokens, 1);
    assert_eq!(usage.total_tokens, 11);
}

#[test]
fn test_parse_sse_event_tool_use_start() {
    let raw = "event: content_block_start\ndata: {\"type\":\"content_block_start\",\"index\":1,\"content_block\":{\"type\":\"tool_use\",\"id\":\"toolu_abc\",\"name\":\"get_weather\"}}";
    let chunk = parse_sse_event(raw).expect("should parse");
    assert_eq!(chunk.tool_call_chunks.len(), 1);
    assert_eq!(chunk.tool_call_chunks[0].id, Some("toolu_abc".to_string()));
    assert_eq!(chunk.tool_call_chunks[0].name, Some("get_weather".to_string()));
    assert_eq!(chunk.tool_call_chunks[0].index, 1);
    assert!(chunk.tool_call_chunks[0].args_delta.is_empty());
}

#[test]
fn test_parse_sse_event_input_json_delta() {
    let raw = "event: content_block_delta\ndata: {\"type\":\"content_block_delta\",\"index\":1,\"delta\":{\"type\":\"input_json_delta\",\"partial_json\":\"{\\\"city\\\":\\\"SF\\\"}\"}}";
    let chunk = parse_sse_event(raw).expect("should parse");
    assert_eq!(chunk.tool_call_chunks.len(), 1);
    assert_eq!(chunk.tool_call_chunks[0].args_delta, r#"{"city":"SF"}"#);
    assert_eq!(chunk.tool_call_chunks[0].index, 1);
}

#[test]
fn test_parse_sse_event_message_delta_usage() {
    let raw = "event: message_delta\ndata: {\"type\":\"message_delta\",\"delta\":{\"stop_reason\":\"end_turn\"},\"usage\":{\"output_tokens\":15}}";
    let chunk = parse_sse_event(raw).expect("should parse");
    let usage = chunk.usage.expect("should have usage");
    assert_eq!(usage.output_tokens, 15);
    assert_eq!(usage.total_tokens, 15);
}

#[test]
fn test_parse_sse_event_error() {
    let raw = "event: error\ndata: {\"type\":\"error\",\"error\":{\"type\":\"overloaded_error\",\"message\":\"API is overloaded\"}}";
    let result = parse_sse_event(raw);
    assert!(result.is_err());
    match result {
        Err(msg) => {
            assert_eq!(msg, "API is overloaded");
        }
        _ => panic!("expected InvalidResponse error"),
    }
}

#[test]
fn test_parse_sse_event_ping() {
    let raw = "event: ping\ndata: {}";
    let chunk = parse_sse_event(raw).expect("should parse");
    assert_eq!(chunk.content, "");
    assert!(chunk.tool_call_chunks.is_empty());
    assert!(chunk.usage.is_none());
}

#[test]
fn test_parse_sse_event_unknown_event() {
    let raw = "event: unknown_type\ndata: {}";
    let chunk = parse_sse_event(raw).expect("should parse");
    assert_eq!(chunk.content, "");
}

#[test]
fn test_parse_ollama_ndjson_content_chunk() {
    let line = r#"{"model":"llama3","created_at":"2024-01-01T00:00:00Z","message":{"role":"assistant","content":"Hello"},"done":false}"#;
    let chunk = parse_ollama_ndjson_line(line).expect("should parse");
    assert_eq!(chunk.content, "Hello");
    assert!(chunk.role.is_none());
    assert!(chunk.tool_call_chunks.is_empty());
    assert!(chunk.usage.is_none());
}

#[test]
fn test_parse_ollama_ndjson_final_chunk() {
    let line = r#"{"model":"llama3","created_at":"2024-01-01T00:00:02Z","message":{"role":"assistant","content":""},"done":true,"total_duration":123456789,"eval_count":10,"prompt_eval_count":20}"#;
    let chunk = parse_ollama_ndjson_line(line).expect("should parse");
    assert!(chunk.content.is_empty());
    assert_eq!(chunk.role, Some(Role::Ai));
    assert!(chunk.tool_call_chunks.is_empty());
    let usage = chunk.usage.expect("final chunk should have usage");
    assert_eq!(usage.input_tokens, 20);
    assert_eq!(usage.output_tokens, 10);
    assert_eq!(usage.total_tokens, 30);
}

#[test]
fn test_parse_ollama_ndjson_error() {
    let line = r#"{"error":"model not found"}"#;
    let result = parse_ollama_ndjson_line(line);
    assert!(result.is_err());
    match result {
        Err(msg) => {
            assert_eq!(msg, "model not found");
        }
        _ => panic!("expected InvalidResponse error"),
    }
}

#[test]
fn test_parse_ollama_ndjson_invalid_json() {
    let line = "not json at all";
    let result = parse_ollama_ndjson_line(line);
    assert!(result.is_err());
    match result {
        Err(msg) => {
            assert!(msg.starts_with("Invalid Ollama NDJSON:"));
        }
        _ => panic!("expected InvalidResponse error"),
    }
}

#[test]
fn test_parse_ollama_ndjson_mid_stream_chunk() {
    let line = r#"{"model":"llama3","created_at":"2024-01-01T00:00:01Z","message":{"role":"assistant","content":" world"},"done":false}"#;
    let chunk = parse_ollama_ndjson_line(line).expect("should parse");
    assert_eq!(chunk.content, " world");
    assert!(chunk.usage.is_none());
}

#[test]
fn test_parse_ollama_ndjson_final_chunk_no_usage() {
    let line = r#"{"model":"llama3","created_at":"2024-01-01T00:00:02Z","message":{"role":"assistant","content":""},"done":true}"#;
    let chunk = parse_ollama_ndjson_line(line).expect("should parse");
    let usage = chunk.usage.expect("final chunk should have usage even without eval fields");
    assert_eq!(usage.input_tokens, 0);
    assert_eq!(usage.output_tokens, 0);
}

#[test]
fn sse_fields_handle_carriage_returns_and_spacing() {
    let (event_type, data) = extract_sse_fields("event:  message_stop \r\ndata: {\"x\":1}\r\n").expect("should parse");
    assert_eq!(event_type, "message_stop");
    assert_eq!(data, "{\"x\":1}");
    assert!(extract_sse_fields("data: {}\r\n").is_none());
}
