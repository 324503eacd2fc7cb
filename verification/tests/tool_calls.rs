use agentix::llama::{
    backend_limits, chat_reply, ChatReply, check_context, complete_capability_check, context_window,
    embed_capability_check, llama_supports_format, load_profile, mean_pooling, wants_output, parse_tool_calls, step_chunks,
    token_step, tool_call_body_strings, unclosed_tool_call, tool_call_from_json, use_encoder_path, ArgumentsField,
    TokenStep, ToolCallJson,
};
use agentix::infer::{FinishReason, InferError, ModelFormat};

#[test]
fn single_tool_call() {
    let output = r#"<tool_call>{"name":"todo_list","arguments":{}}</tool_call>"#;
    let calls = parse_tool_calls(output).expect("parse ok");
    assert_eq!(calls.len(), 1);
    assert_eq!(calls[0].name, "todo_list");
    assert_eq!(calls[0].arguments, "{}");
    assert!(calls[0].id.starts_with("call_"));
}

#[test]
fn multiple_tool_calls() {
    let output = [
        r#"<tool_call>{"name":"foo","arguments":{"x":1}}</tool_call>"#,
        r#"<tool_call>{"name":"bar","arguments":{}}</tool_call>"#
    ]
    .concat();
    let calls = parse_tool_calls(&output).expect("parse ok");
    assert_eq!(calls.len(), 2);
    assert_eq!(calls[0].name, "foo");
    assert_eq!(calls[1].name, "bar");
}

#[test]
fn no_markers() {
    let calls = parse_tool_calls("Just a plain text response").expect("parse ok");
    assert!(calls.is_empty());
}

#[test]
fn malformed_json_body() {
    let output = "<tool_call>not valid json</tool_call>";
    let result = parse_tool_calls(output);
    assert!(result.is_err());
}

#[test]
fn arguments_as_object_serialized_to_string() {
    let output = r#"<tool_call>{"name":"f","arguments":{"key":"val"}}</tool_call>"#;
    let calls = parse_tool_calls(output).expect("parse ok");
    assert_eq!(calls[0].arguments, r#"{"key":"val"}"#);
}

#[test]
fn arguments_absent_defaults_to_empty_object() {
    let output = r#"<tool_call>{"name":"f"}</tool_call>"#;
    let calls = parse_tool_calls(output).expect("parse ok");
    assert_eq!(calls[0].arguments, "{}");
}

#[test]
fn arguments_as_string_preserved() {
    let output = r#"<tool_call>{"name":"f","arguments":"{\"key\":\"val\"}"}</tool_call>"#;
    let calls = parse_tool_calls(output).expect("parse ok");
    assert_eq!(calls[0].arguments, r#"{"key":"val"}"#);
}

// ── Edge cases and laws ────────────────────────────────────────────────────

#[test]
fn unclosed_tool_call_is_an_error() {
    let out = "a<tool_call> x </tool_call>b<tool_call>y</tool_call><tool_call>z";
    // The closed blocks are found; the unclosed one makes the parse fail.
    assert_eq!(tool_call_body_strings(out), vec![" x ", "y"]);
    assert!(unclosed_tool_call(out));
    assert_eq!(
        parse_tool_calls(r#"<tool_call>{"name":"f"}"#).unwrap_err(),
        "unclosed <tool_call> block"
    );
    assert!(parse_tool_calls(r#"<tool_call>{"name":"f"}</tool_call><tool_call>{"name":"g""#).is_err());
    // A body that cannot be read is reported first.
    assert!(parse_tool_calls("<tool_call>oops</tool_call><tool_call>")
        .unwrap_err()
        .starts_with("invalid tool_call JSON: "));
    assert!(!unclosed_tool_call("<tool_call>{}</tool_call>"));
    match chat_reply(r#"<tool_call>{"name":"f"}"#, "stop", true) {
        ChatReply::Failed { status, message } => {
            assert_eq!(status, 500);
            assert_eq!(message, "tool call parse error: unclosed <tool_call> block");
        }
        other => panic!("unexpected {other:?}"),
    }
}

#[test]
fn tool_call_ids_are_fresh_uuids() {
    let calls = parse_tool_calls(r#"<tool_call>{"name":"a"}</tool_call>"#).unwrap();
    assert_eq!(calls[0].id.len(), 41);
    let again = parse_tool_calls(r#"<tool_call>{"name":"a"}</tool_call>"#).unwrap();
    assert_ne!(calls[0].id, again[0].id);
}

#[test]
fn tool_call_errors_name_their_cause() {
    let e = parse_tool_calls(r#"<tool_call>{"arguments":{}}</tool_call>"#).err().unwrap();
    assert_eq!(e, "tool_call missing 'name' field");
    let e = parse_tool_calls("<tool_call>nope</tool_call>").err().unwrap();
    assert!(e.starts_with("invalid tool_call JSON: "));
    let e = parse_tool_calls(r#"<tool_call>{"name":1}</tool_call>"#).err().unwrap();
    assert_eq!(e, "tool_call missing 'name' field");
}

#[test]
fn tool_call_from_parsed_fields() {
    let ok = tool_call_from_json(
        Ok(ToolCallJson { name: Some("f".to_string()), arguments: ArgumentsField::Absent }),
        "call_1".to_string(),
    );
    let c = ok.ok().unwrap();
    assert_eq!((c.id.as_str(), c.name.as_str(), c.arguments.as_str()), ("call_1", "f", "{}"));
    let err = tool_call_from_json(Err("boom".to_string()), "id".to_string());
    assert_eq!(err.err().unwrap(), "invalid tool_call JSON: boom");
    let err = tool_call_from_json(
        Ok(ToolCallJson {
            name: Some("f".to_string()),
            arguments: ArgumentsField::Unserializable("bad".to_string()),
        }),
        "id".to_string(),
    );
    assert_eq!(err.err().unwrap(), "arguments serialize: bad");
}

#[test]
fn loading_decisions() {
    assert!(use_encoder_path("nomic_bert"));
    assert!(!use_encoder_path("qwen2"));
    assert_eq!(context_window(8192, true, 32768), 4096);
    assert_eq!(context_window(8192, false, 32768), 8192);
    assert_eq!(context_window(100, false, 32768), 256);
    assert_eq!(context_window(0, false, 32768), 256);
    assert_eq!(context_window(65536, false, 32768), 32768);
    assert!(mean_pooling(true, false));
    assert!(!mean_pooling(true, true));
    assert!(llama_supports_format(ModelFormat::Gguf));
    assert!(!llama_supports_format(ModelFormat::WhisperBin));
    assert_eq!(backend_limits(None, None, false), (0, 32768));
    assert_eq!(backend_limits(None, None, true), (u32::MAX, 32768));
    assert_eq!(backend_limits(Some("12"), Some("x"), true), (12, 32768));
    assert_eq!(backend_limits(Some("-1"), Some("4096"), false), (0, 4096));
}

#[test]
fn capability_checks() {
    assert!(embed_capability_check(true).is_ok());
    assert!(matches!(embed_capability_check(false), Err(InferError::CapabilityMissing(_, _))));
    assert!(complete_capability_check(false).is_ok());
    assert!(complete_capability_check(true).is_err());
}

#[test]
fn context_checks() {
    assert_eq!(check_context(10, None, 2048).ok(), Some(1024));
    assert_eq!(check_context(10, Some(5), 16).ok(), Some(5));
    match check_context(100, Some(50), 128) {
        Err(InferError::ContextExceeded { prompt_tokens, max_new_tokens, context_window }) => {
            assert_eq!((prompt_tokens, max_new_tokens, context_window), (100, 50, 128));
        }
        _ => panic!("expected ContextExceeded"),
    }
}

#[test]
fn token_steps() {
    let stop = vec!["</s>".to_string()];
    assert_eq!(token_step(0, 4, true, "x", &stop), TokenStep::EndOfGeneration);
    assert_eq!(token_step(0, 4, false, "a</s>b", &stop), TokenStep::StopString);
    assert_eq!(token_step(0, 4, false, "ab", &stop), TokenStep::Piece { last: false });
    assert_eq!(token_step(3, 4, false, "ab", &stop), TokenStep::Piece { last: true });
    let chunks = step_chunks(TokenStep::Piece { last: true }, "ab".to_string());
    assert_eq!(chunks.len(), 2);
    assert_eq!(chunks[0].delta, "ab");
    assert_eq!(chunks[1].finish_reason, Some(FinishReason::Length));
    let chunks = step_chunks(TokenStep::StopString, "ab".to_string());
    assert_eq!(chunks[0].delta, "");
    assert_eq!(chunks[0].finish_reason, Some(FinishReason::Stop));
}

#[test]
fn load_profile_prefers_manifest_then_gguf() {
    assert_eq!(load_profile(true, "llama".to_string(), None), (true, "llama".to_string()));
    assert_eq!(
        load_profile(false, "llama".to_string(), Some((true, "bert".to_string()))),
        (true, "bert".to_string())
    );
    assert_eq!(load_profile(false, "qwen2".to_string(), None), (false, "qwen2".to_string()));
}

#[test]
fn chat_replies_with_and_without_tools() {
    let text = "The answer is 42.";
    match chat_reply(text, "stop", false) {
        ChatReply::Content { text: t, finish_reason } => {
            assert_eq!(t, text);
            assert_eq!(finish_reason, "stop");
        }
        other => panic!("unexpected {other:?}"),
    }
    match chat_reply(text, "length", true) {
        ChatReply::Content { text: t, finish_reason } => {
            assert_eq!(t, text);
            assert_eq!(finish_reason, "length");
        }
        other => panic!("unexpected {other:?}"),
    }
    let call = "<tool_call>{\"name\": \"todo_list\", \"arguments\": {}}</tool_call>";
    match chat_reply(call, "stop", true) {
        ChatReply::ToolCalls { calls } => {
            assert_eq!(calls.len(), 1);
            assert_eq!(calls[0].name, "todo_list");
            assert_eq!(calls[0].arguments, "{}");
            assert!(calls[0].id.starts_with("call_"));
        }
        other => panic!("unexpected {other:?}"),
    }
    // Without tools the markers are left as text.
    assert!(matches!(chat_reply(call, "stop", false), ChatReply::Content { .. }));
    match chat_reply("<tool_call>not json</tool_call>", "stop", true) {
        ChatReply::Failed { status, message } => {
            assert_eq!(status, 500);
            assert!(message.starts_with("tool call parse error: invalid tool_call JSON: "));
        }
        other => panic!("unexpected {other:?}"),
    }
}

#[test]
fn embedding_outputs_per_path() {
    assert!(wants_output(false, 0, 3));
    assert!(wants_output(false, 1, 3));
    assert!(!wants_output(true, 0, 3));
    assert!(!wants_output(true, 1, 3));
    assert!(wants_output(true, 2, 3));
}
