use claw::openai::{
    build_chat_request, response_from_completion, ChatChunk, ChatMessage, ChunkChoice, ChunkToolCall, Completion,
    CompletionChoice, CompletionToolCall, CompletionUsage, FinishKind, StreamAssembler,
};
use claw::provider::{ModelRequest, RequestContent, RequestMessage, ResponseContent, StopReason, StreamEvent, ToolDefinition};

fn text(t: &str) -> RequestContent {
    RequestContent::Text { text: t.to_string() }
}

#[test]
fn request_layout() {
    let request = ModelRequest {
        model: "m".to_string(),
        system: Some("sys".to_string()),
        messages: vec![
            RequestMessage { role: "user".to_string(), content: vec![text("a"), text("b")] },
            RequestMessage {
                role: "assistant".to_string(),
                content: vec![
                    text("thinking"),
                    RequestContent::ToolUse { id: "t1".to_string(), name: "grep".to_string(), input: "{ \"x\" : 1 }".to_string() },
                ],
            },
            RequestMessage {
                role: "user".to_string(),
                content: vec![RequestContent::ToolResult {
                    tool_use_id: "t1".to_string(),
                    content: "found".to_string(),
                    is_error: false,
                }],
            },
            RequestMessage { role: "assistant".to_string(), content: vec![] },
        ],
        max_tokens: 5_000_000_000,
        tools: Some(vec![ToolDefinition {
            name: "grep".to_string(),
            description: "search".to_string(),
            input_schema: "{}".to_string(),
        }]),
    };
    let r = build_chat_request(&request);
    assert_eq!(r.model, "m");
    assert_eq!(r.max_tokens, 5_000_000_000u64 as u32);
    assert_eq!(r.messages.len(), 5);
    assert!(matches!(&r.messages[0], ChatMessage::System { content } if content == "sys"));
    assert!(matches!(&r.messages[1], ChatMessage::User { content } if content == "ab"));
    match &r.messages[2] {
        ChatMessage::Assistant { content, tool_calls } => {
            assert_eq!(content.as_deref(), Some("thinking"));
            let calls = tool_calls.as_ref().unwrap();
            assert_eq!(calls.len(), 1);
            assert_eq!(calls[0].arguments, "{\"x\":1}");
        },
        other => panic!("unexpected {:?}", other),
    }
    assert!(matches!(&r.messages[3], ChatMessage::Tool { content, tool_call_id } if content == "found" && tool_call_id == "t1"));
    assert!(matches!(&r.messages[4], ChatMessage::Assistant { content: None, tool_calls: None }));
    let tools = r.tools.unwrap();
    assert_eq!(tools[0].name, "grep");
    assert_eq!(tools[0].parameters, "{}");
}

fn tc(index: u32, id: Option<&str>, name: Option<&str>, args: Option<&str>) -> ChunkToolCall {
    ChunkToolCall { index, id: id.map(String::from), name: name.map(String::from), arguments: args.map(String::from) }
}

fn chunk(id: &str, content: Option<&str>, tool_calls: Vec<ChunkToolCall>, finish: Option<FinishKind>) -> ChatChunk {
    ChatChunk {
        id: id.to_string(),
        choices: vec![ChunkChoice { content: content.map(String::from), tool_calls, finish_reason: finish }],
    }
}

#[test]
fn stream_assembly() {
    let mut a = StreamAssembler::new();
    let e1 = a.on_chunk(&chunk("resp-1", Some("Hel"), vec![], None));
    assert_eq!(e1.len(), 2);
    assert!(matches!(&e1[0], StreamEvent::ContentBlockStart { index: 0, content: ResponseContent::Text(t) } if t.is_empty()));
    assert!(matches!(&e1[1], StreamEvent::TextDelta { index: 0, text } if text == "Hel"));
    let e2 = a.on_chunk(&chunk("resp-2", Some("lo"), vec![], None));
    assert_eq!(e2.len(), 1);
    let e3 = a.on_chunk(&chunk("", Some(""), vec![tc(1, Some("b"), Some("second"), Some(""))], None));
    assert_eq!(e3.len(), 1);
    assert!(matches!(&e3[0], StreamEvent::ContentBlockStart { index: 2, content: ResponseContent::ToolUse { id, name, input } } if id == "b" && name == "second" && input == "{}"));
    let e4 = a.on_chunk(&chunk("", None, vec![tc(0, Some("a"), Some("first"), Some("{\"q\":")), tc(1, None, None, Some("[]"))], None));
    assert_eq!(e4.len(), 3);
    assert!(matches!(&e4[0], StreamEvent::ContentBlockStart { index: 1, .. }));
    assert!(matches!(&e4[1], StreamEvent::InputJsonDelta { index: 1, partial_json } if partial_json == "{\"q\":"));
    assert!(matches!(&e4[2], StreamEvent::InputJsonDelta { index: 2, partial_json } if partial_json == "[]"));
    let e5 = a.on_chunk(&chunk("", None, vec![tc(0, None, None, Some(" 1}"))], Some(FinishKind::ToolCalls)));
    assert_eq!(e5.len(), 1);
    match a.finish() {
        StreamEvent::MessageDone { response } => {
            assert_eq!(response.id, "resp-1");
            assert_eq!(response.stop_reason, Some(StopReason::ToolUse));
            assert_eq!(response.usage.input_tokens, 0);
            assert_eq!(response.content.len(), 3);
            assert!(matches!(&response.content[0], ResponseContent::Text(t) if t == "Hello"));
            assert!(matches!(&response.content[1], ResponseContent::ToolUse { id, input, .. } if id == "a" && input == "{\"q\":1}"));
            assert!(matches!(&response.content[2], ResponseContent::ToolUse { id, input, .. } if id == "b" && input == "[]"));
        },
        other => panic!("unexpected {:?}", other),
    }
}

#[test]
fn finish_reasons_map_to_stop_reasons() {
    for (kind, want) in [
        (FinishKind::Stop, StopReason::EndTurn),
        (FinishKind::Length, StopReason::MaxTokens),
        (FinishKind::ToolCalls, StopReason::ToolUse),
        (FinishKind::ContentFilter, StopReason::EndTurn),
    ] {
        let mut a = StreamAssembler::new();
        a.on_chunk(&chunk("x", None, vec![], Some(kind)));
        match a.finish() {
            StreamEvent::MessageDone { response } => {
                assert_eq!(response.stop_reason, Some(want));
                assert!(response.content.is_empty());
            },
            other => panic!("unexpected {:?}", other),
        }
    }
}

#[test]
fn complete_response_reading() {
    let c = Completion {
        id: "cmpl".to_string(),
        choices: vec![
            CompletionChoice {
                content: Some("answer".to_string()),
                tool_calls: Some(vec![
                    CompletionToolCall::Function { id: "f".to_string(), name: "grep".to_string(), arguments: "not json".to_string() },
                    CompletionToolCall::Other,
                ]),
                finish_reason: Some(FinishKind::ToolCalls),
            },
            CompletionChoice { content: Some("ignored".to_string()), tool_calls: None, finish_reason: Some(FinishKind::Stop) },
        ],
        usage: Some(CompletionUsage { prompt_tokens: 12, completion_tokens: 3 }),
    };
    let r = response_from_completion(c);
    assert_eq!(r.id, "cmpl");
    assert_eq!(r.stop_reason, Some(StopReason::ToolUse));
    assert_eq!((r.usage.input_tokens, r.usage.output_tokens), (12, 3));
    assert_eq!(r.content.len(), 2);
    assert!(matches!(&r.content[1], ResponseContent::ToolUse { input, .. } if input == "{}"));
    let empty = response_from_completion(Completion { id: "e".to_string(), choices: vec![], usage: None });
    assert!(empty.content.is_empty());
    assert_eq!(empty.usage.input_tokens, 0);
    assert_eq!(empty.stop_reason, Some(StopReason::EndTurn));
    for (finish, stop) in [
        (Some(FinishKind::Stop), StopReason::EndTurn),
        (Some(FinishKind::Length), StopReason::MaxTokens),
        (Some(FinishKind::ToolCalls), StopReason::ToolUse),
        (None, StopReason::EndTurn),
    ] {
        let c = Completion {
            id: "x".to_string(),
            choices: vec![CompletionChoice { content: Some("t".to_string()), tool_calls: None, finish_reason: finish }],
            usage: None,
        };
        assert_eq!(response_from_completion(c).stop_reason, Some(stop));
    }
}
