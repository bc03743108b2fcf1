use std::collections::VecDeque;
use std::sync::Arc;

use claw::message::{ContentBlock, Message, Role};
use claw::permissions::PermissionMode;
use claw::provider::{ModelRequest, ModelResponse, ResponseContent, StopReason, StreamEvent, Usage};
use claw::query::{classify_error, retry_delay_ms, AgentError, ErrorClass, QueryAction, QueryEvent, QueryRun};
use claw::session::{SessionConfig, SessionState};
use claw::tools::{CallStep, ToolDescriptor, ToolOrchestrator, ToolOutput, ToolRegistry};

/// One scripted answer of the model: a stream of events (an `Err` item breaks
/// the stream off), or a failure to open the stream at all.
enum Turn {
    Events(Vec<Result<StreamEvent, String>>),
    Fails(String),
}

struct Outcome {
    result: Result<(), AgentError>,
    requests: Vec<ModelRequest>,
    events: Vec<QueryEvent>,
    delays: Vec<u64>,
    tool_inputs: Vec<String>,
}

fn usage(input: usize, output: usize) -> Usage {
    Usage { input_tokens: input, output_tokens: output, cache_creation_input_tokens: None, cache_read_input_tokens: None }
}

fn done(id: &str, content: Vec<ResponseContent>, stop: StopReason) -> StreamEvent {
    StreamEvent::MessageDone {
        response: ModelResponse { id: id.to_string(), content, stop_reason: Some(stop), usage: usage(0, 0) },
    }
}

fn text_turn(text: &str, stop: StopReason) -> Turn {
    Turn::Events(vec![
        Ok(StreamEvent::TextDelta { index: 0, text: text.to_string() }),
        Ok(done("resp", vec![ResponseContent::Text(text.to_string())], stop)),
    ])
}

fn tool_turn_with_chunks(id: &str, name: &str, chunks: &[&str], stop: StopReason) -> Turn {
    let mut events = vec![Ok(StreamEvent::ContentBlockStart {
        index: 0,
        content: ResponseContent::ToolUse { id: id.to_string(), name: name.to_string(), input: "{}".to_string() },
    })];
    for c in chunks {
        events.push(Ok(StreamEvent::InputJsonDelta { index: 0, partial_json: c.to_string() }));
    }
    events.push(Ok(done("resp", vec![], stop)));
    Turn::Events(events)
}

fn tool_turn(id: &str, name: &str, json: &str, stop: StopReason) -> Turn {
    tool_turn_with_chunks(id, name, &[json], stop)
}

fn make_session(mode: PermissionMode) -> SessionState {
    let mut config = SessionConfig::default();
    config.model = "test-model".to_string();
    config.permission_mode = mode;
    SessionState::new(config, std::path::PathBuf::from("/tmp")).expect("random source")
}

fn registry_with(tools: Vec<ToolDescriptor>) -> Arc<ToolRegistry> {
    let mut r = ToolRegistry::new();
    for t in tools {
        r.register(t);
    }
    Arc::new(r)
}

fn descriptor(name: &str, read_only: bool) -> ToolDescriptor {
    ToolDescriptor::new(name.to_string(), "a test tool".to_string(), "{\"type\":\"object\"}".to_string(), read_only)
}

/// Drives a query to its end against scripted model answers; tools answer "ok".
fn run(session: &mut SessionState, registry: Arc<ToolRegistry>, script: Vec<Turn>) -> Outcome {
    let mut script: VecDeque<Turn> = script.into();
    let orchestrator = ToolOrchestrator::new(Arc::clone(&registry));
    let (mut run, mut action) = QueryRun::start(session, registry);
    let mut out = Outcome { result: Ok(()), requests: vec![], events: vec![], delays: vec![], tool_inputs: vec![] };
    loop {
        if let QueryAction::SendAfter { delay_ms, .. } = &action {
            out.delays.push(*delay_ms);
        }
        match action {
            QueryAction::Send(req) | QueryAction::SendAfter { request: req, .. } => {
                out.requests.push(req);
                match script.pop_front().expect("no more scripted turns") {
                    Turn::Fails(msg) => {
                        action = run.on_stream_error(session, msg);
                        continue;
                    },
                    Turn::Events(events) => {
                        let mut broke = None;
                        for e in events {
                            match e {
                                Ok(e) => {
                                    if let Some(ev) = run.on_event(session, e) {
                                        out.events.push(ev);
                                    }
                                },
                                Err(msg) => {
                                    broke = Some(msg);
                                    break;
                                },
                            }
                        }
                        if let Some(msg) = broke {
                            action = run.on_stream_error(session, msg);
                            continue;
                        }
                        let (evs, a) = run.on_stream_end(session);
                        out.events.extend(evs);
                        action = a;
                    },
                }
            },
            QueryAction::RunTools { calls, policy } => {
                let plan = orchestrator.plan_batch(&calls);
                let mut results = Vec::new();
                for i in plan.concurrent.iter().chain(plan.sequential.iter()) {
                    let call = &calls[*i];
                    let r = match orchestrator.prepare_call(call, &policy) {
                        CallStep::Done(r) => r,
                        CallStep::Run => {
                            out.tool_inputs.push(call.input.clone());
                            ToolOrchestrator::finish_call(call, Ok(ToolOutput::success("ok".to_string())))
                        },
                    };
                    results.push(r);
                }
                let (evs, a) = run.on_tool_results(session, results);
                out.events.extend(evs);
                action = a;
            },
            QueryAction::Finish(r) => {
                out.result = r;
                return out;
            },
        }
    }
}

fn has_tool_result(session: &SessionState) -> bool {
    session.messages.iter().any(|m| m.content.iter().any(|b| matches!(b, ContentBlock::ToolResult { .. })))
}

#[test]
fn query_uses_session_permission_mode_for_mutating_tools() {
    let registry = registry_with(vec![descriptor("mutating_tool", false)]);
    let mut session = make_session(PermissionMode::Deny);
    session.push_message(Message::user("run the tool".to_string()));
    let out = run(
        &mut session,
        registry,
        vec![tool_turn("tool-1", "mutating_tool", r#"{"value":1}"#, StopReason::ToolUse), text_turn("done", StopReason::EndTurn)],
    );
    assert!(out.result.is_ok(), "query should complete and append a tool_result");
    let tool_result_message = session
        .messages
        .iter()
        .find(|m| m.content.iter().any(|b| matches!(b, ContentBlock::ToolResult { .. })))
        .expect("tool_result message should be appended");
    let ContentBlock::ToolResult { tool_use_id, content, is_error } = &tool_result_message.content[0] else {
        panic!("expected tool_result content block");
    };
    assert_eq!(tool_use_id, "tool-1");
    assert!(*is_error, "denied permission should surface as a tool error");
    assert!(content.contains("permission denied"), "expected tool_result to mention permission denial, got: {content}");
}

#[test]
fn context_too_long_triggers_compact() {
    let registry = registry_with(vec![]);
    let mut session = make_session(PermissionMode::AutoApprove);
    for i in 0..20 {
        session.push_message(Message::user(format!("message {}", i)));
        session.push_message(Message::assistant_text(format!("reply {}", i)));
    }
    let out = run(
        &mut session,
        registry,
        vec![Turn::Fails("context_too_long".to_string()), text_turn("recovered after compact", StopReason::EndTurn)],
    );
    assert!(out.result.is_ok(), "should recover via compact, got: {:?}", out.result);
    assert!(out.requests.len() >= 2);
    assert!(
        out.requests[1].messages.len() < out.requests[0].messages.len(),
        "compacted request should have fewer messages"
    );
}

#[test]
fn context_too_long_after_compact_fails() {
    let registry = registry_with(vec![]);
    let mut session = make_session(PermissionMode::AutoApprove);
    let out = run(
        &mut session,
        registry,
        vec![Turn::Fails("context_too_long".to_string()), Turn::Fails("context_too_long".to_string())],
    );
    match out.result {
        Err(AgentError::ContextTooLong) => {},
        other => panic!("expected ContextTooLong, got: {:?}", other),
    }
}

#[test]
fn context_too_long_twice_after_compaction_fails() {
    let registry = registry_with(vec![]);
    let mut session = make_session(PermissionMode::AutoApprove);
    for i in 0..4 {
        session.push_message(Message::user(format!("message {}", i)));
    }
    let out = run(
        &mut session,
        registry,
        vec![Turn::Fails("context_too_long".to_string()), Turn::Fails("context_too_long".to_string())],
    );
    assert!(matches!(out.result, Err(AgentError::ContextTooLong)));
    assert_eq!(out.requests.len(), 2);
    assert_eq!(out.requests[0].messages.len(), 4);
    assert_eq!(out.requests[1].messages.len(), 2);
    assert_eq!(session.messages.len(), 2);
}

#[test]
fn max_output_tokens_auto_continue() {
    let registry = registry_with(vec![]);
    let mut session = make_session(PermissionMode::AutoApprove);
    let out = run(
        &mut session,
        registry,
        vec![text_turn("partial response...", StopReason::MaxTokens), text_turn(" and here is the rest.", StopReason::EndTurn)],
    );
    assert!(out.result.is_ok());
    assert_eq!(out.requests.len(), 2);
    let last_msg = out.requests[1].messages.last().unwrap();
    assert_eq!(last_msg.role, "user");
    assert_eq!(session.turn_count, 2);
}

#[test]
fn max_output_tokens_with_tool_use() {
    let registry = registry_with(vec![descriptor("my_tool", false)]);
    let mut session = make_session(PermissionMode::AutoApprove);
    let out = run(
        &mut session,
        registry,
        vec![tool_turn("t1", "my_tool", r#"{"action":"do_thing"}"#, StopReason::MaxTokens), text_turn("done", StopReason::EndTurn)],
    );
    assert!(out.result.is_ok());
    assert!(has_tool_result(&session), "tool should be executed when MaxTokens + tool_use");
    assert_eq!(out.tool_inputs, vec![r#"{"action":"do_thing"}"#.to_string()]);
}

#[test]
fn stream_error_429_retries() {
    let registry = registry_with(vec![]);
    let mut session = make_session(PermissionMode::AutoApprove);
    let out = run(
        &mut session,
        registry,
        vec![
            Turn::Fails("429 Too Many Requests".to_string()),
            Turn::Fails("429 Too Many Requests".to_string()),
            text_turn("success after retry", StopReason::EndTurn),
        ],
    );
    assert!(out.result.is_ok(), "should succeed after retrying 429");
    assert_eq!(out.requests.len(), 3, "should have made 3 attempts");
    assert_eq!(out.delays, vec![500, 1000]);
    assert_eq!(session.turn_count, 1);
}

#[test]
fn stream_error_5xx_retries() {
    let registry = registry_with(vec![]);
    let mut session = make_session(PermissionMode::AutoApprove);
    let out = run(
        &mut session,
        registry,
        vec![Turn::Fails("500 Internal Server Error".to_string()), text_turn("recovered", StopReason::EndTurn)],
    );
    assert!(out.result.is_ok(), "should succeed after retrying 5xx");
}

#[test]
fn stream_error_auth_fails_fast() {
    let registry = registry_with(vec![]);
    let mut session = make_session(PermissionMode::AutoApprove);
    let out = run(
        &mut session,
        registry,
        vec![Turn::Fails("401 Unauthorized".to_string()), text_turn("should not reach", StopReason::EndTurn)],
    );
    assert!(out.result.is_err(), "401 should not be retried");
    assert_eq!(out.requests.len(), 1, "should have made only 1 attempt");
    match out.result {
        Err(AgentError::Provider(m)) => assert_eq!(m, "401 Unauthorized"),
        other => panic!("expected a provider error, got {:?}", other),
    }
}

#[test]
fn retries_give_up_after_the_limit() {
    let registry = registry_with(vec![]);
    let mut session = make_session(PermissionMode::AutoApprove);
    let out = run(
        &mut session,
        registry,
        vec![
            Turn::Fails("503 Service Unavailable".to_string()),
            Turn::Fails("503 Service Unavailable".to_string()),
            Turn::Fails("503 Service Unavailable".to_string()),
            Turn::Fails("503 Service Unavailable".to_string()),
        ],
    );
    assert_eq!(out.requests.len(), 4);
    assert!(matches!(out.result, Err(AgentError::Provider(ref m)) if m == "503 Service Unavailable"));
}

#[test]
fn broken_stream_is_classified_like_a_failed_request() {
    let registry = registry_with(vec![]);
    let mut session = make_session(PermissionMode::AutoApprove);
    let out = run(
        &mut session,
        registry,
        vec![
            Turn::Events(vec![
                Ok(StreamEvent::TextDelta { index: 0, text: "par".to_string() }),
                Err("stream error: 502 Bad Gateway".to_string()),
            ]),
            text_turn("whole", StopReason::EndTurn),
        ],
    );
    assert!(out.result.is_ok());
    assert_eq!(session.messages.len(), 1);
    match &session.messages[0].content[0] {
        ContentBlock::Text { text } => assert_eq!(text, "whole"),
        other => panic!("unexpected block {:?}", other),
    }
}

#[test]
fn malformed_tool_json_graceful() {
    let registry = registry_with(vec![descriptor("my_tool", false)]);
    let mut session = make_session(PermissionMode::AutoApprove);
    session.push_message(Message::user("go".to_string()));
    let out = run(
        &mut session,
        registry,
        vec![
            tool_turn_with_chunks("t1", "my_tool", &["{not valid", " json at all}}}"], StopReason::ToolUse),
            text_turn("done", StopReason::EndTurn),
        ],
    );
    assert!(out.result.is_ok());
    let assistant_msg = &session.messages[1];
    let tool_input = assistant_msg
        .content
        .iter()
        .find_map(|b| match b {
            ContentBlock::ToolUse { input, .. } => Some(input),
            _ => None,
        })
        .expect("should have ToolUse block");
    assert_eq!(tool_input, "{}", "invalid JSON should fall back to empty object");
}

#[test]
fn tool_input_is_normalised_json() {
    let registry = registry_with(vec![descriptor("my_tool", true)]);
    let mut session = make_session(PermissionMode::AutoApprove);
    let out = run(
        &mut session,
        registry,
        vec![
            tool_turn_with_chunks("t1", "my_tool", &["{ \"a\" :", " [1, 2] }"], StopReason::ToolUse),
            text_turn("done", StopReason::EndTurn),
        ],
    );
    assert!(out.result.is_ok());
    assert_eq!(out.tool_inputs, vec!["{\"a\":[1,2]}".to_string()]);
}

#[test]
fn max_turns_exceeded_is_reported() {
    let registry = registry_with(vec![descriptor("my_tool", true)]);
    let mut session = make_session(PermissionMode::AutoApprove);
    session.config.max_turns = 2;
    let out = run(
        &mut session,
        registry,
        vec![
            tool_turn("t1", "my_tool", "{}", StopReason::ToolUse),
            tool_turn("t2", "my_tool", "{}", StopReason::ToolUse),
        ],
    );
    assert!(matches!(out.result, Err(AgentError::MaxTurnsExceeded(2))));
    assert_eq!(session.turn_count, 2);
    assert_eq!(out.requests.len(), 2);
}

#[test]
fn events_and_usage_are_reported() {
    let registry = registry_with(vec![]);
    let mut session = make_session(PermissionMode::AutoApprove);
    session.config.system_prompt = "be brief".to_string();
    let out = run(
        &mut session,
        registry,
        vec![Turn::Events(vec![
            Ok(StreamEvent::TextDelta { index: 0, text: "hel".to_string() }),
            Ok(StreamEvent::TextDelta { index: 0, text: "lo".to_string() }),
            Ok(StreamEvent::MessageDone {
                response: ModelResponse { id: "r".to_string(), content: vec![], stop_reason: Some(StopReason::EndTurn), usage: usage(7, 3) },
            }),
        ])],
    );
    assert!(out.result.is_ok());
    assert_eq!(session.total_input_tokens, 7);
    assert_eq!(session.total_output_tokens, 3);
    assert_eq!(out.requests[0].system.as_deref(), Some("be brief"));
    assert_eq!(out.requests[0].model, "test-model");
    assert_eq!(out.requests[0].max_tokens, 16_000);
    assert!(matches!(&out.events[0], QueryEvent::TextDelta(t) if t == "hel"));
    assert!(matches!(&out.events[2], QueryEvent::Usage { input_tokens: 7, output_tokens: 3 }));
    assert!(matches!(&out.events[3], QueryEvent::TurnComplete { stop_reason: StopReason::EndTurn }));
    match &session.messages[0] {
        Message { role: Role::Assistant, content } => match &content[0] {
            ContentBlock::Text { text } => assert_eq!(text, "hello"),
            other => panic!("unexpected block {:?}", other),
        },
        other => panic!("unexpected message {:?}", other),
    }
}

#[test]
fn errors_are_classified_by_message() {
    assert_eq!(classify_error("context_too_long"), ErrorClass::ContextTooLong);
    assert_eq!(classify_error("prompt is too long: 210000 tokens"), ErrorClass::ContextTooLong);
    assert_eq!(classify_error("429 Too Many Requests"), ErrorClass::RateLimited);
    assert_eq!(classify_error("rate_limit_error"), ErrorClass::RateLimited);
    assert_eq!(classify_error("500 Internal Server Error"), ErrorClass::ServerError);
    assert_eq!(classify_error("HTTP status 529"), ErrorClass::ServerError);
    assert_eq!(classify_error("401 Unauthorized"), ErrorClass::Fatal);
    assert_eq!(classify_error("code 5000 is not a status"), ErrorClass::Fatal);
    assert_eq!(classify_error(""), ErrorClass::Fatal);
}

#[test]
fn retry_waits_double() {
    assert_eq!(retry_delay_ms(1), 500);
    assert_eq!(retry_delay_ms(2), 1000);
    assert_eq!(retry_delay_ms(3), 2000);
}

#[test]
fn tool_results_answer_the_tool_uses_of_the_turn() {
    let mut session = make_session(PermissionMode::AutoApprove);
    session.push_message(Message::user("go".to_string()));
    let registry = registry_with(vec![descriptor("writer", false), descriptor("reader", true)]);
    let two_tools = Turn::Events(vec![
        Ok(StreamEvent::ContentBlockStart {
            index: 0,
            content: ResponseContent::ToolUse { id: "w1".to_string(), name: "writer".to_string(), input: "{}".to_string() },
        }),
        Ok(StreamEvent::InputJsonDelta { index: 0, partial_json: "{}".to_string() }),
        Ok(StreamEvent::ContentBlockStart {
            index: 1,
            content: ResponseContent::ToolUse { id: "r1".to_string(), name: "reader".to_string(), input: "{}".to_string() },
        }),
        Ok(StreamEvent::InputJsonDelta { index: 1, partial_json: "{}".to_string() }),
        Ok(done("resp", vec![], StopReason::ToolUse)),
    ]);
    let out = run(&mut session, registry, vec![two_tools, text_turn("done", StopReason::EndTurn)]);
    assert!(out.result.is_ok());
    let assistant = &session.messages[1];
    let results = &session.messages[2];
    assert_eq!(assistant.role, Role::Assistant);
    assert_eq!(results.role, Role::User);
    let mut uses: Vec<String> = assistant
        .content
        .iter()
        .filter_map(|b| match b {
            ContentBlock::ToolUse { id, .. } => Some(id.clone()),
            _ => None,
        })
        .collect();
    let mut answered: Vec<String> = results
        .content
        .iter()
        .filter_map(|b| match b {
            ContentBlock::ToolResult { tool_use_id, .. } => Some(tool_use_id.clone()),
            _ => None,
        })
        .collect();
    assert_eq!(answered, vec!["r1".to_string(), "w1".to_string()]);
    uses.sort();
    answered.sort();
    assert_eq!(uses, answered);
}

#[test]
fn compaction_keeps_tool_results_with_their_tool_uses() {
    let mut session = make_session(PermissionMode::AutoApprove);
    session.push_message(Message::user("go".to_string()));
    session.push_message(Message {
        role: Role::Assistant,
        content: vec![ContentBlock::ToolUse { id: "t1".to_string(), name: "reader".to_string(), input: "{}".to_string() }],
    });
    session.push_message(Message {
        role: Role::User,
        content: vec![ContentBlock::ToolResult { tool_use_id: "t1".to_string(), content: "ok".to_string(), is_error: false }],
    });
    session.push_message(Message::assistant_text("read it".to_string()));
    let registry = registry_with(vec![descriptor("reader", true)]);
    let out = run(
        &mut session,
        registry,
        vec![Turn::Fails("context_too_long".to_string()), text_turn("done", StopReason::EndTurn)],
    );
    assert!(out.result.is_ok());
    assert_eq!(out.requests[0].messages.len(), 4);
    assert_eq!(out.requests[1].messages.len(), 1);
    assert_eq!(out.requests[1].messages[0].role, "assistant");
    assert!(!session.messages[0].content.iter().any(|b| matches!(b, ContentBlock::ToolResult { .. })));
}
