use claw::message::{ContentBlock, Message, Role};
use claw::permissions::PermissionMode;
use claw::session::{SessionConfig, SessionState, TokenBudget};

#[test]
fn token_budget_input_budget_saturates() {
    assert_eq!(TokenBudget::new(200_000, 16_000).input_budget(), 184_000);
    assert_eq!(TokenBudget::new(100, 200).input_budget(), 0);
    assert_eq!(TokenBudget::default().input_budget(), 184_000);
}

#[test]
fn default_config() {
    let c = SessionConfig::default();
    assert_eq!(c.max_turns, 100);
    assert_eq!(c.permission_mode, PermissionMode::AutoApprove);
    assert_eq!(c.token_budget.max_output_tokens, 16_000);
    assert!(c.system_prompt.is_empty());
}

#[test]
fn new_session_is_empty_with_fresh_id() {
    let a = SessionState::new(SessionConfig::default(), std::path::PathBuf::from("/work")).expect("random source");
    let b = SessionState::new(SessionConfig::default(), std::path::PathBuf::from("/work")).expect("random source");
    assert_eq!(a.id.len(), 36);
    assert_ne!(a.id, b.id);
    let chars: Vec<char> = a.id.chars().collect();
    for (i, c) in chars.iter().enumerate() {
        if i == 8 || i == 13 || i == 18 || i == 23 {
            assert_eq!(*c, '-');
        } else {
            assert!(c.is_ascii_digit() || ('a'..='f').contains(c), "not lower-case hex: {}", a.id);
        }
    }
    assert_eq!(chars[14], '4');
    assert!(matches!(chars[19], '8' | '9' | 'a' | 'b'));
    assert!(a.messages.is_empty());
    assert_eq!(a.turn_count, 0);
    assert_eq!(a.cwd, std::path::PathBuf::from("/work"));
}

#[test]
fn request_messages_mirror_history() {
    let mut s = SessionState::new(SessionConfig::default(), std::path::PathBuf::from("/")).expect("random source");
    s.push_message(Message::user("hi".to_string()));
    s.push_message(Message {
        role: Role::Assistant,
        content: vec![
            ContentBlock::Text { text: "calling".to_string() },
            ContentBlock::ToolUse { id: "t".to_string(), name: "grep".to_string(), input: "{}".to_string() },
        ],
    });
    let r = s.to_request_messages();
    assert_eq!(r.len(), 2);
    assert_eq!(r[0].role, "user");
    assert_eq!(r[1].role, "assistant");
    assert_eq!(r[1].content.len(), 2);
    match &r[1].content[1] {
        claw::provider::RequestContent::ToolUse { id, name, input } => {
            assert_eq!((id.as_str(), name.as_str(), input.as_str()), ("t", "grep", "{}"))
        },
        other => panic!("unexpected {:?}", other),
    }
}
