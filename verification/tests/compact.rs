use claw::compact::{CompactMessage, CompactStrategy, TruncateStrategy};

fn msg(role: &str, content: &str, tokens: usize) -> CompactMessage {
    CompactMessage { role: role.to_string(), content: content.to_string(), token_estimate: tokens }
}

fn contents(ms: &[CompactMessage]) -> Vec<String> {
    ms.iter().map(|m| m.content.clone()).collect()
}

#[test]
fn under_budget_is_unchanged() {
    let r = TruncateStrategy.compact(vec![msg("user", "a", 10), msg("assistant", "b", 20)], 30).unwrap();
    assert_eq!(contents(&r.messages), vec!["a", "b"]);
    assert_eq!(r.removed_count, 0);
    assert_eq!(r.tokens_saved, 0);
}

#[test]
fn drops_oldest_first() {
    let ms = vec![msg("user", "a", 10), msg("assistant", "b", 20), msg("user", "c", 30)];
    let r = TruncateStrategy.compact(ms, 50).unwrap();
    assert_eq!(contents(&r.messages), vec!["b", "c"]);
    assert_eq!(r.removed_count, 1);
    assert_eq!(r.tokens_saved, 10);
}

#[test]
fn drops_a_prefix_of_the_history() {
    let ms = vec![msg("user", "a", 1), msg("assistant", "b", 10), msg("user", "c", 1)];
    let r = TruncateStrategy.compact(ms, 5).unwrap();
    assert_eq!(contents(&r.messages), vec!["c"]);
    assert_eq!(r.removed_count, 2);
    assert_eq!(r.tokens_saved, 11);
}

#[test]
fn drops_no_more_than_needed() {
    let ms = vec![msg("user", "a", 5), msg("assistant", "big", 100), msg("user", "c", 30)];
    let r = TruncateStrategy.compact(ms, 40).unwrap();
    assert_eq!(contents(&r.messages), vec!["c"]);
    assert_eq!(r.removed_count, 2);
    assert_eq!(r.tokens_saved, 105);
    let r = TruncateStrategy.compact(vec![msg("user", "a", 5), msg("user", "b", 6), msg("user", "c", 7)], 13).unwrap();
    assert_eq!(contents(&r.messages), vec!["b", "c"]);
    let kept: usize = r.messages.iter().map(|m| m.token_estimate).sum();
    assert!(kept <= 13);
}

#[test]
fn truncation_is_idempotent() {
    let ms = vec![msg("user", "a", 15), msg("assistant", "b", 15), msg("user", "c", 15)];
    let once = TruncateStrategy::truncate(ms, 31);
    let again = TruncateStrategy::truncate(once.messages.clone(), 31);
    assert_eq!(contents(&once.messages), vec!["b", "c"]);
    assert_eq!(contents(&again.messages), vec!["b", "c"]);
    assert_eq!(again.removed_count, 0);
    assert_eq!(once.removed_count + once.messages.len(), 3);
}

#[test]
fn zero_budget_drops_everything_with_tokens() {
    let ms = vec![msg("user", "a", 1), msg("assistant", "empty", 0)];
    let r = TruncateStrategy::truncate(ms, 0);
    assert_eq!(contents(&r.messages), vec!["empty"]);
    assert_eq!(r.removed_count, 1);
    assert_eq!(r.tokens_saved, 1);
}
