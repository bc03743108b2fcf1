use claw::permissions::{PermissionDecision, PermissionMode, PermissionPolicy, PermissionRequest, PermissionRule, ResourceKind, RuleBasedPolicy};

fn request(tool: &str, resource: ResourceKind, target: Option<&str>) -> PermissionRequest {
    PermissionRequest {
        tool_name: tool.to_string(),
        resource,
        description: "read a file".to_string(),
        target: target.map(|t| t.to_string()),
    }
}

fn rule(resource: ResourceKind, pattern: &str, allow: bool) -> PermissionRule {
    PermissionRule { resource, pattern: pattern.to_string(), allow }
}

#[test]
fn auto_approve_allows_without_rules() {
    let policy = RuleBasedPolicy::new(PermissionMode::AutoApprove);
    let d = policy.check(&request("read", ResourceKind::FileRead, Some("/tmp/x")));
    assert!(matches!(d, PermissionDecision::Allow));
}

#[test]
fn deny_mode_denies_without_rules() {
    let policy = RuleBasedPolicy::new(PermissionMode::Deny);
    match policy.check(&request("write", ResourceKind::FileWrite, None)) {
        PermissionDecision::Deny { reason } => assert_eq!(reason, "permission mode is Deny"),
        other => panic!("unexpected {:?}", other),
    }
}

#[test]
fn interactive_mode_asks_with_debug_resource() {
    let policy = RuleBasedPolicy::new(PermissionMode::Interactive);
    match policy.check(&request("bash", ResourceKind::ShellExec, Some("ls"))) {
        PermissionDecision::Ask { message } => assert_eq!(message, "bash wants to access ShellExec: read a file"),
        other => panic!("unexpected {:?}", other),
    }
    match policy.check(&request("edit", ResourceKind::Custom("my \"tool\"".to_string()), None)) {
        PermissionDecision::Ask { message } => {
            assert_eq!(message, "edit wants to access Custom(\"my \\\"tool\\\"\"): read a file")
        },
        other => panic!("unexpected {:?}", other),
    }
}

#[test]
fn first_matching_rule_decides_over_mode() {
    let rules = vec![
        rule(ResourceKind::FileRead, "/etc/*", false),
        rule(ResourceKind::FileRead, "*", true),
    ];
    let policy = RuleBasedPolicy::with_rules(PermissionMode::Deny, rules);
    match policy.check(&request("read", ResourceKind::FileRead, Some("/etc/passwd"))) {
        PermissionDecision::Deny { reason } => assert_eq!(reason, "blocked by rule: /etc/*"),
        other => panic!("unexpected {:?}", other),
    }
    assert!(matches!(policy.check(&request("read", ResourceKind::FileRead, Some("/home/a"))), PermissionDecision::Allow));
    assert!(matches!(policy.check(&request("read", ResourceKind::FileRead, None)), PermissionDecision::Allow));
    match policy.check(&request("write", ResourceKind::FileWrite, Some("/home/a"))) {
        PermissionDecision::Deny { reason } => assert_eq!(reason, "permission mode is Deny"),
        other => panic!("unexpected {:?}", other),
    }
}

#[test]
fn rules_match_custom_resources_by_name() {
    let rules = vec![rule(ResourceKind::Custom("deploy".to_string()), "prod", false)];
    let policy = RuleBasedPolicy::with_rules(PermissionMode::AutoApprove, rules);
    assert!(matches!(
        policy.check(&request("t", ResourceKind::Custom("deploy".to_string()), Some("prod"))),
        PermissionDecision::Deny { .. }
    ));
    assert!(matches!(
        policy.check(&request("t", ResourceKind::Custom("deployx".to_string()), Some("prod"))),
        PermissionDecision::Allow
    ));
    assert!(matches!(policy.check(&request("t", ResourceKind::Custom("deploy".to_string()), Some("prod2"))), PermissionDecision::Allow));
}

#[test]
fn pattern_semantics() {
    assert!(RuleBasedPolicy::pattern_matches("*", ""));
    assert!(RuleBasedPolicy::pattern_matches("*", "anything"));
    assert!(RuleBasedPolicy::pattern_matches("/tmp/*", "/tmp/a/b"));
    assert!(RuleBasedPolicy::pattern_matches("/tmp/**", "/tmp/"));
    assert!(!RuleBasedPolicy::pattern_matches("/tmp/*", "/tm"));
    assert!(RuleBasedPolicy::pattern_matches("exact", "exact"));
    assert!(!RuleBasedPolicy::pattern_matches("exact", "exactly"));
    assert!(RuleBasedPolicy::pattern_matches("", ""));
    assert!(RuleBasedPolicy::pattern_matches("a*b", "axb"));
    assert!(RuleBasedPolicy::pattern_matches("a*b", "ab"));
    assert!(RuleBasedPolicy::pattern_matches("a*b", "a*b"));
    assert!(!RuleBasedPolicy::pattern_matches("a*b", "axbc"));
    assert!(RuleBasedPolicy::pattern_matches("*.rs", "main.rs"));
    assert!(RuleBasedPolicy::pattern_matches("*.rs", "src/deep/lib.rs"));
    assert!(!RuleBasedPolicy::pattern_matches("*.rs", "main.rsx"));
    assert!(RuleBasedPolicy::pattern_matches("src/*/mod.rs", "src/a/mod.rs"));
    assert!(RuleBasedPolicy::pattern_matches("file?.txt", "file1.txt"));
    assert!(!RuleBasedPolicy::pattern_matches("file?.txt", "file.txt"));
    assert!(RuleBasedPolicy::pattern_matches("**", ""));
    assert!(!RuleBasedPolicy::pattern_matches("", "x"));
}

#[test]
fn glob_rule_allows_matching_files() {
    let rules = vec![rule(ResourceKind::FileWrite, "*.rs", true)];
    let policy = RuleBasedPolicy::with_rules(PermissionMode::Deny, rules);
    assert!(matches!(
        policy.check(&request("write", ResourceKind::FileWrite, Some("main.rs"))),
        PermissionDecision::Allow
    ));
    assert!(matches!(
        policy.check(&request("write", ResourceKind::FileWrite, Some("notes.md"))),
        PermissionDecision::Deny { .. }
    ));
}

#[test]
fn match_rule_finds_first() {
    let rules = vec![
        rule(ResourceKind::Network, "api.*", true),
        rule(ResourceKind::Network, "api.example.com", false),
    ];
    let policy = RuleBasedPolicy::with_rules(PermissionMode::Deny, rules);
    let r = policy.match_rule(&request("fetch", ResourceKind::Network, Some("api.example.com"))).unwrap();
    assert_eq!(r.pattern, "api.*");
    assert!(policy.match_rule(&request("fetch", ResourceKind::FileRead, Some("api.example.com"))).is_none());
}

#[test]
fn trait_check_agrees_with_policy() {
    let policy = RuleBasedPolicy::new(PermissionMode::Deny);
    let d = PermissionPolicy::check(&policy, &request("x", ResourceKind::FileRead, None));
    assert!(matches!(d, PermissionDecision::Deny { .. }));
}
