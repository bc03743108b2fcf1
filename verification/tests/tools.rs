use std::sync::Arc;

use claw::permissions::{PermissionMode, PermissionRule, ResourceKind, RuleBasedPolicy};
use claw::tools::{CallStep, ToolCall, ToolDescriptor, ToolOrchestrator, ToolOutput, ToolRegistry};

fn descriptor(name: &str, read_only: bool) -> ToolDescriptor {
    ToolDescriptor::new(name.to_string(), format!("{name} tool"), "{}".to_string(), read_only)
}

fn call(id: &str, name: &str) -> ToolCall {
    ToolCall { id: id.to_string(), name: name.to_string(), input: "{}".to_string() }
}

fn done(step: CallStep) -> (String, ToolOutput) {
    match step {
        CallStep::Done(r) => (r.tool_use_id, r.output),
        CallStep::Run => panic!("expected a settled call"),
    }
}

#[test]
fn tool_output_constructors() {
    let ok = ToolOutput::success("fine".to_string());
    assert_eq!(ok.content, "fine");
    assert!(!ok.is_error);
    assert!(ok.metadata.is_none());
    let bad = ToolOutput::error("broken".to_string());
    assert!(bad.is_error);
}

#[test]
fn registry_register_replaces_by_name() {
    let mut reg = ToolRegistry::new();
    assert!(reg.get("grep").is_none());
    reg.register(descriptor("grep", true));
    reg.register(descriptor("bash", false));
    let mut replacement = descriptor("grep", false);
    replacement.description = "new".to_string();
    reg.register(replacement);
    assert_eq!(reg.all().len(), 2);
    let g = reg.get("grep").unwrap();
    assert_eq!(g.description, "new");
    assert!(!g.read_only);
    assert_eq!(reg.get("bash").unwrap().description, "bash tool");
    let defs = reg.tool_definitions();
    assert_eq!(defs.len(), 2);
    assert_eq!(defs[0].name, "grep");
    assert_eq!(defs[0].description, "new");
    assert_eq!(defs[1].name, "bash");
}

#[test]
fn unknown_tool_is_reported() {
    let orch = ToolOrchestrator::new(Arc::new(ToolRegistry::new()));
    let policy = RuleBasedPolicy::new(PermissionMode::AutoApprove);
    let (id, out) = done(orch.prepare_call(&call("c1", "nope"), &policy));
    assert_eq!(id, "c1");
    assert!(out.is_error);
    assert_eq!(out.content, "unknown tool: nope");
}

#[test]
fn read_only_tools_run_even_when_denied() {
    let mut reg = ToolRegistry::new();
    reg.register(descriptor("glob", true));
    let orch = ToolOrchestrator::new(Arc::new(reg));
    let policy = RuleBasedPolicy::new(PermissionMode::Deny);
    assert!(matches!(orch.prepare_call(&call("c1", "glob"), &policy), CallStep::Run));
}

#[test]
fn mutating_tools_follow_the_policy() {
    let mut reg = ToolRegistry::new();
    reg.register(descriptor("bash", false));
    let orch = ToolOrchestrator::new(Arc::new(reg));
    let deny = RuleBasedPolicy::new(PermissionMode::Deny);
    let (_, out) = done(orch.prepare_call(&call("c1", "bash"), &deny));
    assert_eq!(out.content, "permission denied: permission mode is Deny");
    assert!(out.is_error);
    let ask = RuleBasedPolicy::new(PermissionMode::Interactive);
    let (_, out) = done(orch.prepare_call(&call("c2", "bash"), &ask));
    assert_eq!(
        out.content,
        "permission required — run with --permission interactive to approve: bash wants to access Custom(\"bash\"): execute tool bash"
    );
    let allow = RuleBasedPolicy::new(PermissionMode::AutoApprove);
    assert!(matches!(orch.prepare_call(&call("c3", "bash"), &allow), CallStep::Run));
    let rules = vec![PermissionRule { resource: ResourceKind::Custom("bash".to_string()), pattern: "*".to_string(), allow: true }];
    let ruled = RuleBasedPolicy::with_rules(PermissionMode::Deny, rules);
    assert!(matches!(orch.prepare_call(&call("c4", "bash"), &ruled), CallStep::Run));
}

#[test]
fn finish_call_wraps_failures() {
    let c = call("c9", "bash");
    let r = ToolOrchestrator::finish_call(&c, Err("boom".to_string()));
    assert_eq!(r.tool_use_id, "c9");
    assert_eq!(r.output.content, "tool execution failed: boom");
    assert!(r.output.is_error);
    let r = ToolOrchestrator::finish_call(&c, Ok(ToolOutput::success("fine".to_string())));
    assert_eq!(r.output.content, "fine");
}

#[test]
fn batch_runs_concurrent_tools_first() {
    let mut reg = ToolRegistry::new();
    reg.register(descriptor("read", true));
    reg.register(descriptor("write", false));
    let orch = ToolOrchestrator::new(Arc::new(reg));
    let calls = vec![call("1", "write"), call("2", "read"), call("3", "unknown"), call("4", "read"), call("5", "write")];
    let plan = orch.plan_batch(&calls);
    assert_eq!(plan.concurrent, vec![1, 3]);
    assert_eq!(plan.sequential, vec![0, 2, 4]);
}
