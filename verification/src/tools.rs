//! Tool outputs, tool calls, the registry of tools and the orchestration
//! decisions taken around each call.
use vstd::prelude::*;
use std::sync::Arc;
use crate::permissions::{
    DecisionView, PermissionDecision, PermissionPolicy, PermissionRequest, PermissionRequestView,
    ResourceKind, ResourceKindView,
};
use crate::provider::ToolDefinition;
use crate::keyed::{keyed_map, keys_unique, lemma_keyed_dom, lemma_keyed_push, lemma_keyed_update, lemma_keyed_value};
use crate::text::{push_str, str_eq};

verus! {

broadcast use vstd::string::group_string_axioms;

/// The output returned by a tool after execution. Metadata, when present, is
/// JSON text.
#[derive(Clone, Debug)]
pub struct ToolOutput {
    pub content: String,
    pub is_error: bool,
    pub metadata: Option<String>,
}

/// The abstract value of a [`ToolOutput`].
pub struct ToolOutputView {
    pub content: Seq<char>,
    pub is_error: bool,
    pub metadata: Option<Seq<char>>,
}

impl View for ToolOutput {
    type V = ToolOutputView;

    open spec fn view(&self) -> ToolOutputView {
        ToolOutputView {
            content: self.content@,
            is_error: self.is_error,
            metadata: match self.metadata {
                Some(m) => Some(m@),
                None => None,
            },
        }
    }
}

/// A successful output with the given content.
pub open spec fn success_view(content: Seq<char>) -> ToolOutputView {
    ToolOutputView { content, is_error: false, metadata: None }
}

/// An error output with the given content.
pub open spec fn error_view(content: Seq<char>) -> ToolOutputView {
    ToolOutputView { content, is_error: true, metadata: None }
}

impl ToolOutput {
    pub fn success(content: String) -> (o: Self)
        ensures
            o@ == success_view(content@),
    {
        ToolOutput { content, is_error: false, metadata: None }
    }

    pub fn error(content: String) -> (o: Self)
        ensures
            o@ == error_view(content@),
    {
        ToolOutput { content, is_error: true, metadata: None }
    }
}

/// Incremental progress events a tool can emit during execution.
#[derive(Clone, Debug)]
pub enum ToolProgressEvent {
    /// Generic text status update (e.g. "compiling…", "fetching page 2/5").
    Status { message: String },
    /// Byte-level progress for long I/O operations.
    ByteProgress { done: u64, total: Option<u64> },
    /// A sub-command was spawned (tool_name, command string).
    SubCommand { tool: String, command: String },
}

/// A pending tool call extracted from the model response; the input is JSON text.
#[derive(Clone, Debug)]
pub struct ToolCall {
    pub id: String,
    pub name: String,
    pub input: String,
}

/// The abstract value of a [`ToolCall`].
pub struct ToolCallView {
    pub id: Seq<char>,
    pub name: Seq<char>,
    pub input: Seq<char>,
}

impl View for ToolCall {
    type V = ToolCallView;

    open spec fn view(&self) -> ToolCallView {
        ToolCallView { id: self.id@, name: self.name@, input: self.input@ }
    }
}

/// The result of executing a single tool call.
#[derive(Clone, Debug)]
pub struct ToolCallResult {
    pub tool_use_id: String,
    pub output: ToolOutput,
}

/// What the runtime knows of a tool: its name, description, input schema
/// (JSON text), whether it only reads state, and whether it may run alongside
/// other tools.
#[derive(Clone, Debug)]
pub struct ToolDescriptor {
    pub name: String,
    pub description: String,
    pub input_schema: String,
    pub read_only: bool,
    pub concurrent: bool,
}

impl ToolDescriptor {
    /// A descriptor whose tool runs concurrently exactly when it is read-only.
    pub fn new(name: String, description: String, input_schema: String, read_only: bool) -> (d: Self)
        ensures
            d.name == name,
            d.description == description,
            d.input_schema == input_schema,
            d.read_only == read_only,
            d.concurrent == read_only,
    {
        ToolDescriptor { name, description, input_schema, read_only, concurrent: read_only }
    }
}

/// A descriptor's key in the registry: its name.
pub open spec fn tool_key() -> spec_fn(ToolDescriptor) -> Seq<char> {
    |d: ToolDescriptor| d.name@
}

/// Central registry of available tools: at most one descriptor per name.
pub struct ToolRegistry {
    tools: Vec<ToolDescriptor>,
}

impl View for ToolRegistry {
    type V = Map<Seq<char>, ToolDescriptor>;

    closed spec fn view(&self) -> Map<Seq<char>, ToolDescriptor> {
        keyed_map(self.tools@, tool_key())
    }
}

/// Whether the registry lets the named tool run concurrently: it is registered
/// and declares so.
pub open spec fn supports_concurrency(reg: Map<Seq<char>, ToolDescriptor>, name: Seq<char>) -> bool {
    reg.dom().contains(name) && reg[name].concurrent
}

impl ToolRegistry {
    #[verifier::type_invariant]
    closed spec fn well_formed(&self) -> bool {
        keys_unique(self.tools@, tool_key())
    }

    /// The descriptors in the order that [`ToolRegistry::all`] returns them.
    pub closed spec fn entries(&self) -> Seq<ToolDescriptor> {
        self.tools@
    }

    pub fn new() -> (r: Self)
        ensures
            r@ == Map::<Seq<char>, ToolDescriptor>::empty(),
    {
        ToolRegistry { tools: Vec::new() }
    }

    fn find(&self, name: &str) -> (r: Option<usize>)
        ensures
            match r {
                Some(i) => i < self.tools@.len() && self.tools@[i as int].name@ == name@,
                None => forall|i: int| 0 <= i < self.tools@.len() ==> (#[trigger] self.tools@[i]).name@ != name@,
            },
    {
        let mut i: usize = 0;
        while i < self.tools.len()
            invariant
                i <= self.tools@.len(),
                forall|j: int| 0 <= j < i ==> (#[trigger] self.tools@[j]).name@ != name@,
            decreases self.tools@.len() - i,
        {
            if str_eq(self.tools[i].name.as_str(), name) {
                return Some(i);
            }
            i = i + 1;
        }
        None
    }

    /// Registers a tool, replacing any tool of the same name.
    pub fn register(&mut self, tool: ToolDescriptor)
        ensures
            final(self)@ == old(self)@.insert(tool.name@, tool),
    {
        proof {
            use_type_invariant(&*self);
        }
        let ghost old_tools = self.tools@;
        match self.find(tool.name.as_str()) {
            Some(i) => {
                proof {
                    lemma_keyed_update(old_tools, tool_key(), i as int, tool);
                }
                let mut tools = Vec::new();
                std::mem::swap(&mut tools, &mut self.tools);
                tools.set(i, tool);
                self.tools = tools;
            },
            None => {
                proof {
                    lemma_keyed_push(old_tools, tool_key(), tool);
                }
                let mut tools = Vec::new();
                std::mem::swap(&mut tools, &mut self.tools);
                tools.push(tool);
                self.tools = tools;
            },
        }
    }

    /// The tool registered under `name`, if any.
    pub fn get(&self, name: &str) -> (r: Option<&ToolDescriptor>)
        ensures
            match r {
                Some(d) => self@.dom().contains(name@) && *d == self@[name@],
                None => !self@.dom().contains(name@),
            },
    {
        proof {
            use_type_invariant(self);
            lemma_keyed_dom(self.tools@, tool_key(), name@);
        }
        match self.find(name) {
            Some(i) => {
                proof {
                    lemma_keyed_value(self.tools@, tool_key(), i as int);
                }
                Some(&self.tools[i])
            },
            None => None,
        }
    }

    /// All registered tools, one per name: each entry is the registry's tool of
    /// that name, and every registered name has an entry.
    pub fn all(&self) -> (r: &[ToolDescriptor])
        ensures
            r@ == self.entries(),
            keys_unique(r@, tool_key()),
            forall|i: int| 0 <= i < r@.len() ==>
                #[trigger] self@.dom().contains(r@[i].name@) && self@[r@[i].name@] == r@[i],
            forall|k: Seq<char>| #[trigger] self@.dom().contains(k) ==>
                exists|i: int| 0 <= i < r@.len() && (#[trigger] r@[i]).name@ == k,
    {
        proof {
            use_type_invariant(self);
            assert forall|i: int| 0 <= i < self.tools@.len() implies
                #[trigger] self@.dom().contains(self.tools@[i].name@)
                && self@[self.tools@[i].name@] == self.tools@[i] by {
                lemma_keyed_value(self.tools@, tool_key(), i);
            }
            assert forall|k: Seq<char>| #[trigger] self@.dom().contains(k) implies
                exists|i: int| 0 <= i < self.tools@.len() && (#[trigger] self.tools@[i]).name@ == k by {
                lemma_keyed_dom(self.tools@, tool_key(), k);
            }
        }
        self.tools.as_slice()
    }

    /// Tool definitions for the model request: one per registered tool, in the
    /// order of [`ToolRegistry::all`], with its name, description and schema.
    pub fn tool_definitions(&self) -> (r: Vec<ToolDefinition>)
        ensures
            r@.len() == self.entries().len(),
            forall|i: int| 0 <= i < r@.len() ==> {
                &&& (#[trigger] r@[i]).name@ == self.entries()[i].name@
                &&& r@[i].description@ == self.entries()[i].description@
                &&& r@[i].input_schema@ == self.entries()[i].input_schema@
            },
    {
        let mut r: Vec<ToolDefinition> = Vec::new();
        let mut i: usize = 0;
        while i < self.tools.len()
            invariant
                i <= self.tools@.len(),
                r@.len() == i,
                forall|j: int| 0 <= j < i ==> {
                    &&& (#[trigger] r@[j]).name@ == self.tools@[j].name@
                    &&& r@[j].description@ == self.tools@[j].description@
                    &&& r@[j].input_schema@ == self.tools@[j].input_schema@
                },
            decreases self.tools@.len() - i,
        {
            let t = &self.tools[i];
            r.push(ToolDefinition {
                name: t.name.clone(),
                description: t.description.clone(),
                input_schema: t.input_schema.clone(),
            });
            i = i + 1;
        }
        r
    }
}

/// The permission request made before running a mutating tool.
pub open spec fn tool_permission_request(name: Seq<char>) -> PermissionRequestView {
    PermissionRequestView {
        tool_name: name,
        resource: ResourceKindView::Custom(name),
        description: "execute tool "@ + name,
        target: None,
    }
}

/// What happens to a call before its tool runs.
pub enum CallStep {
    /// The tool is to be executed.
    Run,
    /// The call is settled without running the tool.
    Done(ToolCallResult),
}

/// The outcome of preparing a call: `None` when the tool is to run, else the
/// result that settles the call.
pub open spec fn prepare_outcome<P: PermissionPolicy + ?Sized>(
    reg: Map<Seq<char>, ToolDescriptor>,
    policy: &P,
    name: Seq<char>,
) -> Option<ToolOutputView> {
    if !reg.dom().contains(name) {
        Some(error_view("unknown tool: "@ + name))
    } else if reg[name].read_only {
        None
    } else {
        match policy.decision(tool_permission_request(name)) {
            DecisionView::Allow => None,
            DecisionView::Deny(reason) => Some(error_view("permission denied: "@ + reason)),
            DecisionView::Ask(message) => Some(
                error_view(
                    "permission required — run with --permission interactive to approve: "@
                        + message,
                ),
            ),
        }
    }
}

/// The order in which a batch runs: the calls that may run concurrently, then
/// the others one by one, each group in the order of the calls.
pub struct BatchPlan {
    pub concurrent: Vec<usize>,
    pub sequential: Vec<usize>,
}

/// `s` lists, in increasing order, exactly the indices below `n` that satisfy `p`.
pub open spec fn lists_exactly(s: Seq<usize>, n: int, p: spec_fn(int) -> bool) -> bool {
    &&& forall|k: int| 0 <= k < s.len() ==> (#[trigger] s[k]) < n && p(s[k] as int)
    &&& forall|k: int, l: int| 0 <= k < l < s.len() ==> s[k] < s[l]
    &&& forall|i: int| 0 <= i < n && #[trigger] p(i) ==> s.contains(i as usize)
}

/// Orchestrates the execution of tool calls: registry lookups, permission
/// checks before running mutating tools, and the serial/concurrent split.
pub struct ToolOrchestrator {
    registry: Arc<ToolRegistry>,
}

impl ToolOrchestrator {
    pub fn new(registry: Arc<ToolRegistry>) -> (o: Self)
        ensures
            o.registry()@ == registry@,
    {
        ToolOrchestrator { registry }
    }

    /// The registry the orchestrator consults.
    pub closed spec fn registry(&self) -> ToolRegistry {
        *self.registry
    }

    /// Splits a batch: calls whose tool supports concurrency run first (in
    /// parallel), the rest after, one by one; unknown tools run sequentially.
    pub fn plan_batch(&self, calls: &[ToolCall]) -> (plan: BatchPlan)
        ensures
            lists_exactly(
                plan.concurrent@,
                calls@.len() as int,
                |i: int| supports_concurrency(self.registry()@, calls@[i].name@),
            ),
            lists_exactly(
                plan.sequential@,
                calls@.len() as int,
                |i: int| !supports_concurrency(self.registry()@, calls@[i].name@),
            ),
    {
        let mut concurrent: Vec<usize> = Vec::new();
        let mut sequential: Vec<usize> = Vec::new();
        let ghost reg = self.registry()@;
        let ghost p = |i: int| supports_concurrency(reg, calls@[i].name@);
        let ghost q = |i: int| !supports_concurrency(reg, calls@[i].name@);
        let mut i: usize = 0;
        while i < calls.len()
            invariant
                i <= calls@.len(),
                reg == self.registry()@,
                p == (|i: int| supports_concurrency(reg, calls@[i].name@)),
                q == (|i: int| !supports_concurrency(reg, calls@[i].name@)),
                forall|k: int| 0 <= k < concurrent@.len() ==> (#[trigger] concurrent@[k]) < i && p(concurrent@[k] as int),
                forall|k: int, l: int| 0 <= k < l < concurrent@.len() ==> concurrent@[k] < concurrent@[l],
                forall|j: int| 0 <= j < i && #[trigger] p(j) ==> concurrent@.contains(j as usize),
                forall|k: int| 0 <= k < sequential@.len() ==> (#[trigger] sequential@[k]) < i && q(sequential@[k] as int),
                forall|k: int, l: int| 0 <= k < l < sequential@.len() ==> sequential@[k] < sequential@[l],
                forall|j: int| 0 <= j < i && #[trigger] q(j) ==> sequential@.contains(j as usize),
            decreases calls@.len() - i,
        {
            let conc = match self.registry.get(calls[i].name.as_str()) {
                Some(d) => d.concurrent,
                None => false,
            };
            let ghost old_c = concurrent@;
            let ghost old_s = sequential@;
            if conc {
                concurrent.push(i);
                proof {
                    assert forall|j: int| 0 <= j < i + 1 && #[trigger] p(j) implies concurrent@.contains(j as usize) by {
                        if j < i {
                            assert(old_c.contains(j as usize));
                            let k = choose|k: int| 0 <= k < old_c.len() && old_c[k] == j as usize;
                            assert(concurrent@[k] == j as usize);
                        } else {
                            assert(concurrent@[concurrent@.len() - 1] == j as usize);
                        }
                    }
                }
            } else {
                sequential.push(i);
                proof {
                    assert forall|j: int| 0 <= j < i + 1 && #[trigger] q(j) implies sequential@.contains(j as usize) by {
                        if j < i {
                            assert(old_s.contains(j as usize));
                            let k = choose|k: int| 0 <= k < old_s.len() && old_s[k] == j as usize;
                            assert(sequential@[k] == j as usize);
                        } else {
                            assert(sequential@[sequential@.len() - 1] == j as usize);
                        }
                    }
                }
            }
            i = i + 1;
        }
        BatchPlan { concurrent, sequential }
    }

    /// Decides what happens to a call before its tool runs: an unknown tool is
    /// reported, a read-only tool runs, and a mutating tool runs only when the
    /// policy allows it; a denial or a request for confirmation becomes an
    /// error result for the model to see.
    pub fn prepare_call<P: PermissionPolicy + ?Sized>(&self, call: &ToolCall, policy: &P) -> (step: CallStep)
        ensures
            match prepare_outcome(self.registry()@, policy, call.name@) {
                None => step is Run,
                Some(out) => step matches CallStep::Done(r) && r.tool_use_id@ == call.id@ && r.output@ == out,
            },
    {
        match self.registry.get(call.name.as_str()) {
            None => {
                let mut msg = String::from_str("unknown tool: ");
                push_str(&mut msg, call.name.as_str());
                CallStep::Done(ToolCallResult { tool_use_id: call.id.clone(), output: ToolOutput::error(msg) })
            },
            Some(tool) => {
                if tool.read_only {
                    return CallStep::Run;
                }
                let mut description = String::from_str("execute tool ");
                push_str(&mut description, call.name.as_str());
                let request = PermissionRequest {
                    tool_name: call.name.clone(),
                    resource: ResourceKind::Custom(call.name.clone()),
                    description,
                    target: None,
                };
                proof {
                    assert(request@ == tool_permission_request(call.name@));
                }
                match policy.check(&request) {
                    PermissionDecision::Allow => CallStep::Run,
                    PermissionDecision::Deny { reason } => {
                        let mut msg = String::from_str("permission denied: ");
                        push_str(&mut msg, reason.as_str());
                        CallStep::Done(
                            ToolCallResult { tool_use_id: call.id.clone(), output: ToolOutput::error(msg) },
                        )
                    },
                    PermissionDecision::Ask { message } => {
                        let mut msg = String::from_str(
                            "permission required — run with --permission interactive to approve: ",
                        );
                        push_str(&mut msg, message.as_str());
                        CallStep::Done(
                            ToolCallResult { tool_use_id: call.id.clone(), output: ToolOutput::error(msg) },
                        )
                    },
                }
            },
        }
    }

    /// The result of a call whose tool ran: its output, or an error result
    /// carrying the failure's message.
    pub fn finish_call(call: &ToolCall, outcome: Result<ToolOutput, String>) -> (r: ToolCallResult)
        ensures
            r.tool_use_id@ == call.id@,
            match outcome {
                Ok(out) => r.output == out,
                Err(e) => r.output@ == error_view("tool execution failed: "@ + e@),
            },
    {
        match outcome {
            Ok(output) => ToolCallResult { tool_use_id: call.id.clone(), output },
            Err(e) => {
                let mut msg = String::from_str("tool execution failed: ");
                push_str(&mut msg, e.as_str());
                ToolCallResult { tool_use_id: call.id.clone(), output: ToolOutput::error(msg) }
            },
        }
    }
}

/// A registered read-only tool always runs: the policy is not asked.
pub proof fn law_read_only_tools_run<P: PermissionPolicy + ?Sized>(
    reg: Map<Seq<char>, ToolDescriptor>,
    policy: &P,
    name: Seq<char>,
)
    requires
        reg.dom().contains(name),
        reg[name].read_only,
    ensures
        prepare_outcome(reg, policy, name) is None,
{
}

/// An unregistered tool is reported as unknown, whatever the policy.
pub proof fn law_unknown_tools_reported<P: PermissionPolicy + ?Sized>(
    reg: Map<Seq<char>, ToolDescriptor>,
    policy: &P,
    name: Seq<char>,
)
    requires
        !reg.dom().contains(name),
    ensures
        prepare_outcome(reg, policy, name) == Some(error_view("unknown tool: "@ + name)),
{
}

/// Under the deny mode without rules, every registered mutating tool is
/// refused, and the refusal reaches the model as an error naming the mode.
pub proof fn law_deny_mode_refuses_mutating_tools(
    reg: Map<Seq<char>, ToolDescriptor>,
    policy: &crate::permissions::RuleBasedPolicy,
    name: Seq<char>,
)
    requires
        reg.dom().contains(name),
        !reg[name].read_only,
        policy.mode == crate::permissions::PermissionMode::Deny,
        policy.rules@.len() == 0,
    ensures
        prepare_outcome(reg, policy, name) == Some(
            error_view("permission denied: "@ + "permission mode is Deny"@),
        ),
{
}

/// Under auto-approval without rules, every registered tool runs.
pub proof fn law_auto_approve_runs_tools(
    reg: Map<Seq<char>, ToolDescriptor>,
    policy: &crate::permissions::RuleBasedPolicy,
    name: Seq<char>,
)
    requires
        reg.dom().contains(name),
        policy.mode == crate::permissions::PermissionMode::AutoApprove,
        policy.rules@.len() == 0,
    ensures
        prepare_outcome(reg, policy, name) is None,
{
}

/// A batch plan runs every call exactly once: each call index is in exactly
/// one of the two lists, and neither list repeats an index.
pub proof fn law_plan_covers_each_call_once(
    concurrent: Seq<usize>,
    sequential: Seq<usize>,
    n: int,
    p: spec_fn(int) -> bool,
    q: spec_fn(int) -> bool,
)
    requires
        lists_exactly(concurrent, n, p),
        lists_exactly(sequential, n, q),
        forall|i: int| #[trigger] q(i) == !p(i),
    ensures
        forall|i: int|
            #![trigger concurrent.contains(i as usize)]
            #![trigger sequential.contains(i as usize)]
            0 <= i < n ==> (concurrent.contains(i as usize) != sequential.contains(i as usize)),
        forall|a: int, b: int| 0 <= a < b < concurrent.len() ==> concurrent[a] != concurrent[b],
        forall|a: int, b: int| 0 <= a < b < sequential.len() ==> sequential[a] != sequential[b],
{
    assert forall|i: int| 0 <= i < n implies (#[trigger] concurrent.contains(i as usize)
        != sequential.contains(i as usize)) by {
        if p(i) {
            assert(concurrent.contains(i as usize));
            if sequential.contains(i as usize) {
                let k = choose|k: int| 0 <= k < sequential.len() && sequential[k] == i as usize;
                assert(q(sequential[k] as int));
            }
        } else {
            assert(q(i));
            assert(sequential.contains(i as usize));
            if concurrent.contains(i as usize) {
                let k = choose|k: int| 0 <= k < concurrent.len() && concurrent[k] == i as usize;
                assert(p(concurrent[k] as int));
            }
        }
    }
}

/// A mutating tool that the policy refuses never runs: whatever the policy
/// and whatever its reason, a registered mutating tool whose permission
/// request is denied is settled with an error result saying
/// "permission denied: " and the reason.
pub proof fn law_denied_tools_do_not_run<P: PermissionPolicy + ?Sized>(
    reg: Map<Seq<char>, ToolDescriptor>,
    policy: &P,
    name: Seq<char>,
    reason: Seq<char>,
)
    requires
        reg.dom().contains(name),
        !reg[name].read_only,
        policy.decision(tool_permission_request(name)) == DecisionView::Deny(reason),
    ensures
        prepare_outcome(reg, policy, name) matches Some(out) && out.is_error && out.content
            == "permission denied: "@ + reason && out.metadata is None,
{
}

/// A mutating tool runs only when the policy allows it: a registered mutating
/// tool is run exactly when the policy's decision on its permission request is
/// to allow.
pub proof fn law_mutating_tools_run_only_when_allowed<P: PermissionPolicy + ?Sized>(
    reg: Map<Seq<char>, ToolDescriptor>,
    policy: &P,
    name: Seq<char>,
)
    requires
        reg.dom().contains(name),
        !reg[name].read_only,
    ensures
        (prepare_outcome(reg, policy, name) is None) <==> (policy.decision(tool_permission_request(name))
            is Allow),
{
}

} // verus!
