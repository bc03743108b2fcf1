//! The agent loop as a state machine: the library decides, the caller streams
//! model responses, runs tools, sleeps, and feeds the outcomes back.
use vstd::prelude::*;
use std::sync::Arc;
use crate::json::{tool_input_from_json, tool_input_text};
use crate::message::{
    blocks_view, is_tool_result_message, messages_view, request_message, ContentBlock, ContentBlockView, Message,
    MessageView, Role,
};
use crate::permissions::RuleBasedPolicy;
use crate::provider::{
    ModelRequest, ModelRequestView, ResponseContent, StopReason, StreamEvent, ToolDefinitionView,
};
use crate::session::SessionState;
use crate::text::{chars_of, contains, occurs_in, push_str};
use crate::tools::{ToolCall, ToolCallResult, ToolCallView, ToolDescriptor, ToolRegistry};

verus! {

broadcast use vstd::string::group_string_axioms;

/// How a provider failure is handled.
#[derive(Clone, Copy, Debug, PartialEq, Eq, Structural)]
pub enum ErrorClass {
    /// The conversation does not fit the model's context: compact and retry.
    ContextTooLong,
    /// Too many requests (HTTP 429): back off and retry.
    RateLimited,
    /// A server-side failure (HTTP 5xx): back off and retry.
    ServerError,
    /// Anything else, such as an authentication failure: give up at once.
    Fatal,
}

pub open spec fn is_digit(c: char) -> bool {
    '0' <= c && c <= '9'
}

pub open spec fn digit_value(c: char) -> int {
    c as int - '0' as int
}

/// The three characters at `i` form a standalone number (no digit right before
/// or after it) equal to `code`.
pub open spec fn status_code_at(m: Seq<char>, i: int, code: int) -> bool {
    &&& 0 <= i && i + 3 <= m.len()
    &&& is_digit(m[i]) && is_digit(m[i + 1]) && is_digit(m[i + 2])
    &&& (i == 0 || !is_digit(m[i - 1]))
    &&& (i + 3 == m.len() || !is_digit(m[i + 3]))
    &&& 100 * digit_value(m[i]) + 10 * digit_value(m[i + 1]) + digit_value(m[i + 2]) == code
}

/// `m` mentions a three-digit status code between `lo` and `hi`.
pub open spec fn mentions_status(m: Seq<char>, lo: int, hi: int) -> bool {
    exists|i: int, code: int| lo <= code <= hi && #[trigger] status_code_at(m, i, code)
}

/// The class of a provider failure, by its message: context-length failures
/// first, then rate limits (429), then server errors (5xx); everything else is
/// fatal.
pub open spec fn error_class(m: Seq<char>) -> ErrorClass {
    if occurs_in(m, "context_too_long"@) || occurs_in(m, "context too long"@) || occurs_in(
        m,
        "prompt is too long"@,
    ) {
        ErrorClass::ContextTooLong
    } else if mentions_status(m, 429, 429) || occurs_in(m, "rate_limit"@) {
        ErrorClass::RateLimited
    } else if mentions_status(m, 500, 599) {
        ErrorClass::ServerError
    } else {
        ErrorClass::Fatal
    }
}

fn is_digit_char(c: char) -> (b: bool)
    ensures
        b == is_digit(c),
{
    '0' <= c && c <= '9'
}

fn digit_of(c: char) -> (d: u32)
    requires
        is_digit(c),
    ensures
        d as int == digit_value(c),
        d < 10,
{
    (c as u32) - ('0' as u32)
}

/// Whether `m` mentions a status code in `lo..=hi`.
fn has_status(m: &[char], lo: u32, hi: u32) -> (b: bool)
    ensures
        b == mentions_status(m@, lo as int, hi as int),
{
    let n = m.len();
    if n < 3 {
        return false;
    }
    let mut i: usize = 0;
    while i <= n - 3
        invariant
            n == m@.len(),
            n >= 3,
            i <= n - 2,
            forall|j: int, code: int| 0 <= j < i && lo <= code <= hi ==> !#[trigger] status_code_at(m@, j, code),
        decreases n - i,
    {
        if is_digit_char(m[i]) && is_digit_char(m[i + 1]) && is_digit_char(m[i + 2])
            && (i == 0 || !is_digit_char(m[i - 1])) && (i + 3 == n || !is_digit_char(m[i + 3])) {
            let code = 100 * digit_of(m[i]) + 10 * digit_of(m[i + 1]) + digit_of(m[i + 2]);
            if lo <= code && code <= hi {
                proof {
                    assert(status_code_at(m@, i as int, code as int));
                }
                return true;
            }
            proof {
                assert forall|c: int| lo <= c <= hi implies !#[trigger] status_code_at(m@, i as int, c) by {}
            }
        } else {
            proof {
                assert forall|c: int| lo <= c <= hi implies !#[trigger] status_code_at(m@, i as int, c) by {}
            }
        }
        i = i + 1;
    }
    proof {
        assert forall|j: int, code: int| lo <= code <= hi implies !#[trigger] status_code_at(m@, j, code) by {
            if 0 <= j < i {
            }
        }
    }
    false
}

/// Classifies a provider failure by its message (see [`error_class`]).
pub fn classify_error(message: &str) -> (c: ErrorClass)
    ensures
        c == error_class(message@),
{
    let m = chars_of(message);
    let a = chars_of("context_too_long");
    let b = chars_of("context too long");
    let p = chars_of("prompt is too long");
    if contains(m.as_slice(), a.as_slice()) || contains(m.as_slice(), b.as_slice()) || contains(
        m.as_slice(),
        p.as_slice(),
    ) {
        return ErrorClass::ContextTooLong;
    }
    let r = chars_of("rate_limit");
    if has_status(m.as_slice(), 429, 429) || contains(m.as_slice(), r.as_slice()) {
        return ErrorClass::RateLimited;
    }
    if has_status(m.as_slice(), 500, 599) {
        return ErrorClass::ServerError;
    }
    ErrorClass::Fatal
}

/// How many times one turn's request is retried after transient failures.
pub const MAX_RETRIES: u32 = 3;

/// The wait before retry `attempt` (counting from 1): 500 ms, doubled for each
/// further attempt.
pub open spec fn backoff_ms(attempt: nat) -> nat
    decreases attempt,
{
    if attempt <= 1 {
        500
    } else {
        2 * backoff_ms((attempt - 1) as nat)
    }
}

/// The wait in milliseconds before retry `attempt` (see [`backoff_ms`]).
pub fn retry_delay_ms(attempt: u32) -> (d: u64)
    requires
        1 <= attempt <= MAX_RETRIES,
    ensures
        d as nat == backoff_ms(attempt as nat),
{
    let mut d: u64 = 500;
    let mut k: u32 = 1;
    while k < attempt
        invariant
            1 <= k <= attempt <= MAX_RETRIES,
            d as nat == backoff_ms(k as nat),
            k == 1 ==> d == 500,
            k == 2 ==> d == 1000,
            k == 3 ==> d == 2000,
        decreases attempt - k,
    {
        d = d * 2;
        k = k + 1;
        proof {
            assert(backoff_ms(k as nat) == 2 * backoff_ms((k - 1) as nat));
        }
    }
    d
}

/// Why a query ended without completing.
#[derive(Clone, Debug)]
pub enum AgentError {
    /// The model provider failed; the message says how.
    Provider(String),
    /// The turn limit (the number given) was reached.
    MaxTurnsExceeded(usize),
    /// The conversation did not fit the context even after compaction.
    ContextTooLong,
    /// The user aborted the session.
    Aborted,
}

/// Events emitted during a query for the caller (CLI/UI) to observe.
#[derive(Clone, Debug)]
pub enum QueryEvent {
    /// Incremental text from the assistant.
    TextDelta(String),
    /// The assistant started a tool call.
    ToolUseStart { id: String, name: String },
    /// A tool call completed.
    ToolResult { tool_use_id: String, content: String, is_error: bool },
    /// A turn is complete (model stopped generating).
    TurnComplete { stop_reason: StopReason },
    /// Token usage update.
    Usage { input_tokens: usize, output_tokens: usize },
}

/// What the caller does next.
pub enum QueryAction {
    /// Stream this request from the model now.
    Send(ModelRequest),
    /// Wait this many milliseconds, then stream the request.
    SendAfter { delay_ms: u64, request: ModelRequest },
    /// Run these tool calls (as [`crate::tools::ToolOrchestrator`] plans them)
    /// under this policy, and hand back the results.
    RunTools { calls: Vec<ToolCall>, policy: RuleBasedPolicy },
    /// The query is over.
    Finish(Result<(), AgentError>),
}

/// The stage a query is in.
#[derive(Clone, Copy, Debug, PartialEq, Eq, Structural)]
pub enum QueryPhase {
    /// A request was handed out; its stream is being read.
    Streaming,
    /// Tool calls were handed out; their results are awaited.
    RunningTools,
    /// The query is over.
    Finished,
}

/// A tool call being assembled from the stream: id, name, and input JSON so far.
pub struct PendingToolUse {
    id: String,
    name: String,
    json: String,
}

/// The text the loop sends when the model stopped at its output limit without
/// calling a tool.
pub open spec fn continue_prompt() -> Seq<char> {
    "Please continue from where you left off."@
}

/// The request of a turn: the session's model, its system prompt when there is
/// one, its messages, its output-token limit and the registered tools.
pub open spec fn turn_request(s: &SessionState, tools: Seq<ToolDescriptor>) -> ModelRequestView {
    ModelRequestView {
        model: s.config.model@,
        system: if s.config.system_prompt@.len() == 0 {
            None
        } else {
            Some(s.config.system_prompt@)
        },
        messages: messages_view(s.messages@).map_values(|m: MessageView| request_message(m)),
        max_tokens: s.config.token_budget.max_output_tokens,
        tools: Some(
            tools.map_values(
                |d: ToolDescriptor|
                    ToolDefinitionView {
                        name: d.name@,
                        description: d.description@,
                        input_schema: d.input_schema@,
                    },
            ),
        ),
    }
}

/// The two sessions agree on everything but their messages and turn count.
pub open spec fn same_but_messages_and_turns(a: &SessionState, b: &SessionState) -> bool {
    &&& a.id == b.id
    &&& a.config == b.config
    &&& a.cwd == b.cwd
    &&& a.total_input_tokens == b.total_input_tokens
    &&& a.total_output_tokens == b.total_output_tokens
}

/// The blocks of the assistant message that ends a turn: the streamed text, if
/// any, then one tool-use block per tool call, its input normalised.
pub open spec fn assistant_blocks(text: Seq<char>, pending: Seq<(Seq<char>, Seq<char>, Seq<char>)>) -> Seq<
    ContentBlockView,
> {
    (if text.len() == 0 {
        Seq::<ContentBlockView>::empty()
    } else {
        seq![ContentBlockView::Text { text }]
    }) + pending.map_values(
        |p: (Seq<char>, Seq<char>, Seq<char>)|
            ContentBlockView::ToolUse { id: p.0, name: p.1, input: tool_input_text(p.2) },
    )
}

/// The tool calls of a turn, one per streamed tool use, inputs normalised.
pub open spec fn turn_calls(pending: Seq<(Seq<char>, Seq<char>, Seq<char>)>) -> Seq<ToolCallView> {
    pending.map_values(
        |p: (Seq<char>, Seq<char>, Seq<char>)| ToolCallView { id: p.0, name: p.1, input: tool_input_text(p.2) },
    )
}

/// The tool-result blocks that report a batch of results, in order.
pub open spec fn result_blocks(results: Seq<ToolCallResult>) -> Seq<ContentBlockView> {
    results.map_values(
        |r: ToolCallResult|
            ContentBlockView::ToolResult {
                tool_use_id: r.tool_use_id@,
                content: r.output.content@,
                is_error: r.output.is_error,
            },
    )
}

/// Where compaction cuts the history `msgs`, searching from position `k`
/// on: the first message that does not report tool results, so that the kept
/// history never opens with results whose tool uses were dropped; `None`
/// when every message from `k` on reports tool results.
pub open spec fn compaction_cut(msgs: Seq<MessageView>, k: int) -> Option<int>
    decreases msgs.len() - k,
{
    if k >= msgs.len() {
        None
    } else if !is_tool_result_message(msgs[k]) {
        Some(k)
    } else {
        compaction_cut(msgs, k + 1)
    }
}

/// A cut found from `k` on lies at or after `k`, inside the history, at a
/// message that does not report tool results, and every message skipped on
/// the way reports them.
pub proof fn lemma_compaction_cut(msgs: Seq<MessageView>, k: int)
    requires
        0 <= k,
    ensures
        compaction_cut(msgs, k) matches Some(c) ==> {
            &&& k <= c < msgs.len()
            &&& !is_tool_result_message(msgs[c])
            &&& forall|j: int| k <= j < c ==> is_tool_result_message(#[trigger] msgs[j])
        },
        compaction_cut(msgs, k) is None ==> forall|j: int| k <= j < msgs.len() ==> is_tool_result_message(
            #[trigger] msgs[j],
        ),
    decreases msgs.len() - k,
{
    if k < msgs.len() && is_tool_result_message(msgs[k]) {
        lemma_compaction_cut(msgs, k + 1);
    }
}

/// The state of one query between the caller's steps.
pub struct QueryRun {
    registry: Arc<ToolRegistry>,
    phase: QueryPhase,
    text: String,
    pending: Vec<PendingToolUse>,
    stop_reason: Option<StopReason>,
    retries: u32,
    compacted: bool,
}

impl QueryRun {
    pub closed spec fn phase(&self) -> QueryPhase {
        self.phase
    }

    /// The registry whose tools are offered to the model and run.
    pub closed spec fn registry(&self) -> ToolRegistry {
        *self.registry
    }

    /// The assistant text streamed so far in this turn.
    pub closed spec fn text(&self) -> Seq<char> {
        self.text@
    }

    /// The tool uses streamed so far in this turn: id, name, input JSON text.
    pub closed spec fn pending(&self) -> Seq<(Seq<char>, Seq<char>, Seq<char>)> {
        self.pending@.map_values(|p: PendingToolUse| (p.id@, p.name@, p.json@))
    }

    /// The stop reason the stream reported, if it did.
    pub closed spec fn stop_reason(&self) -> Option<StopReason> {
        self.stop_reason
    }

    /// Retries made for the current turn.
    pub closed spec fn retries(&self) -> u32 {
        self.retries
    }

    /// Whether the history was already compacted in this query.
    pub closed spec fn compacted(&self) -> bool {
        self.compacted
    }

    /// The turn has collected nothing yet.
    pub open spec fn turn_fresh(&self) -> bool {
        &&& self.text().len() == 0
        &&& self.pending().len() == 0
        &&& self.stop_reason() is None
    }

    /// `self` (after) follows `before` by starting a turn in session `old_s`,
    /// which became `new_s`, with action `a`: past the turn limit the query
    /// finishes with that error and the turn count stays; otherwise the turn
    /// count goes up by one and the turn's request is sent. (What happens to the
    /// messages is stated by each step.)
    pub open spec fn starts_turn(
        &self,
        before: &QueryRun,
        old_s: &SessionState,
        new_s: &SessionState,
        a: &QueryAction,
    ) -> bool {
        &&& self.registry() == before.registry()
        &&& self.compacted() == before.compacted()
        &&& same_but_messages_and_turns(old_s, new_s)
        &&& if old_s.turn_count >= old_s.config.max_turns {
            &&& new_s.turn_count == old_s.turn_count
            &&& self.phase() == QueryPhase::Finished
            &&& a matches QueryAction::Finish(Err(AgentError::MaxTurnsExceeded(n)))
            &&& n == old_s.config.max_turns
        } else {
            &&& new_s.turn_count == old_s.turn_count + 1
            &&& self.phase() == QueryPhase::Streaming
            &&& self.turn_fresh()
            &&& self.retries() == 0
            &&& a matches QueryAction::Send(req)
            &&& req@ == turn_request(new_s, self.registry().entries())
        }
    }

    fn build_request(&self, session: &SessionState) -> (r: ModelRequest)
        ensures
            r@ == turn_request(session, self.registry().entries()),
    {
        let system = if session.config.system_prompt.as_str().unicode_len() == 0 {
            None
        } else {
            Some(session.config.system_prompt.clone())
        };
        let messages = session.to_request_messages();
        let tools = self.registry.tool_definitions();
        let r = ModelRequest {
            model: session.config.model.clone(),
            system,
            messages,
            max_tokens: session.config.token_budget.max_output_tokens,
            tools: Some(tools),
        };
        proof {
            let want = turn_request(session, self.registry().entries());
            assert(r@.messages =~= want.messages);
            assert(r@.tools->0 =~= want.tools->0);
        }
        r
    }

    fn begin_turn(&mut self, session: &mut SessionState) -> (a: QueryAction)
        ensures
            final(self).starts_turn(old(self), old(session), final(session), &a),
            final(session).messages@ == old(session).messages@,
    {
        if session.turn_count >= session.config.max_turns {
            self.phase = QueryPhase::Finished;
            return QueryAction::Finish(Err(AgentError::MaxTurnsExceeded(session.config.max_turns)));
        }
        session.turn_count = session.turn_count + 1;
        self.phase = QueryPhase::Streaming;
        self.text = String::new();
        self.pending = Vec::new();
        self.stop_reason = None;
        self.retries = 0;
        proof {
            assert(self.pending() =~= Seq::<(Seq<char>, Seq<char>, Seq<char>)>::empty());
        }
        QueryAction::Send(self.build_request(session))
    }

    /// Starts a query over `session`, offering the tools of `registry`.
    pub fn start(session: &mut SessionState, registry: Arc<ToolRegistry>) -> (r: (QueryRun, QueryAction))
        ensures
            r.0.registry() == *registry,
            !r.0.compacted(),
            same_but_messages_and_turns(old(session), final(session)),
            final(session).messages@ == old(session).messages@,
            if old(session).turn_count >= old(session).config.max_turns {
                &&& final(session).turn_count == old(session).turn_count
                &&& r.0.phase() == QueryPhase::Finished
                &&& r.1 matches QueryAction::Finish(Err(AgentError::MaxTurnsExceeded(n)))
                &&& n == old(session).config.max_turns
            } else {
                &&& final(session).turn_count == old(session).turn_count + 1
                &&& r.0.phase() == QueryPhase::Streaming
                &&& r.0.turn_fresh()
                &&& r.1 matches QueryAction::Send(req)
                &&& req@ == turn_request(final(session), r.0.registry().entries())
            },
    {
        let mut run = QueryRun {
            registry,
            phase: QueryPhase::Streaming,
            text: String::new(),
            pending: Vec::new(),
            stop_reason: None,
            retries: 0,
            compacted: false,
        };
        let a = run.begin_turn(session);
        (run, a)
    }

    /// Takes in one event of the turn's stream: text is collected and echoed,
    /// a tool use is opened and announced, JSON input is appended to the
    /// latest tool use, and the final message records the stop reason and adds
    /// its token usage to the session's totals, which are reported.
    pub fn on_event(&mut self, session: &mut SessionState, event: StreamEvent) -> (e: Option<QueryEvent>)
        requires
            old(self).phase() == QueryPhase::Streaming,
            event matches StreamEvent::MessageDone { response } ==> {
                &&& old(session).total_input_tokens + response.usage.input_tokens <= usize::MAX
                &&& old(session).total_output_tokens + response.usage.output_tokens <= usize::MAX
            },
        ensures
            final(self).phase() == QueryPhase::Streaming,
            final(self).registry() == old(self).registry(),
            final(self).retries() == old(self).retries(),
            final(self).compacted() == old(self).compacted(),
            final(session).id == old(session).id,
            final(session).config == old(session).config,
            final(session).cwd == old(session).cwd,
            final(session).messages@ == old(session).messages@,
            final(session).turn_count == old(session).turn_count,
            match event {
                StreamEvent::TextDelta { text, .. } => {
                    &&& final(self).text() == old(self).text() + text@
                    &&& final(self).pending() == old(self).pending()
                    &&& final(self).stop_reason() == old(self).stop_reason()
                    &&& final(session).total_input_tokens == old(session).total_input_tokens
                    &&& final(session).total_output_tokens == old(session).total_output_tokens
                    &&& e matches Some(QueryEvent::TextDelta(t)) && t@ == text@
                },
                StreamEvent::ContentBlockStart { content: ResponseContent::ToolUse { id, name, .. }, .. } => {
                    &&& final(self).text() == old(self).text()
                    &&& final(self).pending() == old(self).pending().push((id@, name@, Seq::<char>::empty()))
                    &&& final(self).stop_reason() == old(self).stop_reason()
                    &&& final(session).total_input_tokens == old(session).total_input_tokens
                    &&& final(session).total_output_tokens == old(session).total_output_tokens
                    &&& e matches Some(QueryEvent::ToolUseStart { id: i, name: n }) && i@ == id@ && n@ == name@
                },
                StreamEvent::InputJsonDelta { partial_json, .. } => {
                    &&& final(self).text() == old(self).text()
                    &&& final(self).pending() == if old(self).pending().len() == 0 {
                        old(self).pending()
                    } else {
                        let last = old(self).pending().last();
                        old(self).pending().drop_last().push((last.0, last.1, last.2 + partial_json@))
                    }
                    &&& final(self).stop_reason() == old(self).stop_reason()
                    &&& final(session).total_input_tokens == old(session).total_input_tokens
                    &&& final(session).total_output_tokens == old(session).total_output_tokens
                    &&& e is None
                },
                StreamEvent::MessageDone { response } => {
                    &&& final(self).text() == old(self).text()
                    &&& final(self).pending() == old(self).pending()
                    &&& final(self).stop_reason() == response.stop_reason
                    &&& final(session).total_input_tokens == old(session).total_input_tokens
                        + response.usage.input_tokens
                    &&& final(session).total_output_tokens == old(session).total_output_tokens
                        + response.usage.output_tokens
                    &&& e matches Some(QueryEvent::Usage { input_tokens, output_tokens })
                    &&& input_tokens == response.usage.input_tokens
                    &&& output_tokens == response.usage.output_tokens
                },
                _ => {
                    &&& final(self).text() == old(self).text()
                    &&& final(self).pending() == old(self).pending()
                    &&& final(self).stop_reason() == old(self).stop_reason()
                    &&& final(session).total_input_tokens == old(session).total_input_tokens
                    &&& final(session).total_output_tokens == old(session).total_output_tokens
                    &&& e is None
                },
            },
    {
        match event {
            StreamEvent::TextDelta { text, .. } => {
                push_str(&mut self.text, text.as_str());
                Some(QueryEvent::TextDelta(text))
            },
            StreamEvent::ContentBlockStart { content: ResponseContent::ToolUse { id, name, .. }, .. } => {
                let ev = QueryEvent::ToolUseStart { id: id.clone(), name: name.clone() };
                self.pending.push(PendingToolUse { id, name, json: String::new() });
                proof {
                    assert(self.pending() =~= old(self).pending().push((id@, name@, Seq::<char>::empty())));
                }
                Some(ev)
            },
            StreamEvent::InputJsonDelta { partial_json, .. } => {
                let ghost before = self.pending();
                match self.pending.pop() {
                    Some(mut last) => {
                        proof {
                            assert(self.pending() =~= before.drop_last());
                        }
                        push_str(&mut last.json, partial_json.as_str());
                        self.pending.push(last);
                        proof {
                            let l = before.last();
                            assert(self.pending() =~= before.drop_last().push((l.0, l.1, l.2 + partial_json@)));
                        }
                    },
                    None => {},
                }
                None
            },
            StreamEvent::MessageDone { response } => {
                self.stop_reason = response.stop_reason;
                session.total_input_tokens = session.total_input_tokens + response.usage.input_tokens;
                session.total_output_tokens = session.total_output_tokens + response.usage.output_tokens;
                Some(
                    QueryEvent::Usage {
                        input_tokens: response.usage.input_tokens,
                        output_tokens: response.usage.output_tokens,
                    },
                )
            },
            _ => None,
        }
    }

    /// `self` (after) follows `before` by ending a turn in session `old_s`,
    /// which became `new_s`, with `events` and action `a` (see
    /// [`QueryRun::on_stream_end`]).
    pub open spec fn ends_turn(
        &self,
        before: &QueryRun,
        old_s: &SessionState,
        new_s: &SessionState,
        events: Seq<QueryEvent>,
        a: &QueryAction,
    ) -> bool {
        let assistant = MessageView {
            role: Role::Assistant,
            content: assistant_blocks(before.text(), before.pending()),
        };
        if before.pending().len() > 0 {
            &&& messages_view(new_s.messages@) == messages_view(old_s.messages@).push(assistant)
            &&& same_but_messages_and_turns(old_s, new_s)
            &&& new_s.turn_count == old_s.turn_count
            &&& self.phase() == QueryPhase::RunningTools
            &&& self.registry() == before.registry()
            &&& self.compacted() == before.compacted()
            &&& events.len() == 0
            &&& a matches QueryAction::RunTools { calls, policy }
            &&& calls@.map_values(|c: ToolCall| c@) == turn_calls(before.pending())
            &&& policy.mode == old_s.config.permission_mode
            &&& policy.rules@.len() == 0
        } else if before.stop_reason() == Some(StopReason::MaxTokens) {
            &&& messages_view(new_s.messages@) == messages_view(old_s.messages@).push(
                assistant,
            ).push(
                MessageView {
                    role: Role::User,
                    content: seq![ContentBlockView::Text { text: continue_prompt() }],
                },
            )
            &&& events.len() == 1
            &&& events[0] matches QueryEvent::TurnComplete { stop_reason: StopReason::MaxTokens }
            &&& self.starts_turn(before, old_s, new_s, a)
        } else {
            &&& messages_view(new_s.messages@) == messages_view(old_s.messages@).push(assistant)
            &&& same_but_messages_and_turns(old_s, new_s)
            &&& new_s.turn_count == old_s.turn_count
            &&& self.phase() == QueryPhase::Finished
            &&& self.registry() == before.registry()
            &&& self.compacted() == before.compacted()
            &&& a matches QueryAction::Finish(Ok(()))
            &&& match before.stop_reason() {
                Some(sr) => events.len() == 1 && (events[0] matches QueryEvent::TurnComplete {
                    stop_reason,
                } && stop_reason == sr),
                None => events.len() == 0,
            }
        }
    }

    /// Ends a turn whose stream is exhausted. The assistant message (text, then
    /// tool uses with normalised inputs) joins the history. With tool calls,
    /// they are handed out to run under the session's permission mode. Without
    /// them, a turn cut off at the output limit is continued: a user message
    /// asks the model to go on and the next turn starts; any other turn ends
    /// the query, reporting the stop reason when the stream gave one.
    pub fn on_stream_end(&mut self, session: &mut SessionState) -> (r: (Vec<QueryEvent>, QueryAction))
        requires
            old(self).phase() == QueryPhase::Streaming,
        ensures
            final(self).ends_turn(old(self), old(session), final(session), r.0@, &r.1),
    {
        let ghost old_pending = self.pending();
        let ghost old_text = self.text();
        let mut blocks: Vec<ContentBlock> = Vec::new();
        let mut calls: Vec<ToolCall> = Vec::new();
        let mut text = String::new();
        std::mem::swap(&mut text, &mut self.text);
        if text.as_str().unicode_len() != 0 {
            blocks.push(ContentBlock::Text { text });
        }
        let ghost lead = blocks_view(blocks@);
        proof {
            assert(lead =~= (if old_text.len() == 0 {
                Seq::<ContentBlockView>::empty()
            } else {
                seq![ContentBlockView::Text { text: old_text }]
            }));
        }
        let mut i: usize = 0;
        while i < self.pending.len()
            invariant
                i <= self.pending@.len(),
                old_pending == self.pending@.map_values(|p: PendingToolUse| (p.id@, p.name@, p.json@)),
                blocks_view(blocks@) == lead + old_pending.take(i as int).map_values(
                    |p: (Seq<char>, Seq<char>, Seq<char>)|
                        ContentBlockView::ToolUse { id: p.0, name: p.1, input: tool_input_text(p.2) },
                ),
                calls@.map_values(|c: ToolCall| c@) == turn_calls(old_pending.take(i as int)),
            decreases self.pending@.len() - i,
        {
            let p = &self.pending[i];
            let input = tool_input_from_json(p.json.as_str());
            let ghost old_blocks = blocks_view(blocks@);
            let ghost old_calls = calls@.map_values(|c: ToolCall| c@);
            let ghost entry = old_pending[i as int];
            proof {
                assert(entry == (p.id@, p.name@, p.json@));
            }
            blocks.push(ContentBlock::ToolUse { id: p.id.clone(), name: p.name.clone(), input: input.clone() });
            calls.push(ToolCall { id: p.id.clone(), name: p.name.clone(), input });
            proof {
                assert(blocks_view(blocks@) =~= old_blocks.push(
                    ContentBlockView::ToolUse { id: entry.0, name: entry.1, input: tool_input_text(entry.2) },
                ));
                assert(calls@.map_values(|c: ToolCall| c@) =~= old_calls.push(
                    ToolCallView { id: entry.0, name: entry.1, input: tool_input_text(entry.2) },
                ));
                assert(old_pending.take(i + 1) =~= old_pending.take(i as int).push(old_pending[i as int]));
                assert(blocks_view(blocks@) =~= lead + old_pending.take(i + 1).map_values(
                    |p: (Seq<char>, Seq<char>, Seq<char>)|
                        ContentBlockView::ToolUse { id: p.0, name: p.1, input: tool_input_text(p.2) },
                ));
                assert(calls@.map_values(|c: ToolCall| c@) =~= turn_calls(old_pending.take(i + 1)));
            }
            i = i + 1;
        }
        proof {
            assert(old_pending.take(old_pending.len() as int) =~= old_pending);
        }
        self.pending = Vec::new();
        let has_calls = calls.len() > 0;
        let assistant = Message { role: Role::Assistant, content: blocks };
        let ghost old_messages = messages_view(session.messages@);
        session.push_message(assistant);
        proof {
            assert(messages_view(session.messages@) =~= old_messages.push(assistant@));
        }
        let mut events: Vec<QueryEvent> = Vec::new();
        if has_calls {
            self.phase = QueryPhase::RunningTools;
            let policy = RuleBasedPolicy::new(session.config.permission_mode);
            return (events, QueryAction::RunTools { calls, policy });
        }
        match self.stop_reason {
            Some(StopReason::MaxTokens) => {
                events.push(QueryEvent::TurnComplete { stop_reason: StopReason::MaxTokens });
                let ghost mid = messages_view(session.messages@);
                session.push_message(Message::user(String::from_str("Please continue from where you left off.")));
                proof {
                    assert(messages_view(session.messages@) =~= mid.push(
                        MessageView {
                            role: Role::User,
                            content: seq![ContentBlockView::Text { text: continue_prompt() }],
                        },
                    ));
                }
                let a = self.begin_turn(session);
                (events, a)
            },
            Some(sr) => {
                events.push(QueryEvent::TurnComplete { stop_reason: sr });
                self.phase = QueryPhase::Finished;
                (events, QueryAction::Finish(Ok(())))
            },
            None => {
                self.phase = QueryPhase::Finished;
                (events, QueryAction::Finish(Ok(())))
            },
        }
    }

    /// Takes in the results of a turn's tool calls: a user message with one
    /// tool-result block per result, in order, joins the history, each result
    /// is reported, and the next turn starts.
    pub fn on_tool_results(&mut self, session: &mut SessionState, results: Vec<ToolCallResult>) -> (r: (
        Vec<QueryEvent>,
        QueryAction,
    ))
        requires
            old(self).phase() == QueryPhase::RunningTools,
        ensures
            messages_view(final(session).messages@) == messages_view(old(session).messages@).push(
                MessageView { role: Role::User, content: result_blocks(results@) },
            ),
            r.0@.len() == results@.len(),
            forall|i: int| 0 <= i < results@.len() ==> (#[trigger] r.0@[i] matches QueryEvent::ToolResult {
                tool_use_id,
                content,
                is_error,
            } && tool_use_id@ == results@[i].tool_use_id@ && content@ == results@[i].output.content@
                && is_error == results@[i].output.is_error),
            final(self).starts_turn(old(self), old(session), final(session), &r.1),
    {
        let mut blocks: Vec<ContentBlock> = Vec::new();
        let mut events: Vec<QueryEvent> = Vec::new();
        let mut i: usize = 0;
        while i < results.len()
            invariant
                i <= results@.len(),
                blocks_view(blocks@) == result_blocks(results@.take(i as int)),
                events@.len() == i,
                forall|k: int| 0 <= k < i ==> (#[trigger] events@[k] matches QueryEvent::ToolResult {
                    tool_use_id,
                    content,
                    is_error,
                } && tool_use_id@ == results@[k].tool_use_id@ && content@ == results@[k].output.content@
                    && is_error == results@[k].output.is_error),
            decreases results@.len() - i,
        {
            let r = &results[i];
            let ghost old_blocks = blocks_view(blocks@);
            events.push(
                QueryEvent::ToolResult {
                    tool_use_id: r.tool_use_id.clone(),
                    content: r.output.content.clone(),
                    is_error: r.output.is_error,
                },
            );
            blocks.push(
                ContentBlock::ToolResult {
                    tool_use_id: r.tool_use_id.clone(),
                    content: r.output.content.clone(),
                    is_error: r.output.is_error,
                },
            );
            proof {
                assert(results@.take(i + 1) =~= results@.take(i as int).push(results@[i as int]));
                assert(blocks_view(blocks@) =~= old_blocks.push(
                    ContentBlockView::ToolResult {
                        tool_use_id: r.tool_use_id@,
                        content: r.output.content@,
                        is_error: r.output.is_error,
                    },
                ));
                assert(blocks_view(blocks@) =~= result_blocks(results@.take(i + 1)));
            }
            i = i + 1;
        }
        proof {
            assert(results@.take(results@.len() as int) =~= results@);
        }
        let ghost old_messages = messages_view(session.messages@);
        session.push_message(Message { role: Role::User, content: blocks });
        proof {
            assert(messages_view(session.messages@) =~= old_messages.push(
                MessageView { role: Role::User, content: result_blocks(results@) },
            ));
        }
        let a = self.begin_turn(session);
        (events, a)
    }

    /// `self` (after) follows `before` by handling a failure with `message` in
    /// session `old_s`, which became `new_s`, with action `a` (see
    /// [`QueryRun::on_stream_error`]).
    pub open spec fn handles_failure(
        &self,
        before: &QueryRun,
        old_s: &SessionState,
        new_s: &SessionState,
        message: Seq<char>,
        a: &QueryAction,
    ) -> bool {
        &&& self.registry() == before.registry()
        &&& same_but_messages_and_turns(old_s, new_s)
        &&& new_s.turn_count == old_s.turn_count
        &&& match error_class(message) {
            ErrorClass::ContextTooLong => if !before.compacted() && old_s.messages@.len() >= 2
                && compaction_cut(messages_view(old_s.messages@), (old_s.messages@.len() / 2) as int) is Some {
                let n = old_s.messages@.len();
                let cut = compaction_cut(messages_view(old_s.messages@), (n / 2) as int)->0;
                &&& new_s.messages@ == old_s.messages@.subrange(cut, n as int)
                &&& self.compacted()
                &&& self.phase() == QueryPhase::Streaming
                &&& self.turn_fresh()
                &&& self.retries() == before.retries()
                &&& a matches QueryAction::Send(req)
                &&& req@ == turn_request(new_s, self.registry().entries())
            } else {
                &&& new_s.messages@ == old_s.messages@
                &&& self.phase() == QueryPhase::Finished
                &&& a matches QueryAction::Finish(Err(AgentError::ContextTooLong))
            },
            ErrorClass::RateLimited | ErrorClass::ServerError => {
                &&& new_s.messages@ == old_s.messages@
                &&& self.compacted() == before.compacted()
                &&& if before.retries() < MAX_RETRIES {
                    &&& self.retries() == before.retries() + 1
                    &&& self.phase() == QueryPhase::Streaming
                    &&& self.turn_fresh()
                    &&& a matches QueryAction::SendAfter { delay_ms, request }
                    &&& delay_ms as nat == backoff_ms(self.retries() as nat)
                    &&& request@ == turn_request(new_s, self.registry().entries())
                } else {
                    &&& self.phase() == QueryPhase::Finished
                    &&& a matches QueryAction::Finish(Err(AgentError::Provider(m)))
                    &&& m@ == message
                }
            },
            ErrorClass::Fatal => {
                &&& new_s.messages@ == old_s.messages@
                &&& self.phase() == QueryPhase::Finished
                &&& a matches QueryAction::Finish(Err(AgentError::Provider(m)))
                &&& m@ == message
            },
        }
    }

    /// Handles a failure of the turn's request, whether the stream could not be
    /// opened or broke off; what was collected of the turn is dropped. A
    /// context-length failure compacts the history once per query and
    /// resends: the older half of the messages is dropped, and with it any
    /// tool-result messages that follow, so that no result is kept without its
    /// tool use (see [`compaction_cut`]); when that was done already or
    /// there is too little to drop, the query ends with `ContextTooLong`. Rate
    /// limits and server errors are retried after a growing wait, at most
    /// [`MAX_RETRIES`] times per turn; any other failure ends the query with the
    /// provider's message.
    pub fn on_stream_error(&mut self, session: &mut SessionState, message: String) -> (a: QueryAction)
        requires
            old(self).phase() == QueryPhase::Streaming,
        ensures
            final(self).handles_failure(old(self), old(session), final(session), message@, &a),
    {
        self.text = String::new();
        self.pending = Vec::new();
        self.stop_reason = None;
        proof {
            assert(self.pending() =~= Seq::<(Seq<char>, Seq<char>, Seq<char>)>::empty());
        }
        match classify_error(message.as_str()) {
            ErrorClass::ContextTooLong => {
                let n = session.messages.len();
                let ghost msgs = messages_view(session.messages@);
                let mut cut = n / 2;
                if !self.compacted && n >= 2 {
                    while cut < n && session.messages[cut].is_tool_result_message()
                        invariant
                            n == session.messages@.len(),
                            msgs == messages_view(session.messages@),
                            n / 2 <= cut <= n,
                            compaction_cut(msgs, (n / 2) as int) == compaction_cut(msgs, cut as int),
                        decreases n - cut,
                    {
                        proof {
                            assert(msgs[cut as int] == session.messages@[cut as int]@);
                        }
                        cut = cut + 1;
                    }
                    proof {
                        if cut < n {
                            assert(msgs[cut as int] == session.messages@[cut as int]@);
                        }
                    }
                }
                if !self.compacted && n >= 2 && cut < n {
                    self.compacted = true;
                    let mut messages = Vec::new();
                    std::mem::swap(&mut messages, &mut session.messages);
                    let kept = messages.split_off(cut);
                    session.messages = kept;
                    QueryAction::Send(self.build_request(session))
                } else {
                    self.phase = QueryPhase::Finished;
                    QueryAction::Finish(Err(AgentError::ContextTooLong))
                }
            },
            ErrorClass::RateLimited | ErrorClass::ServerError => {
                if self.retries < MAX_RETRIES {
                    self.retries = self.retries + 1;
                    let delay_ms = retry_delay_ms(self.retries);
                    QueryAction::SendAfter { delay_ms, request: self.build_request(session) }
                } else {
                    self.phase = QueryPhase::Finished;
                    QueryAction::Finish(Err(AgentError::Provider(message)))
                }
            },
            ErrorClass::Fatal => {
                self.phase = QueryPhase::Finished;
                QueryAction::Finish(Err(AgentError::Provider(message)))
            },
        }
    }
}

/// A query never runs more turns than its session allows: starting a turn
/// from a count within the limit leaves the count within the limit, and a
/// request is only sent for a counted turn.
pub proof fn law_turns_within_limit(
    after: &QueryRun,
    before: &QueryRun,
    old_s: &SessionState,
    new_s: &SessionState,
    a: &QueryAction,
)
    requires
        after.starts_turn(before, old_s, new_s, a),
        old_s.turn_count <= old_s.config.max_turns,
    ensures
        new_s.turn_count <= new_s.config.max_turns,
        a is Send ==> 1 <= new_s.turn_count,
{
}

/// Transient failures are retried at most [`MAX_RETRIES`] times per turn:
/// handling a failure never takes the retry count past it, and a failure met
/// with the count at the limit ends the query.
pub proof fn law_retries_bounded(
    after: &QueryRun,
    before: &QueryRun,
    old_s: &SessionState,
    new_s: &SessionState,
    message: Seq<char>,
    a: &QueryAction,
)
    requires
        after.handles_failure(before, old_s, new_s, message, a),
        before.retries() <= MAX_RETRIES,
    ensures
        after.phase() == QueryPhase::Streaming ==> after.retries() <= MAX_RETRIES,
        (error_class(message) == ErrorClass::RateLimited || error_class(message) == ErrorClass::ServerError)
            && before.retries() == MAX_RETRIES ==> a is Finish,
{
}

/// The history is compacted at most once per query: a context-length failure
/// after a compaction ends the query with `ContextTooLong`, and a compaction
/// always leaves fewer messages than before.
pub proof fn law_compaction_once(
    after: &QueryRun,
    before: &QueryRun,
    old_s: &SessionState,
    new_s: &SessionState,
    message: Seq<char>,
    a: &QueryAction,
)
    requires
        after.handles_failure(before, old_s, new_s, message, a),
        error_class(message) == ErrorClass::ContextTooLong,
    ensures
        before.compacted() ==> (a matches QueryAction::Finish(Err(AgentError::ContextTooLong))),
        a is Send ==> new_s.messages@.len() < old_s.messages@.len() && after.compacted(),
{
    lemma_compaction_cut(messages_view(old_s.messages@), (old_s.messages@.len() / 2) as int);
}

/// Failures that are neither context-length, rate-limit nor server errors
/// (such as an authentication failure) are never retried.
pub proof fn law_fatal_failures_end_query(
    after: &QueryRun,
    before: &QueryRun,
    old_s: &SessionState,
    new_s: &SessionState,
    message: Seq<char>,
    a: &QueryAction,
)
    requires
        after.handles_failure(before, old_s, new_s, message, a),
        error_class(message) == ErrorClass::Fatal,
    ensures
        a matches QueryAction::Finish(Err(AgentError::Provider(m))) && m@ == message,
        new_s.messages@ == old_s.messages@,
{
}

/// The ids of the tool-use blocks among `blocks`, in order.
pub open spec fn tool_use_ids(blocks: Seq<ContentBlockView>) -> Seq<Seq<char>>
    decreases blocks.len(),
{
    if blocks.len() == 0 {
        Seq::empty()
    } else {
        let rest = tool_use_ids(blocks.drop_last());
        match blocks.last() {
            ContentBlockView::ToolUse { id, .. } => rest.push(id),
            _ => rest,
        }
    }
}

/// The ids that the tool-result blocks among `blocks` answer, in order.
pub open spec fn tool_result_ids(blocks: Seq<ContentBlockView>) -> Seq<Seq<char>>
    decreases blocks.len(),
{
    if blocks.len() == 0 {
        Seq::empty()
    } else {
        let rest = tool_result_ids(blocks.drop_last());
        match blocks.last() {
            ContentBlockView::ToolResult { tool_use_id, .. } => rest.push(tool_use_id),
            _ => rest,
        }
    }
}

proof fn lemma_tool_use_ids_concat(a: Seq<ContentBlockView>, b: Seq<ContentBlockView>)
    ensures
        tool_use_ids(a + b) == tool_use_ids(a) + tool_use_ids(b),
    decreases b.len(),
{
    if b.len() == 0 {
        assert(a + b =~= a);
        assert(tool_use_ids(a) + tool_use_ids(b) =~= tool_use_ids(a));
    } else {
        lemma_tool_use_ids_concat(a, b.drop_last());
        assert((a + b).drop_last() =~= a + b.drop_last());
        assert((a + b).last() == b.last());
        match b.last() {
            ContentBlockView::ToolUse { id, .. } => {
                assert(tool_use_ids(a) + tool_use_ids(b.drop_last()).push(id) =~= (tool_use_ids(a)
                    + tool_use_ids(b.drop_last())).push(id));
            },
            _ => {},
        }
    }
}

proof fn lemma_tool_use_ids_of_pending(pending: Seq<(Seq<char>, Seq<char>, Seq<char>)>)
    ensures
        tool_use_ids(
            pending.map_values(
                |p: (Seq<char>, Seq<char>, Seq<char>)|
                    ContentBlockView::ToolUse { id: p.0, name: p.1, input: tool_input_text(p.2) },
            ),
        ) == pending.map_values(|p: (Seq<char>, Seq<char>, Seq<char>)| p.0),
    decreases pending.len(),
{
    let f = |p: (Seq<char>, Seq<char>, Seq<char>)|
        ContentBlockView::ToolUse { id: p.0, name: p.1, input: tool_input_text(p.2) };
    let g = |p: (Seq<char>, Seq<char>, Seq<char>)| p.0;
    if pending.len() == 0 {
        assert(pending.map_values(f) =~= Seq::<ContentBlockView>::empty());
        assert(pending.map_values(g) =~= Seq::<Seq<char>>::empty());
    } else {
        lemma_tool_use_ids_of_pending(pending.drop_last());
        assert(pending.map_values(f).drop_last() =~= pending.drop_last().map_values(f));
        assert(pending.map_values(g) =~= pending.drop_last().map_values(g).push(pending.last().0));
    }
}

proof fn lemma_tool_result_ids_of_results(results: Seq<ToolCallResult>)
    ensures
        tool_result_ids(result_blocks(results)) == results.map_values(|r: ToolCallResult| r.tool_use_id@),
    decreases results.len(),
{
    let g = |r: ToolCallResult| r.tool_use_id@;
    if results.len() == 0 {
        assert(result_blocks(results) =~= Seq::<ContentBlockView>::empty());
        assert(results.map_values(g) =~= Seq::<Seq<char>>::empty());
    } else {
        lemma_tool_result_ids_of_results(results.drop_last());
        assert(result_blocks(results).drop_last() =~= result_blocks(results.drop_last()));
        assert(results.map_values(g) =~= results.drop_last().map_values(g).push(results.last().tool_use_id@));
    }
}

/// A tool round pairs results with tool uses: when the results handed to
/// [`QueryRun::on_tool_results`] carry the ids of the turn's tool calls, each
/// once and in any order, the tool-result message it appends answers exactly
/// the tool uses of the assistant message that [`QueryRun::on_stream_end`]
/// appended, each once.
pub proof fn law_results_answer_tool_uses(
    text: Seq<char>,
    pending: Seq<(Seq<char>, Seq<char>, Seq<char>)>,
    results: Seq<ToolCallResult>,
)
    requires
        results.map_values(|r: ToolCallResult| r.tool_use_id@).to_multiset() == turn_calls(pending).map_values(
            |c: ToolCallView| c.id,
        ).to_multiset(),
    ensures
        tool_result_ids(result_blocks(results)).to_multiset() == tool_use_ids(
            assistant_blocks(text, pending),
        ).to_multiset(),
{
    lemma_assistant_tool_use_ids(text, pending);
    lemma_tool_result_ids_of_results(results);
    assert(turn_calls(pending).map_values(|c: ToolCallView| c.id) =~= pending.map_values(
        |p: (Seq<char>, Seq<char>, Seq<char>)| p.0,
    ));
}

/// The tool uses of a turn's assistant message are its streamed tool uses, in
/// order.
proof fn lemma_assistant_tool_use_ids(text: Seq<char>, pending: Seq<(Seq<char>, Seq<char>, Seq<char>)>)
    ensures
        tool_use_ids(assistant_blocks(text, pending)) == pending.map_values(
            |p: (Seq<char>, Seq<char>, Seq<char>)| p.0,
        ),
{
    let lead = if text.len() == 0 {
        Seq::<ContentBlockView>::empty()
    } else {
        seq![ContentBlockView::Text { text }]
    };
    let f = |p: (Seq<char>, Seq<char>, Seq<char>)|
        ContentBlockView::ToolUse { id: p.0, name: p.1, input: tool_input_text(p.2) };
    lemma_tool_use_ids_concat(lead, pending.map_values(f));
    lemma_tool_use_ids_of_pending(pending);
    if text.len() != 0 {
        assert(lead.drop_last() =~= Seq::<ContentBlockView>::empty());
        assert(tool_use_ids(Seq::<ContentBlockView>::empty()) == Seq::<Seq<char>>::empty());
        assert(lead.last() == ContentBlockView::Text { text });
        assert(tool_use_ids(lead) == tool_use_ids(lead.drop_last()));
    }
    assert(tool_use_ids(lead) =~= Seq::<Seq<char>>::empty());
    assert(tool_use_ids(assistant_blocks(text, pending)) =~= pending.map_values(
        |p: (Seq<char>, Seq<char>, Seq<char>)| p.0,
    ));
}

/// Every block of `blocks` is a tool result.
pub open spec fn only_tool_results(blocks: Seq<ContentBlockView>) -> bool {
    forall|j: int| 0 <= j < blocks.len() ==> #[trigger] blocks[j] is ToolResult
}

/// `u` is the message that a query puts after its assistant message `a`: the
/// results of `a`'s tool uses, each answered exactly once, or, when `a` made no
/// tool use, the request to continue.
pub open spec fn answers(a: MessageView, u: MessageView) -> bool {
    &&& u.role == Role::User
    &&& if tool_use_ids(a.content).len() > 0 {
        &&& only_tool_results(u.content)
        &&& tool_result_ids(u.content).to_multiset() == tool_use_ids(a.content).to_multiset()
    } else {
        u.content == seq![ContentBlockView::Text { text: continue_prompt() }]
    }
}

/// Entry `i` of `added` fits the rounds of a query: even entries are assistant
/// messages, and each odd entry answers the assistant message before it.
pub open spec fn round_entry(added: Seq<MessageView>, i: int) -> bool {
    if i % 2 == 0 {
        added[i].role == Role::Assistant
    } else {
        answers(added[i - 1], added[i])
    }
}

/// `added` is made of rounds: assistant and user messages alternate, starting
/// with the assistant, and every user message answers the assistant message
/// before it.
pub open spec fn in_rounds(added: Seq<MessageView>) -> bool {
    forall|i: int| 0 <= i < added.len() ==> #[trigger] round_entry(added, i)
}

/// The history of `s` is what the query was given (the first `b` messages)
/// followed by rounds that the query added: between turns the rounds are
/// complete, and while tools run the last message is the assistant message
/// whose tool uses are being run.
pub open spec fn history_ok(run: &QueryRun, s: &SessionState, b: int) -> bool {
    let msgs = messages_view(s.messages@);
    let added = msgs.skip(b);
    &&& 0 <= b <= msgs.len()
    &&& in_rounds(added)
    &&& match run.phase() {
        QueryPhase::Streaming => added.len() % 2 == 0,
        QueryPhase::RunningTools => added.len() % 2 == 1 && tool_use_ids(added.last().content).len() > 0,
        QueryPhase::Finished => true,
    }
}

/// Where the given history starts after compaction at `cut`, for a query that
/// had been given the first `b` messages: the rounds added stay whole.
pub open spec fn rebased(b: int, cut: int) -> int {
    if cut <= b {
        b - cut
    } else if (cut - b) % 2 == 0 {
        0
    } else {
        1
    }
}

proof fn lemma_rounds_push(added: Seq<MessageView>, x: MessageView)
    requires
        in_rounds(added),
        round_entry(added.push(x), added.len() as int),
    ensures
        in_rounds(added.push(x)),
{
    let p = added.push(x);
    assert forall|i: int| 0 <= i < p.len() implies #[trigger] round_entry(p, i) by {
        if i < added.len() {
            assert(round_entry(added, i));
            assert(p[i] == added[i]);
            if i > 0 {
                assert(p[i - 1] == added[i - 1]);
            }
        }
    }
}

proof fn lemma_rounds_skip(added: Seq<MessageView>, d: int)
    requires
        in_rounds(added),
        0 <= d <= added.len(),
        d % 2 == 0,
    ensures
        in_rounds(added.skip(d)),
{
    let q = added.skip(d);
    assert forall|i: int| 0 <= i < q.len() implies #[trigger] round_entry(q, i) by {
        assert(round_entry(added, i + d));
        assert(q[i] == added[i + d]);
        if i > 0 {
            assert(q[i - 1] == added[i + d - 1]);
        }
        assert((i + d) % 2 == i % 2);
    }
}

/// A query starts with nothing added to the history it is given.
pub proof fn law_history_at_start(run: &QueryRun, s: &SessionState)
    requires
        run.phase() != QueryPhase::RunningTools,
    ensures
        history_ok(run, s, s.messages@.len() as int),
{
    let msgs = messages_view(s.messages@);
    assert(msgs.skip(msgs.len() as int) =~= Seq::<MessageView>::empty());
}

/// Taking in a stream event adds nothing to the history.
pub proof fn law_history_on_event(
    after: &QueryRun,
    before: &QueryRun,
    old_s: &SessionState,
    new_s: &SessionState,
    b: int,
)
    requires
        history_ok(before, old_s, b),
        before.phase() == QueryPhase::Streaming,
        after.phase() == QueryPhase::Streaming,
        new_s.messages@ == old_s.messages@,
    ensures
        history_ok(after, new_s, b),
{
}

/// Ending a turn keeps the history in rounds and only appends to it: the
/// assistant message is added, and after it either its tool uses are run, or
/// the request to continue follows, or the query ends with an assistant
/// message that made no tool use.
pub proof fn law_history_on_stream_end(
    after: &QueryRun,
    before: &QueryRun,
    old_s: &SessionState,
    new_s: &SessionState,
    events: Seq<QueryEvent>,
    a: &QueryAction,
    b: int,
)
    requires
        history_ok(before, old_s, b),
        before.phase() == QueryPhase::Streaming,
        after.ends_turn(before, old_s, new_s, events, a),
    ensures
        history_ok(after, new_s, b),
        messages_view(old_s.messages@).is_prefix_of(messages_view(new_s.messages@)),
        (a matches QueryAction::Finish(Ok(()))) ==> tool_use_ids(
            messages_view(new_s.messages@).last().content,
        ).len() == 0,
{
    let msgs = messages_view(old_s.messages@);
    let added = msgs.skip(b);
    let asst = MessageView { role: Role::Assistant, content: assistant_blocks(before.text(), before.pending()) };
    lemma_assistant_tool_use_ids(before.text(), before.pending());
    let ids = before.pending().map_values(|p: (Seq<char>, Seq<char>, Seq<char>)| p.0);
    assert(ids.len() == before.pending().len());
    assert(msgs.push(asst).skip(b) =~= added.push(asst));
    assert(round_entry(added.push(asst), added.len() as int));
    lemma_rounds_push(added, asst);
    assert(msgs.push(asst).subrange(0, msgs.len() as int) =~= msgs);
    if before.pending().len() == 0 && before.stop_reason() == Some(StopReason::MaxTokens) {
        let cont = MessageView {
            role: Role::User,
            content: seq![ContentBlockView::Text { text: continue_prompt() }],
        };
        assert(msgs.push(asst).push(cont).skip(b) =~= added.push(asst).push(cont));
        assert(added.push(asst).push(cont)[added.len() as int] == asst);
        assert(round_entry(added.push(asst).push(cont), added.len() + 1int));
        lemma_rounds_push(added.push(asst), cont);
        assert(msgs.push(asst).push(cont).subrange(0, msgs.len() as int) =~= msgs);
    }
}

/// Taking in the results of a turn's tool calls keeps the history in rounds
/// and only appends to it, when each result answers one of the tool uses of
/// the assistant message before it, each use exactly once.
pub proof fn law_history_on_tool_results(
    after: &QueryRun,
    before: &QueryRun,
    old_s: &SessionState,
    new_s: &SessionState,
    results: Seq<ToolCallResult>,
    a: &QueryAction,
    b: int,
)
    requires
        history_ok(before, old_s, b),
        before.phase() == QueryPhase::RunningTools,
        messages_view(new_s.messages@) == messages_view(old_s.messages@).push(
            MessageView { role: Role::User, content: result_blocks(results) },
        ),
        after.starts_turn(before, old_s, new_s, a),
        results.map_values(|r: ToolCallResult| r.tool_use_id@).to_multiset() == tool_use_ids(
            messages_view(old_s.messages@).last().content,
        ).to_multiset(),
    ensures
        history_ok(after, new_s, b),
        messages_view(old_s.messages@).is_prefix_of(messages_view(new_s.messages@)),
{
    let msgs = messages_view(old_s.messages@);
    let added = msgs.skip(b);
    let u = MessageView { role: Role::User, content: result_blocks(results) };
    lemma_tool_result_ids_of_results(results);
    assert(added.last() == msgs.last());
    assert(only_tool_results(result_blocks(results)));
    assert(msgs.push(u).skip(b) =~= added.push(u));
    assert(added.push(u)[added.len() - 1] == added.last());
    assert(round_entry(added.push(u), added.len() as int));
    lemma_rounds_push(added, u);
    assert(msgs.push(u).subrange(0, msgs.len() as int) =~= msgs);
}

/// Handling a failure keeps the history in rounds. The history is unchanged,
/// except when a context-length failure compacts it: then only older messages
/// are dropped, the kept history does not open with tool results, and the
/// rounds kept are whole.
pub proof fn law_history_on_failure(
    after: &QueryRun,
    before: &QueryRun,
    old_s: &SessionState,
    new_s: &SessionState,
    message: Seq<char>,
    a: &QueryAction,
    b: int,
)
    requires
        history_ok(before, old_s, b),
        before.phase() == QueryPhase::Streaming,
        after.handles_failure(before, old_s, new_s, message, a),
    ensures
        !(error_class(message) == ErrorClass::ContextTooLong && a is Send) ==> {
            &&& new_s.messages@ == old_s.messages@
            &&& history_ok(after, new_s, b)
        },
        (error_class(message) == ErrorClass::ContextTooLong && a is Send) ==> {
            let msgs = messages_view(old_s.messages@);
            let cut = compaction_cut(msgs, (msgs.len() / 2) as int)->0;
            &&& 0 < cut < msgs.len()
            &&& messages_view(new_s.messages@) == msgs.skip(cut)
            &&& !is_tool_result_message(messages_view(new_s.messages@)[0])
            &&& history_ok(after, new_s, rebased(b, cut))
        },
{
    let msgs = messages_view(old_s.messages@);
    let n = msgs.len();
    lemma_compaction_cut(msgs, (n / 2) as int);
    if error_class(message) == ErrorClass::ContextTooLong && a is Send {
        let cut = compaction_cut(msgs, (n / 2) as int)->0;
        let added = msgs.skip(b);
        let kept = messages_view(new_s.messages@);
        assert(kept =~= msgs.skip(cut));
        if cut <= b {
            assert(kept.skip(b - cut) =~= added);
        } else if (cut - b) % 2 == 0 {
            assert(kept.skip(0) =~= added.skip(cut - b));
            lemma_rounds_skip(added, cut - b);
        } else {
            assert(kept.skip(1) =~= added.skip(cut - b + 1));
            lemma_rounds_skip(added, cut - b + 1);
        }
    }
}

proof fn lemma_assistant_blocks_layout(text: Seq<char>, pending: Seq<(Seq<char>, Seq<char>, Seq<char>)>)
    ensures
        ({
            let blocks = assistant_blocks(text, pending);
            let lead: int = if text.len() > 0 { 1 } else { 0 };
            &&& blocks.len() == lead + pending.len()
            &&& text.len() > 0 ==> blocks[0] == ContentBlockView::Text { text }
            &&& forall|i: int| 0 <= i < pending.len() ==> #[trigger] blocks[lead + i] == (ContentBlockView::ToolUse {
                id: pending[i].0,
                name: pending[i].1,
                input: tool_input_text(pending[i].2),
            })
        }),
{
}

/// Ending a turn keeps everything the model streamed: the assistant message
/// added to the history opens with the streamed text, whenever there is any
/// (whether or not tools were called), and then holds one tool-use block per
/// streamed tool use, in order, with its id, name and normalised input, and
/// nothing else.
pub proof fn law_turn_message_keeps_stream(
    after: &QueryRun,
    before: &QueryRun,
    old_s: &SessionState,
    new_s: &SessionState,
    events: Seq<QueryEvent>,
    a: &QueryAction,
)
    requires
        after.ends_turn(before, old_s, new_s, events, a),
    ensures
        ({
            let n = old_s.messages@.len() as int;
            let m = messages_view(new_s.messages@)[n];
            let t = before.text();
            let p = before.pending();
            let lead: int = if t.len() > 0 { 1 } else { 0 };
            &&& messages_view(new_s.messages@).len() > n
            &&& m.role == Role::Assistant
            &&& m.content.len() == lead + p.len()
            &&& t.len() > 0 ==> m.content[0] == ContentBlockView::Text { text: t }
            &&& forall|i: int| 0 <= i < p.len() ==> #[trigger] m.content[lead + i] == (ContentBlockView::ToolUse {
                id: p[i].0,
                name: p[i].1,
                input: tool_input_text(p[i].2),
            })
        }),
{
    lemma_assistant_blocks_layout(before.text(), before.pending());
    let n = old_s.messages@.len() as int;
    let msgs = messages_view(old_s.messages@);
    let asst = MessageView { role: Role::Assistant, content: assistant_blocks(before.text(), before.pending()) };
    assert(msgs.push(asst)[n] == asst);
    if before.pending().len() == 0 && before.stop_reason() == Some(StopReason::MaxTokens) {
        let cont = MessageView {
            role: Role::User,
            content: seq![ContentBlockView::Text { text: continue_prompt() }],
        };
        assert(msgs.push(asst).push(cont)[n] == asst);
    }
}

} // verus!
