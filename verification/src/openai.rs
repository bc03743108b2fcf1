//! The OpenAI chat-completions wire format: how requests are laid out as chat
//! messages, how streamed chunks become stream events, and how a complete
//! response is read.
use vstd::prelude::*;
use crate::json::{tool_input_from_json, tool_input_text};
use crate::provider::{
    ModelRequest, ModelRequestView, ModelResponse, ModelResponseView, RequestContent, RequestContentView,
    RequestMessage, RequestMessageView, ResponseContent, ResponseContentView, StopReason, StreamEvent,
    StreamEventView, Usage, events_view, response_contents_view,
};
use crate::text::{push_str, str_eq};
use std::collections::HashMap;

verus! {

broadcast use {vstd::string::group_string_axioms, vstd::std_specs::hash::group_hash_axioms};

/// A tool call made by the assistant, in the chat format.
#[derive(Clone, Debug)]
pub struct ChatToolCall {
    pub id: String,
    pub name: String,
    pub arguments: String,
}

/// The abstract value of a [`ChatToolCall`].
pub struct ChatToolCallView {
    pub id: Seq<char>,
    pub name: Seq<char>,
    pub arguments: Seq<char>,
}

impl View for ChatToolCall {
    type V = ChatToolCallView;

    open spec fn view(&self) -> ChatToolCallView {
        ChatToolCallView { id: self.id@, name: self.name@, arguments: self.arguments@ }
    }
}

/// A message in the chat format.
#[derive(Clone, Debug)]
pub enum ChatMessage {
    System { content: String },
    User { content: String },
    Assistant { content: Option<String>, tool_calls: Option<Vec<ChatToolCall>> },
    Tool { content: String, tool_call_id: String },
}

/// The abstract value of a [`ChatMessage`].
pub enum ChatMessageView {
    System { content: Seq<char> },
    User { content: Seq<char> },
    Assistant { content: Option<Seq<char>>, tool_calls: Option<Seq<ChatToolCallView>> },
    Tool { content: Seq<char>, tool_call_id: Seq<char> },
}

impl View for ChatMessage {
    type V = ChatMessageView;

    open spec fn view(&self) -> ChatMessageView {
        match self {
            ChatMessage::System { content } => ChatMessageView::System { content: content@ },
            ChatMessage::User { content } => ChatMessageView::User { content: content@ },
            ChatMessage::Assistant { content, tool_calls } => ChatMessageView::Assistant {
                content: match content {
                    Some(c) => Some(c@),
                    None => None,
                },
                tool_calls: match tool_calls {
                    Some(t) => Some(t@.map_values(|c: ChatToolCall| c@)),
                    None => None,
                },
            },
            ChatMessage::Tool { content, tool_call_id } => ChatMessageView::Tool {
                content: content@,
                tool_call_id: tool_call_id@,
            },
        }
    }
}

/// A function tool offered to the model: name, description, JSON-schema text.
#[derive(Clone, Debug)]
pub struct ChatTool {
    pub name: String,
    pub description: String,
    pub parameters: String,
}

/// A chat-completions request.
pub struct ChatRequest {
    pub model: String,
    pub messages: Vec<ChatMessage>,
    pub max_tokens: u32,
    pub tools: Option<Vec<ChatTool>>,
}

/// The texts of a message's text blocks, in order.
pub open spec fn text_parts(blocks: Seq<RequestContentView>) -> Seq<Seq<char>>
    decreases blocks.len(),
{
    if blocks.len() == 0 {
        Seq::empty()
    } else {
        let rest = text_parts(blocks.drop_last());
        match blocks.last() {
            RequestContentView::Text { text } => rest.push(text),
            _ => rest,
        }
    }
}

/// The concatenation of texts.
pub open spec fn joined(parts: Seq<Seq<char>>) -> Seq<char>
    decreases parts.len(),
{
    if parts.len() == 0 {
        Seq::empty()
    } else {
        joined(parts.drop_last()) + parts.last()
    }
}

/// The tool calls of an assistant message's tool-use blocks, in order, their
/// arguments the normalised JSON of the input.
pub open spec fn chat_tool_calls(blocks: Seq<RequestContentView>) -> Seq<ChatToolCallView>
    decreases blocks.len(),
{
    if blocks.len() == 0 {
        Seq::empty()
    } else {
        let rest = chat_tool_calls(blocks.drop_last());
        match blocks.last() {
            RequestContentView::ToolUse { id, name, input } => rest.push(
                ChatToolCallView { id, name, arguments: tool_input_text(input) },
            ),
            _ => rest,
        }
    }
}

/// One tool message per tool-result block, in order.
pub open spec fn chat_tool_results(blocks: Seq<RequestContentView>) -> Seq<ChatMessageView>
    decreases blocks.len(),
{
    if blocks.len() == 0 {
        Seq::empty()
    } else {
        let rest = chat_tool_results(blocks.drop_last());
        match blocks.last() {
            RequestContentView::ToolResult { tool_use_id, content, .. } => rest.push(
                ChatMessageView::Tool { content, tool_call_id: tool_use_id },
            ),
            _ => rest,
        }
    }
}

/// The chat messages for one request message. An assistant message becomes one
/// assistant message: its joined text (absent when it has no text block) and
/// its tool calls (absent when there are none). Any other message becomes a
/// tool message per tool result, then, when it has text blocks, a user
/// message with the joined text.
pub open spec fn chat_for_message(m: RequestMessageView) -> Seq<ChatMessageView> {
    let parts = text_parts(m.content);
    if m.role == "assistant"@ {
        let calls = chat_tool_calls(m.content);
        seq![
            ChatMessageView::Assistant {
                content: if parts.len() == 0 {
                    None
                } else {
                    Some(joined(parts))
                },
                tool_calls: if calls.len() == 0 {
                    None
                } else {
                    Some(calls)
                },
            },
        ]
    } else {
        chat_tool_results(m.content) + if parts.len() == 0 {
            Seq::<ChatMessageView>::empty()
        } else {
            seq![ChatMessageView::User { content: joined(parts) }]
        }
    }
}

/// The chat messages for a sequence of request messages, in order.
pub open spec fn chat_for_messages(ms: Seq<RequestMessageView>) -> Seq<ChatMessageView>
    decreases ms.len(),
{
    if ms.len() == 0 {
        Seq::empty()
    } else {
        chat_for_messages(ms.drop_last()) + chat_for_message(ms.last())
    }
}

/// The chat messages of a request: the system prompt, when there is one, then
/// the messages.
pub open spec fn chat_messages(r: ModelRequestView) -> Seq<ChatMessageView> {
    (match r.system {
        Some(s) => seq![ChatMessageView::System { content: s }],
        None => Seq::empty(),
    }) + chat_for_messages(r.messages)
}

fn clone_text(s: &String) -> (r: String)
    ensures
        r@ == s@,
{
    s.clone()
}

fn chat_for_request_message(m: &RequestMessage, out: &mut Vec<ChatMessage>)
    ensures
        final(out)@.map_values(|c: ChatMessage| c@) == old(out)@.map_values(|c: ChatMessage| c@) + chat_for_message(m@),
{
    let blocks = &m.content;
    let ghost bv = blocks@.map_values(|c: RequestContent| c@);
    let mut text = String::new();
    let mut n_parts: usize = 0;
    let mut calls: Vec<ChatToolCall> = Vec::new();
    let mut results: Vec<ChatMessage> = Vec::new();
    let mut i: usize = 0;
    while i < blocks.len()
        invariant
            i <= blocks@.len(),
            bv == blocks@.map_values(|c: RequestContent| c@),
            n_parts as int == text_parts(bv.take(i as int)).len(),
            n_parts <= i,
            text@ == joined(text_parts(bv.take(i as int))),
            calls@.map_values(|c: ChatToolCall| c@) == chat_tool_calls(bv.take(i as int)),
            results@.map_values(|c: ChatMessage| c@) == chat_tool_results(bv.take(i as int)),
        decreases blocks@.len() - i,
    {
        proof {
            assert(bv.take(i + 1).drop_last() =~= bv.take(i as int));
            assert(bv.take(i + 1).last() == blocks@[i as int]@);
        }
        let ghost old_calls = calls@.map_values(|c: ChatToolCall| c@);
        let ghost old_results = results@.map_values(|c: ChatMessage| c@);
        match &blocks[i] {
            RequestContent::Text { text: t } => {
                push_str(&mut text, t.as_str());
                n_parts = n_parts + 1;
                proof {
                    let parts = text_parts(bv.take(i as int));
                    assert(parts.push(t@).drop_last() =~= parts);
                }
            },
            RequestContent::ToolUse { id, name, input } => {
                calls.push(
                    ChatToolCall { id: clone_text(id), name: clone_text(name), arguments: tool_input_from_json(input.as_str()) },
                );
                proof {
                    assert(calls@.map_values(|c: ChatToolCall| c@) =~= old_calls.push(
                        ChatToolCallView { id: id@, name: name@, arguments: tool_input_text(input@) },
                    ));
                }
            },
            RequestContent::ToolResult { tool_use_id, content, .. } => {
                results.push(ChatMessage::Tool { content: clone_text(content), tool_call_id: clone_text(tool_use_id) });
                proof {
                    assert(results@.map_values(|c: ChatMessage| c@) =~= old_results.push(
                        ChatMessageView::Tool { content: content@, tool_call_id: tool_use_id@ },
                    ));
                }
            },
        }
        i = i + 1;
    }
    proof {
        assert(bv.take(blocks@.len() as int) =~= bv);
        assert(m@.content == bv);
    }
    let ghost before = out@.map_values(|c: ChatMessage| c@);
    if str_eq(m.role.as_str(), "assistant") {
        let content = if n_parts == 0 { None } else { Some(text) };
        let tool_calls = if calls.len() == 0 { None } else { Some(calls) };
        out.push(ChatMessage::Assistant { content, tool_calls });
        proof {
            assert(out@.map_values(|c: ChatMessage| c@) =~= before + chat_for_message(m@));
        }
    } else {
        let ghost rv = results@;
        out.append(&mut results);
        proof {
            assert(out@.map_values(|c: ChatMessage| c@) =~= before + rv.map_values(|c: ChatMessage| c@));
        }
        if n_parts > 0 {
            let ghost prev = out@.map_values(|c: ChatMessage| c@);
            out.push(ChatMessage::User { content: text });
            proof {
                assert(out@.map_values(|c: ChatMessage| c@) =~= prev.push(
                    ChatMessageView::User { content: joined(text_parts(m@.content)) },
                ));
            }
        }
        proof {
            assert(out@.map_values(|c: ChatMessage| c@) =~= before + chat_for_message(m@));
        }
    }
}

/// Lays a request out in the chat format (see [`chat_messages`]); the output
/// limit is narrowed to 32 bits as `as u32` does, and each tool is offered with
/// its description and schema.
pub fn build_chat_request(request: &ModelRequest) -> (r: ChatRequest)
    ensures
        r.model@ == request.model@,
        r.messages@.map_values(|c: ChatMessage| c@) == chat_messages(request@),
        r.max_tokens == request.max_tokens as u32,
        match request.tools {
            None => r.tools is None,
            Some(t) => r.tools matches Some(ct) && ct@.len() == t@.len() && forall|i: int|
                0 <= i < t@.len() ==> {
                    &&& (#[trigger] ct@[i]).name@ == t@[i].name@
                    &&& ct@[i].description@ == t@[i].description@
                    &&& ct@[i].parameters@ == t@[i].input_schema@
                },
        },
{
    let mut messages: Vec<ChatMessage> = Vec::new();
    match &request.system {
        Some(s) => messages.push(ChatMessage::System { content: clone_text(s) }),
        None => {},
    }
    let ghost head = messages@.map_values(|c: ChatMessage| c@);
    let ghost mv = request.messages@.map_values(|m: RequestMessage| m@);
    let mut i: usize = 0;
    while i < request.messages.len()
        invariant
            i <= request.messages@.len(),
            mv == request.messages@.map_values(|m: RequestMessage| m@),
            messages@.map_values(|c: ChatMessage| c@) == head + chat_for_messages(mv.take(i as int)),
        decreases request.messages@.len() - i,
    {
        chat_for_request_message(&request.messages[i], &mut messages);
        proof {
            assert(mv.take(i + 1).drop_last() =~= mv.take(i as int));
            assert(mv.take(i + 1).last() == request.messages@[i as int]@);
        }
        i = i + 1;
    }
    proof {
        assert(mv.take(request.messages@.len() as int) =~= mv);
        assert(messages@.map_values(|c: ChatMessage| c@) =~= chat_messages(request@));
    }
    let tools = match &request.tools {
        None => None,
        Some(defs) => {
            let mut out: Vec<ChatTool> = Vec::new();
            let mut k: usize = 0;
            while k < defs.len()
                invariant
                    k <= defs@.len(),
                    out@.len() == k,
                    forall|j: int| 0 <= j < k ==> {
                        &&& (#[trigger] out@[j]).name@ == defs@[j].name@
                        &&& out@[j].description@ == defs@[j].description@
                        &&& out@[j].parameters@ == defs@[j].input_schema@
                    },
                decreases defs@.len() - k,
            {
                let d = &defs[k];
                out.push(
                    ChatTool {
                        name: clone_text(&d.name),
                        description: clone_text(&d.description),
                        parameters: clone_text(&d.input_schema),
                    },
                );
                k = k + 1;
            }
            Some(out)
        },
    };
    ChatRequest {
        model: clone_text(&request.model),
        messages,
        max_tokens: request.max_tokens as u32,
        tools,
    }
}

/// A piece of a streamed tool call: the call's position among the message's
/// tool calls, and whichever of id, name and argument text the chunk carries.
#[derive(Clone, Debug)]
pub struct ChunkToolCall {
    pub index: u32,
    pub id: Option<String>,
    pub name: Option<String>,
    pub arguments: Option<String>,
}

/// Why the model stopped, as the chat format reports it.
#[derive(Clone, Copy, Debug, PartialEq, Eq, Structural)]
pub enum FinishKind {
    Stop,
    Length,
    ToolCalls,
    ContentFilter,
    FunctionCall,
}

/// One choice of a streamed chunk.
#[derive(Clone, Debug)]
pub struct ChunkChoice {
    pub content: Option<String>,
    pub tool_calls: Vec<ChunkToolCall>,
    pub finish_reason: Option<FinishKind>,
}

/// A streamed chunk of a chat completion.
#[derive(Clone, Debug)]
pub struct ChatChunk {
    pub id: String,
    pub choices: Vec<ChunkChoice>,
}

pub struct ChunkToolCallView {
    pub index: u32,
    pub id: Option<Seq<char>>,
    pub name: Option<Seq<char>>,
    pub arguments: Option<Seq<char>>,
}

pub open spec fn opt_view(o: Option<String>) -> Option<Seq<char>> {
    match o {
        Some(s) => Some(s@),
        None => None,
    }
}

impl View for ChunkToolCall {
    type V = ChunkToolCallView;

    open spec fn view(&self) -> ChunkToolCallView {
        ChunkToolCallView {
            index: self.index,
            id: opt_view(self.id),
            name: opt_view(self.name),
            arguments: opt_view(self.arguments),
        }
    }
}

/// The stop reason for a finish kind: stop ends the turn, a length cut-off is
/// the output limit, tool calls are tool use, and anything else ends the turn.
pub open spec fn stop_reason_of(f: FinishKind) -> StopReason {
    match f {
        FinishKind::Stop => StopReason::EndTurn,
        FinishKind::ToolCalls => StopReason::ToolUse,
        FinishKind::Length => StopReason::MaxTokens,
        _ => StopReason::EndTurn,
    }
}

fn stop_reason_for(f: FinishKind) -> (r: StopReason)
    ensures
        r == stop_reason_of(f),
{
    match f {
        FinishKind::Stop => StopReason::EndTurn,
        FinishKind::ToolCalls => StopReason::ToolUse,
        FinishKind::Length => StopReason::MaxTokens,
        _ => StopReason::EndTurn,
    }
}

/// The content-block index of the tool call at position `i`: one past it, the
/// text block being block 0 (computed in 32 bits, wrapping at the top).
pub open spec fn tool_block_index(i: u32) -> usize {
    if i == u32::MAX {
        0
    } else {
        (i + 1) as usize
    }
}

fn tool_block_index_of(i: u32) -> (r: usize)
    ensures
        r == tool_block_index(i),
{
    if i == u32::MAX {
        0
    } else {
        (i + 1) as usize
    }
}

/// A tool call as assembled so far.
pub struct CallSlot {
    pub id: Seq<char>,
    pub name: Seq<char>,
    pub args: Seq<char>,
    pub started: bool,
}

/// What a stream has delivered so far; the tool calls are keyed by their
/// position.
pub struct AssemblyView {
    pub response_id: Seq<char>,
    pub text: Seq<char>,
    pub text_started: bool,
    pub calls: Map<u32, CallSlot>,
    pub finish: Option<StopReason>,
}

/// `q` lists the members of `s` in strictly increasing order.
pub open spec fn lists_in_order(q: Seq<u32>, s: Set<u32>) -> bool {
    &&& forall|a: int, b: int| 0 <= a < b < q.len() ==> q[a] < q[b]
    &&& q.to_set() == s
}

/// The members of `s` in increasing order.
pub open spec fn in_order(s: Set<u32>) -> Seq<u32> {
    choose|q: Seq<u32>| lists_in_order(q, s)
}

/// A set is listed in increasing order in only one way.
pub proof fn lemma_lists_in_order_unique(q1: Seq<u32>, q2: Seq<u32>, s: Set<u32>)
    requires
        lists_in_order(q1, s),
        lists_in_order(q2, s),
    ensures
        q1 == q2,
    decreases q1.len(),
{
    if q1.len() == 0 {
        if q2.len() > 0 {
            assert(q2.to_set().contains(q2[0]));
            assert(!q1.contains(q2[0]));
        }
        assert(q1 =~= q2);
    } else {
        assert(q1.to_set().contains(q1[0]));
        assert(q2.contains(q1[0]));
        let j2 = choose|j: int| 0 <= j < q2.len() && q2[j] == q1[0];
        assert(q2[0] <= q1[0]) by {
            if j2 > 0 {
                assert(q2[0] < q2[j2]);
            }
        }
        assert(q2.to_set().contains(q2[0]));
        assert(q1.contains(q2[0]));
        let j1 = choose|j: int| 0 <= j < q1.len() && q1[j] == q2[0];
        assert(q1[0] <= q2[0]) by {
            if j1 > 0 {
                assert(q1[0] < q1[j1]);
            }
        }
        let m = q1[0];
        let r1 = q1.drop_first();
        let r2 = q2.drop_first();
        let rs = s.remove(m);
        assert forall|x: u32| r1.contains(x) <==> rs.contains(x) by {
            if r1.contains(x) {
                let i = choose|i: int| 0 <= i < r1.len() && r1[i] == x;
                assert(q1[i + 1] == x);
                assert(q1[0] < q1[i + 1]);
                assert(q1.contains(x));
            }
            if rs.contains(x) {
                assert(q1.to_set().contains(x));
                let i = choose|i: int| 0 <= i < q1.len() && q1[i] == x;
                assert(i != 0);
                assert(r1[i - 1] == x);
            }
        }
        assert forall|x: u32| r2.contains(x) <==> rs.contains(x) by {
            if r2.contains(x) {
                let i = choose|i: int| 0 <= i < r2.len() && r2[i] == x;
                assert(q2[i + 1] == x);
                assert(q2[0] < q2[i + 1]);
                assert(q2.contains(x));
                assert(q2.to_set().contains(x));
            }
            if rs.contains(x) {
                assert(q2.to_set().contains(x));
                let i = choose|i: int| 0 <= i < q2.len() && q2[i] == x;
                assert(i != 0);
                assert(r2[i - 1] == x);
            }
        }
        assert(r1.to_set() =~= rs);
        assert(r2.to_set() =~= rs);
        assert forall|a: int, b: int| 0 <= a < b < r1.len() implies r1[a] < r1[b] by {
            assert(q1[a + 1] < q1[b + 1]);
        }
        assert forall|a: int, b: int| 0 <= a < b < r2.len() implies r2[a] < r2[b] by {
            assert(q2[a + 1] < q2[b + 1]);
        }
        lemma_lists_in_order_unique(r1, r2, rs);
        assert forall|i: int| 0 <= i < q1.len() implies q1[i] == q2[i] by {
            if i > 0 {
                assert(q1[i] == r1[i - 1]);
                assert(q2[i] == r2[i - 1]);
            }
        }
        assert(q1 =~= q2);
    }
}

/// A tool call that has seen nothing yet.
pub open spec fn empty_slot() -> CallSlot {
    CallSlot { id: Seq::empty(), name: Seq::empty(), args: Seq::empty(), started: false }
}

/// Taking in one tool-call piece: the call at its position is found or
/// opened; a given id or name replaces the call's; argument text is appended,
/// and with argument text the call's block is started once (an empty-object
/// input) and non-empty text is echoed as an input delta.
pub open spec fn tool_call_step(st: AssemblyView, tc: ChunkToolCallView) -> (AssemblyView, Seq<StreamEventView>) {
    let base = if st.calls.contains_key(tc.index) {
        st.calls[tc.index]
    } else {
        empty_slot()
    };
    let id = match tc.id {
        Some(i) => i,
        None => base.id,
    };
    let name = match tc.name {
        Some(n) => n,
        None => base.name,
    };
    let b = tool_block_index(tc.index);
    let (args, started, events) = match tc.arguments {
        Some(a) => (
            base.args + a,
            true,
            (if base.started {
                Seq::<StreamEventView>::empty()
            } else {
                seq![
                    StreamEventView::ContentBlockStart {
                        index: b,
                        content: ResponseContentView::ToolUse { id, name, input: "{}"@ },
                    },
                ]
            }) + (if a.len() > 0 {
                seq![StreamEventView::InputJsonDelta { index: b, partial_json: a }]
            } else {
                Seq::<StreamEventView>::empty()
            }),
        ),
        None => (base.args, base.started, Seq::<StreamEventView>::empty()),
    };
    let slot = CallSlot { id, name, args, started };
    (AssemblyView { calls: st.calls.insert(tc.index, slot), ..st }, events)
}

pub open spec fn tool_calls_step(st: AssemblyView, tcs: Seq<ChunkToolCallView>) -> (AssemblyView, Seq<StreamEventView>)
    decreases tcs.len(),
{
    if tcs.len() == 0 {
        (st, Seq::empty())
    } else {
        let (s1, e1) = tool_calls_step(st, tcs.drop_last());
        let (s2, e2) = tool_call_step(s1, tcs.last());
        (s2, e1 + e2)
    }
}

/// Taking in one choice: non-empty text is appended and echoed (the text block
/// started once, at index 0), then the tool-call pieces in order, then the
/// finish reason, if given, is recorded.
pub open spec fn choice_step(
    st: AssemblyView,
    content: Option<Seq<char>>,
    tcs: Seq<ChunkToolCallView>,
    finish: Option<FinishKind>,
) -> (AssemblyView, Seq<StreamEventView>) {
    let (s1, e1) = match content {
        Some(c) => if c.len() > 0 {
            (
                AssemblyView { text: st.text + c, text_started: true, ..st },
                (if st.text_started {
                    Seq::<StreamEventView>::empty()
                } else {
                    seq![
                        StreamEventView::ContentBlockStart {
                            index: 0,
                            content: ResponseContentView::Text(Seq::empty()),
                        },
                    ]
                }).push(StreamEventView::TextDelta { index: 0, text: c }),
            )
        } else {
            (st, Seq::empty())
        },
        None => (st, Seq::empty()),
    };
    let (s2, e2) = tool_calls_step(s1, tcs);
    let s3 = match finish {
        Some(f) => AssemblyView { finish: Some(stop_reason_of(f)), ..s2 },
        None => s2,
    };
    (s3, e1 + e2)
}

pub open spec fn choices_step(st: AssemblyView, cs: Seq<ChunkChoice>) -> (AssemblyView, Seq<StreamEventView>)
    decreases cs.len(),
{
    if cs.len() == 0 {
        (st, Seq::empty())
    } else {
        let (s1, e1) = choices_step(st, cs.drop_last());
        let c = cs.last();
        let (s2, e2) = choice_step(s1, opt_view(c.content), c.tool_calls@.map_values(|t: ChunkToolCall| t@), c.finish_reason);
        (s2, e1 + e2)
    }
}

/// Taking in a chunk: the first non-empty chunk id becomes the response id,
/// then the choices are taken in order.
pub open spec fn chunk_step(st: AssemblyView, chunk: &ChatChunk) -> (AssemblyView, Seq<StreamEventView>) {
    let s0 = if st.response_id.len() == 0 {
        AssemblyView { response_id: chunk.id@, ..st }
    } else {
        st
    };
    choices_step(s0, chunk.choices@)
}

/// The tool-use content of an assembled tool call, its input normalised.
pub open spec fn slot_content(c: CallSlot) -> ResponseContentView {
    ResponseContentView::ToolUse { id: c.id, name: c.name, input: tool_input_text(c.args) }
}

/// The response a finished stream stands for: its text, when there is any,
/// then the tool calls in order of position with normalised inputs; the
/// recorded stop reason; no usage figures.
pub open spec fn assembled_response(st: AssemblyView) -> ModelResponseView {
    ModelResponseView {
        id: st.response_id,
        content: (if st.text.len() > 0 {
            seq![ResponseContentView::Text(st.text)]
        } else {
            Seq::<ResponseContentView>::empty()
        }) + in_order(st.calls.dom()).map_values(|k: u32| slot_content(st.calls[k])),
        stop_reason: st.finish,
        usage: Usage {
            input_tokens: 0,
            output_tokens: 0,
            cache_creation_input_tokens: None,
            cache_read_input_tokens: None,
        },
    }
}

struct CallAccum {
    id: String,
    name: String,
    args: String,
    started: bool,
}

/// Turns streamed chat chunks into stream events and, at the end, the complete
/// response.
pub struct StreamAssembler {
    response_id: String,
    text: String,
    text_started: bool,
    /// The tool calls, by position.
    calls: HashMap<u32, CallAccum>,
    /// The positions of the tool calls, in increasing order.
    order: Vec<u32>,
    finish: Option<StopReason>,
}

impl View for StreamAssembler {
    type V = AssemblyView;

    closed spec fn view(&self) -> AssemblyView {
        AssemblyView {
            response_id: self.response_id@,
            text: self.text@,
            text_started: self.text_started,
            calls: self.calls@.map_values(
                |c: CallAccum| CallSlot { id: c.id@, name: c.name@, args: c.args@, started: c.started },
            ),
            finish: self.finish,
        }
    }
}

impl StreamAssembler {
    /// The positions of the tool calls are kept listed in increasing order.
    pub closed spec fn well_formed(&self) -> bool {
        lists_in_order(self.order@, self.calls@.dom())
    }

    /// An assembler that has seen nothing.
    pub fn new() -> (a: Self)
        ensures
            a.well_formed(),
            a@ == (AssemblyView {
                response_id: Seq::empty(),
                text: Seq::empty(),
                text_started: false,
                calls: Map::empty(),
                finish: None,
            }),
    {
        let a = StreamAssembler {
            response_id: String::new(),
            text: String::new(),
            text_started: false,
            calls: HashMap::new(),
            order: Vec::new(),
            finish: None,
        };
        proof {
            assert(a@.calls =~= Map::<u32, CallSlot>::empty());
            assert(a.order@.to_set() =~= a.calls@.dom());
        }
        a
    }

    fn take_tool_call(&mut self, tc: &ChunkToolCall, events: &mut Vec<StreamEvent>)
        requires
            old(self).well_formed(),
        ensures
            final(self).well_formed(),
            (final(self)@, events_view(final(events)@)) == ({
                let (s, e) = tool_call_step(old(self)@, tc@);
                (s, events_view(old(events)@) + e)
            }),
    {
        let ghost st = self@;
        let ghost old_events = events_view(events@);
        let ghost old_calls = self.calls@;
        let ghost old_order = self.order@;
        let (mut id, mut name, mut args, mut started, present) = match self.calls.get(&tc.index) {
            Some(c) => (c.id.clone(), c.name.clone(), c.args.clone(), c.started, true),
            None => (String::new(), String::new(), String::new(), false, false),
        };
        proof {
            assert(present == st.calls.contains_key(tc.index));
            let base = if st.calls.contains_key(tc.index) {
                st.calls[tc.index]
            } else {
                empty_slot()
            };
            assert(id@ == base.id && name@ == base.name && args@ == base.args && started == base.started);
        }
        match &tc.id {
            Some(i) => {
                id = i.clone();
            },
            None => {},
        }
        match &tc.name {
            Some(nm) => {
                name = nm.clone();
            },
            None => {},
        }
        let b = tool_block_index_of(tc.index);
        match &tc.arguments {
            Some(a) => {
                push_str(&mut args, a.as_str());
                if !started {
                    let ghost prev = events_view(events@);
                    events.push(
                        StreamEvent::ContentBlockStart {
                            index: b,
                            content: ResponseContent::ToolUse {
                                id: id.clone(),
                                name: name.clone(),
                                input: String::from_str("{}"),
                            },
                        },
                    );
                    proof {
                        assert(events_view(events@) =~= prev.push(
                            StreamEventView::ContentBlockStart {
                                index: b,
                                content: ResponseContentView::ToolUse { id: id@, name: name@, input: "{}"@ },
                            },
                        ));
                    }
                }
                started = true;
                if a.as_str().unicode_len() > 0 {
                    let ghost prev = events_view(events@);
                    events.push(StreamEvent::InputJsonDelta { index: b, partial_json: a.clone() });
                    proof {
                        assert(events_view(events@) =~= prev.push(
                            StreamEventView::InputJsonDelta { index: b, partial_json: a@ },
                        ));
                    }
                }
            },
            None => {},
        }
        let slot = CallAccum { id, name, args, started };
        let ghost sv = CallSlot { id: slot.id@, name: slot.name@, args: slot.args@, started: slot.started };
        self.calls.insert(tc.index, slot);
        proof {
            assert(self@.calls =~= st.calls.insert(tc.index, sv));
        }
        if !present {
            let n = self.order.len();
            let mut p: usize = 0;
            while p < n && self.order[p] < tc.index
                invariant
                    n == self.order@.len(),
                    self.order@ == old_order,
                    p <= n,
                    forall|k: int| 0 <= k < p ==> (#[trigger] old_order[k]) < tc.index,
                decreases n - p,
            {
                p = p + 1;
            }
            self.order.insert(p, tc.index);
            proof {
                let q = self.order@;
                assert(q =~= old_order.insert(p as int, tc.index));
                assert(!old_order.contains(tc.index)) by {
                    if old_order.contains(tc.index) {
                        assert(old_order.to_set().contains(tc.index));
                    }
                }
                assert forall|k: int| p <= k < old_order.len() implies (#[trigger] old_order[k]) > tc.index by {
                    assert(old_order[p as int] >= tc.index);
                    if k > p {
                        assert(old_order[p as int] < old_order[k]);
                    }
                    assert(old_order[k] != tc.index) by {
                        if old_order[k] == tc.index {
                            assert(old_order.contains(tc.index));
                        }
                    }
                }
                assert forall|a: int, c: int| 0 <= a < c < q.len() implies q[a] < q[c] by {
                    if c < p {
                        assert(q[a] == old_order[a] && q[c] == old_order[c]);
                    } else if c == p {
                        assert(q[a] == old_order[a]);
                    } else if a < p {
                        assert(q[a] == old_order[a] && q[c] == old_order[c - 1]);
                    } else if a == p {
                        assert(q[c] == old_order[c - 1]);
                    } else {
                        assert(q[a] == old_order[a - 1] && q[c] == old_order[c - 1]);
                    }
                }
                assert forall|x: u32| q.contains(x) <==> self.calls@.dom().contains(x) by {
                    if q.contains(x) {
                        let i = choose|i: int| 0 <= i < q.len() && q[i] == x;
                        if i < p {
                            assert(old_order[i] == x);
                            assert(old_order.to_set().contains(x));
                        } else if i > p {
                            assert(old_order[i - 1] == x);
                            assert(old_order.to_set().contains(x));
                        }
                    }
                    if self.calls@.dom().contains(x) && x != tc.index {
                        assert(old_order.to_set().contains(x));
                        let i = choose|i: int| 0 <= i < old_order.len() && old_order[i] == x;
                        if i < p {
                            assert(q[i] == x);
                        } else {
                            assert(q[i + 1] == x);
                        }
                    }
                    if x == tc.index {
                        assert(q[p as int] == x);
                    }
                }
                assert(q.to_set() =~= self.calls@.dom());
            }
        } else {
            proof {
                assert(self.calls@.dom() =~= old_calls.dom());
            }
        }
        proof {
            let (s2, e2) = tool_call_step(st, tc@);
            assert(self@ == s2);
            assert(events_view(events@) =~= old_events + e2);
        }
    }

    fn take_choice(&mut self, choice: &ChunkChoice, events: &mut Vec<StreamEvent>)
        requires
            old(self).well_formed(),
        ensures
            final(self).well_formed(),
            (final(self)@, events_view(final(events)@)) == ({
                let (s, e) = choice_step(
                    old(self)@,
                    opt_view(choice.content),
                    choice.tool_calls@.map_values(|t: ChunkToolCall| t@),
                    choice.finish_reason,
                );
                (s, events_view(old(events)@) + e)
            }),
    {
        let ghost st = self@;
        let ghost ev0 = events_view(events@);
        match &choice.content {
            Some(c) => {
                if c.as_str().unicode_len() > 0 {
                    if !self.text_started {
                        self.text_started = true;
                        events.push(
                            StreamEvent::ContentBlockStart { index: 0, content: ResponseContent::Text(String::new()) },
                        );
                    }
                    push_str(&mut self.text, c.as_str());
                    self.text_started = true;
                    events.push(StreamEvent::TextDelta { index: 0, text: c.clone() });
                }
            },
            None => {},
        }
        let ghost s1 = self@;
        let ghost ev1 = events_view(events@);
        proof {
            let (a1, b1) = match opt_view(choice.content) {
                Some(c) => if c.len() > 0 {
                    (
                        AssemblyView { text: st.text + c, text_started: true, ..st },
                        (if st.text_started {
                            Seq::<StreamEventView>::empty()
                        } else {
                            seq![
                                StreamEventView::ContentBlockStart {
                                    index: 0,
                                    content: ResponseContentView::Text(Seq::empty()),
                                },
                            ]
                        }).push(StreamEventView::TextDelta { index: 0, text: c }),
                    )
                } else {
                    (st, Seq::empty())
                },
                None => (st, Seq::empty()),
            };
            assert(s1.calls =~= a1.calls);
            assert(s1 == a1);
            assert(ev1 =~= ev0 + b1);
        }
        let ghost tcs = choice.tool_calls@.map_values(|t: ChunkToolCall| t@);
        let mut i: usize = 0;
        while i < choice.tool_calls.len()
            invariant
                i <= choice.tool_calls@.len(),
                tcs == choice.tool_calls@.map_values(|t: ChunkToolCall| t@),
                self.well_formed(),
                ({
                    let (s, e) = tool_calls_step(s1, tcs.take(i as int));
                    self@ == s && events_view(events@) == ev1 + e
                }),
            decreases choice.tool_calls@.len() - i,
        {
            let ghost before_ev = events_view(events@);
            self.take_tool_call(&choice.tool_calls[i], events);
            proof {
                assert(tcs.take(i + 1).drop_last() =~= tcs.take(i as int));
                assert(tcs.take(i + 1).last() == choice.tool_calls@[i as int]@);
                let (sa, ea) = tool_calls_step(s1, tcs.take(i as int));
                let (sb, eb) = tool_call_step(sa, choice.tool_calls@[i as int]@);
                assert(events_view(events@) =~= ev1 + (ea + eb));
            }
            i = i + 1;
        }
        proof {
            assert(tcs.take(choice.tool_calls@.len() as int) =~= tcs);
        }
        match choice.finish_reason {
            Some(f) => {
                self.finish = Some(stop_reason_for(f));
            },
            None => {},
        }
        proof {
            let (s2, e2) = tool_calls_step(s1, tcs);
            assert(events_view(events@) =~= ev0 + (events_view(events@).subrange(ev0.len() as int, ev1.len() as int) + e2));
        }
    }

    /// Takes in one streamed chunk and returns the events it gives rise to (see
    /// [`chunk_step`]).
    pub fn on_chunk(&mut self, chunk: &ChatChunk) -> (events: Vec<StreamEvent>)
        requires
            old(self).well_formed(),
        ensures
            final(self).well_formed(),
            (final(self)@, events_view(events@)) == chunk_step(old(self)@, chunk),
    {
        let mut events: Vec<StreamEvent> = Vec::new();
        if self.response_id.as_str().unicode_len() == 0 {
            self.response_id = chunk.id.clone();
        }
        let ghost s0 = self@;
        proof {
            assert(events_view(events@) =~= Seq::<StreamEventView>::empty());
        }
        let mut i: usize = 0;
        while i < chunk.choices.len()
            invariant
                i <= chunk.choices@.len(),
                self.well_formed(),
                ({
                    let (s, e) = choices_step(s0, chunk.choices@.take(i as int));
                    self@ == s && events_view(events@) == e
                }),
            decreases chunk.choices@.len() - i,
        {
            self.take_choice(&chunk.choices[i], &mut events);
            proof {
                assert(chunk.choices@.take(i + 1).drop_last() =~= chunk.choices@.take(i as int));
                assert(chunk.choices@.take(i + 1).last() == chunk.choices@[i as int]);
            }
            i = i + 1;
        }
        proof {
            assert(chunk.choices@.take(chunk.choices@.len() as int) =~= chunk.choices@);
        }
        events
    }

    /// The final event of the stream: the complete response (see
    /// [`assembled_response`]).
    pub fn finish(self) -> (e: StreamEvent)
        requires
            self.well_formed(),
        ensures
            e@ == (StreamEventView::MessageDone { response: assembled_response(self@) }),
    {
        let ghost st = self@;
        let mut content: Vec<ResponseContent> = Vec::new();
        if self.text.as_str().unicode_len() > 0 {
            content.push(ResponseContent::Text(self.text));
        }
        let ghost head = response_contents_view(content@);
        proof {
            assert(head =~= (if st.text.len() > 0 {
                seq![ResponseContentView::Text(st.text)]
            } else {
                Seq::<ResponseContentView>::empty()
            }));
        }
        proof {
            let q = choose|q: Seq<u32>| lists_in_order(q, st.calls.dom());
            assert(self.calls@.dom() =~= st.calls.dom());
            assert(lists_in_order(self.order@, st.calls.dom()));
            lemma_lists_in_order_unique(self.order@, q, st.calls.dom());
        }
        let ghost keys = self.order@;
        let mut i: usize = 0;
        while i < self.order.len()
            invariant
                keys == self.order@,
                keys == in_order(st.calls.dom()),
                keys.to_set() == self.calls@.dom(),
                st.calls == self.calls@.map_values(
                    |c: CallAccum| CallSlot { id: c.id@, name: c.name@, args: c.args@, started: c.started },
                ),
                i <= keys.len(),
                response_contents_view(content@) == head + keys.take(i as int).map_values(
                    |k: u32| slot_content(st.calls[k]),
                ),
            decreases keys.len() - i,
        {
            let k = self.order[i];
            proof {
                assert(keys.to_set().contains(k));
            }
            let ghost prev = response_contents_view(content@);
            match self.calls.get(&k) {
                Some(c) => {
                    content.push(
                        ResponseContent::ToolUse {
                            id: c.id.clone(),
                            name: c.name.clone(),
                            input: tool_input_from_json(c.args.as_str()),
                        },
                    );
                },
                None => {},
            }
            proof {
                assert(keys.take(i + 1) =~= keys.take(i as int).push(k));
                assert(response_contents_view(content@) =~= prev.push(slot_content(st.calls[k])));
                assert(response_contents_view(content@) =~= head + keys.take(i + 1).map_values(
                    |k: u32| slot_content(st.calls[k]),
                ));
            }
            i = i + 1;
        }
        proof {
            assert(keys.take(keys.len() as int) =~= keys);
            assert(response_contents_view(content@) =~= assembled_response(st).content);
        }
        let e = StreamEvent::MessageDone {
            response: ModelResponse {
                id: self.response_id,
                content,
                stop_reason: self.finish,
                usage: Usage {
                    input_tokens: 0,
                    output_tokens: 0,
                    cache_creation_input_tokens: None,
                    cache_read_input_tokens: None,
                },
            },
        };
        proof {
            assert(e@ == (StreamEventView::MessageDone { response: assembled_response(st) }));
        }
        e
    }
}

/// A tool call in a complete chat response: a function call, or a kind the
/// runtime does not use.
#[derive(Clone, Debug)]
pub enum CompletionToolCall {
    Function { id: String, name: String, arguments: String },
    Other,
}

/// A choice of a complete chat response.
#[derive(Clone, Debug)]
pub struct CompletionChoice {
    pub content: Option<String>,
    pub tool_calls: Option<Vec<CompletionToolCall>>,
    /// Why the model stopped, when the server says.
    pub finish_reason: Option<FinishKind>,
}

/// Token counts of a complete chat response.
#[derive(Clone, Copy, Debug)]
pub struct CompletionUsage {
    pub prompt_tokens: u32,
    pub completion_tokens: u32,
}

/// A complete (non-streamed) chat response.
#[derive(Clone, Debug)]
pub struct Completion {
    pub id: String,
    pub choices: Vec<CompletionChoice>,
    pub usage: Option<CompletionUsage>,
}

/// The tool-use blocks for a response's function calls, in order, inputs
/// normalised; other kinds of call are skipped.
pub open spec fn completion_tool_uses(calls: Seq<CompletionToolCall>) -> Seq<ResponseContentView>
    decreases calls.len(),
{
    if calls.len() == 0 {
        Seq::empty()
    } else {
        let rest = completion_tool_uses(calls.drop_last());
        match calls.last() {
            CompletionToolCall::Function { id, name, arguments } => rest.push(
                ResponseContentView::ToolUse { id: id@, name: name@, input: tool_input_text(arguments@) },
            ),
            CompletionToolCall::Other => rest,
        }
    }
}

/// The content read from the first choice: its text, when non-empty, then its
/// function calls.
pub open spec fn completion_content(c: &Completion) -> Seq<ResponseContentView> {
    if c.choices@.len() == 0 {
        Seq::empty()
    } else {
        let ch = c.choices@[0];
        (match ch.content {
            Some(t) => if t@.len() > 0 {
                seq![ResponseContentView::Text(t@)]
            } else {
                Seq::<ResponseContentView>::empty()
            },
            None => Seq::<ResponseContentView>::empty(),
        }) + match ch.tool_calls {
            Some(calls) => completion_tool_uses(calls@),
            None => Seq::<ResponseContentView>::empty(),
        }
    }
}

/// The stop reason of a complete response: the first choice's finish reason
/// mapped as for a stream (see [`stop_reason_of`]), and the end of the turn
/// when the server gives none.
pub open spec fn completion_stop_reason(c: &Completion) -> StopReason {
    if c.choices@.len() == 0 {
        StopReason::EndTurn
    } else {
        match c.choices@[0].finish_reason {
            Some(f) => stop_reason_of(f),
            None => StopReason::EndTurn,
        }
    }
}

/// Reads a complete chat response: the first choice's content (see
/// [`completion_content`]), its stop reason (see [`completion_stop_reason`])
/// and the reported token counts (zero when absent).
pub fn response_from_completion(c: Completion) -> (r: ModelResponse)
    ensures
        r@.id == c.id@,
        r@.content == completion_content(&c),
        r.stop_reason == Some(completion_stop_reason(&c)),
        match c.usage {
            Some(u) => r.usage.input_tokens == u.prompt_tokens as usize && r.usage.output_tokens
                == u.completion_tokens as usize,
            None => r.usage.input_tokens == 0 && r.usage.output_tokens == 0,
        },
        r.usage.cache_creation_input_tokens is None,
        r.usage.cache_read_input_tokens is None,
{
    let ghost want = completion_content(&c);
    let stop = if c.choices.len() > 0 {
        match c.choices[0].finish_reason {
            Some(f) => stop_reason_for(f),
            None => StopReason::EndTurn,
        }
    } else {
        StopReason::EndTurn
    };
    let mut content: Vec<ResponseContent> = Vec::new();
    if c.choices.len() > 0 {
        let ch = &c.choices[0];
        match &ch.content {
            Some(t) => {
                if t.as_str().unicode_len() > 0 {
                    content.push(ResponseContent::Text(t.clone()));
                }
            },
            None => {},
        }
        let ghost head = response_contents_view(content@);
        match &ch.tool_calls {
            Some(calls) => {
                let mut i: usize = 0;
                while i < calls.len()
                    invariant
                        i <= calls@.len(),
                        response_contents_view(content@) == head + completion_tool_uses(calls@.take(i as int)),
                    decreases calls@.len() - i,
                {
                    proof {
                        assert(calls@.take(i + 1).drop_last() =~= calls@.take(i as int));
                        assert(calls@.take(i + 1).last() == calls@[i as int]);
                    }
                    let ghost prev = response_contents_view(content@);
                    match &calls[i] {
                        CompletionToolCall::Function { id, name, arguments } => {
                            content.push(
                                ResponseContent::ToolUse {
                                    id: id.clone(),
                                    name: name.clone(),
                                    input: tool_input_from_json(arguments.as_str()),
                                },
                            );
                            proof {
                                assert(response_contents_view(content@) =~= prev.push(
                                    ResponseContentView::ToolUse {
                                        id: id@,
                                        name: name@,
                                        input: tool_input_text(arguments@),
                                    },
                                ));
                            }
                        },
                        CompletionToolCall::Other => {},
                    }
                    i = i + 1;
                }
                proof {
                    assert(calls@.take(calls@.len() as int) =~= calls@);
                }
            },
            None => {},
        }
        proof {
            assert(response_contents_view(content@) =~= want);
        }
    } else {
        proof {
            assert(response_contents_view(content@) =~= want);
        }
    }
    let usage = match c.usage {
        Some(u) => Usage {
            input_tokens: u.prompt_tokens as usize,
            output_tokens: u.completion_tokens as usize,
            cache_creation_input_tokens: None,
            cache_read_input_tokens: None,
        },
        None => Usage {
            input_tokens: 0,
            output_tokens: 0,
            cache_creation_input_tokens: None,
            cache_read_input_tokens: None,
        },
    };
    ModelResponse { id: c.id, content, stop_reason: Some(stop), usage }
}

/// A tool call's block is started once: a piece for a call whose block was
/// already started gives no start event, and the call stays started.
pub proof fn law_tool_block_started_once(st: AssemblyView, tc: ChunkToolCallView)
    requires
        st.calls.contains_key(tc.index),
        st.calls[tc.index].started,
    ensures
        forall|j: int| 0 <= j < tool_call_step(st, tc).1.len() ==> !(#[trigger] tool_call_step(st, tc).1[j] is ContentBlockStart),
        tool_call_step(st, tc).0.calls.dom() == st.calls.dom(),
        tool_call_step(st, tc).0.calls[tc.index].started,
{
    assert(tool_call_step(st, tc).0.calls.dom() =~= st.calls.dom());
}

/// Text pieces accumulate: taking in a choice appends its content, when
/// non-empty, to the assembled text, and the text block is started once.
pub proof fn law_text_accumulates(st: AssemblyView, c: Seq<char>, tcs: Seq<ChunkToolCallView>, f: Option<FinishKind>)
    requires
        c.len() > 0,
    ensures
        choice_step(st, Some(c), tcs, f).0.text == st.text + c,
        choice_step(st, Some(c), tcs, f).0.text_started,
        st.text_started ==> choice_step(st, Some(c), tcs, f).1[0] == (StreamEventView::TextDelta { index: 0, text: c }),
{
    lemma_tool_calls_keep_text(AssemblyView { text: st.text + c, text_started: true, ..st }, tcs);
}

proof fn lemma_tool_calls_keep_text(st: AssemblyView, tcs: Seq<ChunkToolCallView>)
    ensures
        tool_calls_step(st, tcs).0.text == st.text,
        tool_calls_step(st, tcs).0.text_started == st.text_started,
    decreases tcs.len(),
{
    if tcs.len() > 0 {
        lemma_tool_calls_keep_text(st, tcs.drop_last());
    }
}

/// The tool-use blocks among `blocks`, in order.
pub open spec fn tool_use_blocks(blocks: Seq<RequestContentView>) -> Seq<RequestContentView> {
    blocks.filter(|b: RequestContentView| b is ToolUse)
}

proof fn lemma_chat_tool_calls_per_use(blocks: Seq<RequestContentView>)
    ensures
        chat_tool_calls(blocks).len() == tool_use_blocks(blocks).len(),
        forall|j: int| 0 <= j < tool_use_blocks(blocks).len() ==> {
            let u = #[trigger] tool_use_blocks(blocks)[j];
            &&& u is ToolUse
            &&& chat_tool_calls(blocks)[j] == (ChatToolCallView {
                id: u->ToolUse_id,
                name: u->ToolUse_name,
                arguments: tool_input_text(u->ToolUse_input),
            })
        },
    decreases blocks.len(),
{
    reveal(Seq::filter);
    if blocks.len() > 0 {
        lemma_chat_tool_calls_per_use(blocks.drop_last());
    }
}

/// An assistant message keeps every tool call: its chat message carries
/// exactly one tool call per tool-use block, in block order, with the block's
/// id, name and normalised input, and carries none only when the message has
/// no tool-use block.
pub proof fn law_assistant_keeps_every_tool_call(m: RequestMessageView)
    requires
        m.role == "assistant"@,
    ensures
        chat_for_message(m).len() == 1,
        chat_for_message(m)[0] is Assistant,
        (chat_for_message(m)[0]->Assistant_tool_calls is None) <==> tool_use_blocks(m.content).len() == 0,
        chat_for_message(m)[0]->Assistant_tool_calls matches Some(calls) ==> {
            &&& calls.len() == tool_use_blocks(m.content).len()
            &&& forall|j: int| 0 <= j < calls.len() ==> {
                let u = #[trigger] tool_use_blocks(m.content)[j];
                &&& u is ToolUse
                &&& calls[j].id == u->ToolUse_id
                &&& calls[j].name == u->ToolUse_name
                &&& calls[j].arguments == tool_input_text(u->ToolUse_input)
            }
        },
{
    lemma_chat_tool_calls_per_use(m.content);
}

/// The function calls among a choice's tool calls, in order.
pub open spec fn function_calls(calls: Seq<CompletionToolCall>) -> Seq<CompletionToolCall> {
    calls.filter(|c: CompletionToolCall| c is Function)
}

proof fn lemma_completion_tool_uses_per_call(calls: Seq<CompletionToolCall>)
    ensures
        completion_tool_uses(calls).len() == function_calls(calls).len(),
        forall|j: int| 0 <= j < function_calls(calls).len() ==> {
            let f = #[trigger] function_calls(calls)[j];
            &&& f is Function
            &&& completion_tool_uses(calls)[j] == (ResponseContentView::ToolUse {
                id: f->id@,
                name: f->name@,
                input: tool_input_text(f->arguments@),
            })
        },
    decreases calls.len(),
{
    reveal(Seq::filter);
    if calls.len() > 0 {
        lemma_completion_tool_uses_per_call(calls.drop_last());
    }
}

/// A complete response keeps every function call of its first choice: after
/// the text block (present exactly when the choice has non-empty text), the
/// content has one tool-use block per function call, in order, with the
/// call's id, name and normalised arguments, and nothing else.
pub proof fn law_completion_keeps_every_tool_call(c: &Completion)
    requires
        c.choices@.len() > 0,
    ensures
        ({
            let ch = c.choices@[0];
            let has_text = ch.content matches Some(t) && t@.len() > 0;
            let lead: int = if has_text { 1 } else { 0 };
            let fns = function_calls(
                match ch.tool_calls {
                    Some(v) => v@,
                    None => Seq::<CompletionToolCall>::empty(),
                },
            );
            &&& completion_content(c).len() == lead + fns.len()
            &&& has_text ==> completion_content(c)[0] == ResponseContentView::Text(ch.content->0@)
            &&& forall|j: int| 0 <= j < fns.len() ==> {
                let f = #[trigger] fns[j];
                &&& f is Function
                &&& completion_content(c)[lead + j] == (ResponseContentView::ToolUse {
                    id: f->id@,
                    name: f->name@,
                    input: tool_input_text(f->arguments@),
                })
            }
        }),
{
    let ch = c.choices@[0];
    let calls = match ch.tool_calls {
        Some(v) => v@,
        None => Seq::<CompletionToolCall>::empty(),
    };
    lemma_completion_tool_uses_per_call(calls);
    if ch.tool_calls is None {
        assert(completion_tool_uses(calls) =~= Seq::<ResponseContentView>::empty());
    }
}

} // verus!
