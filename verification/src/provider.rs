//! The provider-neutral wire model: requests, responses and stream events.
use vstd::prelude::*;

verus! {

/// Token usage statistics.
#[derive(Clone, Copy, Debug)]
pub struct Usage {
    pub input_tokens: usize,
    pub output_tokens: usize,
    pub cache_creation_input_tokens: Option<usize>,
    pub cache_read_input_tokens: Option<usize>,
}

impl Default for Usage {
    fn default() -> (u: Self)
        ensures
            u.input_tokens == 0,
            u.output_tokens == 0,
            u.cache_creation_input_tokens is None,
            u.cache_read_input_tokens is None,
    {
        Usage {
            input_tokens: 0,
            output_tokens: 0,
            cache_creation_input_tokens: None,
            cache_read_input_tokens: None,
        }
    }
}

/// Why the model stopped generating.
#[derive(Clone, Copy, Debug, PartialEq, Eq, Structural)]
pub enum StopReason {
    EndTurn,
    ToolUse,
    MaxTokens,
    StopSequence,
}

/// A content block in the model's response. A tool call's input is held as
/// its JSON text.
#[derive(Clone, Debug)]
pub enum ResponseContent {
    Text(String),
    ToolUse { id: String, name: String, input: String },
}

/// The abstract value of a [`ResponseContent`].
pub enum ResponseContentView {
    Text(Seq<char>),
    ToolUse { id: Seq<char>, name: Seq<char>, input: Seq<char> },
}

impl View for ResponseContent {
    type V = ResponseContentView;

    open spec fn view(&self) -> ResponseContentView {
        match self {
            ResponseContent::Text(t) => ResponseContentView::Text(t@),
            ResponseContent::ToolUse { id, name, input } => ResponseContentView::ToolUse {
                id: id@,
                name: name@,
                input: input@,
            },
        }
    }
}

/// The abstract value of a sequence of response blocks.
pub open spec fn response_contents_view(c: Seq<ResponseContent>) -> Seq<ResponseContentView> {
    c.map_values(|b: ResponseContent| b@)
}

/// Complete model response (non-streaming).
#[derive(Clone, Debug)]
pub struct ModelResponse {
    pub id: String,
    pub content: Vec<ResponseContent>,
    pub stop_reason: Option<StopReason>,
    pub usage: Usage,
}

/// The abstract value of a [`ModelResponse`].
pub struct ModelResponseView {
    pub id: Seq<char>,
    pub content: Seq<ResponseContentView>,
    pub stop_reason: Option<StopReason>,
    pub usage: Usage,
}

impl View for ModelResponse {
    type V = ModelResponseView;

    open spec fn view(&self) -> ModelResponseView {
        ModelResponseView {
            id: self.id@,
            content: response_contents_view(self.content@),
            stop_reason: self.stop_reason,
            usage: self.usage,
        }
    }
}

/// The abstract value of a [`StreamEvent`].
pub enum StreamEventView {
    ContentBlockStart { index: usize, content: ResponseContentView },
    TextDelta { index: usize, text: Seq<char> },
    InputJsonDelta { index: usize, partial_json: Seq<char> },
    ContentBlockStop { index: usize },
    MessageDone { response: ModelResponseView },
    UsageDelta(Usage),
}

impl View for StreamEvent {
    type V = StreamEventView;

    open spec fn view(&self) -> StreamEventView {
        match self {
            StreamEvent::ContentBlockStart { index, content } => StreamEventView::ContentBlockStart {
                index: *index,
                content: content@,
            },
            StreamEvent::TextDelta { index, text } => StreamEventView::TextDelta { index: *index, text: text@ },
            StreamEvent::InputJsonDelta { index, partial_json } => StreamEventView::InputJsonDelta {
                index: *index,
                partial_json: partial_json@,
            },
            StreamEvent::ContentBlockStop { index } => StreamEventView::ContentBlockStop { index: *index },
            StreamEvent::MessageDone { response } => StreamEventView::MessageDone { response: response@ },
            StreamEvent::UsageDelta(u) => StreamEventView::UsageDelta(*u),
        }
    }
}

/// The abstract values of a sequence of stream events.
pub open spec fn events_view(e: Seq<StreamEvent>) -> Seq<StreamEventView> {
    e.map_values(|x: StreamEvent| x@)
}

/// Incremental events emitted during streaming.
#[derive(Clone, Debug)]
pub enum StreamEvent {
    /// Start of a new content block.
    ContentBlockStart { index: usize, content: ResponseContent },
    /// Incremental text delta.
    TextDelta { index: usize, text: String },
    /// Incremental JSON delta for tool input.
    InputJsonDelta { index: usize, partial_json: String },
    /// A content block is complete.
    ContentBlockStop { index: usize },
    /// The full message is complete.
    MessageDone { response: ModelResponse },
    /// Usage update mid-stream.
    UsageDelta(Usage),
}

/// A tool offered to the model; the input schema is held as JSON text.
#[derive(Clone, Debug)]
pub struct ToolDefinition {
    pub name: String,
    pub description: String,
    pub input_schema: String,
}

/// A content block of a request message.
#[derive(Clone, Debug)]
pub enum RequestContent {
    Text { text: String },
    ToolUse { id: String, name: String, input: String },
    ToolResult { tool_use_id: String, content: String, is_error: bool },
}

/// The abstract value of a [`RequestContent`].
pub enum RequestContentView {
    Text { text: Seq<char> },
    ToolUse { id: Seq<char>, name: Seq<char>, input: Seq<char> },
    ToolResult { tool_use_id: Seq<char>, content: Seq<char>, is_error: bool },
}

impl View for RequestContent {
    type V = RequestContentView;

    open spec fn view(&self) -> RequestContentView {
        match self {
            RequestContent::Text { text } => RequestContentView::Text { text: text@ },
            RequestContent::ToolUse { id, name, input } => RequestContentView::ToolUse {
                id: id@,
                name: name@,
                input: input@,
            },
            RequestContent::ToolResult { tool_use_id, content, is_error } =>
                RequestContentView::ToolResult {
                tool_use_id: tool_use_id@,
                content: content@,
                is_error: *is_error,
            },
        }
    }
}

/// A message of a model request: its role (`"user"` or `"assistant"`) and blocks.
#[derive(Clone, Debug)]
pub struct RequestMessage {
    pub role: String,
    pub content: Vec<RequestContent>,
}

/// The abstract value of a [`RequestMessage`].
pub struct RequestMessageView {
    pub role: Seq<char>,
    pub content: Seq<RequestContentView>,
}

impl View for RequestMessage {
    type V = RequestMessageView;

    open spec fn view(&self) -> RequestMessageView {
        RequestMessageView {
            role: self.role@,
            content: self.content@.map_values(|c: RequestContent| c@),
        }
    }
}

/// The abstract value of a [`ToolDefinition`].
pub struct ToolDefinitionView {
    pub name: Seq<char>,
    pub description: Seq<char>,
    pub input_schema: Seq<char>,
}

impl View for ToolDefinition {
    type V = ToolDefinitionView;

    open spec fn view(&self) -> ToolDefinitionView {
        ToolDefinitionView {
            name: self.name@,
            description: self.description@,
            input_schema: self.input_schema@,
        }
    }
}

/// The abstract value of a [`ModelRequest`].
pub struct ModelRequestView {
    pub model: Seq<char>,
    pub system: Option<Seq<char>>,
    pub messages: Seq<RequestMessageView>,
    pub max_tokens: usize,
    pub tools: Option<Seq<ToolDefinitionView>>,
}

impl View for ModelRequest {
    type V = ModelRequestView;

    open spec fn view(&self) -> ModelRequestView {
        ModelRequestView {
            model: self.model@,
            system: match self.system {
                Some(s) => Some(s@),
                None => None,
            },
            messages: self.messages@.map_values(|m: RequestMessage| m@),
            max_tokens: self.max_tokens,
            tools: match self.tools {
                Some(t) => Some(t@.map_values(|d: ToolDefinition| d@)),
                None => None,
            },
        }
    }
}

/// A request to a model.
#[derive(Clone, Debug)]
pub struct ModelRequest {
    pub model: String,
    pub system: Option<String>,
    pub messages: Vec<RequestMessage>,
    pub max_tokens: usize,
    pub tools: Option<Vec<ToolDefinition>>,
}

} // verus!
