//! Conversation messages as the runtime keeps them.
use vstd::prelude::*;
use crate::provider::{RequestContent, RequestContentView, RequestMessage, RequestMessageView};

verus! {

broadcast use vstd::string::group_string_axioms;

/// Who sent a message.
#[derive(Clone, Copy, Debug, PartialEq, Eq, Structural)]
pub enum Role {
    User,
    Assistant,
}

/// A block of a message. A tool call's input is held as its JSON text.
#[derive(Clone, Debug)]
pub enum ContentBlock {
    Text { text: String },
    ToolUse { id: String, name: String, input: String },
    ToolResult { tool_use_id: String, content: String, is_error: bool },
}

/// The abstract value of a [`ContentBlock`].
pub enum ContentBlockView {
    Text { text: Seq<char> },
    ToolUse { id: Seq<char>, name: Seq<char>, input: Seq<char> },
    ToolResult { tool_use_id: Seq<char>, content: Seq<char>, is_error: bool },
}

impl View for ContentBlock {
    type V = ContentBlockView;

    open spec fn view(&self) -> ContentBlockView {
        match self {
            ContentBlock::Text { text } => ContentBlockView::Text { text: text@ },
            ContentBlock::ToolUse { id, name, input } => ContentBlockView::ToolUse {
                id: id@,
                name: name@,
                input: input@,
            },
            ContentBlock::ToolResult { tool_use_id, content, is_error } =>
                ContentBlockView::ToolResult {
                tool_use_id: tool_use_id@,
                content: content@,
                is_error: *is_error,
            },
        }
    }
}

/// A message of the conversation.
#[derive(Clone, Debug)]
pub struct Message {
    pub role: Role,
    pub content: Vec<ContentBlock>,
}

/// The abstract value of a [`Message`].
pub struct MessageView {
    pub role: Role,
    pub content: Seq<ContentBlockView>,
}

impl View for Message {
    type V = MessageView;

    open spec fn view(&self) -> MessageView {
        MessageView { role: self.role, content: blocks_view(self.content@) }
    }
}

/// The abstract values of a sequence of blocks.
pub open spec fn blocks_view(blocks: Seq<ContentBlock>) -> Seq<ContentBlockView> {
    blocks.map_values(|b: ContentBlock| b@)
}

/// The abstract values of a sequence of messages.
pub open spec fn messages_view(messages: Seq<Message>) -> Seq<MessageView> {
    messages.map_values(|m: Message| m@)
}

/// The wire name of a role.
pub open spec fn role_text(role: Role) -> Seq<char> {
    match role {
        Role::User => "user"@,
        Role::Assistant => "assistant"@,
    }
}

/// The request block that stands for a message block: the same variant with
/// the same fields.
pub open spec fn request_block(b: ContentBlockView) -> RequestContentView {
    match b {
        ContentBlockView::Text { text } => RequestContentView::Text { text },
        ContentBlockView::ToolUse { id, name, input } => RequestContentView::ToolUse { id, name, input },
        ContentBlockView::ToolResult { tool_use_id, content, is_error } =>
            RequestContentView::ToolResult { tool_use_id, content, is_error },
    }
}

/// The request message that stands for a message.
pub open spec fn request_message(m: MessageView) -> RequestMessageView {
    RequestMessageView {
        role: role_text(m.role),
        content: m.content.map_values(|b: ContentBlockView| request_block(b)),
    }
}

fn clone_text(s: &String) -> (r: String)
    ensures
        r@ == s@,
{
    s.clone()
}

impl ContentBlock {
    /// The request block for this block.
    pub fn to_request_content(&self) -> (r: RequestContent)
        ensures
            r@ == request_block(self@),
    {
        match self {
            ContentBlock::Text { text } => RequestContent::Text { text: clone_text(text) },
            ContentBlock::ToolUse { id, name, input } => RequestContent::ToolUse {
                id: clone_text(id),
                name: clone_text(name),
                input: clone_text(input),
            },
            ContentBlock::ToolResult { tool_use_id, content, is_error } =>
                RequestContent::ToolResult {
                tool_use_id: clone_text(tool_use_id),
                content: clone_text(content),
                is_error: *is_error,
            },
        }
    }
}

/// A message that reports tool results: one of its blocks is a tool result.
pub open spec fn is_tool_result_message(m: MessageView) -> bool {
    exists|j: int| 0 <= j < m.content.len() && #[trigger] m.content[j] is ToolResult
}

impl Message {
    /// Whether this message reports tool results (see [`is_tool_result_message`]).
    pub fn is_tool_result_message(&self) -> (r: bool)
        ensures
            r == is_tool_result_message(self@),
    {
        let mut i: usize = 0;
        while i < self.content.len()
            invariant
                i <= self.content@.len(),
                forall|j: int| 0 <= j < i ==> !(#[trigger] self@.content[j] is ToolResult),
            decreases self.content@.len() - i,
        {
            match &self.content[i] {
                ContentBlock::ToolResult { .. } => {
                    proof {
                        assert(self@.content[i as int] is ToolResult);
                    }
                    return true;
                },
                _ => {},
            }
            i = i + 1;
        }
        false
    }

    /// A user message holding one text block.
    pub fn user(text: String) -> (m: Message)
        ensures
            m@ == (MessageView { role: Role::User, content: seq![ContentBlockView::Text { text: text@ }] }),
    {
        let mut content = Vec::new();
        content.push(ContentBlock::Text { text });
        let m = Message { role: Role::User, content };
        proof {
            assert(m@.content =~= seq![ContentBlockView::Text { text: text@ }]);
        }
        m
    }

    /// An assistant message holding one text block.
    pub fn assistant_text(text: String) -> (m: Message)
        ensures
            m@ == (MessageView { role: Role::Assistant, content: seq![ContentBlockView::Text { text: text@ }] }),
    {
        let mut content = Vec::new();
        content.push(ContentBlock::Text { text });
        let m = Message { role: Role::Assistant, content };
        proof {
            assert(m@.content =~= seq![ContentBlockView::Text { text: text@ }]);
        }
        m
    }

    /// The request message for this message: its role's wire name and its blocks.
    pub fn to_request_message(&self) -> (r: RequestMessage)
        ensures
            r@ == request_message(self@),
    {
        let role = match self.role {
            Role::User => String::from_str("user"),
            Role::Assistant => String::from_str("assistant"),
        };
        let mut content: Vec<RequestContent> = Vec::new();
        let mut i: usize = 0;
        while i < self.content.len()
            invariant
                i <= self.content@.len(),
                content@.len() == i,
                forall|k: int| 0 <= k < i ==> (#[trigger] content@[k])@ == request_block(self.content@[k]@),
            decreases self.content@.len() - i,
        {
            content.push(self.content[i].to_request_content());
            i = i + 1;
        }
        let r = RequestMessage { role, content };
        proof {
            assert(r@.content =~= self@.content.map_values(|b: ContentBlockView| request_block(b)));
        }
        r
    }
}

} // verus!
