//! Session configuration and the mutable state of one conversation.
use vstd::prelude::*;
use std::path::PathBuf;
use crate::message::{request_message, Message};
use crate::permissions::PermissionMode;
use crate::provider::RequestMessage;

verus! {

broadcast use vstd::string::group_string_axioms;

#[verifier::external_type_specification]
#[verifier::external_body]
pub struct ExPathBuf(PathBuf);

/// Token limits of a session: the model's context window and the tokens
/// reserved for its output.
#[derive(Clone, Copy, Debug)]
pub struct TokenBudget {
    /// Maximum context window tokens the model supports.
    pub context_window: usize,
    /// Maximum tokens to reserve for the model's output.
    pub max_output_tokens: usize,
}

impl TokenBudget {
    pub fn new(context_window: usize, max_output_tokens: usize) -> (b: Self)
        ensures
            b.context_window == context_window,
            b.max_output_tokens == max_output_tokens,
    {
        TokenBudget { context_window, max_output_tokens }
    }

    /// Available tokens for input messages: the context window less the output
    /// reservation, or zero when the reservation is larger.
    pub fn input_budget(&self) -> (r: usize)
        ensures
            r == if self.context_window >= self.max_output_tokens {
                (self.context_window - self.max_output_tokens) as usize
            } else {
                0usize
            },
    {
        self.context_window.saturating_sub(self.max_output_tokens)
    }
}

impl Default for TokenBudget {
    fn default() -> (b: Self)
        ensures
            b.context_window == 200_000,
            b.max_output_tokens == 16_000,
    {
        TokenBudget::new(200_000, 16_000)
    }
}

/// Configuration for a session.
#[derive(Clone, Debug)]
pub struct SessionConfig {
    pub model: String,
    pub system_prompt: String,
    pub max_turns: usize,
    pub token_budget: TokenBudget,
    pub permission_mode: PermissionMode,
}

impl Default for SessionConfig {
    /// The default configuration. It names no model: the caller chooses one.
    fn default() -> (c: Self)
        ensures
            c.model@ == Seq::<char>::empty(),
            c.system_prompt@ == Seq::<char>::empty(),
            c.max_turns == 100,
            c.token_budget.context_window == 200_000,
            c.token_budget.max_output_tokens == 16_000,
            c.permission_mode == PermissionMode::AutoApprove,
    {
        SessionConfig {
            model: String::new(),
            system_prompt: String::new(),
            max_turns: 100,
            token_budget: TokenBudget::default(),
            permission_mode: PermissionMode::AutoApprove,
        }
    }
}

/// The lower-case hexadecimal digit of `n` (0 to 15).
pub open spec fn hex_digit(n: int) -> char {
    if n < 10 {
        ('0' as int + n) as char
    } else {
        ('a' as int + n - 10) as char
    }
}

/// The lower-case hexadecimal text of `bytes`: two digits per byte, high
/// nibble first.
pub open spec fn hex_text(bytes: Seq<u8>) -> Seq<char> {
    Seq::new(
        2 * bytes.len(),
        |i: int|
            if i % 2 == 0 {
                hex_digit(bytes[i / 2] as int / 16)
            } else {
                hex_digit(bytes[i / 2] as int % 16)
            },
    )
}

/// Sixteen random bytes made into a version-4 UUID: the high nibble of byte 6
/// becomes 4 (the version) and the two high bits of byte 8 become `10` (the
/// RFC 4122 variant).
pub open spec fn v4_bytes(bytes: Seq<u8>) -> Seq<u8> {
    bytes.update(6, (bytes[6] % 16 + 64) as u8).update(8, (bytes[8] % 64 + 128) as u8)
}

/// The hyphenated lower-case text of the version-4 UUID made from `bytes`:
/// 8, 4, 4, 4 and 12 hexadecimal digits separated by `-`.
pub open spec fn uuid_v4_text(bytes: Seq<u8>) -> Seq<char> {
    let h = hex_text(v4_bytes(bytes));
    h.subrange(0, 8) + "-"@ + h.subrange(8, 12) + "-"@ + h.subrange(12, 16) + "-"@ + h.subrange(16, 20)
        + "-"@ + h.subrange(20, 32)
}

/// Sixteen bytes from the operating system's random source, or `None` when it
/// fails.
///
/// Calls `getrandom::fill`. The bytes are random: nothing is stated of them.
#[verifier::external_body]
fn random_bytes() -> (r: Option<[u8; 16]>) {
    let mut bytes = [0u8; 16];
    match getrandom::fill(&mut bytes) {
        Ok(()) => Some(bytes),
        Err(_) => None,
    }
}

/// The text of the version-4 UUID made from `bytes`.
///
/// Calls `uuid::Builder::from_random_bytes`, which sets the version and variant
/// bits (see [`v4_bytes`]), then `into_uuid` and `to_string`, whose `Display`
/// is the hyphenated lower-case form (see [`uuid_v4_text`]).
#[verifier::external_body]
fn uuid_text(bytes: [u8; 16]) -> (s: String)
    ensures
        s@ == uuid_v4_text(bytes@),
{
    uuid::Builder::from_random_bytes(bytes).into_uuid().to_string()
}

/// A fresh session identifier: a random version-4 UUID in its hyphenated
/// lower-case form, or `None` when the operating system's random source fails.
pub fn new_session_id() -> (id: Option<String>)
    ensures
        id matches Some(t) ==> exists|b: Seq<u8>| b.len() == 16 && t@ == #[trigger] uuid_v4_text(b),
{
    match random_bytes() {
        Some(bytes) => {
            let t = uuid_text(bytes);
            proof {
                assert(bytes@.len() == 16 && t@ == uuid_v4_text(bytes@));
            }
            Some(t)
        },
        None => None,
    }
}

/// Mutable state for one conversation session.
pub struct SessionState {
    pub id: String,
    pub config: SessionConfig,
    pub messages: Vec<Message>,
    pub cwd: PathBuf,
    pub turn_count: usize,
    pub total_input_tokens: usize,
    pub total_output_tokens: usize,
}

impl SessionState {
    /// A session with a fresh identifier (a random version-4 UUID), no
    /// messages and zeroed counters; `None` when no random identifier can be
    /// had because the operating system's random source fails.
    pub fn new(config: SessionConfig, cwd: PathBuf) -> (r: Option<Self>)
        ensures
            r matches Some(s) ==> {
                &&& exists|b: Seq<u8>| b.len() == 16 && s.id@ == #[trigger] uuid_v4_text(b)
                &&& s.config == config
                &&& s.messages@ == Seq::<Message>::empty()
                &&& s.cwd == cwd
                &&& s.turn_count == 0
                &&& s.total_input_tokens == 0
                &&& s.total_output_tokens == 0
            },
    {
        match new_session_id() {
            Some(id) => Some(
                SessionState {
                    id,
                    config,
                    messages: Vec::new(),
                    cwd,
                    turn_count: 0,
                    total_input_tokens: 0,
                    total_output_tokens: 0,
                },
            ),
            None => None,
        }
    }

    /// Appends a message to the conversation.
    pub fn push_message(&mut self, msg: Message)
        ensures
            final(self).messages@ == old(self).messages@.push(msg),
            final(self).id == old(self).id,
            final(self).config == old(self).config,
            final(self).cwd == old(self).cwd,
            final(self).turn_count == old(self).turn_count,
            final(self).total_input_tokens == old(self).total_input_tokens,
            final(self).total_output_tokens == old(self).total_output_tokens,
    {
        self.messages.push(msg);
    }

    /// The conversation as request messages, one per message, in order.
    pub fn to_request_messages(&self) -> (r: Vec<RequestMessage>)
        ensures
            r@.len() == self.messages@.len(),
            forall|i: int| 0 <= i < r@.len() ==> (#[trigger] r@[i])@ == request_message(self.messages@[i]@),
    {
        let mut r: Vec<RequestMessage> = Vec::new();
        let mut i: usize = 0;
        while i < self.messages.len()
            invariant
                i <= self.messages@.len(),
                r@.len() == i,
                forall|k: int| 0 <= k < i ==> (#[trigger] r@[k])@ == request_message(self.messages@[k]@),
            decreases self.messages@.len() - i,
        {
            r.push(self.messages[i].to_request_message());
            i = i + 1;
        }
        r
    }
}

} // verus!
