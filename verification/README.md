# claw

The core of a coding-agent runtime, written in Verus: the conversation loop,
permission rules, tool bookkeeping, history compaction, task tracking, the
OpenAI chat-completions wire format and the glob/grep search tools.

## Layout

- `src/` — the verified library. Every function carries a contract that Verus
  proves; calls into outside crates (`serde_json`, `regex`, `uuid`,
  `getrandom`) and into `std::path` and `std::time` sit behind small trusted
  wrappers whose doc comments say what their contracts claim.
  - `query.rs` — the agent loop as a state machine (start a turn, take in
    stream events, end a turn, take in tool results, handle failures with
    retries, back-off and one compaction per query).
  - `permissions.rs` — permission modes, requests, decisions and the
    rule-based policy.
  - `tools.rs` — tool outputs and calls, the tool registry, and the decisions
    taken around each call (permission checks, concurrent/sequential split).
  - `compact.rs` — token accounting and the truncation strategy.
  - `tasks.rs` — the background-task table and its notifications.
  - `openai.rs` — request layout, stream-chunk assembly and response reading
    for the chat-completions format.
  - `search.rs` — the pure parts of the glob and grep tools: ordering,
    line splitting, matching, capping and rendering.
  - `session.rs`, `message.rs`, `provider.rs` — session state, messages and the
    provider-neutral request/response model.
  - `onboarding.rs` — parsing of the answers given during first-run setup.
  - `text.rs`, `json.rs`, `keyed.rs` — string helpers, JSON normalisation and
    lemmas about keyed collections.
- `tests/` — tests that run the library with the real outside crates linked.
- `app/` — the unverified shell: async provider and tool drivers, file and
  network I/O, serde/thiserror copies of library types, and the interactive
  setup prompts.
