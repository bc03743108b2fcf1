//! Verified core of an agent runtime: permission rules, history compaction,
//! tool bookkeeping, the provider wire model and the conversation loop.
#![allow(unused_imports)]

pub mod compact;
pub mod json;
pub mod keyed;
pub mod mcp;
pub mod message;
pub mod onboarding;
pub mod openai;
pub mod permissions;
pub mod provider;
pub mod query;
pub mod search;
pub mod session;
pub mod tasks;
pub mod text;
pub mod tools;
