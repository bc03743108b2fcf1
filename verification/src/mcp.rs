//! Configuration of Model Context Protocol servers.
use vstd::prelude::*;

verus! {

/// How to launch one MCP server: its name, the command and its arguments.
#[derive(Clone, Debug)]
pub struct McpServerConfig {
    pub name: String,
    pub command: String,
    pub args: Vec<String>,
}

} // verus!
