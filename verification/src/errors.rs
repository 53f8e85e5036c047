//! The error taxonomy of the orchestration core.
//!
//! Every failure surfaces to the immediate caller as one of these variants;
//! nothing is retried or swallowed inside the library.

use vstd::prelude::*;

verus! {

/// What can go wrong while driving a completion or a remote tool call.
#[derive(Debug, Clone)]
pub enum AgentError {
    /// A network or HTTP failure, reported by the transport.
    Transport(String),
    /// A schema mismatch or a malformed adapter payload.
    Decode(String),
    /// A name that resolves to neither a local tool nor a registered
    /// remote server and tool.
    UnknownTool(String),
    /// A tool ran and reported failure.
    ToolExecution(String),
    /// The tool-calling loop reached its round bound without a final answer.
    LoopBoundExceeded,
}

impl AgentError {
    /// A short label for the variant, for callers that log or report errors.
    pub fn label(&self) -> (r: &'static str)
        ensures
            r@ == self.label_spec(),
    {
        match self {
            AgentError::Transport(_) => "transport error",
            AgentError::Decode(_) => "decode error",
            AgentError::UnknownTool(_) => "unknown tool",
            AgentError::ToolExecution(_) => "tool execution error",
            AgentError::LoopBoundExceeded => "loop bound exceeded",
        }
    }

    pub open spec fn label_spec(&self) -> Seq<char> {
        match self {
            AgentError::Transport(_) => "transport error"@,
            AgentError::Decode(_) => "decode error"@,
            AgentError::UnknownTool(_) => "unknown tool"@,
            AgentError::ToolExecution(_) => "tool execution error"@,
            AgentError::LoopBoundExceeded => "loop bound exceeded"@,
        }
    }
}

/// What a provider client can report: a network or HTTP failure, or a
/// schema mismatch while decoding the reply. Both carry the failure's text.
#[derive(Debug, Clone)]
pub enum LlmFailure {
    Transport(String),
    Decode(String),
}

} // verus!
