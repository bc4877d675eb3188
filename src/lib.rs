//! Agent loop that streams completions from a text-generation service,
//! reassembles the tool calls it requests, runs them as shell commands, and
//! feeds their output back into the conversation.

pub mod arguments;
pub mod config;
pub mod llm;
pub mod accumulator;
pub mod executor;
pub mod conversation;
