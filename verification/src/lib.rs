//! The decision core of a local, multi-agent research assistant.

pub mod agent_loop;
pub mod agents;
pub mod claude_cli;
pub mod cli;
pub mod clock;
pub mod db;
pub mod elo;
pub mod hypothesis;
pub mod id;
pub mod json;
pub mod lifecycle;
pub mod llm_io;
pub mod marker;
pub mod prompts;
pub mod registry;
pub mod text;
pub mod tool_catalog;
pub mod tui;
