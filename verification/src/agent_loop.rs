//! The loop that runs an agent: what it is prompted with, what its answer does,
//! and which task follows.

pub mod prompt_build;
pub mod run_agent;
pub mod runner;
pub mod system_prompt;
