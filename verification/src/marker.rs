//! Memory markers: how a model's answer calls a tool.
//!
//! A marker reads `[[MEMORY_OP:<op>:<json object>]]`.

pub mod allowlist;
pub mod normalizer;
pub mod scan;
pub mod skill;
