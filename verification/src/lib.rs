//! Vesper: the verified core of a local-first coding agent.
use vstd::prelude::*;

pub mod agent;
pub mod checkpoint;
pub mod cli;
pub mod config;
pub mod diff;
pub mod gather;
pub mod json;
pub mod llm;
pub mod mcp;
pub mod memory;
pub mod order;
pub mod paths;
pub mod project;
pub mod protocol;
pub mod repo_map;
pub mod run;
pub mod sandbox;
pub mod runtime;
pub mod text;
pub mod tool_specs;

verus! {
}
