//! Yushi: agent memory deltas, XML node merging and automation rules.

pub mod text;
pub mod rule;
pub mod xml_token;
pub mod source;
pub mod events;
pub mod storage;
pub mod context;
pub mod memory;
pub mod manager;
pub mod ynode;
pub mod delta;
pub mod json;
pub mod executor;
pub mod engine;
pub mod rule_tool;
pub mod frontmatter;
pub mod history;
pub mod llm;
pub mod agent;
pub mod query;
pub mod repl;
pub mod cli;
pub mod registry;
pub mod tools;
