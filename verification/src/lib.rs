//! Genesis: the decisions of a harness for agents that rewrite themselves.
use vstd::prelude::*;

pub mod admin;
pub mod config;
pub mod control;
pub mod delete_tool;
pub mod devkit;
pub mod dispatch;
pub mod document;
pub mod exa;
pub mod exa_search;
pub mod gateway;
pub mod handlers;
pub mod harness;
pub mod host;
pub mod hostfs;
pub mod json;
pub mod loader;
pub mod memory;
pub mod order;
pub mod paths;
pub mod pipeline;
pub mod report;
pub mod revisions;
pub mod runtime;
pub mod skills;
pub mod slot;
pub mod startup;
pub mod table;
pub mod terminal;
pub mod text;
pub mod time;
pub mod tool_words;
pub mod tools;
pub mod turn;
pub mod types;
pub mod watchdog;
pub mod watcher;
pub mod web;
pub mod web_contents;

verus! {

} // verus!
