//! Decision logic of `jc`, a command-line companion for Jujutsu workspaces.

pub mod bookmark_generator;
pub mod bookmark_run;
pub mod bookmarks;
pub mod claude_client;
pub mod cli;
pub mod codex_client;
pub mod commit_message_generator;
pub mod config;
pub mod diff;
pub mod gitattributes;
pub mod globs;
pub mod install;
pub mod instructions;
pub mod json;
pub mod limits;
pub mod paths;
pub mod prompt_entry;
pub mod prompt_input;
pub mod prompt_log;
pub mod prompt_store;
pub mod prompt_time;
pub mod report;
pub mod selection;
pub mod styled;
pub mod text;
pub mod tree;
pub mod tree_diff;
pub mod workflow;
pub mod workspace;
