//! Core of a local task-execution engine: files and commands are registered
//! in arenas, a scheduler runs commands in dependency order while consulting
//! a content-addressed cache, and outcomes are collected in a structured log.
pub mod cache;
pub mod codec;
pub mod command;
pub mod file;
pub mod jsonl;
pub mod log;
pub mod parse;
pub mod registry;
pub mod scheduler;
pub mod tui;
pub mod types;
