//! Execution wrapper for a document-build orchestrator.
//!
//! A short-lived child process runs one embedded code block; this library
//! mediates between the orchestrator's textual protocol (flat `key=value`
//! argument strings, two newline-delimited report blocks) and the user's
//! code, while tracking the file-system dependencies the code read and the
//! artifacts it created.

pub mod context;
pub mod guard;
pub mod kv;
