//! Turning natural-language requests into shell commands with a local model:
//! the verified core of the `ta` command-line tool.
pub mod text;
pub mod llm;
pub mod logger;
pub mod safety;
pub mod context;
pub mod ui;
pub mod executor;
pub mod clipboard;
pub mod config;
pub mod session;
