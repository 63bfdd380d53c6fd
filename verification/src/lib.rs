//! A local AI agent's core logic: session history, the tool registry and the
//! three-layer memory, Gmail message handling, browser helpers and the
//! streamed chat protocol.
pub mod text;
pub mod cli;
pub mod codec;
pub mod cdp_browser;
pub mod common;
pub mod gmail_api;
pub mod job_runner;
pub mod server_llm;
