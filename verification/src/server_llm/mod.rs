//! The chat gateway: the streamed model protocol, model selection, the
//! per-session state and tool dispatch.
pub mod anthropic_stream;
pub mod routes_models;
pub mod session_store;
pub mod tool_dispatch;
pub mod routes_chat;
