//! The logic of a terminal coding agent: the Messages API, the agent loop and
//! its conversation, the tools, code search, language and tool servers, the
//! chat interface and the command line. What touches files, processes and the
//! network stands outside and works with the plain values of this library.

pub mod agent;
pub mod api;
pub mod cli;
pub mod config;
pub mod json;
pub mod keyed;
pub mod lsp;
pub mod mcp;
pub mod order;
pub mod rag;
pub mod rpc;
pub mod text;
pub mod tools;
pub mod tui;
