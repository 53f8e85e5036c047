//! An agent orchestration core: a canonical message/request/response model,
//! a tool-calling completion loop, a local tool registry, and a remote-tool
//! registry speaking a JSON-RPC convention with per-server reply encodings.

pub mod adapter;
pub mod agent;
pub mod chat;
pub mod codec;
pub mod errors;
pub mod json;
pub mod literal;
pub mod mcp;
pub mod model;
pub mod names;
pub mod providers;
pub mod registry;
pub mod rpc;
