//! Correlated, line-delimited JSON-RPC between a client and a long-running peer:
//! a line source, a process supervisor, a request client and the registry of
//! pending requests.

pub mod json;
pub mod jsonrpc;
pub mod lines;
pub mod poll;
pub mod process;
pub mod statuses;
pub mod stdin;
pub mod text;
pub mod transport;
