//! Verified core of the MiurBot chat agent.

pub mod adapter;
pub mod chat;
pub mod config;
pub mod init;
pub mod json;
pub mod sse;
pub mod store;
pub mod text;
