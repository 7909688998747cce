//! An HTTP `CONNECT` proxy that tunnels every request through one SSH session.

pub mod auth;
pub mod cli;
pub mod connection;
pub mod files;
pub mod http;
pub mod plan;
pub mod server;
pub mod session;
pub mod ssh;
pub mod text;
