//! Verified core of a daemon that lets several editors share one language server per workspace.

pub mod buffer;
pub mod client;
pub mod config;
pub mod error;
pub mod instance;
pub mod json;
pub mod logging;
pub mod manager;
pub mod mapper;
pub mod protocol;
pub mod server;
pub mod table;
pub mod text;
