//! The messages that clients, the daemon and language servers exchange.

pub mod control;
pub mod control_text;
pub mod lsp;
pub mod msg;
pub mod wire;

pub use lsp::{ClientId, LspFrame, LspFrameDecoder};
pub use msg::{
    ClearedInstance, ControlMessage, InstanceStatus, RadFrameCocdec, RadMessage, ServerStatus,
};
