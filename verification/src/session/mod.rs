//! Session management: conversation history, overrides, recovery and storage.

pub mod backend;
pub mod breakpoint_detect;
pub mod channel;
pub mod chat;
pub mod manager;
pub mod operation_laws;
pub mod order_laws;
pub mod queue;
pub mod sanitize_laws;
pub mod session_laws;
pub mod session_override;
pub mod types;
