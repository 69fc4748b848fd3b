//! Scheduling, webhook and session logic of a chat agent, verified with Verus.

pub mod duration;
pub mod ids;
pub mod json;
pub mod number;
pub mod order;
pub mod pattern;
pub mod scheduling;
pub mod session;
pub mod session_context;
pub mod skill_draft_reminder;
pub mod skill_extract;
pub mod skill_laws;
pub mod skill_loader;
pub mod split;
pub mod text;
pub mod text_laws;
pub mod text_map;
pub mod time;
