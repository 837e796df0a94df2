//! Requests: the parsed JSON, the binary request encoding and one encoder
//! per command.
pub mod json;
pub mod encode;
pub mod commands;
pub mod dispatch;
