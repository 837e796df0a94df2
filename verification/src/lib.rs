//! Verified core of an HTTP/JSON gateway in front of a binary inventory
//! engine: wire framing, request encoding and response decoding.
pub mod error;
pub mod protocol;
pub mod text;
pub mod wire;
pub mod bitmask;
pub mod helper;
pub mod processor;
pub mod sort;
pub mod request;
pub mod config;
pub mod auth;
pub mod discovery;
pub mod handler;
pub mod demux;
pub mod cluster;
pub mod bench;
