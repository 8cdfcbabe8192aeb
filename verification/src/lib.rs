//! Message codec, peer table and settings of a small LAN file-sharing tool.

pub mod bufs;
pub mod codec;
pub mod config;
pub mod errors;
pub mod types;
pub mod node;
pub mod number;
pub mod state;
pub mod text;
