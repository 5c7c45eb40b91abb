//! Command-server library for a batch transcription pipeline: request
//! routing, JSON reply/event encoding, configuration resolution, job
//! orchestration over external tools, and subtitle deduplication.

pub mod text;
pub mod timecode;
pub mod dedup;
pub mod jsonout;
pub mod host;
pub mod config;
pub mod dispatch;
pub mod gpu;
pub mod engine;
