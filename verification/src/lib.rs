//! Verified core of an agent runtime: provider health, message routing,
//! sandbox command lines, media caching and session tools.

pub mod bubblewrap;
pub mod circuit_breaker;
pub mod clock;
pub mod complexity;
pub mod json;
pub mod laws;
pub mod media_cache;
pub mod media_clean;
pub mod media_rewrite;
pub mod media_save;
pub mod message;
pub mod session_logger;
pub mod sessions;
pub mod text;
pub mod tool;
