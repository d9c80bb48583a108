//! What holds of the library as a whole, said of texts by their characters, of
//! lists by their elements and of times by their numbers.

pub mod await_run;
pub mod bubblewrap;
pub mod circuit_breaker;
pub mod complexity;
pub mod media;
pub mod report;
pub mod session_logger;
pub mod sessions;
pub mod text;
pub mod views;
