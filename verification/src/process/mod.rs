//! The child process the proxy launches: its output.

pub mod launcher;
pub mod logs;
pub mod tracking;
