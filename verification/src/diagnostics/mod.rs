//! What the proxy logs about itself.

pub mod logs;
