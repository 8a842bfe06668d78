//! Verified core of the TLScope debugging proxy: captured traffic model,
//! filtering, redaction, previews, log stores and the terminal UI state machine.

pub mod capture;
pub mod certificates;
pub mod config;
pub mod diagnostics;
pub mod interactive;
pub mod process;
pub mod proxy;
pub mod recent;
pub mod text;
pub mod tui;
