//! Captured traffic: the model, previews, filters, redaction and exports.

pub mod model;
pub mod store;
pub mod filter_suggestions;
pub mod decode;
pub mod json;
pub mod redact;
pub mod export;
pub mod details;
pub mod har;
