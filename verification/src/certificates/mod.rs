//! The local certificate authority's pure parts: the cache of leaf certificates, host
//! names as the cache keys them, and certificate fingerprints.

pub mod authority;
pub mod cache;
