//! The proxy's HTTP logic: reading request and response heads, choosing the upstream
//! and writing the head that goes to it.

pub mod body;
pub mod client;
pub mod connect;
pub mod exchange;
pub mod h2;
pub mod http;
pub mod server;
pub mod upstream;
