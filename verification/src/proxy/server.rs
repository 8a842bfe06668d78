//! What the proxy tells the interface while it runs.

use vstd::prelude::*;

verus! {

/// A notice from the proxy to the interface.
#[derive(Debug, Clone, Copy, PartialEq, Eq, Structural)]
pub enum ProxyEvent {
    /// An exchange was recorded under this id.
    EntryCaptured(u64),
}

} // verus!
