//! The errors the store surfaces to its callers.

use vstd::prelude::*;

verus! {

/// An operation failed.
#[derive(Debug, Clone, Copy, PartialEq, Eq, Structural)]
pub enum ZenoError {
    /// The query descriptor is neither the "match all" sentinel nor a
    /// field mapping.
    Query,
    /// A backend failed while reading or writing; reserved for fallible
    /// (non-memory) backends.
    Storage,
}

} // verus!
