//! Limits of the storage whose size is fixed when the crate is built.
use vstd::prelude::*;

verus! {

/// The number of routes that fixed route storage holds.
pub const IFACE_MAX_ROUTE_COUNT: usize = 2;

} // verus!
