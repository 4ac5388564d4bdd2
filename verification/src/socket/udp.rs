//! UDP sockets, as far as a set of sockets tells them from others.
use crate::wire::ip::IpListenEndpoint;
use vstd::prelude::*;

verus! {

/// A UDP socket that receives at an endpoint.
#[derive(Debug, Clone, Copy, PartialEq, Eq, Structural)]
pub struct Socket {
    pub endpoint: IpListenEndpoint,
}

} // verus!
