//! The interface between sockets and the network.
pub mod tcp;

use crate::phy::DeviceCapabilities;
use crate::time::Instant;
use vstd::prelude::*;

verus! {

/// What sockets see of the interface that they belong to.
#[derive(Debug, Clone, Copy, PartialEq, Eq, Structural)]
pub struct InterfaceInner {
    pub now: Instant,
    /// What the device under the interface can do.
    pub caps: DeviceCapabilities,
}

/// A network interface.
#[derive(Debug, Clone, Copy, PartialEq, Eq, Structural)]
pub struct Interface {
    pub inner: InterfaceInner,
}

/// What sockets see of the interface that they belong to.
pub type Context = InterfaceInner;

impl InterfaceInner {
    /// The time of the interface.
    pub fn now(&self) -> (r: Instant)
        ensures
            r == self.now,
    {
        self.now
    }

    /// Sets the time of the interface.
    pub fn set_now(&mut self, now: Instant)
        ensures
            *final(self) == (InterfaceInner { now, ..*old(self) }),
    {
        self.now = now;
    }
}

} // verus!
