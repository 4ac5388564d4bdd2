//! What the stack knows of the devices under it.
use vstd::prelude::*;

verus! {

/// Metadata that travels with a packet: the device that it came from or is bound to.
/// Device zero stands for no particular device.
#[derive(Debug, Clone, Copy, PartialEq, Eq, Hash, Structural)]
pub struct PacketMeta {
    pub id: u32,
}

impl Default for PacketMeta {
    fn default() -> (r: PacketMeta)
        ensures
            r.id == 0,
    {
        PacketMeta { id: 0 }
    }
}

/// Where a checksum is handled in software.
#[derive(Debug, Clone, Copy, PartialEq, Eq, Structural)]
pub enum Checksum {
    /// Verify when receiving and compute when sending.
    Both,
    /// Verify when receiving.
    Rx,
    /// Compute when sending.
    Tx,
    /// Leave the checksum alone.
    Neither,
}

impl Checksum {
    pub open spec fn spec_rx(self) -> bool {
        self == Checksum::Both || self == Checksum::Rx
    }

    pub open spec fn spec_tx(self) -> bool {
        self == Checksum::Both || self == Checksum::Tx
    }

    /// Whether the checksum is verified when receiving.
    pub fn rx(&self) -> (r: bool)
        ensures
            r == self.spec_rx(),
    {
        match *self {
            Checksum::Both | Checksum::Rx => true,
            _ => false,
        }
    }

    /// Whether the checksum is computed when sending.
    pub fn tx(&self) -> (r: bool)
        ensures
            r == self.spec_tx(),
    {
        match *self {
            Checksum::Both | Checksum::Tx => true,
            _ => false,
        }
    }
}

/// The checksums that a device leaves to software, for the protocols that this crate frames.
#[derive(Debug, Clone, Copy, PartialEq, Eq, Structural)]
pub struct ChecksumCapabilities {
    pub udp: Checksum,
    pub tcp: Checksum,
}

impl Default for ChecksumCapabilities {
    fn default() -> (r: ChecksumCapabilities)
        ensures
            r.udp == Checksum::Both,
            r.tcp == Checksum::Both,
    {
        ChecksumCapabilities { udp: Checksum::Both, tcp: Checksum::Both }
    }
}

/// What a device can do.
#[derive(Debug, Clone, Copy, PartialEq, Eq, Structural)]
pub struct DeviceCapabilities {
    pub checksum: ChecksumCapabilities,
}

impl Default for DeviceCapabilities {
    fn default() -> (r: DeviceCapabilities)
        ensures
            r.checksum.udp == Checksum::Both,
            r.checksum.tcp == Checksum::Both,
    {
        DeviceCapabilities { checksum: ChecksumCapabilities::default() }
    }
}

} // verus!
