//! Packet formats and the addresses that appear in them.
pub mod checksum;
pub mod ip;
pub mod octets;
pub mod tcp;
pub mod udp;

use vstd::prelude::*;

verus! {

/// A packet is malformed.
#[derive(Debug, Clone, Copy, PartialEq, Eq, Structural)]
pub struct Error;

impl Error {
    /// The error in words.
    pub fn to_text(&self) -> (r: &'static str)
        ensures
            r@ == "wire::Error"@,
    {
        "wire::Error"
    }
}

pub type Result<T> = core::result::Result<T, Error>;

} // verus!
