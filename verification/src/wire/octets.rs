//! Buffers of octets, and 16-bit fields in network byte order within them.
use byteorder::{ByteOrder, NetworkEndian};
use vstd::prelude::*;

verus! {

/// Something that holds octets.
pub trait Octets {
    /// The octets held.
    spec fn octets(&self) -> Seq<u8>;

    /// The octets held, as a slice.
    fn as_octets(&self) -> (r: &[u8])
        ensures
            r@ == self.octets(),
    ;
}

/// Something that holds octets and lets them be changed in place.
pub trait OctetsMut: Octets {
    /// The octets held, as a slice that can be written.
    fn as_octets_mut(&mut self) -> (r: &mut [u8])
        ensures
            r@ == (*old(self)).octets(),
            final(r)@ == (*final(self)).octets(),
    ;
}

impl Octets for [u8] {
    open spec fn octets(&self) -> Seq<u8> {
        self@
    }

    fn as_octets(&self) -> (r: &[u8]) {
        self
    }
}

impl OctetsMut for [u8] {
    fn as_octets_mut(&mut self) -> (r: &mut [u8]) {
        self
    }
}

impl Octets for Vec<u8> {
    open spec fn octets(&self) -> Seq<u8> {
        self@
    }

    fn as_octets(&self) -> (r: &[u8]) {
        self.as_slice()
    }
}

impl OctetsMut for Vec<u8> {
    fn as_octets_mut(&mut self) -> (r: &mut [u8]) {
        self.as_mut_slice()
    }
}

impl<'a, T: Octets + ?Sized> Octets for &'a T {
    open spec fn octets(&self) -> Seq<u8> {
        (**self).octets()
    }

    fn as_octets(&self) -> (r: &[u8]) {
        (**self).as_octets()
    }
}

impl<'a, T: Octets + ?Sized> Octets for &'a mut T {
    open spec fn octets(&self) -> Seq<u8> {
        (**self).octets()
    }

    fn as_octets(&self) -> (r: &[u8]) {
        (**self).as_octets()
    }
}

impl<'a, T: OctetsMut + ?Sized> OctetsMut for &'a mut T {
    fn as_octets_mut(&mut self) -> (r: &mut [u8]) {
        (**self).as_octets_mut()
    }
}

/// The 16-bit number whose two octets stand at `at`, the more significant one first.
pub open spec fn be16(octets: Seq<u8>, at: int) -> u16 {
    (octets[at] * 256 + octets[at + 1]) as u16
}

/// The same octets with the 16-bit number at `at` replaced.
pub open spec fn put_be16(octets: Seq<u8>, at: int, value: u16) -> Seq<u8> {
    octets.update(at, (value / 256) as u8).update(at + 1, (value % 256) as u8)
}

/// Calls `byteorder`'s `NetworkEndian::read_u16`, which reads the first two octets of `buf` as a
/// big-endian number and panics where there are fewer.
#[verifier::external_body]
fn read_u16(buf: &[u8]) -> (r: u16)
    requires
        buf@.len() >= 2,
    ensures
        r == be16(buf@, 0),
{
    NetworkEndian::read_u16(buf)
}

/// Calls `byteorder`'s `NetworkEndian::write_u16`, which writes a number big-endian into the first
/// two octets of `buf`, leaves the others alone, and panics where there are fewer than two.
#[verifier::external_body]
fn write_u16(buf: &mut [u8], value: u16)
    requires
        old(buf)@.len() >= 2,
    ensures
        final(buf)@ == put_be16(old(buf)@, 0, value),
{
    NetworkEndian::write_u16(buf, value)
}

/// The 16-bit field at `at`.
pub fn field16(data: &[u8], at: usize) -> (r: u16)
    requires
        at + 2 <= data@.len(),
    ensures
        r == be16(data@, at as int),
{
    let (_, field) = data.split_at(at);
    read_u16(field)
}

/// Replaces the 16-bit field at `at`.
pub fn set_field16(data: &mut [u8], at: usize, value: u16)
    requires
        at + 2 <= old(data)@.len(),
    ensures
        final(data)@ == put_be16(old(data)@, at as int, value),
{
    let ghost before = data@;
    let (_, field) = data.split_at_mut(at);
    write_u16(field, value);
    assert(before.subrange(0, at as int) + put_be16(
        before.subrange(at as int, before.len() as int),
        0,
        value,
    ) =~= put_be16(before, at as int, value));
}

} // verus!
