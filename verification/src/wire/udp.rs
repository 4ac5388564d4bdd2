//! The User Datagram Protocol.
use crate::phy::ChecksumCapabilities;
use crate::text::{append_decimal, decimal};
use crate::wire::checksum;
use crate::wire::checksum::{
    complement, fold, lemma_complement, lemma_total_2, lemma_word_sum_bound, lemma_word_sum_put,
    spec_pseudo_header, word_sum,
};
use crate::wire::ip::{IpAddress, IpProtocol};
use crate::wire::octets::{be16, field16, put_be16, set_field16, Octets, OctetsMut};
use crate::wire::{Error, Result};
use core::ops::Range;
use vstd::prelude::*;

verus! {

/// Offset of the source port field.
pub const SRC_PORT: usize = 0;

/// Offset of the destination port field.
pub const DST_PORT: usize = 2;

/// Offset of the length field.
pub const LENGTH: usize = 4;

/// Offset of the checksum field.
pub const CHECKSUM: usize = 6;

/// Length of the header.
pub const HEADER_LEN: usize = 8;

/// Where the payload of a packet stands whose length field holds `length`.
#[allow(non_snake_case)]
pub fn PAYLOAD(length: u16) -> (r: Range<usize>)
    ensures
        r.start == HEADER_LEN,
        r.end == length,
{
    HEADER_LEN..length as usize
}

/// The length field.
pub open spec fn length(packet: Seq<u8>) -> int {
    be16(packet, LENGTH as int) as int
}

/// The length field agrees with the buffer: it covers the header and ends within the buffer.
pub open spec fn len_ok(packet: Seq<u8>) -> bool {
    packet.len() >= HEADER_LEN && HEADER_LEN <= length(packet) <= packet.len()
}

/// The payload that the length field delimits.
pub open spec fn payload_of(packet: Seq<u8>) -> Seq<u8> {
    packet.subrange(HEADER_LEN as int, length(packet))
}

/// The checksum over the pseudo header and the octets that the length field covers.
pub open spec fn packet_sum(packet: Seq<u8>, src_addr: IpAddress, dst_addr: IpAddress) -> u16 {
    fold(
        (spec_pseudo_header(src_addr, dst_addr, IpProtocol::Udp, length(packet) as u32) + fold(
            word_sum(packet.take(length(packet))),
        )) as nat,
    )
}

/// The checksum field is zero, which says that no checksum was made, or the sum of the packet
/// is all ones.
pub open spec fn checksum_ok(packet: Seq<u8>, src_addr: IpAddress, dst_addr: IpAddress) -> bool {
    be16(packet, CHECKSUM as int) == 0 || packet_sum(packet, src_addr, dst_addr) == 0xffff
}

/// The packet with its checksum field computed; a checksum of zero is written as all ones, since
/// zero would say that there is none.
pub open spec fn with_checksum(
    packet: Seq<u8>,
    src_addr: IpAddress,
    dst_addr: IpAddress,
) -> Seq<u8> {
    let sum = packet_sum(put_be16(packet, CHECKSUM as int, 0), src_addr, dst_addr);
    put_be16(packet, CHECKSUM as int, complement(sum))
}

/// A read/write wrapper around an User Datagram Protocol packet buffer.
#[derive(Debug, PartialEq, Eq, Clone)]
pub struct Packet<T: Octets> {
    buffer: T,
}

impl<T: Octets> Packet<T> {
    /// The wrapped buffer.
    pub closed spec fn inner(&self) -> T {
        self.buffer
    }

    /// The octets of the wrapped buffer.
    pub open spec fn view(&self) -> Seq<u8> {
        self.inner().octets()
    }

    /// Imbue a raw octet buffer with UDP packet structure.
    pub fn new_unchecked(buffer: T) -> (r: Packet<T>)
        ensures
            r.inner() == buffer,
    {
        Packet { buffer }
    }

    /// Shorthand for a combination of [`Packet::new_unchecked`] and [`Packet::check_len`].
    pub fn new_checked(buffer: T) -> (r: Result<Packet<T>>)
        ensures
            match r {
                Ok(packet) => len_ok(buffer.octets()) && packet.inner() == buffer,
                Err(_) => !len_ok(buffer.octets()),
            },
    {
        let packet = Packet::new_unchecked(buffer);
        match packet.check_len() {
            Ok(()) => Ok(packet),
            Err(err) => Err(err),
        }
    }

    /// Ensure that no accessor method will panic if called.
    /// Returns `Err(Error)` if the buffer is too short.
    /// Returns `Err(Error)` if the length field has a value smaller
    /// than the header length.
    ///
    /// The result of this check is invalidated by calling [`Packet::set_len`].
    pub fn check_len(&self) -> (r: Result<()>)
        ensures
            r is Ok <==> len_ok(self@),
    {
        let buffer_len: usize = self.buffer.as_octets().len();
        if buffer_len < HEADER_LEN {
            Err(Error)
        } else {
            let field_len: usize = self.len() as usize;
            if buffer_len < field_len || field_len < HEADER_LEN {
                Err(Error)
            } else {
                Ok(())
            }
        }
    }

    /// Consume the packet, returning the underlying buffer.
    pub fn into_inner(self) -> (r: T)
        ensures
            r == self.inner(),
    {
        self.buffer
    }

    /// Return the source port field.
    pub fn src_port(&self) -> (r: u16)
        requires
            self@.len() >= SRC_PORT + 2,
        ensures
            r == be16(self@, SRC_PORT as int),
    {
        field16(self.buffer.as_octets(), SRC_PORT)
    }

    /// Return the destination port field.
    pub fn dst_port(&self) -> (r: u16)
        requires
            self@.len() >= DST_PORT + 2,
        ensures
            r == be16(self@, DST_PORT as int),
    {
        field16(self.buffer.as_octets(), DST_PORT)
    }

    /// Return the length field.
    pub fn len(&self) -> (r: u16)
        requires
            self@.len() >= LENGTH + 2,
        ensures
            r == length(self@),
    {
        field16(self.buffer.as_octets(), LENGTH)
    }

    /// Return the checksum field.
    pub fn checksum(&self) -> (r: u16)
        requires
            self@.len() >= CHECKSUM + 2,
        ensures
            r == be16(self@, CHECKSUM as int),
    {
        field16(self.buffer.as_octets(), CHECKSUM)
    }

    /// Validate the partial packet checksum. The two addresses must be of one version.
    pub fn verify_partial_checksum(&self, src_addr: &IpAddress, dst_addr: &IpAddress) -> (r: bool)
        requires
            self@.len() >= HEADER_LEN,
            src_addr.spec_version() == dst_addr.spec_version(),
        ensures
            r == (spec_pseudo_header(
                *src_addr,
                *dst_addr,
                IpProtocol::Udp,
                length(self@) as u32,
            ) == be16(self@, CHECKSUM as int)),
    {
        checksum::pseudo_header(src_addr, dst_addr, IpProtocol::Udp, self.len() as u32)
            == self.checksum()
    }

    /// Validate the packet checksum. Where there is one, the two addresses must be of one version
    /// and the length field must not exceed the buffer.
    pub fn verify_checksum(&self, src_addr: &IpAddress, dst_addr: &IpAddress) -> (r: bool)
        requires
            self@.len() >= HEADER_LEN,
            be16(self@, CHECKSUM as int) != 0 ==> {
                &&& length(self@) <= self@.len()
                &&& src_addr.spec_version() == dst_addr.spec_version()
            },
        ensures
            r == checksum_ok(self@, *src_addr, *dst_addr),
    {
        // From the RFC:
        // > An all zero transmitted checksum value means that the transmitter
        // > generated no checksum (for debugging or for higher level protocols
        // > that don't care).
        if self.checksum() == 0 {
            return true;
        }
        self.sum(src_addr, dst_addr) == 0xffff
    }

    /// The checksum over the pseudo header and the octets that the length field covers.
    fn sum(&self, src_addr: &IpAddress, dst_addr: &IpAddress) -> (r: u16)
        requires
            self@.len() >= HEADER_LEN,
            length(self@) <= self@.len(),
            src_addr.spec_version() == dst_addr.spec_version(),
        ensures
            r == packet_sum(self@, *src_addr, *dst_addr),
    {
        let length: u16 = self.len();
        let octets = self.buffer.as_octets();
        let covered = &octets[0..length as usize];
        assert(covered@ =~= self@.take(length as int));
        proof {
            lemma_word_sum_bound(covered@);
        }
        let parts: [u16; 2] = [
            checksum::pseudo_header(src_addr, dst_addr, IpProtocol::Udp, length as u32),
            checksum::data(covered),
        ];
        proof {
            lemma_total_2(parts@);
        }
        checksum::combine(&parts)
    }

    /// A one-line description of the packet.
    pub fn to_text(&self) -> (r: String)
        requires
            len_ok(self@),
        ensures
            r@ == described(self@),
    {
        let repr = Repr { src_port: self.src_port(), dst_port: self.dst_port() };
        let payload_len: usize = self.len() as usize - HEADER_LEN;
        let mut text = repr.to_text();
        text.append(" len=");
        append_decimal(&mut text, payload_len);
        text
    }
}

/// The description of a packet on a line of its own, or that of the error where the length field
/// is wrong.
pub open spec fn pretty(packet: Seq<u8>, indent: Seq<char>) -> Seq<char> {
    if len_ok(packet) {
        indent + described(packet)
    } else {
        indent + "("@ + "wire::Error"@ + ")"@
    }
}

/// A one-line description of a packet.
pub open spec fn described(packet: Seq<u8>) -> Seq<char> {
    "UDP src="@ + decimal(be16(packet, SRC_PORT as int) as nat) + " dst="@ + decimal(
        be16(packet, DST_PORT as int) as nat,
    ) + " len="@ + decimal(payload_of(packet).len())
}

/// Describes the packet in `buffer` on a line that starts with `indent`.
pub fn pretty_print<T: Octets>(buffer: T, indent: &str) -> (r: String)
    ensures
        r@ == pretty(buffer.octets(), indent@),
{
    let mut text = String::new();
    text.append(indent);
    match Packet::new_checked(buffer) {
        Err(err) => {
            text.append("(");
            text.append(err.to_text());
            text.append(")");
        },
        Ok(packet) => {
            text.append(packet.to_text().as_str());
        },
    }
    assert(text@ =~= pretty(buffer.octets(), indent@));
    text
}

impl<'a, T: Octets + ?Sized> Packet<&'a T> {
    /// Return a pointer to the payload.
    pub fn payload(&self) -> (r: &'a [u8])
        requires
            len_ok(self@),
        ensures
            r@ == payload_of(self@),
    {
        let range = PAYLOAD(self.len());
        let data = self.buffer.as_octets();
        &data[range.start..range.end]
    }
}

impl<T: OctetsMut> Packet<T> {
    /// Set the source port field.
    pub fn set_src_port(&mut self, value: u16)
        requires
            old(self)@.len() >= SRC_PORT + 2,
        ensures
            final(self)@ == put_be16(old(self)@, SRC_PORT as int, value),
    {
        set_field16(self.buffer.as_octets_mut(), SRC_PORT, value)
    }

    /// Set the destination port field.
    pub fn set_dst_port(&mut self, value: u16)
        requires
            old(self)@.len() >= DST_PORT + 2,
        ensures
            final(self)@ == put_be16(old(self)@, DST_PORT as int, value),
    {
        set_field16(self.buffer.as_octets_mut(), DST_PORT, value)
    }

    /// Set the length field.
    pub fn set_len(&mut self, value: u16)
        requires
            old(self)@.len() >= LENGTH + 2,
        ensures
            final(self)@ == put_be16(old(self)@, LENGTH as int, value),
    {
        set_field16(self.buffer.as_octets_mut(), LENGTH, value)
    }

    /// Set the checksum field.
    pub fn set_checksum(&mut self, value: u16)
        requires
            old(self)@.len() >= CHECKSUM + 2,
        ensures
            final(self)@ == put_be16(old(self)@, CHECKSUM as int, value),
    {
        set_field16(self.buffer.as_octets_mut(), CHECKSUM, value)
    }

    /// Compute and fill in the header checksum. The two addresses must be of one version and the
    /// length field must not exceed the buffer.
    pub fn fill_checksum(&mut self, src_addr: &IpAddress, dst_addr: &IpAddress)
        requires
            old(self)@.len() >= HEADER_LEN,
            length(old(self)@) <= old(self)@.len(),
            src_addr.spec_version() == dst_addr.spec_version(),
        ensures
            final(self)@ == with_checksum(old(self)@, *src_addr, *dst_addr),
    {
        let ghost before = self@;
        self.set_checksum(0);
        let checksum: u16 = 0xffff - self.sum(src_addr, dst_addr);
        // UDP checksum value of 0 means no checksum; if the checksum really is zero,
        // use all-ones, which indicates that the remote end must verify the checksum.
        // Arithmetically, RFC 1071 checksums of all-zeroes and all-ones behave identically,
        // so no action is necessary on the remote end.
        let value: u16 = if checksum == 0 {
            0xffff
        } else {
            checksum
        };
        self.set_checksum(value);
        assert(put_be16(put_be16(before, CHECKSUM as int, 0), CHECKSUM as int, value) =~= put_be16(
            before,
            CHECKSUM as int,
            value,
        ));
    }

    /// Return a mutable pointer to the payload.
    pub fn payload_mut(&mut self) -> (r: &mut [u8])
        requires
            len_ok(old(self)@),
        ensures
            r@ == payload_of(old(self)@),
            final(self)@ == old(self)@.take(HEADER_LEN as int) + final(r)@ + old(self)@.skip(
                length(old(self)@),
            ),
    {
        let ghost before = self@;
        let range = PAYLOAD(self.len());
        let data = self.buffer.as_octets_mut();
        let (_, rest) = data.split_at_mut(range.start);
        let (payload, _) = rest.split_at_mut(range.end - range.start);
        assert(payload@ =~= payload_of(before));
        assert(before.skip(HEADER_LEN as int).skip(range.end - range.start) =~= before.skip(
            range.end as int,
        ));
        payload
    }
}

impl<T: Octets> Octets for Packet<T> {
    open spec fn octets(&self) -> Seq<u8> {
        self@
    }

    fn as_octets(&self) -> (r: &[u8]) {
        self.buffer.as_octets()
    }
}

/// A high-level representation of an User Datagram Protocol packet.
#[derive(Debug, PartialEq, Eq, Clone, Copy, Structural)]
pub struct Repr {
    pub src_port: u16,
    pub dst_port: u16,
}

/// The ports and the length written into a header, the checksum left alone.
pub open spec fn with_header(packet: Seq<u8>, repr: Repr, length: u16) -> Seq<u8> {
    put_be16(
        put_be16(
            put_be16(packet, SRC_PORT as int, repr.src_port),
            DST_PORT as int,
            repr.dst_port,
        ),
        LENGTH as int,
        length,
    )
}

/// The length field of a packet with a payload of `payload_len` octets: what is left of the true
/// length in sixteen bits.
pub open spec fn emitted_len(payload_len: usize) -> u16 {
    ((HEADER_LEN + payload_len) % 0x1_0000) as u16
}

/// The packet that comes of a header, a payload and the way the checksum is handled.
pub open spec fn emitted(
    packet: Seq<u8>,
    repr: Repr,
    length: u16,
    payload: Seq<u8>,
    src_addr: IpAddress,
    dst_addr: IpAddress,
    checksum_caps: ChecksumCapabilities,
) -> Seq<u8> {
    let header = with_header(packet, repr, length);
    let whole = header.take(HEADER_LEN as int) + payload + packet.skip(length as int);
    if checksum_caps.udp.spec_tx() {
        with_checksum(whole, src_addr, dst_addr)
    } else {
        put_be16(whole, CHECKSUM as int, 0)
    }
}

/// A valid checksum, which is expected except on UDP over IPv4, where it can be omitted.
pub open spec fn checksum_acceptable(
    packet: Seq<u8>,
    src_addr: IpAddress,
    dst_addr: IpAddress,
) -> bool {
    if be16(packet, CHECKSUM as int) == 0 {
        src_addr is Ipv4 && dst_addr is Ipv4
    } else {
        packet_sum(packet, src_addr, dst_addr) == 0xffff
    }
}

/// What parsing a packet yields, or nothing where the packet is refused: its length field is
/// wrong, it has no destination port, or checksums are to be verified and its checksum is wrong or
/// omitted where it cannot be.
pub open spec fn parsed(
    packet: Seq<u8>,
    src_addr: IpAddress,
    dst_addr: IpAddress,
    checksum_caps: ChecksumCapabilities,
) -> Option<Repr> {
    if len_ok(packet) && be16(packet, DST_PORT as int) != 0 && (checksum_caps.udp.spec_rx()
        ==> checksum_acceptable(packet, src_addr, dst_addr)) {
        Some(
            Repr {
                src_port: be16(packet, SRC_PORT as int),
                dst_port: be16(packet, DST_PORT as int),
            },
        )
    } else {
        None
    }
}

impl Repr {
    /// Parse an User Datagram Protocol packet and return a high-level representation. Where a
    /// checksum is verified, the two addresses must be of one version.
    pub fn parse<T: Octets>(
        packet: &Packet<T>,
        src_addr: &IpAddress,
        dst_addr: &IpAddress,
        checksum_caps: &ChecksumCapabilities,
    ) -> (r: Result<Repr>)
        requires
            len_ok(packet@) && be16(packet@, DST_PORT as int) != 0 && be16(
                packet@,
                CHECKSUM as int,
            ) != 0 && checksum_caps.udp.spec_rx() ==> src_addr.spec_version()
                == dst_addr.spec_version(),
        ensures
            match r {
                Ok(repr) => parsed(packet@, *src_addr, *dst_addr, *checksum_caps) == Some(repr),
                Err(_) => parsed(packet@, *src_addr, *dst_addr, *checksum_caps) is None,
            },
    {
        match packet.check_len() {
            Ok(()) => {},
            Err(err) => {
                return Err(err);
            },
        }
        // Destination port cannot be omitted (but source port can be).
        if packet.dst_port() == 0 {
            return Err(Error);
        }
        // Valid checksum is expected...
        if checksum_caps.udp.rx() {
            if packet.checksum() == 0 {
                match (src_addr, dst_addr) {
                    // ... except on UDP-over-IPv4, where it can be omitted.
                    (IpAddress::Ipv4(_), IpAddress::Ipv4(_)) => {},
                    _ => {
                        return Err(Error);
                    },
                }
            } else if !packet.verify_checksum(src_addr, dst_addr) {
                return Err(Error);
            }
        }
        Ok(Repr { src_port: packet.src_port(), dst_port: packet.dst_port() })
    }

    /// Return the length of the packet header that will be emitted from this high-level
    /// representation.
    pub fn header_len(&self) -> (r: usize)
        ensures
            r == HEADER_LEN,
    {
        HEADER_LEN
    }

    /// Emit a high-level representation into an User Datagram Protocol packet.
    ///
    /// This never calculates the checksum, and is intended for internal-use only,
    /// not for packets that are going to be actually sent over the network. For
    /// example, when decompressing 6lowpan.
    pub fn emit_header<T: OctetsMut>(&self, packet: &mut Packet<T>, payload_len: usize)
        requires
            old(packet)@.len() >= HEADER_LEN,
            HEADER_LEN + payload_len <= usize::MAX,
        ensures
            final(packet)@ == put_be16(
                with_header(old(packet)@, *self, emitted_len(payload_len)),
                CHECKSUM as int,
                0,
            ),
    {
        packet.set_src_port(self.src_port);
        packet.set_dst_port(self.dst_port);
        packet.set_len(((HEADER_LEN + payload_len) % 0x1_0000) as u16);
        packet.set_checksum(0);
    }

    /// Emit a high-level representation into an User Datagram Protocol packet. `emit_payload`
    /// writes the payload in place; as any function of a slice it leaves the length alone.
    pub fn emit<T: OctetsMut, F: FnOnce(&mut [u8])>(
        &self,
        packet: &mut Packet<T>,
        src_addr: &IpAddress,
        dst_addr: &IpAddress,
        payload_len: usize,
        emit_payload: F,
        checksum_caps: &ChecksumCapabilities,
    )
        requires
            HEADER_LEN + payload_len <= usize::MAX,
            HEADER_LEN <= emitted_len(payload_len) <= old(packet)@.len(),
            checksum_caps.udp.spec_tx() ==> src_addr.spec_version() == dst_addr.spec_version(),
            forall|payload: &mut [u8]|
                payload@ == old(packet)@.subrange(
                    HEADER_LEN as int,
                    emitted_len(payload_len) as int,
                ) ==> call_requires(emit_payload, (payload,)),
            forall|payload: &mut [u8]| #[trigger]
                call_ensures(emit_payload, (payload,), ()) ==> final(payload)@.len()
                    == payload@.len(),
        ensures
            exists|payload: &mut [u8]|
                {
                    &&& payload@ == old(packet)@.subrange(
                        HEADER_LEN as int,
                        emitted_len(payload_len) as int,
                    )
                    &&& #[trigger] call_ensures(emit_payload, (payload,), ())
                    &&& final(packet)@ == emitted(
                        old(packet)@,
                        *self,
                        emitted_len(payload_len),
                        final(payload)@,
                        *src_addr,
                        *dst_addr,
                        *checksum_caps,
                    )
                },
    {
        let ghost before = packet@;
        packet.set_src_port(self.src_port);
        packet.set_dst_port(self.dst_port);
        packet.set_len(((HEADER_LEN + payload_len) % 0x1_0000) as u16);
        let ghost header = packet@;
        let payload = packet.payload_mut();
        assert(payload@ =~= before.subrange(HEADER_LEN as int, emitted_len(payload_len) as int));
        let ghost after = final(payload)@;
        emit_payload(payload);
        assert(header.skip(emitted_len(payload_len) as int) =~= before.skip(
            emitted_len(payload_len) as int,
        ));
        assert(length(packet@) == emitted_len(payload_len));
        if checksum_caps.udp.tx() {
            packet.fill_checksum(src_addr, dst_addr)
        } else {
            // make sure we get a consistently zeroed checksum,
            // since implementations might rely on it
            packet.set_checksum(0);
        }
    }

    /// A one-line description of the ports.
    pub fn to_text(&self) -> (r: String)
        ensures
            r@ == "UDP src="@ + decimal(self.src_port as nat) + " dst="@ + decimal(
                self.dst_port as nat,
            ),
    {
        let mut text = String::new();
        text.append("UDP src=");
        append_decimal(&mut text, self.src_port as usize);
        text.append(" dst=");
        append_decimal(&mut text, self.dst_port as usize);
        assert(text@ =~= "UDP src="@ + decimal(self.src_port as nat) + " dst="@ + decimal(
            self.dst_port as nat,
        ));
        text
    }
}

/// A checksum that was filled in verifies, and is never the zero that says there is none. The
/// length field has to cover the header.
pub proof fn filled_checksum_verifies(packet: Seq<u8>, src_addr: IpAddress, dst_addr: IpAddress)
    requires
        len_ok(packet),
    ensures
        checksum_ok(with_checksum(packet, src_addr, dst_addr), src_addr, dst_addr),
        be16(with_checksum(packet, src_addr, dst_addr), CHECKSUM as int) != 0,
        packet_sum(with_checksum(packet, src_addr, dst_addr), src_addr, dst_addr) == 0xffff,
{
    let at = CHECKSUM as int;
    let cleared = put_be16(packet, at, 0);
    let filled = with_checksum(packet, src_addr, dst_addr);
    let header = spec_pseudo_header(
        src_addr,
        dst_addr,
        IpProtocol::Udp,
        length(packet) as u32,
    );
    let words = word_sum(cleared.take(length(packet)));
    let checksum = complement(fold((header + fold(words)) as nat));
    assert(length(cleared) == length(packet));
    assert(length(filled) == length(packet));
    assert(filled == put_be16(packet, at, checksum));
    let covered = cleared.take(length(packet));
    let high = (checksum / 256) as u8;
    let low = (checksum % 256) as u8;
    lemma_word_sum_put(covered, at, high, low);
    assert(covered.update(at, high).update(at + 1, low) =~= filled.take(length(packet)));
    assert(covered[at] == 0 && covered[at + 1] == 0);
    assert(word_sum(filled.take(length(packet))) == words + checksum as nat);
    lemma_complement(header, words);
}

/// A packet that was emitted parses to the same ports and holds the same payload. The true length
/// has to fit the length field, the destination port cannot be omitted, and where checksums are
/// verified the checksum can be omitted on UDP over IPv4 only.
pub proof fn emitted_packet_parses(
    packet: Seq<u8>,
    repr: Repr,
    payload: Seq<u8>,
    src_addr: IpAddress,
    dst_addr: IpAddress,
    tx_caps: ChecksumCapabilities,
    rx_caps: ChecksumCapabilities,
)
    requires
        HEADER_LEN + payload.len() <= packet.len(),
        HEADER_LEN + payload.len() <= u16::MAX,
        repr.dst_port != 0,
        tx_caps.udp.spec_tx() || !rx_caps.udp.spec_rx() || (src_addr is Ipv4 && dst_addr is Ipv4),
    ensures
        ({
            let sent = emitted(
                packet,
                repr,
                emitted_len(payload.len() as usize),
                payload,
                src_addr,
                dst_addr,
                tx_caps,
            );
            &&& parsed(sent, src_addr, dst_addr, rx_caps) == Some(repr)
            &&& payload_of(sent) == payload
        }),
{
    let len = emitted_len(payload.len() as usize);
    let header = with_header(packet, repr, len);
    let whole = header.take(HEADER_LEN as int) + payload + packet.skip(len as int);
    let sent = emitted(packet, repr, len, payload, src_addr, dst_addr, tx_caps);
    assert(be16(whole, SRC_PORT as int) == repr.src_port);
    assert(be16(whole, DST_PORT as int) == repr.dst_port);
    assert(length(whole) == len);
    assert(be16(sent, SRC_PORT as int) == repr.src_port);
    assert(be16(sent, DST_PORT as int) == repr.dst_port);
    assert(length(sent) == len);
    assert(payload_of(sent) =~= payload);
    if tx_caps.udp.spec_tx() {
        filled_checksum_verifies(whole, src_addr, dst_addr);
    } else {
        assert(be16(sent, CHECKSUM as int) == 0);
    }
}

/// What follows the octets that the length field covers has no part in parsing.
pub proof fn trailing_octets_do_not_matter(
    packet: Seq<u8>,
    trailing: Seq<u8>,
    src_addr: IpAddress,
    dst_addr: IpAddress,
    caps: ChecksumCapabilities,
)
    requires
        len_ok(packet),
    ensures
        parsed(packet + trailing, src_addr, dst_addr, caps) == parsed(
            packet,
            src_addr,
            dst_addr,
            caps,
        ),
        payload_of(packet + trailing) == payload_of(packet),
{
    let longer = packet + trailing;
    assert(length(longer) == length(packet));
    assert(longer.take(length(packet)) =~= packet.take(length(packet)));
    assert(payload_of(longer) =~= payload_of(packet));
}

/// `at` is the offset of a field.
pub open spec fn is_field(at: int) -> bool {
    at == SRC_PORT || at == DST_PORT || at == LENGTH || at == CHECKSUM
}

/// Each field reads back what was set, and setting it leaves the other fields and what follows the
/// header alone.
pub proof fn fields_are_independent(packet: Seq<u8>, at: int, value: u16, other: int)
    requires
        packet.len() >= HEADER_LEN,
        is_field(at),
        is_field(other),
        at != other,
    ensures
        be16(put_be16(packet, at, value), at) == value,
        be16(put_be16(packet, at, value), other) == be16(packet, other),
        put_be16(packet, at, value).len() == packet.len(),
        put_be16(packet, at, value).skip(HEADER_LEN as int) == packet.skip(HEADER_LEN as int),
{
    assert(put_be16(packet, at, value).skip(HEADER_LEN as int) =~= packet.skip(
        HEADER_LEN as int,
    ));
}

} // verus!
