//! Laws of UDP packets.
use crate::laws::checksum::{lemma_pseudo_header, number};
use crate::phy::{Checksum, ChecksumCapabilities};
use crate::text::decimal;
use crate::wire::checksum::{fold, lemma_fold, spec_pseudo_header, word_sum};
use crate::wire::ip::{IpAddress, IpProtocol};
use crate::wire::octets::{field16, set_field16, Octets, OctetsMut};
use crate::wire::udp::{
    filled_checksum_verifies, packet_sum, with_checksum, Packet, Repr,
};
use crate::wire::{udp, Result};
use vstd::arithmetic::div_mod::lemma_add_mod_noop;
use vstd::prelude::*;

verus! {

/// The 16-bit number that two octets write, the more significant one first.
pub open spec fn word(octets: Seq<u8>, at: int) -> int {
    octets[at] * 256 + octets[at + 1]
}

/// The length that the packet states.
pub open spec fn stated(octets: Seq<u8>) -> int {
    word(octets, 4)
}

/// Everything that the checksum covers, the addresses and the protocol number among it, adds up to a
/// multiple of 65535.
pub open spec fn adds_up(octets: Seq<u8>, src_addr: IpAddress, dst_addr: IpAddress) -> bool {
    (number(src_addr) + number(dst_addr) + 17 + stated(octets) + word_sum(
        octets.take(stated(octets)),
    )) % 65535 == 0
}

proof fn lemma_adds_up(octets: Seq<u8>, src_addr: IpAddress, dst_addr: IpAddress)
    requires
        octets.len() >= 8,
    ensures
        packet_sum(octets, src_addr, dst_addr) == 0xffff <==> adds_up(octets, src_addr, dst_addr),
{
    let length = stated(octets);
    assert(udp::length(octets) == length);
    let header = spec_pseudo_header(src_addr, dst_addr, IpProtocol::Udp, length as u32);
    let words = word_sum(octets.take(length));
    let rest = number(src_addr) + number(dst_addr) + 17 + length;
    lemma_pseudo_header(src_addr, dst_addr, IpProtocol::Udp, length as u32);
    lemma_fold(words);
    lemma_fold((header + fold(words)) as nat);
    let d: int = 65535;
    lemma_add_mod_noop(header as int, fold(words) as int, d);
    lemma_add_mod_noop(rest, words as int, d);
}

/// The fields of a packet are numbers of two octets each, the more significant one first: the source
/// port, the destination port, the length and the checksum, in that order.
pub proof fn fields_are_read<T: Octets>(
    packet: &Packet<T>,
    src_port: u16,
    dst_port: u16,
    len: u16,
    checksum: u16,
)
    requires
        packet@.len() >= 8,
        call_ensures(Packet::<T>::src_port, (packet,), src_port),
        call_ensures(Packet::<T>::dst_port, (packet,), dst_port),
        call_ensures(Packet::<T>::len, (packet,), len),
        call_ensures(Packet::<T>::checksum, (packet,), checksum),
    ensures
        src_port == word(packet@, 0),
        dst_port == word(packet@, 2),
        len == word(packet@, 4),
        checksum == word(packet@, 6),
{
}

/// Setting a field changes its two octets and no other.
pub proof fn fields_are_set<T: OctetsMut>(value: u16)
    ensures
        forall|packet: &mut Packet<T>|
            packet@.len() >= 8 && #[trigger] call_ensures(
                Packet::<T>::set_src_port,
                (packet, value),
                (),
            ) ==> is_set(packet@, final(packet)@, 0, value),
        forall|packet: &mut Packet<T>|
            packet@.len() >= 8 && #[trigger] call_ensures(
                Packet::<T>::set_dst_port,
                (packet, value),
                (),
            ) ==> is_set(packet@, final(packet)@, 2, value),
        forall|packet: &mut Packet<T>|
            packet@.len() >= 8 && #[trigger] call_ensures(
                Packet::<T>::set_len,
                (packet, value),
                (),
            ) ==> is_set(packet@, final(packet)@, 4, value),
        forall|packet: &mut Packet<T>|
            packet@.len() >= 8 && #[trigger] call_ensures(
                Packet::<T>::set_checksum,
                (packet, value),
                (),
            ) ==> is_set(packet@, final(packet)@, 6, value),
{
}

/// The field at an offset holds a value, and all other octets are as they were.
pub open spec fn is_set(before: Seq<u8>, after: Seq<u8>, at: int, value: u16) -> bool {
    &&& after.len() == before.len()
    &&& word(after, at) == value
    &&& forall|i: int|
        0 <= i < before.len() && i != at && i != at + 1 ==> #[trigger] after[i] == before[i]
}

/// The length is right where the packet holds a header, and states a length that covers the header
/// and does not exceed the octets that are there.
pub proof fn length_is_checked<T: Octets>(packet: &Packet<T>, r: Result<()>)
    requires
        call_ensures(Packet::<T>::check_len, (packet,), r),
    ensures
        r is Ok <==> packet@.len() >= 8 && 8 <= stated(packet@) <= packet@.len(),
{
}

/// A buffer is taken for a packet exactly where its length is right, and is kept.
pub proof fn only_whole_packets_are_taken<T: Octets>(buffer: T, r: Result<Packet<T>>)
    requires
        call_ensures(Packet::<T>::new_checked, (buffer,), r),
    ensures
        r is Ok <==> buffer.octets().len() >= 8 && 8 <= stated(buffer.octets())
            <= buffer.octets().len(),
        r matches Ok(packet) ==> packet@ == buffer.octets(),
{
}

/// The payload is what follows the header, up to the stated length.
pub proof fn payload_follows_the_header<'a, T: Octets + ?Sized>(
    packet: &Packet<&'a T>,
    r: &'a [u8],
)
    requires
        packet@.len() >= 8,
        8 <= stated(packet@) <= packet@.len(),
        call_ensures(Packet::<&'a T>::payload, (packet,), r),
    ensures
        r@.len() == stated(packet@) - 8,
        forall|i: int| 0 <= i < r@.len() ==> #[trigger] r@[i] == packet@[8 + i],
{
}

/// A checksum is right where none was made, or everything adds up to a multiple of 65535.
pub proof fn checksum_is_right_where_everything_adds_up<T: Octets>(
    packet: &Packet<T>,
    src_addr: &IpAddress,
    dst_addr: &IpAddress,
    r: bool,
)
    requires
        packet@.len() >= 8,
        call_ensures(Packet::<T>::verify_checksum, (packet, src_addr, dst_addr), r),
    ensures
        r <==> word(packet@, 6) == 0 || adds_up(packet@, *src_addr, *dst_addr),
{
    lemma_adds_up(packet@, *src_addr, *dst_addr);
}

/// A partial checksum is right where it is congruent to the sum of the pseudo header, and not zero.
pub proof fn partial_checksum_is_that_of_the_pseudo_header<T: Octets>(
    packet: &Packet<T>,
    src_addr: &IpAddress,
    dst_addr: &IpAddress,
    r: bool,
)
    requires
        packet@.len() >= 8,
        call_ensures(Packet::<T>::verify_partial_checksum, (packet, src_addr, dst_addr), r),
    ensures
        r <==> word(packet@, 6) != 0 && word(packet@, 6) % 65535 == (number(*src_addr) + number(
            *dst_addr,
        ) + 17 + stated(packet@)) % 65535,
{
    lemma_pseudo_header(*src_addr, *dst_addr, IpProtocol::Udp, stated(packet@) as u32);
}

/// Filling in the checksum changes the checksum field only. The checksum is not zero, and makes
/// everything add up to a multiple of 65535.
pub proof fn filled_checksum_makes_everything_add_up<T: OctetsMut>(
    src_addr: &IpAddress,
    dst_addr: &IpAddress,
)
    ensures
        forall|packet: &mut Packet<T>|
            packet@.len() >= 8 && 8 <= stated(packet@) <= packet@.len()
                && #[trigger] call_ensures(
                Packet::<T>::fill_checksum,
                (packet, src_addr, dst_addr),
                (),
            ) ==> is_filled(packet@, final(packet)@, *src_addr, *dst_addr),
{
    assert forall|packet: &mut Packet<T>|
        packet@.len() >= 8 && 8 <= stated(packet@) <= packet@.len() && #[trigger] call_ensures(
            Packet::<T>::fill_checksum,
            (packet, src_addr, dst_addr),
            (),
        ) implies is_filled(packet@, final(packet)@, *src_addr, *dst_addr) by {
        lemma_filled(packet@, *src_addr, *dst_addr);
    }
}

/// The checksum of a packet is filled in.
pub open spec fn is_filled(
    before: Seq<u8>,
    after: Seq<u8>,
    src_addr: IpAddress,
    dst_addr: IpAddress,
) -> bool {
    &&& after.len() == before.len()
    &&& forall|i: int|
        0 <= i < before.len() && i != 6 && i != 7 ==> #[trigger] after[i] == before[i]
    &&& word(after, 6) != 0
    &&& adds_up(after, src_addr, dst_addr)
}

proof fn lemma_filled(octets: Seq<u8>, src_addr: IpAddress, dst_addr: IpAddress)
    requires
        octets.len() >= 8,
        8 <= stated(octets) <= octets.len(),
    ensures
        is_filled(octets, with_checksum(octets, src_addr, dst_addr), src_addr, dst_addr),
{
    let after = with_checksum(octets, src_addr, dst_addr);
    assert(udp::len_ok(octets));
    filled_checksum_verifies(octets, src_addr, dst_addr);
    lemma_adds_up(after, src_addr, dst_addr);
}

/// Checksums are verified when receiving.
pub open spec fn verifies(checksum: Checksum) -> bool {
    checksum == Checksum::Both || checksum == Checksum::Rx
}

/// Checksums are computed when sending.
pub open spec fn computes(checksum: Checksum) -> bool {
    checksum == Checksum::Both || checksum == Checksum::Tx
}

/// Whether checksums are verified and computed is what the capabilities say.
pub proof fn capabilities_say_who_handles_checksums(checksum: &Checksum, rx: bool, tx: bool)
    requires
        call_ensures(Checksum::rx, (checksum,), rx),
        call_ensures(Checksum::tx, (checksum,), tx),
    ensures
        rx <==> verifies(*checksum),
        tx <==> computes(*checksum),
{
}

/// A packet parses exactly where its length is right, it has a destination port, and, where
/// checksums are verified, everything adds up, or the checksum is omitted between two IPv4
/// addresses. What comes of it are the two ports.
pub proof fn packets_parse_to_their_ports<T: Octets>(
    packet: &Packet<T>,
    src_addr: &IpAddress,
    dst_addr: &IpAddress,
    caps: &ChecksumCapabilities,
    r: Result<Repr>,
)
    requires
        call_ensures(Repr::parse::<T>, (packet, src_addr, dst_addr, caps), r),
    ensures
        r is Ok <==> {
            &&& packet@.len() >= 8
            &&& 8 <= stated(packet@) <= packet@.len()
            &&& word(packet@, 2) != 0
            &&& verifies(caps.udp) ==> if word(packet@, 6) == 0 {
                *src_addr is Ipv4 && *dst_addr is Ipv4
            } else {
                adds_up(packet@, *src_addr, *dst_addr)
            }
        },
        r matches Ok(repr) ==> repr.src_port == word(packet@, 0) && repr.dst_port == word(
            packet@,
            2,
        ),
{
    if packet@.len() >= 8 {
        lemma_adds_up(packet@, *src_addr, *dst_addr);
    }
}

/// A packet as it is sent: the two ports, the true length, the payload, and what was there before
/// behind it. Where checksums are computed the checksum makes everything add up, and is not zero;
/// elsewhere it is zero.
pub open spec fn is_sent(
    before: Seq<u8>,
    after: Seq<u8>,
    repr: Repr,
    payload: Seq<u8>,
    src_addr: IpAddress,
    dst_addr: IpAddress,
    caps: ChecksumCapabilities,
) -> bool {
    let end = 8 + payload.len();
    &&& after.len() == before.len()
    &&& word(after, 0) == repr.src_port
    &&& word(after, 2) == repr.dst_port
    &&& word(after, 4) == end
    &&& after.subrange(8, end as int) == payload
    &&& after.skip(end as int) == before.skip(end as int)
    &&& computes(caps.udp) ==> word(after, 6) != 0 && adds_up(after, src_addr, dst_addr)
    &&& !computes(caps.udp) ==> word(after, 6) == 0
}

/// Emitting a packet writes ports, length, payload and checksum. The payload is what `emit_payload`
/// makes of the octets that were there, and the length what is left of the true length in sixteen
/// bits.
pub proof fn emitted_packets_are_complete<T: OctetsMut, F: FnOnce(&mut [u8])>(
    repr: &Repr,
    src_addr: &IpAddress,
    dst_addr: &IpAddress,
    payload_len: usize,
    emit_payload: F,
    caps: &ChecksumCapabilities,
)
    requires
        8 + payload_len <= usize::MAX,
        (8 + payload_len) % 0x1_0000 >= 8,
        forall|payload: &mut [u8]| #[trigger]
            call_ensures(emit_payload, (payload,), ()) ==> final(payload)@.len() == payload@.len(),
    ensures
        forall|packet: &mut Packet<T>|
            packet@.len() >= (8 + payload_len) % 0x1_0000 && #[trigger] call_ensures(
                Repr::emit::<T, F>,
                (repr, packet, src_addr, dst_addr, payload_len, emit_payload, caps),
                (),
            ) ==> exists|payload: &mut [u8]|
                {
                    &&& payload@ == packet@.subrange(8, (8 + payload_len) % 0x1_0000)
                    &&& #[trigger] call_ensures(emit_payload, (payload,), ())
                    &&& is_sent(
                        packet@,
                        final(packet)@,
                        *repr,
                        final(payload)@,
                        *src_addr,
                        *dst_addr,
                        *caps,
                    )
                },
{
    assert forall|packet: &mut Packet<T>|
        packet@.len() >= (8 + payload_len) % 0x1_0000 && #[trigger] call_ensures(
            Repr::emit::<T, F>,
            (repr, packet, src_addr, dst_addr, payload_len, emit_payload, caps),
            (),
        ) implies exists|payload: &mut [u8]|
        {
            &&& payload@ == packet@.subrange(8, (8 + payload_len) % 0x1_0000)
            &&& #[trigger] call_ensures(emit_payload, (payload,), ())
            &&& is_sent(
                packet@,
                final(packet)@,
                *repr,
                final(payload)@,
                *src_addr,
                *dst_addr,
                *caps,
            )
        } by {
        let length = udp::emitted_len(payload_len);
        assert(length == (8 + payload_len) % 0x1_0000);
        let payload = choose|payload: &mut [u8]|
            {
                &&& payload@ == packet@.subrange(8, length as int)
                &&& #[trigger] call_ensures(emit_payload, (payload,), ())
                &&& final(packet)@ == udp::emitted(
                    packet@,
                    *repr,
                    length,
                    final(payload)@,
                    *src_addr,
                    *dst_addr,
                    *caps,
                )
            };
        lemma_sent(packet@, *repr, final(payload)@, *src_addr, *dst_addr, *caps);
    }
}

proof fn lemma_sent(
    before: Seq<u8>,
    repr: Repr,
    payload: Seq<u8>,
    src_addr: IpAddress,
    dst_addr: IpAddress,
    caps: ChecksumCapabilities,
)
    requires
        8 + payload.len() <= 0xffff,
        before.len() >= 8 + payload.len(),
    ensures
        is_sent(
            before,
            udp::emitted(
                before,
                repr,
                (8 + payload.len()) as u16,
                payload,
                src_addr,
                dst_addr,
                caps,
            ),
            repr,
            payload,
            src_addr,
            dst_addr,
            caps,
        ),
{
    let length = (8 + payload.len()) as u16;
    let header = udp::with_header(before, repr, length);
    let whole = header.take(8) + payload + before.skip(length as int);
    let after = udp::emitted(before, repr, length, payload, src_addr, dst_addr, caps);
    assert(word(whole, 0) == repr.src_port);
    assert(word(whole, 2) == repr.dst_port);
    assert(word(whole, 4) == length);
    lemma_filled(whole, src_addr, dst_addr);
    assert(after.subrange(8, length as int) =~= payload);
    assert(after.skip(length as int) =~= before.skip(length as int));
}

/// Emitting a header writes ports and length and a zero checksum, and leaves what follows alone.
pub proof fn emitted_header_has_no_checksum<T: OctetsMut>(repr: &Repr, payload_len: usize)
    ensures
        forall|packet: &mut Packet<T>|
            packet@.len() >= 8 && #[trigger] call_ensures(
                Repr::emit_header::<T>,
                (repr, packet, payload_len),
                (),
            ) ==> {
                &&& final(packet)@.len() == packet@.len()
                &&& word(final(packet)@, 0) == repr.src_port
                &&& word(final(packet)@, 2) == repr.dst_port
                &&& word(final(packet)@, 4) == (8 + payload_len) % 0x1_0000
                &&& word(final(packet)@, 6) == 0
                &&& final(packet)@.skip(8) == packet@.skip(8)
            },
{
    assert forall|packet: &mut Packet<T>|
        packet@.len() >= 8 && #[trigger] call_ensures(
            Repr::emit_header::<T>,
            (repr, packet, payload_len),
            (),
        ) implies final(packet)@.skip(8) == packet@.skip(8) by {
        assert(final(packet)@.skip(8) =~= packet@.skip(8));
    }
}

/// Descriptions name both ports and the number of octets of the payload, in this order.
pub proof fn descriptions_name_ports_and_length<T: Octets>(
    packet: &Packet<T>,
    repr: &Repr,
    of_packet: String,
    of_repr: String,
)
    requires
        packet@.len() >= 8,
        8 <= stated(packet@) <= packet@.len(),
        repr.src_port == word(packet@, 0),
        repr.dst_port == word(packet@, 2),
        call_ensures(Packet::<T>::to_text, (packet,), of_packet),
        call_ensures(Repr::to_text, (repr,), of_repr),
    ensures
        of_repr@ == "UDP src="@ + decimal(repr.src_port as nat) + " dst="@ + decimal(
            repr.dst_port as nat,
        ),
        of_packet@ == of_repr@ + " len="@ + decimal((stated(packet@) - 8) as nat),
{
}

/// A packet is its buffer, which is handed back as it was.
pub proof fn packets_are_their_buffers<T: Octets>(buffer: T, packet: Packet<T>, any: Packet<T>, r: T)
    requires
        call_ensures(Packet::<T>::new_unchecked, (buffer,), packet),
        call_ensures(Packet::<T>::into_inner, (any,), r),
    ensures
        packet.inner() == buffer,
        packet@ == buffer.octets(),
        r == any.inner(),
{
}

/// The payload stands behind the eight octets of the header, up to the length that is stated.
pub proof fn payload_stands_behind_the_header(
    length: u16,
    range: core::ops::Range<usize>,
    repr: &Repr,
    header: usize,
)
    requires
        call_ensures(udp::PAYLOAD, (length,), range),
        call_ensures(Repr::header_len, (repr,), header),
    ensures
        header == 8,
        range.start == 8,
        range.end == length,
{
}

/// What is written into the payload of a packet replaces the octets behind the header up to the length
/// that is stated, and nothing else.
pub proof fn payload_is_written_in_place<T: OctetsMut>()
    ensures
        forall|packet: &mut Packet<T>, r: &mut [u8]| #[trigger]
            call_ensures(Packet::<T>::payload_mut, (packet,), r) && packet@.len() >= 8 && 8
                <= stated(packet@) <= packet@.len() && final(r)@.len() == r@.len() ==> {
                &&& r@.len() == stated(packet@) - 8
                &&& forall|i: int| 0 <= i < r@.len() ==> #[trigger] r@[i] == packet@[8 + i]
                &&& final(packet)@.len() == packet@.len()
                &&& forall|i: int|
                    0 <= i < packet@.len() ==> #[trigger] final(packet)@[i] == if 8 <= i < stated(
                        packet@,
                    ) {
                        final(r)@[i - 8]
                    } else {
                        packet@[i]
                    }
            },
{
}

/// A number of two octets is read where it stands, the more significant octet first.
pub proof fn numbers_are_read_where_they_stand(data: &[u8], at: usize, r: u16)
    requires
        call_ensures(field16, (data, at), r),
        at + 2 <= data@.len(),
    ensures
        r == word(data@, at as int),
{
}

/// A number of two octets is written where it stands, the more significant octet first, and all other
/// octets stay.
pub proof fn numbers_are_written_where_they_stand(at: usize, value: u16)
    ensures
        forall|data: &mut [u8]| #[trigger]
            call_ensures(set_field16, (data, at, value), ()) && at + 2 <= data@.len() ==> {
                &&& final(data)@.len() == data@.len()
                &&& word(final(data)@, at as int) == value
                &&& forall|i: int|
                    0 <= i < data@.len() && i != at && i != at + 1 ==> #[trigger] final(data)@[i]
                        == data@[i]
            },
{
}

/// A packet is described on a line behind the indent where its length is right, and as an error in
/// brackets where it is not.
pub proof fn packets_are_described_behind_the_indent<T: Octets>(
    buffer: T,
    indent: &str,
    packet: Packet<T>,
    text: String,
    r: String,
)
    requires
        call_ensures(udp::pretty_print::<T>, (buffer, indent), r),
        packet@ == buffer.octets(),
        call_ensures(Packet::<T>::to_text, (&packet,), text),
    ensures
        packet@.len() >= 8 && 8 <= stated(packet@) <= packet@.len() ==> r@ == indent@ + text@,
        !(packet@.len() >= 8 && 8 <= stated(packet@) <= packet@.len()) ==> r@ == indent@
            + "(wire::Error)"@,
{
    reveal_strlit("(wire::Error)");
    reveal_strlit("(");
    reveal_strlit("wire::Error");
    reveal_strlit(")");
    assert("("@ + "wire::Error"@ + ")"@ =~= "(wire::Error)"@);
    assert(indent@ + "("@ + "wire::Error"@ + ")"@ =~= indent@ + ("("@ + "wire::Error"@ + ")"@));
}

} // verus!
