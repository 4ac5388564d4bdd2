use smoltcp::phy::{Checksum, ChecksumCapabilities};
use smoltcp::wire::ip::{IpAddress, Ipv4Address, Ipv6Address};
use smoltcp::wire::udp::{pretty_print, Packet, Repr, HEADER_LEN, PAYLOAD};
use smoltcp::wire::Error;

const PACKET_BYTES: [u8; 12] = [
    0xbf, 0x00, 0x00, 0x35, 0x00, 0x0c, 0x12, 0x4d, 0xaa, 0x00, 0x00, 0xff,
];

const NO_CHECKSUM_PACKET: [u8; 12] = [
    0xbf, 0x00, 0x00, 0x35, 0x00, 0x0c, 0x00, 0x00, 0xaa, 0x00, 0x00, 0xff,
];

const PAYLOAD_BYTES: [u8; 4] = [0xaa, 0x00, 0x00, 0xff];

fn src_addr() -> IpAddress {
    Ipv4Address::new(192, 168, 1, 1).into()
}

fn dst_addr() -> IpAddress {
    Ipv4Address::new(192, 168, 1, 2).into()
}

fn packet_repr() -> Repr {
    Repr {
        src_port: 48896,
        dst_port: 53,
    }
}

#[test]
fn test_deconstruct() {
    let packet = Packet::new_unchecked(&PACKET_BYTES[..]);
    assert_eq!(packet.src_port(), 48896);
    assert_eq!(packet.dst_port(), 53);
    assert_eq!(packet.len(), 12);
    assert_eq!(packet.checksum(), 0x124d);
    assert_eq!(packet.payload(), &PAYLOAD_BYTES[..]);
    assert!(packet.verify_checksum(&src_addr(), &dst_addr()));
}

#[test]
fn test_construct() {
    let mut bytes = vec![0xa5; 12];
    let mut packet = Packet::new_unchecked(&mut bytes);
    packet.set_src_port(48896);
    packet.set_dst_port(53);
    packet.set_len(12);
    packet.set_checksum(0xffff);
    packet.payload_mut().copy_from_slice(&PAYLOAD_BYTES[..]);
    packet.fill_checksum(&src_addr(), &dst_addr());
    assert_eq!(&packet.into_inner()[..], &PACKET_BYTES[..]);
}

#[test]
fn test_impossible_len() {
    let mut bytes = vec![0; 12];
    let mut packet = Packet::new_unchecked(&mut bytes);
    packet.set_len(4);
    assert_eq!(packet.check_len(), Err(Error));
}

#[test]
fn test_zero_checksum() {
    let mut bytes = vec![0; 8];
    let mut packet = Packet::new_unchecked(&mut bytes);
    packet.set_src_port(1);
    packet.set_dst_port(31881);
    packet.set_len(8);
    packet.fill_checksum(&src_addr(), &dst_addr());
    assert_eq!(packet.checksum(), 0xffff);
}

#[test]
fn test_no_checksum() {
    let mut bytes = vec![0; 8];
    let mut packet = Packet::new_unchecked(&mut bytes);
    packet.set_src_port(1);
    packet.set_dst_port(31881);
    packet.set_len(8);
    packet.set_checksum(0);
    assert!(packet.verify_checksum(&src_addr(), &dst_addr()));
}

#[test]
fn test_parse() {
    let packet = Packet::new_unchecked(&PACKET_BYTES[..]);
    let repr = Repr::parse(
        &packet,
        &src_addr(),
        &dst_addr(),
        &ChecksumCapabilities::default(),
    )
    .unwrap();
    assert_eq!(repr, packet_repr());
}

#[test]
fn test_emit() {
    let repr = packet_repr();
    let mut bytes = vec![0xa5; repr.header_len() + PAYLOAD_BYTES.len()];
    let mut packet = Packet::new_unchecked(&mut bytes);
    repr.emit(
        &mut packet,
        &src_addr(),
        &dst_addr(),
        PAYLOAD_BYTES.len(),
        |payload: &mut [u8]| payload.copy_from_slice(&PAYLOAD_BYTES),
        &ChecksumCapabilities::default(),
    );
    assert_eq!(&packet.into_inner()[..], &PACKET_BYTES[..]);
}

#[test]
fn test_checksum_omitted() {
    let packet = Packet::new_unchecked(&NO_CHECKSUM_PACKET[..]);
    let repr = Repr::parse(
        &packet,
        &src_addr(),
        &dst_addr(),
        &ChecksumCapabilities::default(),
    )
    .unwrap();
    assert_eq!(repr, packet_repr());
}

#[test]
fn payload_range_starts_behind_the_header() {
    assert_eq!(PAYLOAD(12), 8..12);
    assert_eq!(HEADER_LEN, 8);
    assert_eq!(packet_repr().header_len(), 8);
}

#[test]
fn wrong_lengths_are_refused() {
    assert_eq!(Packet::new_checked(&PACKET_BYTES[..7]).err(), Some(Error));
    assert_eq!(Packet::new_checked(&PACKET_BYTES[..11]).err(), Some(Error));
    assert!(Packet::new_checked(&PACKET_BYTES[..]).is_ok());
    let mut longer = PACKET_BYTES.to_vec();
    longer.push(0x5a);
    let packet = Packet::new_checked(longer).unwrap();
    assert_eq!(packet.len(), 12);
    assert!(packet.verify_checksum(&src_addr(), &dst_addr()));
    let packet = Packet::new_unchecked(&PACKET_BYTES[..11]);
    assert_eq!(
        Repr::parse(
            &packet,
            &src_addr(),
            &dst_addr(),
            &ChecksumCapabilities::default()
        ),
        Err(Error)
    );
}

#[test]
fn omitted_destination_port_is_refused() {
    let mut bytes = NO_CHECKSUM_PACKET;
    bytes[2] = 0;
    bytes[3] = 0;
    let packet = Packet::new_unchecked(&bytes[..]);
    assert_eq!(
        Repr::parse(
            &packet,
            &src_addr(),
            &dst_addr(),
            &ChecksumCapabilities::default()
        ),
        Err(Error)
    );
}

#[test]
fn damaged_packet_is_refused_unless_checksums_are_left_alone() {
    let mut bytes = PACKET_BYTES;
    bytes[9] ^= 0x10;
    let packet = Packet::new_unchecked(&bytes[..]);
    assert!(!packet.verify_checksum(&src_addr(), &dst_addr()));
    for udp in [Checksum::Both, Checksum::Rx] {
        assert_eq!(
            Repr::parse(
                &packet,
                &src_addr(),
                &dst_addr(),
                &ChecksumCapabilities {
                    udp,
                    ..ChecksumCapabilities::default()
                }
            ),
            Err(Error)
        );
    }
    for udp in [Checksum::Tx, Checksum::Neither] {
        assert_eq!(
            Repr::parse(
                &packet,
                &src_addr(),
                &dst_addr(),
                &ChecksumCapabilities {
                    udp,
                    ..ChecksumCapabilities::default()
                }
            ),
            Ok(packet_repr())
        );
    }
}

#[test]
fn checksum_cannot_be_omitted_over_ipv6() {
    let src: IpAddress = Ipv6Address::new(0xfe80, 0, 0, 0, 0, 0, 0, 1).into();
    let dst: IpAddress = Ipv6Address::new(0xfe80, 0, 0, 0, 0, 0, 0, 2).into();
    let packet = Packet::new_unchecked(&NO_CHECKSUM_PACKET[..]);
    assert_eq!(
        Repr::parse(&packet, &src, &dst, &ChecksumCapabilities::default()),
        Err(Error)
    );
    let unverified = ChecksumCapabilities {
        udp: Checksum::Tx,
        ..ChecksumCapabilities::default()
    };
    assert_eq!(
        Repr::parse(&packet, &src, &dst, &unverified),
        Ok(packet_repr())
    );
}

#[test]
fn emitting_without_checksum_writes_zero() {
    let repr = packet_repr();
    let mut bytes = vec![0xa5; 12];
    let mut packet = Packet::new_unchecked(&mut bytes);
    repr.emit(
        &mut packet,
        &src_addr(),
        &dst_addr(),
        4,
        |payload: &mut [u8]| payload.copy_from_slice(&PAYLOAD_BYTES),
        &ChecksumCapabilities {
            udp: Checksum::Rx,
            ..ChecksumCapabilities::default()
        },
    );
    assert_eq!(&packet.into_inner()[..], &NO_CHECKSUM_PACKET[..]);
}

#[test]
fn emitting_a_header_leaves_the_payload_alone() {
    let repr = packet_repr();
    let mut bytes = PACKET_BYTES;
    let mut packet = Packet::new_unchecked(&mut bytes[..]);
    packet.set_src_port(1);
    packet.set_dst_port(2);
    packet.set_len(9);
    repr.emit_header(&mut packet, 4);
    assert_eq!(bytes, NO_CHECKSUM_PACKET);
}

#[test]
fn emitted_packet_reads_back_over_ipv6() {
    let src: IpAddress = Ipv6Address::new(0xfe80, 0, 0, 0, 0, 0, 0, 1).into();
    let dst: IpAddress = Ipv6Address::new(0xfe80, 0, 0, 0, 0, 0, 0, 2).into();
    let repr = Repr {
        src_port: 0,
        dst_port: 65535,
    };
    let mut bytes = vec![0; 8 + 5];
    repr.emit(
        &mut Packet::new_unchecked(&mut bytes),
        &src,
        &dst,
        5,
        |payload: &mut [u8]| payload.copy_from_slice(b"hello"),
        &ChecksumCapabilities::default(),
    );
    let packet = Packet::new_checked(&bytes[..]).unwrap();
    assert_eq!(packet.payload(), b"hello");
    assert!(packet.verify_checksum(&src, &dst));
    assert!(!packet.verify_partial_checksum(&src, &dst));
    assert_eq!(
        Repr::parse(&packet, &src, &dst, &ChecksumCapabilities::default()),
        Ok(repr)
    );
}

#[test]
fn partial_checksum_is_that_of_the_pseudo_header() {
    let mut bytes = PACKET_BYTES;
    let mut packet = Packet::new_unchecked(&mut bytes[..]);
    // c0a8 + 0101 + c0a8 + 0102 + 0011 + 000c, with the carry added back in.
    packet.set_checksum(0x8371);
    assert!(packet.verify_partial_checksum(&src_addr(), &dst_addr()));
    packet.set_checksum(0x8372);
    assert!(!packet.verify_partial_checksum(&src_addr(), &dst_addr()));
}

#[test]
fn packets_are_described() {
    let packet = Packet::new_checked(&PACKET_BYTES[..]).unwrap();
    assert_eq!(packet.to_text(), "UDP src=48896 dst=53 len=4");
    assert_eq!(packet_repr().to_text(), "UDP src=48896 dst=53");
    assert_eq!(
        pretty_print(&PACKET_BYTES[..], "\\ "),
        "\\ UDP src=48896 dst=53 len=4"
    );
    assert_eq!(pretty_print(&PACKET_BYTES[..3], "-"), "-(wire::Error)");
}
