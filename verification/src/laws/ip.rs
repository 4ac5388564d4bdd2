//! Laws of addresses, blocks of addresses and headers.
use crate::laws::checksum::number;
use crate::wire::ip::{
    be_octets, IpAddress, IpCidr, IpProtocol, IpRepr, IpVersion, Ipv4Address, Ipv4Cidr, Ipv6Address,
    Ipv6Cidr,
};
use vstd::arithmetic::div_mod::lemma_fundamental_div_mod;
use vstd::arithmetic::power2::{lemma_pow2_pos, pow2};
use vstd::prelude::*;

verus! {

/// The octets of an IPv4 address are those that it was made of.
pub proof fn ipv4_octets_read_back(a: u8, b: u8, c: u8, d: u8, addr: Ipv4Address, r: Vec<u8>)
    requires
        call_ensures(Ipv4Address::new, (a, b, c, d), addr),
        call_ensures(Ipv4Address::octets, (&addr,), r),
    ensures
        r@ == seq![a, b, c, d],
{
    reveal_with_fuel(be_octets, 5);
    assert(r@ =~= seq![a, b, c, d]);
}

/// Octets of a number that ends in a 16-bit word end in the octets of that word.
proof fn lemma_last_word(rest: nat, word: u16, count: nat)
    ensures
        be_octets(rest * 0x1_0000 + word as nat, count + 2) == be_octets(rest, count) + seq![
            (word / 256) as u8,
            (word % 256) as u8,
        ],
{
    let n = rest * 0x1_0000 + word as nat;
    reveal_with_fuel(be_octets, 3);
    assert(n / 256 == rest * 256 + (word / 256) as nat);
    assert(n / 256 / 256 == rest);
    assert(n % 256 == word as nat % 256);
    assert((n / 256) % 256 == (word / 256) as nat % 256);
    assert(be_octets(n, count + 2) =~= be_octets(rest, count) + seq![
        (word / 256) as u8,
        (word % 256) as u8,
    ]);
}

/// The octets of an IPv6 address are those of the groups that it was made of, in order.
pub proof fn ipv6_octets_read_back(
    a: u16,
    b: u16,
    c: u16,
    d: u16,
    e: u16,
    f: u16,
    g: u16,
    h: u16,
    addr: Ipv6Address,
    r: Vec<u8>,
)
    requires
        call_ensures(Ipv6Address::new, (a, b, c, d, e, f, g, h), addr),
        call_ensures(Ipv6Address::octets, (&addr,), r),
    ensures
        r@.len() == 16,
        r@[0] * 256 + r@[1] == a,
        r@[2] * 256 + r@[3] == b,
        r@[4] * 256 + r@[5] == c,
        r@[6] * 256 + r@[7] == d,
        r@[8] * 256 + r@[9] == e,
        r@[10] * 256 + r@[11] == f,
        r@[12] * 256 + r@[13] == g,
        r@[14] * 256 + r@[15] == h,
{
    let n1 = a as nat;
    let n2 = n1 * 0x1_0000 + b as nat;
    let n3 = n2 * 0x1_0000 + c as nat;
    let n4 = n3 * 0x1_0000 + d as nat;
    let n5 = n4 * 0x1_0000 + e as nat;
    let n6 = n5 * 0x1_0000 + f as nat;
    let n7 = n6 * 0x1_0000 + g as nat;
    let n8 = n7 * 0x1_0000 + h as nat;
    assert(addr.bits == n8);
    lemma_last_word(0, a, 0);
    lemma_last_word(n1, b, 2);
    lemma_last_word(n2, c, 4);
    lemma_last_word(n3, d, 6);
    lemma_last_word(n4, e, 8);
    lemma_last_word(n5, f, 10);
    lemma_last_word(n6, g, 12);
    lemma_last_word(n7, h, 14);
    assert(be_octets(0, 0) =~= Seq::<u8>::empty());
}

/// An IPv4 address names one host unless it is all zeros, all ones, or starts with the bits 1110; an
/// IPv6 address unless it is all zeros or starts with eight ones.
pub proof fn unicast_addresses_name_one_host(addr: &IpAddress, r: bool)
    requires
        call_ensures(IpAddress::is_unicast, (addr,), r),
    ensures
        r <==> match *addr {
            IpAddress::Ipv4(addr) => addr.bits != 0 && addr.bits != u32::MAX && addr.bits
                / 0x1000_0000 != 14,
            IpAddress::Ipv6(addr) => addr.bits != 0 && addr.bits
                / 0x100_0000_0000_0000_0000_0000_0000_0000 != 255,
        },
{
}

/// The unspecified address is zero in both versions, and the version is that of the address.
pub proof fn unspecified_address_is_zero(addr: &IpAddress, unspecified: bool, version: IpVersion)
    requires
        call_ensures(IpAddress::is_unspecified, (addr,), unspecified),
        call_ensures(IpAddress::version, (addr,), version),
    ensures
        unspecified <==> number(*addr) == 0,
        *addr is Ipv4 <==> version == IpVersion::Ipv4,
        *addr is Ipv6 <==> version == IpVersion::Ipv6,
{
}

/// A block of addresses starts at its address with the bits past the prefix cleared, and holds as
/// many addresses as those bits can number.
pub open spec fn in_block(bits: nat, size: nat, addr: nat) -> bool {
    let start = bits - bits % size;
    start <= addr < start + size
}

proof fn lemma_in_block(bits: nat, size: nat, addr: nat)
    requires
        size > 0,
    ensures
        in_block(bits, size, addr) <==> bits / size == addr / size,
{
    lemma_fundamental_div_mod(bits as int, size as int);
    lemma_fundamental_div_mod(addr as int, size as int);
    let q = bits / size;
    let p = addr / size;
    if p < q {
        assert(size * (p + 1) <= size * q) by (nonlinear_arith)
            requires
                p < q,
        ;
        assert(size * (p + 1) == size * p + size) by (nonlinear_arith);
    } else if q < p {
        assert(size * (q + 1) <= size * p) by (nonlinear_arith)
            requires
                q < p,
        ;
        assert(size * (q + 1) == size * q + size) by (nonlinear_arith);
    }
}

/// The addresses that a block holds: those of its version in the range that its prefix spans.
pub open spec fn spans(cidr: IpCidr, addr: IpAddress) -> bool {
    match (cidr, addr) {
        (IpCidr::Ipv4(cidr), IpAddress::Ipv4(addr)) => in_block(
            cidr.spec_address().bits as nat,
            pow2((32 - cidr.spec_prefix_len()) as nat),
            addr.bits as nat,
        ),
        (IpCidr::Ipv6(cidr), IpAddress::Ipv6(addr)) => in_block(
            cidr.spec_address().bits as nat,
            pow2((128 - cidr.spec_prefix_len()) as nat),
            addr.bits as nat,
        ),
        _ => false,
    }
}

/// A block holds exactly the addresses in the range that its prefix spans.
pub proof fn block_holds_the_range_of_its_prefix(cidr: &IpCidr, addr: &IpAddress, r: bool)
    requires
        call_ensures(IpCidr::contains_addr, (cidr, addr), r),
    ensures
        r <==> spans(*cidr, *addr),
{
    lemma_spans(*cidr, *addr);
}

/// What a block is said to hold is the range that its prefix spans.
pub proof fn lemma_spans(cidr: IpCidr, addr: IpAddress)
    ensures
        cidr.spec_contains(addr) <==> spans(cidr, addr),
{
    match (cidr, addr) {
        (IpCidr::Ipv4(cidr), IpAddress::Ipv4(addr)) => {
            let size = pow2((32 - cidr.spec_prefix_len()) as nat);
            lemma_pow2_pos((32 - cidr.spec_prefix_len()) as nat);
            lemma_in_block(cidr.spec_address().bits as nat, size, addr.bits as nat);
        },
        (IpCidr::Ipv6(cidr), IpAddress::Ipv6(addr)) => {
            let size = pow2((128 - cidr.spec_prefix_len()) as nat);
            lemma_pow2_pos((128 - cidr.spec_prefix_len()) as nat);
            lemma_in_block(cidr.spec_address().bits as nat, size, addr.bits as nat);
        },
        _ => {},
    }
}

/// A block has the address and the prefix that it was made of.
pub proof fn blocks_are_made_of_address_and_prefix(
    addr4: Ipv4Address,
    len4: u8,
    cidr4: Ipv4Cidr,
    addr6: Ipv6Address,
    len6: u8,
    cidr6: Ipv6Cidr,
    r4: u8,
    r6: u8,
)
    requires
        call_ensures(Ipv4Cidr::new, (addr4, len4), cidr4),
        call_ensures(Ipv6Cidr::new, (addr6, len6), cidr6),
        call_ensures(IpCidr::prefix_len, (&IpCidr::Ipv4(cidr4),), r4),
        call_ensures(IpCidr::prefix_len, (&IpCidr::Ipv6(cidr6),), r6),
    ensures
        r4 == len4,
        r6 == len6,
        cidr4.spec_address() == addr4,
        cidr6.spec_address() == addr6,
{
}

/// The protocols have the numbers that are assigned to them.
pub proof fn protocols_have_their_numbers(protocol: &IpProtocol, r: u8)
    requires
        call_ensures(IpProtocol::number, (protocol,), r),
    ensures
        *protocol == IpProtocol::HopByHop ==> r == 0,
        *protocol == IpProtocol::Tcp ==> r == 6,
        *protocol == IpProtocol::Udp ==> r == 17,
        *protocol matches IpProtocol::Unknown(number) ==> r == number,
{
}

/// A header says what it was made of, and another payload changes what it says of the payload only.
pub proof fn headers_say_what_they_were_made_of(
    src: IpAddress,
    dst: IpAddress,
    protocol: IpProtocol,
    len: usize,
    hop_limit: u8,
    header: IpRepr,
)
    requires
        call_ensures(IpRepr::new, (src, dst, protocol, len, hop_limit), header),
        src is Ipv4 == dst is Ipv4,
    ensures
        header.spec_src_addr() == src,
        header.spec_dst_addr() == dst,
        header.spec_next_header() == protocol,
        header.spec_payload_len() == len,
        header matches IpRepr::Ipv4(repr) ==> repr.hop_limit == hop_limit,
        header matches IpRepr::Ipv6(repr) ==> repr.hop_limit == hop_limit,
        header is Ipv4 == src is Ipv4,
        forall|h: &mut IpRepr, other: IpProtocol, n: usize| #[trigger]
            call_ensures(IpRepr::set_payload, (h, other, n), ()) && *h == header ==> {
                &&& final(h).spec_src_addr() == src
                &&& final(h).spec_dst_addr() == dst
                &&& final(h).spec_next_header() == other
                &&& final(h).spec_payload_len() == n
                &&& *final(h) matches IpRepr::Ipv4(repr) ==> repr.hop_limit == hop_limit
                &&& *final(h) matches IpRepr::Ipv6(repr) ==> repr.hop_limit == hop_limit
            },
{
}

/// The parts of a header are the fields of its version.
pub proof fn header_fields_are_read(
    header: &IpRepr,
    src: IpAddress,
    dst: IpAddress,
    protocol: IpProtocol,
    len: usize,
)
    requires
        call_ensures(IpRepr::src_addr, (header,), src),
        call_ensures(IpRepr::dst_addr, (header,), dst),
        call_ensures(IpRepr::next_header, (header,), protocol),
        call_ensures(IpRepr::payload_len, (header,), len),
    ensures
        match *header {
            IpRepr::Ipv4(repr) => {
                &&& src == IpAddress::Ipv4(repr.src_addr)
                &&& dst == IpAddress::Ipv4(repr.dst_addr)
                &&& protocol == repr.next_header
                &&& len == repr.payload_len
            },
            IpRepr::Ipv6(repr) => {
                &&& src == IpAddress::Ipv6(repr.src_addr)
                &&& dst == IpAddress::Ipv6(repr.dst_addr)
                &&& protocol == repr.next_header
                &&& len == repr.payload_len
            },
        },
{
}

} // verus!
