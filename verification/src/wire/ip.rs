//! Internet Protocol addresses, prefixes, endpoints and packet headers.
use vstd::arithmetic::div_mod::lemma_basic_div;
use vstd::arithmetic::power2::{lemma2_to64, lemma_pow2_adds, pow2};
use vstd::bits::{lemma_u128_shr_is_div, lemma_u32_shr_is_div};
use vstd::prelude::*;

verus! {

/// An Internet Protocol version.
#[derive(Debug, Clone, Copy, PartialEq, Eq, Hash, Structural)]
pub enum IpVersion {
    Ipv4,
    Ipv6,
}

/// The `count` low-order octets of `value`, the most significant one first.
pub open spec fn be_octets(value: nat, count: nat) -> Seq<u8>
    decreases count,
{
    if count == 0 {
        Seq::empty()
    } else {
        be_octets(value / 256, (count - 1) as nat).push((value % 256) as u8)
    }
}

/// The `count` low-order octets of `value`, the most significant one first.
fn to_be_octets(value: u128, count: usize) -> (r: Vec<u8>)
    ensures
        r@ == be_octets(value as nat, count as nat),
    decreases count,
{
    if count == 0 {
        Vec::new()
    } else {
        let mut octets = to_be_octets(value / 256, count - 1);
        octets.push((value % 256) as u8);
        octets
    }
}

/// Big-endian octets have the length that was asked for.
pub proof fn lemma_be_octets_len(value: nat, count: nat)
    ensures
        be_octets(value, count).len() == count,
    decreases count,
{
    if count > 0 {
        lemma_be_octets_len(value / 256, (count - 1) as nat);
    }
}

/// An IPv4 address, as a number whose most significant octet is written first.
#[derive(Debug, Clone, Copy, PartialEq, Eq, PartialOrd, Ord, Hash, Structural)]
pub struct Ipv4Address {
    pub bits: u32,
}

impl Ipv4Address {
    /// The address `a.b.c.d`.
    pub fn new(a: u8, b: u8, c: u8, d: u8) -> (r: Ipv4Address)
        ensures
            r.bits == a * 0x100_0000 + b * 0x1_0000 + c * 0x100 + d,
    {
        Ipv4Address {
            bits: a as u32 * 0x100_0000 + b as u32 * 0x1_0000 + c as u32 * 0x100 + d as u32,
        }
    }

    /// The four octets of the address.
    pub open spec fn spec_octets(self) -> Seq<u8> {
        be_octets(self.bits as nat, 4)
    }

    /// The four octets of the address.
    pub fn octets(&self) -> (r: Vec<u8>)
        ensures
            r@ == self.spec_octets(),
            r@.len() == 4,
    {
        proof {
            lemma_be_octets_len(self.bits as nat, 4);
        }
        to_be_octets(self.bits as u128, 4)
    }

    /// Neither the broadcast address, nor in 224.0.0.0/4, nor 0.0.0.0.
    pub open spec fn spec_is_unicast(self) -> bool {
        &&& self.bits != 0xffff_ffff
        &&& !(0xe000_0000 <= self.bits <= 0xefff_ffff)
        &&& self.bits != 0
    }

    /// Whether the address names one host.
    pub fn is_unicast(&self) -> (r: bool)
        ensures
            r == self.spec_is_unicast(),
    {
        !(self.bits == 0xffff_ffff || (0xe000_0000 <= self.bits && self.bits <= 0xefff_ffff)
            || self.bits == 0)
    }
}

/// An IPv6 address, as a number whose most significant octet is written first.
#[derive(Debug, Clone, Copy, PartialEq, Eq, PartialOrd, Ord, Hash, Structural)]
pub struct Ipv6Address {
    pub bits: u128,
}

impl Ipv6Address {
    /// The number that eight 16-bit groups write, the first one the most significant.
    pub open spec fn group_bits(
        a: u16,
        b: u16,
        c: u16,
        d: u16,
        e: u16,
        f: u16,
        g: u16,
        h: u16,
    ) -> int {
        ((((((a * 0x1_0000 + b) * 0x1_0000 + c) * 0x1_0000 + d) * 0x1_0000 + e) * 0x1_0000 + f)
            * 0x1_0000 + g) * 0x1_0000 + h
    }

    /// The address `a:b:c:d:e:f:g:h`.
    pub fn new(a: u16, b: u16, c: u16, d: u16, e: u16, f: u16, g: u16, h: u16) -> (r: Ipv6Address)
        ensures
            r.bits == Ipv6Address::group_bits(a, b, c, d, e, f, g, h),
    {
        let high: u128 = ((a as u128 * 0x1_0000 + b as u128) * 0x1_0000 + c as u128) * 0x1_0000
            + d as u128;
        let low: u128 = (((high * 0x1_0000 + e as u128) * 0x1_0000 + f as u128) * 0x1_0000
            + g as u128) * 0x1_0000 + h as u128;
        Ipv6Address { bits: low }
    }

    /// The sixteen octets of the address.
    pub open spec fn spec_octets(self) -> Seq<u8> {
        be_octets(self.bits as nat, 16)
    }

    /// The sixteen octets of the address.
    pub fn octets(&self) -> (r: Vec<u8>)
        ensures
            r@ == self.spec_octets(),
            r@.len() == 16,
    {
        proof {
            lemma_be_octets_len(self.bits as nat, 16);
        }
        to_be_octets(self.bits, 16)
    }

    /// Neither in ff00::/8 nor the unspecified address.
    pub open spec fn spec_is_unicast(self) -> bool {
        &&& self.bits < 0xff00_0000_0000_0000_0000_0000_0000_0000
        &&& self.bits != 0
    }

    /// Whether the address names one host.
    pub fn is_unicast(&self) -> (r: bool)
        ensures
            r == self.spec_is_unicast(),
    {
        !(self.bits >= 0xff00_0000_0000_0000_0000_0000_0000_0000 || self.bits == 0)
    }
}

/// An Internet Protocol address.
#[derive(Debug, Clone, Copy, PartialEq, Eq, PartialOrd, Ord, Hash, Structural)]
pub enum IpAddress {
    Ipv4(Ipv4Address),
    Ipv6(Ipv6Address),
}

impl IpAddress {
    /// The IPv4 address `a.b.c.d`.
    pub fn v4(a: u8, b: u8, c: u8, d: u8) -> (r: IpAddress)
        ensures
            r == IpAddress::Ipv4(
                Ipv4Address {
                    bits: (a * 0x100_0000 + b * 0x1_0000 + c * 0x100 + d) as u32,
                },
            ),
    {
        IpAddress::Ipv4(Ipv4Address::new(a, b, c, d))
    }

    pub open spec fn spec_version(self) -> IpVersion {
        match self {
            IpAddress::Ipv4(_) => IpVersion::Ipv4,
            IpAddress::Ipv6(_) => IpVersion::Ipv6,
        }
    }

    /// The protocol version that the address belongs to.
    pub fn version(&self) -> (r: IpVersion)
        ensures
            r == self.spec_version(),
    {
        match self {
            IpAddress::Ipv4(_) => IpVersion::Ipv4,
            IpAddress::Ipv6(_) => IpVersion::Ipv6,
        }
    }

    pub open spec fn spec_is_unspecified(self) -> bool {
        match self {
            IpAddress::Ipv4(addr) => addr.bits == 0,
            IpAddress::Ipv6(addr) => addr.bits == 0,
        }
    }

    /// Whether this is the all-zero address.
    pub fn is_unspecified(&self) -> (r: bool)
        ensures
            r == self.spec_is_unspecified(),
    {
        match self {
            IpAddress::Ipv4(addr) => addr.bits == 0,
            IpAddress::Ipv6(addr) => addr.bits == 0,
        }
    }

    pub open spec fn spec_is_unicast(self) -> bool {
        match self {
            IpAddress::Ipv4(addr) => addr.spec_is_unicast(),
            IpAddress::Ipv6(addr) => addr.spec_is_unicast(),
        }
    }

    /// Whether the address names one host.
    pub fn is_unicast(&self) -> (r: bool)
        ensures
            r == self.spec_is_unicast(),
    {
        match self {
            IpAddress::Ipv4(addr) => addr.is_unicast(),
            IpAddress::Ipv6(addr) => addr.is_unicast(),
        }
    }

    /// The octets of the address.
    pub open spec fn spec_octets(self) -> Seq<u8> {
        match self {
            IpAddress::Ipv4(addr) => addr.spec_octets(),
            IpAddress::Ipv6(addr) => addr.spec_octets(),
        }
    }
}

impl From<Ipv4Address> for IpAddress {
    fn from(addr: Ipv4Address) -> (r: IpAddress) {
        IpAddress::Ipv4(addr)
    }
}

impl vstd::std_specs::convert::FromSpecImpl<Ipv4Address> for IpAddress {
    open spec fn obeys_from_spec() -> bool {
        true
    }

    open spec fn from_spec(addr: Ipv4Address) -> IpAddress {
        IpAddress::Ipv4(addr)
    }
}

impl From<Ipv6Address> for IpAddress {
    fn from(addr: Ipv6Address) -> (r: IpAddress) {
        IpAddress::Ipv6(addr)
    }
}

impl vstd::std_specs::convert::FromSpecImpl<Ipv6Address> for IpAddress {
    open spec fn obeys_from_spec() -> bool {
        true
    }

    open spec fn from_spec(addr: Ipv6Address) -> IpAddress {
        IpAddress::Ipv6(addr)
    }
}

/// A block of IPv4 addresses: those that share the first `prefix_len` bits of `address`.
#[derive(Debug, Clone, Copy, PartialEq, Eq, Hash, Structural)]
pub struct Ipv4Cidr {
    address: Ipv4Address,
    prefix_len: u8,
}

impl Ipv4Cidr {
    /// The prefix is no longer than an address.
    #[verifier::type_invariant]
    closed spec fn valid(self) -> bool {
        self.prefix_len <= 32
    }

    pub closed spec fn spec_address(self) -> Ipv4Address {
        self.address
    }

    pub closed spec fn spec_prefix_len(self) -> u8 {
        self.prefix_len
    }

    /// The block `address/prefix_len`.
    pub fn new(address: Ipv4Address, prefix_len: u8) -> (r: Ipv4Cidr)
        requires
            prefix_len <= 32,
        ensures
            r.spec_address() == address,
            r.spec_prefix_len() == prefix_len,
    {
        Ipv4Cidr { address, prefix_len }
    }

    /// The address that the block was made from.
    pub fn address(&self) -> (r: Ipv4Address)
        ensures
            r == self.spec_address(),
    {
        self.address
    }

    /// The number of leading bits that the addresses of the block share.
    pub fn prefix_len(&self) -> (r: u8)
        ensures
            r == self.spec_prefix_len(),
            r <= 32,
    {
        proof {
            use_type_invariant(self);
        }
        self.prefix_len
    }

    /// Both addresses agree after the bits below the prefix are cut off.
    pub open spec fn spec_contains(self, addr: Ipv4Address) -> bool {
        let below = pow2((32 - self.spec_prefix_len()) as nat);
        self.spec_address().bits as nat / below == addr.bits as nat / below
    }

    /// Whether the block holds `addr`.
    pub fn contains_addr(&self, addr: &Ipv4Address) -> (r: bool)
        ensures
            r == self.spec_contains(*addr),
    {
        proof {
            use_type_invariant(self);
        }
        if self.prefix_len == 0 {
            proof {
                lemma2_to64();
                lemma_basic_div(self.address.bits as int, pow2(32) as int);
                lemma_basic_div(addr.bits as int, pow2(32) as int);
            }
            return true;
        }
        let shift: u32 = 32 - self.prefix_len as u32;
        proof {
            lemma_u32_shr_is_div(self.address.bits, shift);
            lemma_u32_shr_is_div(addr.bits, shift);
        }
        self.address.bits >> shift == addr.bits >> shift
    }
}

/// A block of IPv6 addresses: those that share the first `prefix_len` bits of `address`.
#[derive(Debug, Clone, Copy, PartialEq, Eq, Hash, Structural)]
pub struct Ipv6Cidr {
    address: Ipv6Address,
    prefix_len: u8,
}

impl Ipv6Cidr {
    /// The prefix is no longer than an address.
    #[verifier::type_invariant]
    closed spec fn valid(self) -> bool {
        self.prefix_len <= 128
    }

    pub closed spec fn spec_address(self) -> Ipv6Address {
        self.address
    }

    pub closed spec fn spec_prefix_len(self) -> u8 {
        self.prefix_len
    }

    /// The block `address/prefix_len`.
    pub fn new(address: Ipv6Address, prefix_len: u8) -> (r: Ipv6Cidr)
        requires
            prefix_len <= 128,
        ensures
            r.spec_address() == address,
            r.spec_prefix_len() == prefix_len,
    {
        Ipv6Cidr { address, prefix_len }
    }

    /// The address that the block was made from.
    pub fn address(&self) -> (r: Ipv6Address)
        ensures
            r == self.spec_address(),
    {
        self.address
    }

    /// The number of leading bits that the addresses of the block share.
    pub fn prefix_len(&self) -> (r: u8)
        ensures
            r == self.spec_prefix_len(),
            r <= 128,
    {
        proof {
            use_type_invariant(self);
        }
        self.prefix_len
    }

    /// Both addresses agree after the bits below the prefix are cut off.
    pub open spec fn spec_contains(self, addr: Ipv6Address) -> bool {
        let below = pow2((128 - self.spec_prefix_len()) as nat);
        self.spec_address().bits as nat / below == addr.bits as nat / below
    }

    /// Whether the block holds `addr`.
    pub fn contains_addr(&self, addr: &Ipv6Address) -> (r: bool)
        ensures
            r == self.spec_contains(*addr),
    {
        proof {
            use_type_invariant(self);
        }
        if self.prefix_len == 0 {
            proof {
                lemma_pow2_128();
                lemma_basic_div(self.address.bits as int, pow2(128) as int);
                lemma_basic_div(addr.bits as int, pow2(128) as int);
            }
            return true;
        }
        let shift: u128 = 128 - self.prefix_len as u128;
        proof {
            lemma_u128_shr_is_div(self.address.bits, shift);
            lemma_u128_shr_is_div(addr.bits, shift);
        }
        self.address.bits >> shift == addr.bits >> shift
    }
}

/// Two to the power of 128 is the number of IPv6 addresses.
pub proof fn lemma_pow2_128()
    ensures
        pow2(128) == u128::MAX + 1,
{
    lemma2_to64();
    lemma_pow2_adds(64, 64);
    assert(0x1_0000_0000_0000_0000 * 0x1_0000_0000_0000_0000 == u128::MAX + 1);
}

/// A block of Internet Protocol addresses.
#[derive(Debug, Clone, Copy, PartialEq, Eq, Hash, Structural)]
pub enum IpCidr {
    Ipv4(Ipv4Cidr),
    Ipv6(Ipv6Cidr),
}

impl IpCidr {
    pub open spec fn spec_prefix_len(self) -> u8 {
        match self {
            IpCidr::Ipv4(cidr) => cidr.spec_prefix_len(),
            IpCidr::Ipv6(cidr) => cidr.spec_prefix_len(),
        }
    }

    /// The number of leading bits that the addresses of the block share.
    pub fn prefix_len(&self) -> (r: u8)
        ensures
            r == self.spec_prefix_len(),
    {
        match self {
            IpCidr::Ipv4(cidr) => cidr.prefix_len(),
            IpCidr::Ipv6(cidr) => cidr.prefix_len(),
        }
    }

    /// A block holds addresses of its own version only.
    pub open spec fn spec_contains(self, addr: IpAddress) -> bool {
        match (self, addr) {
            (IpCidr::Ipv4(cidr), IpAddress::Ipv4(addr)) => cidr.spec_contains(addr),
            (IpCidr::Ipv6(cidr), IpAddress::Ipv6(addr)) => cidr.spec_contains(addr),
            _ => false,
        }
    }

    /// Whether the block holds `addr`.
    pub fn contains_addr(&self, addr: &IpAddress) -> (r: bool)
        ensures
            r == self.spec_contains(*addr),
    {
        match (self, addr) {
            (IpCidr::Ipv4(cidr), IpAddress::Ipv4(addr)) => cidr.contains_addr(addr),
            (IpCidr::Ipv6(cidr), IpAddress::Ipv6(addr)) => cidr.contains_addr(addr),
            _ => false,
        }
    }
}

impl From<Ipv4Cidr> for IpCidr {
    fn from(cidr: Ipv4Cidr) -> (r: IpCidr) {
        IpCidr::Ipv4(cidr)
    }
}

impl vstd::std_specs::convert::FromSpecImpl<Ipv4Cidr> for IpCidr {
    open spec fn obeys_from_spec() -> bool {
        true
    }

    open spec fn from_spec(cidr: Ipv4Cidr) -> IpCidr {
        IpCidr::Ipv4(cidr)
    }
}

impl From<Ipv6Cidr> for IpCidr {
    fn from(cidr: Ipv6Cidr) -> (r: IpCidr) {
        IpCidr::Ipv6(cidr)
    }
}

impl vstd::std_specs::convert::FromSpecImpl<Ipv6Cidr> for IpCidr {
    open spec fn obeys_from_spec() -> bool {
        true
    }

    open spec fn from_spec(cidr: Ipv6Cidr) -> IpCidr {
        IpCidr::Ipv6(cidr)
    }
}

/// A transport endpoint: an address and a port.
#[derive(Debug, Clone, Copy, PartialEq, Eq, PartialOrd, Ord, Hash, Structural)]
pub struct IpEndpoint {
    pub addr: IpAddress,
    pub port: u16,
}

impl IpEndpoint {
    /// The endpoint `port` at `addr`.
    pub fn new(addr: IpAddress, port: u16) -> (r: IpEndpoint)
        ensures
            r == (IpEndpoint { addr, port }),
    {
        IpEndpoint { addr, port }
    }
}

/// An endpoint to listen on: a port at one address, or at every local address.
#[derive(Debug, Clone, Copy, PartialEq, Eq, Hash, Structural)]
pub struct IpListenEndpoint {
    pub addr: Option<IpAddress>,
    pub port: u16,
}

/// The protocol of what an Internet Protocol packet carries.
#[derive(Debug, Clone, Copy, PartialEq, Eq, Hash, Structural)]
pub enum IpProtocol {
    HopByHop,
    Tcp,
    Udp,
    Unknown(u8),
}

impl IpProtocol {
    pub open spec fn spec_number(self) -> u8 {
        match self {
            IpProtocol::HopByHop => 0,
            IpProtocol::Tcp => 6,
            IpProtocol::Udp => 17,
            IpProtocol::Unknown(number) => number,
        }
    }

    /// The number that stands for the protocol in a header.
    pub fn number(&self) -> (r: u8)
        ensures
            r == self.spec_number(),
    {
        match *self {
            IpProtocol::HopByHop => 0,
            IpProtocol::Tcp => 6,
            IpProtocol::Udp => 17,
            IpProtocol::Unknown(number) => number,
        }
    }
}

/// The header of an IPv4 packet.
#[derive(Debug, Clone, Copy, PartialEq, Eq, Structural)]
pub struct Ipv4Repr {
    pub src_addr: Ipv4Address,
    pub dst_addr: Ipv4Address,
    pub next_header: IpProtocol,
    pub payload_len: usize,
    pub hop_limit: u8,
}

/// The header of an IPv6 packet.
#[derive(Debug, Clone, Copy, PartialEq, Eq, Structural)]
pub struct Ipv6Repr {
    pub src_addr: Ipv6Address,
    pub dst_addr: Ipv6Address,
    pub next_header: IpProtocol,
    pub payload_len: usize,
    pub hop_limit: u8,
}

/// The header of an Internet Protocol packet.
#[derive(Debug, Clone, Copy, PartialEq, Eq, Structural)]
pub enum IpRepr {
    Ipv4(Ipv4Repr),
    Ipv6(Ipv6Repr),
}

impl IpRepr {
    /// The header between two addresses of one version.
    pub open spec fn spec_new(
        src_addr: IpAddress,
        dst_addr: IpAddress,
        next_header: IpProtocol,
        payload_len: usize,
        hop_limit: u8,
    ) -> IpRepr
        recommends
            src_addr.spec_version() == dst_addr.spec_version(),
    {
        match (src_addr, dst_addr) {
            (IpAddress::Ipv4(src_addr), IpAddress::Ipv4(dst_addr)) => IpRepr::Ipv4(
                Ipv4Repr { src_addr, dst_addr, next_header, payload_len, hop_limit },
            ),
            (IpAddress::Ipv6(src_addr), IpAddress::Ipv6(dst_addr)) => IpRepr::Ipv6(
                Ipv6Repr { src_addr, dst_addr, next_header, payload_len, hop_limit },
            ),
            _ => arbitrary(),
        }
    }

    /// The header between two addresses, which must be of one version.
    pub fn new(
        src_addr: IpAddress,
        dst_addr: IpAddress,
        next_header: IpProtocol,
        payload_len: usize,
        hop_limit: u8,
    ) -> (r: IpRepr)
        requires
            src_addr.spec_version() == dst_addr.spec_version(),
        ensures
            r == IpRepr::spec_new(src_addr, dst_addr, next_header, payload_len, hop_limit),
    {
        match (src_addr, dst_addr) {
            (IpAddress::Ipv4(src_addr), IpAddress::Ipv4(dst_addr)) => IpRepr::Ipv4(
                Ipv4Repr { src_addr, dst_addr, next_header, payload_len, hop_limit },
            ),
            (IpAddress::Ipv6(src_addr), IpAddress::Ipv6(dst_addr)) => IpRepr::Ipv6(
                Ipv6Repr { src_addr, dst_addr, next_header, payload_len, hop_limit },
            ),
            _ => vstd::pervasive::unreached(),
        }
    }

    pub open spec fn spec_src_addr(self) -> IpAddress {
        match self {
            IpRepr::Ipv4(repr) => IpAddress::Ipv4(repr.src_addr),
            IpRepr::Ipv6(repr) => IpAddress::Ipv6(repr.src_addr),
        }
    }

    /// The source address.
    pub fn src_addr(&self) -> (r: IpAddress)
        ensures
            r == self.spec_src_addr(),
    {
        match self {
            IpRepr::Ipv4(repr) => IpAddress::Ipv4(repr.src_addr),
            IpRepr::Ipv6(repr) => IpAddress::Ipv6(repr.src_addr),
        }
    }

    pub open spec fn spec_dst_addr(self) -> IpAddress {
        match self {
            IpRepr::Ipv4(repr) => IpAddress::Ipv4(repr.dst_addr),
            IpRepr::Ipv6(repr) => IpAddress::Ipv6(repr.dst_addr),
        }
    }

    /// The destination address.
    pub fn dst_addr(&self) -> (r: IpAddress)
        ensures
            r == self.spec_dst_addr(),
    {
        match self {
            IpRepr::Ipv4(repr) => IpAddress::Ipv4(repr.dst_addr),
            IpRepr::Ipv6(repr) => IpAddress::Ipv6(repr.dst_addr),
        }
    }

    pub open spec fn spec_next_header(self) -> IpProtocol {
        match self {
            IpRepr::Ipv4(repr) => repr.next_header,
            IpRepr::Ipv6(repr) => repr.next_header,
        }
    }

    /// The protocol of the payload.
    pub fn next_header(&self) -> (r: IpProtocol)
        ensures
            r == self.spec_next_header(),
    {
        match self {
            IpRepr::Ipv4(repr) => repr.next_header,
            IpRepr::Ipv6(repr) => repr.next_header,
        }
    }

    pub open spec fn spec_payload_len(self) -> usize {
        match self {
            IpRepr::Ipv4(repr) => repr.payload_len,
            IpRepr::Ipv6(repr) => repr.payload_len,
        }
    }

    /// The length of the payload.
    pub fn payload_len(&self) -> (r: usize)
        ensures
            r == self.spec_payload_len(),
    {
        match self {
            IpRepr::Ipv4(repr) => repr.payload_len,
            IpRepr::Ipv6(repr) => repr.payload_len,
        }
    }

    /// The same header with another payload.
    pub open spec fn with_payload(self, next_header: IpProtocol, payload_len: usize) -> IpRepr {
        match self {
            IpRepr::Ipv4(repr) => IpRepr::Ipv4(Ipv4Repr { next_header, payload_len, ..repr }),
            IpRepr::Ipv6(repr) => IpRepr::Ipv6(Ipv6Repr { next_header, payload_len, ..repr }),
        }
    }

    /// Describes a payload of another protocol and length.
    pub fn set_payload(&mut self, next_header: IpProtocol, payload_len: usize)
        ensures
            *final(self) == old(self).with_payload(next_header, payload_len),
    {
        match *self {
            IpRepr::Ipv4(repr) => {
                *self = IpRepr::Ipv4(Ipv4Repr { next_header, payload_len, ..repr });
            },
            IpRepr::Ipv6(repr) => {
                *self = IpRepr::Ipv6(Ipv6Repr { next_header, payload_len, ..repr });
            },
        }
    }
}

} // verus!
