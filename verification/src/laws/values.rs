//! Laws of small values and of what is written of them.
use crate::iface::interface::tcp::Packet;
use crate::iface::interface::InterfaceInner;
use crate::iface::route::RouteTableFull;
use crate::laws::numbers::{decimal_reads_back, steps, value};
use crate::phy::{Checksum, ChecksumCapabilities, DeviceCapabilities, PacketMeta};
use crate::socket::tcp::time_wait::{fits, TimeWaitState};
use crate::socket::tcp::{Socket, SocketBuffer};
use crate::text::append_decimal;
use crate::time::{Duration, Instant};
use crate::wire::ip::{IpAddress, IpEndpoint, IpRepr};
use crate::wire::tcp::{TcpRepr, TcpSeqNumber};
use crate::wire::Error;
use vstd::prelude::*;

verus! {

/// A number is appended in decimal, and what was written before stays.
pub proof fn numbers_are_appended(n: usize)
    ensures
        forall|out: &mut String| #[trigger]
            call_ensures(append_decimal, (out, n), ()) ==> {
                &&& final(out)@.len() > out@.len()
                &&& final(out)@.take(out@.len() as int) == out@
                &&& value(final(out)@.skip(out@.len() as int)) == n
                &&& forall|i: int|
                    out@.len() <= i < final(out)@.len() ==> '0' <= #[trigger] final(out)@[i] <= '9'
                &&& n > 0 ==> final(out)@[out@.len() as int] != '0'
            },
{
    decimal_reads_back(n as nat);
    assert forall|out: &mut String| #[trigger] call_ensures(append_decimal, (out, n), ()) implies {
        &&& final(out)@.len() > out@.len()
        &&& final(out)@.take(out@.len() as int) == out@
        &&& value(final(out)@.skip(out@.len() as int)) == n
        &&& forall|i: int|
            out@.len() <= i < final(out)@.len() ==> '0' <= #[trigger] final(out)@[i] <= '9'
        &&& n > 0 ==> final(out)@[out@.len() as int] != '0'
    } by {
        let digits = crate::text::decimal(n as nat);
        assert(final(out)@.take(out@.len() as int) =~= out@);
        assert(final(out)@.skip(out@.len() as int) =~= digits);
        assert forall|i: int| out@.len() <= i < final(out)@.len() implies '0'
            <= #[trigger] final(out)@[i] <= '9' by {
            assert(final(out)@[i] == digits[i - out@.len()]);
        }
    }
}

/// A time can be told that much later where the sum is no larger than the largest time.
pub proof fn later_times_are_told(now: Instant, duration: Duration, r: bool)
    requires
        call_ensures(fits, (now, duration), r),
    ensures
        r <==> duration.micros <= i64::MAX && now.micros + duration.micros <= i64::MAX,
{
}

/// The peer sends next what follows all that was received.
pub proof fn peer_goes_on_after_what_was_received(socket: &Socket, r: TcpSeqNumber)
    requires
        call_ensures(Socket::rcv_nxt, (socket,), r),
    ensures
        steps(socket.remote_seq_no.0 as int, r.0 as int) == socket.rx_buffer@.len() % 0x1_0000_0000,
{
}

/// Who watches is told where someone does.
pub proof fn observers_identify_themselves(socket: &Socket, r: Option<u64>)
    requires
        call_ensures(Socket::lifecycle_identity, (socket,), r),
    ensures
        r is Some <==> socket.lifecycle_observer is Some,
        r is Some ==> (socket.lifecycle_observer->0).may_identify(r->0),
{
}

/// A queue says how long it can get.
pub proof fn queues_say_how_long_they_get(queue: &SocketBuffer, r: usize)
    requires
        call_ensures(SocketBuffer::capacity, (queue,), r),
    ensures
        r == queue.spec_capacity(),
{
}

/// A segment to be sent is bound to no device until it is bound to one.
pub proof fn segments_are_bound_to_a_device(
    ip: IpRepr,
    tcp: TcpRepr<'static>,
    fresh: Packet,
    any: Packet,
    meta: PacketMeta,
    bound: Packet,
    r: PacketMeta,
)
    requires
        call_ensures(Packet::new, (ip, tcp), fresh),
        call_ensures(Packet::with_tx_meta, (any, meta), bound),
        call_ensures(Packet::tx_meta, (&any,), r),
    ensures
        fresh.ip == ip,
        fresh.tcp == tcp,
        fresh.meta.id == 0,
        bound.ip == any.ip,
        bound.tcp == any.tcp,
        bound.meta == meta,
        r == any.meta,
{
}

/// The clock of an interface shows what it was set to, and setting it changes nothing else.
pub proof fn clocks_show_what_they_were_set_to(cx: &InterfaceInner, r: Instant, now: Instant)
    requires
        call_ensures(InterfaceInner::now, (cx,), r),
    ensures
        r == cx.now,
        forall|any: &mut InterfaceInner| #[trigger]
            call_ensures(InterfaceInner::set_now, (any, now), ()) ==> {
                &&& final(any).now == now
                &&& final(any).caps == any.caps
            },
{
}

/// An endpoint has the address and the port that it was made of.
pub proof fn endpoints_are_made_of_address_and_port(addr: IpAddress, port: u16, r: IpEndpoint)
    requires
        call_ensures(IpEndpoint::new, (addr, port), r),
    ensures
        r.addr == addr,
        r.port == port,
{
}

/// An IPv4 address is made of its four octets, the first the most significant.
pub proof fn addresses_are_made_of_octets(a: u8, b: u8, c: u8, d: u8, r: IpAddress)
    requires
        call_ensures(IpAddress::v4, (a, b, c, d), r),
    ensures
        r is Ipv4,
        (r->Ipv4_0).bits == ((a * 256 + b) * 256 + c) * 256 + d,
{
}

/// A copy of a state is the state.
pub proof fn copies_are_the_same(state: &TimeWaitState, r: TimeWaitState)
    requires
        call_ensures(<TimeWaitState as Clone>::clone, (state,), r),
    ensures
        r == *state,
{
}

/// By default packets are bound to no device, and checksums are made and verified.
pub proof fn defaults_are_unbound_and_checked(
    meta: PacketMeta,
    checksums: ChecksumCapabilities,
    device: DeviceCapabilities,
)
    requires
        call_ensures(<PacketMeta as Default>::default, (), meta),
        call_ensures(<ChecksumCapabilities as Default>::default, (), checksums),
        call_ensures(<DeviceCapabilities as Default>::default, (), device),
    ensures
        meta.id == 0,
        checksums.udp == Checksum::Both,
        checksums.tcp == Checksum::Both,
        device.checksum == checksums,
{
}

/// Errors are described in words.
pub proof fn errors_are_described(
    full: &RouteTableFull,
    full_text: &'static str,
    wrong: &Error,
    wrong_text: &'static str,
)
    requires
        call_ensures(RouteTableFull::to_text, (full,), full_text),
        call_ensures(Error::to_text, (wrong,), wrong_text),
    ensures
        full_text@ == "Route table full"@,
        wrong_text@ == "wire::Error"@,
{
}

} // verus!
