//! Laws of what the operations of the library accept.
use crate::iface::interface::{Context, InterfaceInner};
use crate::iface::route::{RouteStore, Routes};
use crate::iface::socket_set::{SocketHandle, SocketSet, TcpIngressResult};
use crate::iface::tcp_segments::Arrival;
use crate::laws::connect::{can_be_joined, contends_alone, is_idle, lemma_rivals};
use crate::laws::ingress::{is_processable, lemma_processable};
use crate::laws::segments::{is_found, is_in_time, lemma_fits};
use crate::laws::sets::{names, tcp_in};
use crate::phy::{ChecksumCapabilities, PacketMeta};
use crate::socket::tcp;
use crate::socket::tcp::time_wait::TimeWaitState;
use crate::socket::tcp::{SocketBuffer, TimeWaitReuse};
use crate::socket::AnySocket;
use crate::time::Instant;
use crate::wire::checksum;
use crate::wire::checksum::lemma_word_sum_bound;
use crate::wire::ip::{IpAddress, IpEndpoint, IpRepr};
use crate::wire::octets::{Octets, OctetsMut};
use crate::wire::tcp::TcpRepr;
use crate::wire::udp::{Packet, Repr};
use vstd::prelude::*;

verus! {

/// Every address that names one host can be looked up, at any time.
pub proof fn hosts_can_be_looked_up<S: RouteStore>(
    routes: &Routes<S>,
    addr: &IpAddress,
    timestamp: Instant,
)
    requires
        match *addr {
            IpAddress::Ipv4(addr) => addr.bits != 0 && addr.bits != 0xffff_ffff && addr.bits
                / 0x1000_0000 != 0xe,
            IpAddress::Ipv6(addr) => addr.bits != 0 && addr.bits
                / 0x100_0000_0000_0000_0000_0000_0000_0000 != 0xff,
        },
    ensures
        call_requires(Routes::<S>::lookup, (routes, addr, timestamp)),
{
}

/// The checksum of any octets of the length of a packet can be made.
pub proof fn checksums_of_packets_can_be_made(octets: &[u8])
    requires
        octets@.len() <= 0x1_0000,
    ensures
        call_requires(checksum::data, (octets,)),
{
    lemma_word_sum_bound(octets@);
}

/// Queues can be as long as a window that the protocol can announce, which is a power of two.
pub proof fn queues_can_be_as_long_as_windows(storage: Vec<u8>, capacity: usize, queue: Vec<u8>)
    ensures
        storage@.len() <= 0x4000_0000 ==> call_requires(SocketBuffer::new, (storage,)),
        queue@.len() <= capacity <= 0x4000_0000 ==> call_requires(
            SocketBuffer::holding,
            (capacity, queue),
        ),
{
}

/// A socket can be added where some space is free or the storage can grow.
pub proof fn sockets_can_be_added<T: AnySocket>(socket: T)
    ensures
        forall|set: &mut SocketSet<'_>, i: int|
            #![trigger call_requires(SocketSet::add::<T>, (set, socket)), set@[i]]
            0 <= i < set@.len() && set@[i] is None ==> call_requires(
                SocketSet::add::<T>,
                (set, socket),
            ),
        forall|set: &mut SocketSet<'_>|
            set.setup().can_grow && set@.len() < usize::MAX ==> #[trigger] call_requires(
                SocketSet::add::<T>,
                (set, socket),
            ),
{
}

/// Every socket can be read, written and removed under the handle of its space.
pub proof fn sockets_can_be_reached<T: AnySocket>(any: &SocketSet<'_>, handle: SocketHandle)
    ensures
        0 <= handle.index() < any@.len() && any@[handle.index()] is Some && T::from_any(
            (any@[handle.index()]->0).socket,
        ) is Some ==> call_requires(SocketSet::get::<T>, (any, handle)),
        forall|set: &mut SocketSet<'_>|
            0 <= handle.index() < set@.len() && set@[handle.index()] is Some && T::from_any(
                (set@[handle.index()]->0).socket,
            ) is Some ==> #[trigger] call_requires(SocketSet::get_mut::<T>, (set, handle)),
        forall|set: &mut SocketSet<'_>|
            0 <= handle.index() < set@.len() && set@[handle.index()] is Some
                ==> #[trigger] call_requires(SocketSet::remove, (set, handle)),
{
}

/// Every TCP socket can be asked to let its connection go, and time can pass, at any time.
pub proof fn connections_can_leave_and_end(any: &SocketSet<'_>, handle: SocketHandle, now: Instant)
    ensures
        any.wf() ==> call_requires(SocketSet::tcp_time_wait_poll_at, (any,)),
        forall|set: &mut SocketSet<'_>|
            set.wf() && tcp_in(set@, handle.index()) is Some ==> #[trigger] call_requires(
                SocketSet::detach_tcp_time_wait,
                (set, handle),
            ),
        forall|set: &mut SocketSet<'_>|
            set.wf() ==> #[trigger] call_requires(SocketSet::expire_tcp_time_wait, (set, now)),
{
}

/// Every TCP socket can be asked to connect, unless that comes to a lone other socket whose handle leads to
/// no TCP socket.
pub proof fn connections_can_be_asked_for(
    set: &SocketSet<'_>,
    handle: SocketHandle,
    cx: &Context,
    remote: IpEndpoint,
    local: IpEndpoint,
    mode: TimeWaitReuse,
)
    requires
        set.wf(),
        tcp_in(set@, handle.index()) is Some,
        is_idle(tcp_in(set@, handle.index())->0) && can_be_joined(local, remote) ==> forall|
            index: int,
        | #[trigger]
            contends_alone(set@, handle.index(), local, remote, index) ==> tcp_in(
                set@,
                names(set@, index),
            ) is Some,
    ensures
        call_requires(SocketSet::can_connect_tcp, (set, handle, cx, remote, local, mode)),
        call_requires(SocketSet::plan_connect, (set, handle, cx, remote, local, mode)),
{
    let request = SocketSet::request(handle, *cx, remote, local, mode);
    let before = set.snapshot();
    lemma_rivals(request, before);
    if !request.has_two_rivals(before) && exists|index: int| request.is_rival(before, index) {
        let index = choose|index: int| request.is_rival(before, index);
        assert forall|other: int| #[trigger]
            crate::laws::connect::contends(set@, handle.index(), local, remote, other) implies other
            == index by {
            assert(request.is_rival(before, other) && request.is_rival(before, index));
        }
        assert(contends_alone(set@, handle.index(), local, remote, index));
        assert(request.rival(before) == Some(names(set@, index)));
    }
}

/// Every segment can be processed for which the handles of the sockets that it concerns lead to TCP
/// sockets and the times that it calls for can be told.
pub proof fn segments_can_be_processed<
    P: FnOnce(
        &mut tcp::Socket,
        &Context,
        &IpRepr,
        &TcpRepr<'_>,
        Option<(&TimeWaitState, Option<u64>)>,
    ) -> Option<(IpRepr, TcpRepr<'static>)>,
>(
    any: &SocketSet<'_>,
    cx: &InterfaceInner,
    meta: PacketMeta,
    ip: IpRepr,
    tcp: TcpRepr<'_>,
    handled: TcpIngressResult,
    process: P,
)
    requires
        forall|socket: &mut tcp::Socket, reuse: Option<(&TimeWaitState, Option<u64>)>| #[trigger]
            call_requires(process, (socket, cx, &ip, &tcp, reuse)),
    ensures
        any.wf() ==> call_requires(SocketSet::can_process_tcp, (any, cx, meta, &ip, &tcp)),
        forall|set: &mut SocketSet<'_>|
            set.wf() && is_found(set.snapshot(), Arrival { meta, ip, tcp, now: cx.now })
                && is_in_time(set.snapshot(), Arrival { meta, ip, tcp, now: cx.now })
                ==> #[trigger] call_requires(
                SocketSet::process_tcp_sockets::<P>,
                (set, cx, meta, &ip, &tcp, process),
            ),
        forall|set: &mut SocketSet<'_>|
            set.wf() && (handled == TcpIngressResult::NotHandled ==> is_processable(
                set.snapshot(),
                Arrival { meta, ip, tcp, now: cx.now },
            )) ==> #[trigger] call_requires(
                InterfaceInner::process_segment::<P>,
                (cx, set, meta, ip, tcp, handled, process),
            ),
        forall|set: &mut SocketSet<'_>|
            set.wf() ==> #[trigger] call_requires(
                InterfaceInner::try_process_segment::<P>,
                (cx, set, meta, ip, tcp, handled, process),
            ),
{
    let a = Arrival { meta, ip, tcp, now: cx.now };
    assert forall|set: &mut SocketSet<'_>|
        set.wf() && is_found(set.snapshot(), a) && is_in_time(
            set.snapshot(),
            a,
        ) implies #[trigger] call_requires(
        SocketSet::process_tcp_sockets::<P>,
        (set, cx, meta, &ip, &tcp, process),
    ) by {
        lemma_fits(set.snapshot(), a);
    }
    assert forall|set: &mut SocketSet<'_>|
        set.wf() && (handled == TcpIngressResult::NotHandled ==> is_processable(
            set.snapshot(),
            a,
        )) implies #[trigger] call_requires(
        InterfaceInner::process_segment::<P>,
        (cx, set, meta, ip, tcp, handled, process),
    ) by {
        lemma_processable(set.snapshot(), a);
    }
}

/// Every packet can be parsed between two addresses of one version, and its checksum can be verified where
/// its header is there and the length that it states is.
pub proof fn packets_can_be_parsed<T: Octets>(
    packet: &Packet<T>,
    src_addr: &IpAddress,
    dst_addr: &IpAddress,
    checksum_caps: &ChecksumCapabilities,
)
    requires
        src_addr is Ipv4 <==> dst_addr is Ipv4,
    ensures
        call_requires(Repr::parse::<T>, (packet, src_addr, dst_addr, checksum_caps)),
        packet@.len() >= 8 && packet@[4] * 256 + packet@[5] <= packet@.len() ==> call_requires(
            Packet::<T>::verify_checksum,
            (packet, src_addr, dst_addr),
        ),
{
}

/// A checksum can be filled in between two addresses of one version where the header is there and the
/// length that it states is.
pub proof fn checksums_can_be_filled_in<T: OctetsMut>(src_addr: &IpAddress, dst_addr: &IpAddress)
    requires
        src_addr is Ipv4 <==> dst_addr is Ipv4,
    ensures
        forall|packet: &mut Packet<T>|
            packet@.len() >= 8 && packet@[4] * 256 + packet@[5] <= packet@.len()
                ==> #[trigger] call_requires(
                Packet::<T>::fill_checksum,
                (packet, src_addr, dst_addr),
            ),
{
}

} // verus!
