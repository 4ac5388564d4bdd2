//! TCP segments that come in from the network.
use crate::iface::interface::{Context, Interface, InterfaceInner};
use crate::iface::socket_set::{
    socket_at, Question, SocketHandle, SocketSet, TcpIngressResult,
};
use crate::iface::tcp_segments::{arrived, bound_reply, Arrival, Reply};
use crate::iface::tcp_time_wait::{first_tcp, listens, tcp_at, Snapshot};
use crate::phy::{ChecksumCapabilities, PacketMeta};
use crate::socket::tcp;
use crate::socket::tcp::time_wait::TimeWaitState;
use crate::socket::tcp::State;
use crate::time::Instant;
use crate::wire;
use crate::wire::ip::{IpAddress, IpEndpoint, IpProtocol, IpRepr};
use crate::wire::tcp::{TcpControl, TcpRepr};
use vstd::prelude::*;

verus! {

/// A TCP segment to be sent, with its header and the device that it is bound to.
#[derive(Debug, Clone, Copy, PartialEq, Eq)]
pub struct Packet {
    pub ip: IpRepr,
    pub tcp: TcpRepr<'static>,
    pub meta: PacketMeta,
}

impl Packet {
    /// A segment that is bound to no device.
    pub fn new(ip: IpRepr, tcp: TcpRepr<'static>) -> (r: Packet)
        ensures
            r == (Packet { ip, tcp, meta: PacketMeta { id: 0 } }),
    {
        Packet { ip, tcp, meta: PacketMeta { id: 0 } }
    }

    /// The same segment, bound to a device.
    pub fn with_tx_meta(self, meta: PacketMeta) -> (r: Packet)
        ensures
            r == (Packet { meta, ..self }),
    {
        Packet { ip: self.ip, tcp: self.tcp, meta }
    }

    /// The device that the segment is bound to.
    pub fn tx_meta(&self) -> (r: PacketMeta)
        ensures
            r == self.meta,
    {
        self.meta
    }
}

/// The packet that carries a reply.
pub open spec fn packet_of(reply: Option<Reply>) -> Option<Packet> {
    match reply {
        Some((meta, ip, tcp)) => Some(Packet { ip, tcp, meta }),
        None => None,
    }
}

/// The packet that carries a reply.
fn carry(reply: Option<Reply>) -> (r: Option<Packet>)
    ensures
        r == packet_of(reply),
{
    match reply {
        Some((meta, ip, tcp)) => Some(Packet::new(ip, tcp).with_tx_meta(meta)),
        None => None,
    }
}

/// The segment starts a connection.
pub open spec fn is_plain_syn(tcp: TcpRepr<'_>) -> bool {
    tcp.control == TcpControl::Syn && tcp.ack_number is None
}

/// The answer to a segment that no socket takes. A plain SYN for an endpoint that is listened on,
/// though all of its sockets are occupied, gets none, so that the peer tries again. Neither does a
/// reset, nor a segment from or to an unspecified address. Any other is answered by a reset.
pub open spec fn unclaimed(ip: IpRepr, tcp: TcpRepr<'_>, listening: bool) -> Option<Packet> {
    if is_plain_syn(tcp) && listening {
        None
    } else if tcp.control == TcpControl::Rst || ip.spec_dst_addr().spec_is_unspecified()
        || ip.spec_src_addr().spec_is_unspecified() {
        None
    } else {
        Some(
            Packet {
                ip: tcp::Socket::reset_header(ip),
                tcp: tcp::Socket::reset_segment(tcp),
                meta: PacketMeta { id: 0 },
            },
        )
    }
}

impl<'t> Arrival<'t> {
    /// The segment belongs to no connection, or to one in TIME-WAIT whose time is over.
    pub open spec fn passes(self, before: Snapshot) -> bool {
        !self.is_live(before) && match self.waiting(before) {
            Some(state) => state.is_expired(self.now),
            None => true,
        }
    }

    /// What the set holds once the segment has passed the connections.
    pub open spec fn passed(self, before: Snapshot) -> Snapshot {
        if self.waiting(before) is Some {
            self.ended(before, self.recorded(before))
        } else {
            before
        }
    }

    /// The socket that has to process the segment itself: one that a connection leads to, or, where
    /// the segment passes the connections, the first that listens for it.
    pub open spec fn processor(self, before: Snapshot) -> Option<int> {
        if self.passes(before) {
            first_tcp(self.passed(before).slots, listens(self.meta, self.ip, self.tcp))
        } else {
            self.consulted(before)
        }
    }

    /// What the set holds when that socket is asked.
    pub open spec fn consulting(self, before: Snapshot) -> Snapshot {
        if self.passes(before) {
            self.passed(before)
        } else {
            self.asked(before)
        }
    }

    /// What that socket is handed beside the segment.
    pub open spec fn passed_on(self, before: Snapshot, identity: Option<u64>) -> Option<
        (&'static TimeWaitState, Option<u64>),
    > {
        if self.passes(before) {
            None
        } else {
            self.handover(before, identity)
        }
    }

    /// The identity, where it is handed on, is that of who watches the connection in TIME-WAIT.
    pub open spec fn known(self, before: Snapshot, identity: Option<u64>) -> bool {
        self.passes(before) || self.identified(before, identity)
    }

    /// What comes of the segment when the socket that had to process it became `socket` and
    /// answered with `reply`.
    pub open spec fn resolved(
        self,
        before: Snapshot,
        socket: tcp::Socket,
        reply: Option<(IpRepr, TcpRepr<'static>)>,
        after: Snapshot,
        result: Option<Packet>,
    ) -> bool {
        if self.passes(before) {
            let index = self.processor(before)->0;
            let listener = socket_at::<tcp::Socket>(self.passed(before).slots, index);
            &&& after == self.passed(before).with_socket(index, socket)
            &&& result == packet_of(
                bound_reply(PacketMeta { id: listener.spec_bound_device() }, reply),
            )
        } else {
            exists|answer: Option<Reply>| #[trigger]
                self.outcome(before, socket, reply, after, Some(answer)) && result == packet_of(
                    answer,
                )
        }
    }

    /// What the registry may know where it is asked: whether the endpoint that a plain SYN is
    /// meant for is listened on.
    pub open spec fn may_be_listening(self, before: Snapshot, listening: bool) -> bool {
        self.passes(before) && is_plain_syn(self.tcp) ==> before.setup.may_list(self.local(), self.meta, listening)
    }

    /// The registry was asked, for a plain SYN only, whether the endpoint that it is meant for is
    /// listened on.
    pub open spec fn inquired(self, now: Snapshot) -> Snapshot {
        if is_plain_syn(self.tcp) {
            now.asked_for(self.local(), self.meta)
        } else {
            now
        }
    }

    /// What comes of the segment when no socket has to process it.
    pub open spec fn concluded(
        self,
        before: Snapshot,
        listening: bool,
        after: Snapshot,
        result: Option<Packet>,
    ) -> bool {
        if self.passes(before) {
            &&& after == self.inquired(self.passed(before))
            &&& result == unclaimed(self.ip, self.tcp, listening)
        } else {
            exists|answer: Option<Reply>| #[trigger]
                self.settled(before, after, Some(answer)) && result == packet_of(answer)
        }
    }

    /// No socket has to process the segment, and that is what comes of it, whatever the registry
    /// knows where it is asked.
    pub open spec fn unprocessed(
        self,
        before: Snapshot,
        after: Snapshot,
        result: Option<Packet>,
    ) -> bool {
        &&& self.processor(before) is None
        &&& exists|listening: bool|
            self.may_be_listening(before, listening) && #[trigger] self.concluded(
                before,
                listening,
                after,
                result,
            )
    }

    /// A socket has to process the segment: it was `asked`, became `became` and answered with
    /// `reply`, and that is what comes of it.
    pub open spec fn processed_by(
        self,
        before: Snapshot,
        asked: tcp::Socket,
        identity: Option<u64>,
        reply: Option<(IpRepr, TcpRepr<'static>)>,
        became: tcp::Socket,
        after: Snapshot,
        result: Option<Packet>,
    ) -> bool {
        &&& self.processor(before) matches Some(index) && asked == socket_at::<tcp::Socket>(
            self.consulting(before).slots,
            index,
        )
        &&& self.known(before, identity)
        &&& self.resolved(before, became, reply, after, result)
    }

    /// What the set holds once the segment was offered to the external handler, where there is one.
    pub open spec fn seen(self, start: Snapshot, segment: Seq<u8>) -> Snapshot {
        start.offered(self.meta, transport(self.ip, segment), segment)
    }

    /// What comes of a valid segment that no socket processes: the external handler consumes it, or
    /// leaves it and no socket has to process it.
    pub open spec fn left_to_itself(
        self,
        start: Snapshot,
        segment: Seq<u8>,
        after: Snapshot,
        result: Option<Packet>,
    ) -> bool {
        ||| {
            &&& offerable(start, self.meta, self.ip, segment, TcpIngressResult::Consumed)
            &&& result is None
            &&& after == self.seen(start, segment)
        }
        ||| {
            &&& offerable(start, self.meta, self.ip, segment, TcpIngressResult::NotHandled)
            &&& self.unprocessed(self.seen(start, segment), after, result)
        }
    }

    /// What comes of a valid segment that the external handler leaves and that a socket processes.
    pub open spec fn carried_out(
        self,
        start: Snapshot,
        segment: Seq<u8>,
        asked: tcp::Socket,
        identity: Option<u64>,
        reply: Option<(IpRepr, TcpRepr<'static>)>,
        became: tcp::Socket,
        after: Snapshot,
        result: Option<Packet>,
    ) -> bool {
        &&& offerable(start, self.meta, self.ip, segment, TcpIngressResult::NotHandled)
        &&& self.processed_by(
            self.seen(start, segment),
            asked,
            identity,
            reply,
            became,
            after,
            result,
        )
    }

    /// The external handler has left the segment, which cannot be processed: nothing comes of it.
    pub open spec fn handed_back(
        self,
        start: Snapshot,
        segment: Seq<u8>,
        after: Snapshot,
    ) -> bool {
        &&& offerable(start, self.meta, self.ip, segment, TcpIngressResult::NotHandled)
        &&& !self.is_processable(start)
        &&& after == self.seen(start, segment)
    }

    /// Where the external handler may leave the segment, it can be processed.
    pub open spec fn is_ready(self, start: Snapshot, segment: Seq<u8>) -> bool {
        offerable(start, self.meta, self.ip, segment, TcpIngressResult::NotHandled)
            ==> self.is_processable(start)
    }

    /// What was offered to the handler has no part in whether a segment can be processed.
    proof fn lemma_processable(self, before: Snapshot, seen: Snapshot)
        requires
            seen.slots == before.slots,
            seen.protected == before.protected,
        ensures
            self.is_processable(before) == self.is_processable(seen),
    {
    }

    /// What the segment asks of the clock, and that its length leaves the sequence numbers in
    /// their order.
    pub open spec fn is_processable(self, before: Snapshot) -> bool {
        &&& self.fits(before)
        &&& is_plain_syn(self.tcp) ==> self.tcp.spec_segment_len() <= i32::MAX
    }
}

/// The header of a segment without extension headers, as an external handler sees it.
pub fn transport_header(ip: IpRepr, segment_len: usize) -> (r: IpRepr)
    ensures
        r == ip.with_payload(IpProtocol::Tcp, segment_len),
{
    let mut transport_ip = ip;
    transport_ip.set_payload(IpProtocol::Tcp, segment_len);
    transport_ip
}

/// The header of a segment without extension headers.
pub open spec fn transport(ip: IpRepr, segment: Seq<u8>) -> IpRepr {
    ip.with_payload(IpProtocol::Tcp, segment.len() as usize)
}

/// What may come of offering a segment to the external handler, which sees its header without
/// extension headers.
pub open spec fn offerable(
    before: Snapshot,
    meta: PacketMeta,
    ip: IpRepr,
    segment: Seq<u8>,
    answer: TcpIngressResult,
) -> bool {
    before.setup.may_handle(meta, transport(ip, segment), segment, answer)
}

/// The header describes the segment, and nothing beside it.
pub open spec fn is_whole_segment(ip: IpRepr, segment: Seq<u8>) -> bool {
    ip.spec_next_header() == IpProtocol::Tcp && ip.spec_payload_len() == segment.len()
}

impl InterfaceInner {
    /// Processes a segment that an external handler has seen. `process` makes a single socket
    /// process the segment.
    pub fn process_segment<P: FnOnce(
        &mut tcp::Socket,
        &Context,
        &IpRepr,
        &TcpRepr<'_>,
        Option<(&TimeWaitState, Option<u64>)>,
    ) -> Option<(IpRepr, TcpRepr<'static>)>>(
        &self,
        sockets: &mut SocketSet<'_>,
        meta: PacketMeta,
        ip_repr: IpRepr,
        tcp_repr: TcpRepr<'_>,
        handled: TcpIngressResult,
        process: P,
    ) -> (r: Option<Packet>)
        requires
            old(sockets).wf(),
            handled == TcpIngressResult::NotHandled ==> arrived(
                *self,
                meta,
                ip_repr,
                tcp_repr,
            ).is_processable(old(sockets).snapshot()),
            forall|socket: &mut tcp::Socket, reuse: Option<(&TimeWaitState, Option<u64>)>|
                #[trigger] call_requires(process, (socket, self, &ip_repr, &tcp_repr, reuse)),
        ensures
            final(sockets).wf(),
            handled == TcpIngressResult::Consumed ==> {
                &&& r is None
                &&& final(sockets).snapshot() == old(sockets).snapshot()
            },
            handled == TcpIngressResult::NotHandled ==> {
                let arrival = arrived(*self, meta, ip_repr, tcp_repr);
                ||| arrival.unprocessed(old(sockets).snapshot(), final(sockets).snapshot(), r)
                ||| exists|
                    socket: &mut tcp::Socket,
                    identity: Option<u64>,
                    reply: Option<(IpRepr, TcpRepr<'static>)>,
                |
                    {
                        &&& #[trigger] call_ensures(
                            process,
                            (
                                socket,
                                self,
                                &ip_repr,
                                &tcp_repr,
                                arrival.passed_on(old(sockets).snapshot(), identity),
                            ),
                            reply,
                        )
                        &&& arrival.processed_by(
                            old(sockets).snapshot(),
                            *socket,
                            identity,
                            reply,
                            *final(socket),
                            final(sockets).snapshot(),
                            r,
                        )
                    }
            },
            old(sockets).aligned() ==> final(sockets).aligned(),
    {
        if handled == TcpIngressResult::Consumed {
            return None;
        }
        let ghost before = sockets.snapshot();
        let ghost arrival = arrived(*self, meta, ip_repr, tcp_repr);
        let process = match sockets.offer_tcp(self, meta, &ip_repr, &tcp_repr, process) {
            Ok(reply) => {
                let ghost after = sockets.snapshot();
                let packet = carry(reply);
                proof {
                    assert(!arrival.passes(before));
                    assert(forall|identity: Option<u64>| #[trigger]
                        arrival.handover(before, identity) == arrival.passed_on(before, identity));
                    if arrival.processor(before) is None {
                        assert(arrival.settled(before, after, Some(reply)));
                        assert(arrival.concluded(before, false, after, packet));
                        assert(arrival.unprocessed(before, after, packet));
                    }
                }
                return packet;
            },
            Err(process) => process,
        };
        assert(sockets.snapshot() == arrival.passed(before));
        if let Some(index) = sockets.find_listener(meta, &ip_repr, &tcp_repr) {
            let handle = SocketHandle::at(index);
            let tx_meta = sockets.get::<tcp::Socket>(handle).egress_meta();
            let socket = sockets.get_mut::<tcp::Socket>(handle);
            assert(arrival.passed_on(before, None) == None::<(&TimeWaitState, Option<u64>)>);
            return match process(socket, self, &ip_repr, &tcp_repr, None) {
                Some((ip, tcp)) => Some(Packet::new(ip, tcp).with_tx_meta(tx_meta)),
                None => None,
            };
        }
        let listening = tcp_repr.control == TcpControl::Syn && tcp_repr.ack_number.is_none()
            && sockets.tcp_is_listening(
            IpEndpoint::new(ip_repr.dst_addr(), tcp_repr.dst_port),
            meta,
        );
        let packet = if listening {
            // A logical listener still exists, but all of its socket slots are
            // occupied. Let the peer retransmit instead of reporting a closed port.
            None
        } else if tcp_repr.control == TcpControl::Rst || ip_repr.dst_addr().is_unspecified()
            || ip_repr.src_addr().is_unspecified() {
            // Never reply to a TCP RST packet with another TCP RST packet. We also never want to
            // send a TCP RST packet with unspecified addresses.
            None
        } else {
            // The packet wasn't handled by a socket, send a TCP RST packet.
            let (ip, tcp) = tcp::Socket::rst_reply(&ip_repr, &tcp_repr);
            Some(Packet::new(ip, tcp))
        };
        assert(arrival.concluded(before, listening, sockets.snapshot(), packet));
        packet
    }

    /// Whether a segment that the external handler has left can be processed.
    fn can_process(
        &self,
        sockets: &SocketSet<'_>,
        meta: PacketMeta,
        ip_repr: &IpRepr,
        tcp_repr: &TcpRepr<'_>,
    ) -> (r: bool)
        requires
            sockets.wf(),
        ensures
            r == arrived(*self, meta, *ip_repr, *tcp_repr).is_processable(sockets.snapshot()),
    {
        let opens = tcp_repr.control == TcpControl::Syn && tcp_repr.ack_number.is_none();
        sockets.can_process_tcp(self, meta, ip_repr, tcp_repr) && (!opens || tcp_repr.payload.len()
            < 0x7fff_ffff)
    }

    /// Processes a segment that an external handler has seen, where it can be processed, and hands
    /// `process` back where it cannot.
    pub fn try_process_segment<P: FnOnce(
        &mut tcp::Socket,
        &Context,
        &IpRepr,
        &TcpRepr<'_>,
        Option<(&TimeWaitState, Option<u64>)>,
    ) -> Option<(IpRepr, TcpRepr<'static>)>>(
        &self,
        sockets: &mut SocketSet<'_>,
        meta: PacketMeta,
        ip_repr: IpRepr,
        tcp_repr: TcpRepr<'_>,
        handled: TcpIngressResult,
        process: P,
    ) -> (r: Result<Option<Packet>, P>)
        requires
            old(sockets).wf(),
            forall|socket: &mut tcp::Socket, reuse: Option<(&TimeWaitState, Option<u64>)>|
                #[trigger] call_requires(process, (socket, self, &ip_repr, &tcp_repr, reuse)),
        ensures
            final(sockets).wf(),
            r is Err <==> handled == TcpIngressResult::NotHandled && !arrived(
                *self,
                meta,
                ip_repr,
                tcp_repr,
            ).is_processable(old(sockets).snapshot()),
            r matches Err(unused) ==> unused == process && final(sockets).snapshot() == old(sockets).snapshot(),
            handled == TcpIngressResult::Consumed ==> {
                &&& r == Ok::<Option<Packet>, P>(None)
                &&& final(sockets).snapshot() == old(sockets).snapshot()
            },
            handled == TcpIngressResult::NotHandled && r is Ok ==> {
                let arrival = arrived(*self, meta, ip_repr, tcp_repr);
                ||| arrival.unprocessed(old(sockets).snapshot(), final(sockets).snapshot(), r->Ok_0)
                ||| exists|
                    socket: &mut tcp::Socket,
                    identity: Option<u64>,
                    reply: Option<(IpRepr, TcpRepr<'static>)>,
                |
                    {
                        &&& #[trigger] call_ensures(
                            process,
                            (
                                socket,
                                self,
                                &ip_repr,
                                &tcp_repr,
                                arrival.passed_on(old(sockets).snapshot(), identity),
                            ),
                            reply,
                        )
                        &&& arrival.processed_by(
                            old(sockets).snapshot(),
                            *socket,
                            identity,
                            reply,
                            *final(socket),
                            final(sockets).snapshot(),
                            r->Ok_0,
                        )
                    }
            },
            old(sockets).aligned() ==> final(sockets).aligned(),
    {
        if handled == TcpIngressResult::NotHandled && !self.can_process(
            sockets,
            meta,
            &ip_repr,
            &tcp_repr,
        ) {
            return Err(process);
        }
        Ok(self.process_segment(sockets, meta, ip_repr, tcp_repr, handled, process))
    }

    /// Processes a TCP segment of which `parsed` is what its length, checksum and fields make of
    /// `ip_payload`. One that is wrong there is dropped: neither the external handler nor the
    /// registry hears of it. Any other is offered to the handler once. `process` makes a single
    /// socket process the segment; it is handed back where a segment that the handler has left
    /// cannot be processed.
    pub fn try_process_parsed<P: FnOnce(
        &mut tcp::Socket,
        &Context,
        &IpRepr,
        &TcpRepr<'_>,
        Option<(&TimeWaitState, Option<u64>)>,
    ) -> Option<(IpRepr, TcpRepr<'static>)>>(
        &self,
        sockets: &mut SocketSet<'_>,
        meta: PacketMeta,
        ip_repr: IpRepr,
        ip_payload: &[u8],
        parsed: wire::Result<TcpRepr<'_>>,
        process: P,
    ) -> (r: Result<Option<Packet>, P>)
        requires
            old(sockets).wf(),
            parsed is Ok ==> forall|
                socket: &mut tcp::Socket,
                reuse: Option<(&TimeWaitState, Option<u64>)>,
            |
                #[trigger] call_requires(process, (socket, self, &ip_repr, &parsed->Ok_0, reuse)),
        ensures
            final(sockets).wf(),
            old(sockets).aligned() ==> final(sockets).aligned(),
            parsed is Err ==> {
                &&& r == Ok::<Option<Packet>, P>(None)
                &&& final(sockets).snapshot() == old(sockets).snapshot()
            },
            parsed is Ok && r is Err ==> arrived(*self, meta, ip_repr, parsed->Ok_0).handed_back(
                old(sockets).snapshot(),
                ip_payload@,
                final(sockets).snapshot(),
            ) && r->Err_0 == process,
            parsed is Ok && r is Ok ==> {
                let arrival = arrived(*self, meta, ip_repr, parsed->Ok_0);
                &&& !arrival.is_processable(old(sockets).snapshot()) ==> r->Ok_0 is None && final(sockets).snapshot() == arrival.seen(old(sockets).snapshot(), ip_payload@)
                &&& {
                    ||| arrival.left_to_itself(old(sockets).snapshot(), ip_payload@, final(sockets).snapshot(), r->Ok_0)
                    ||| exists|
                        socket: &mut tcp::Socket,
                        identity: Option<u64>,
                        reply: Option<(IpRepr, TcpRepr<'static>)>,
                    |
                        {
                            &&& #[trigger] call_ensures(
                                process,
                                (
                                    socket,
                                    self,
                                    &ip_repr,
                                    &parsed->Ok_0,
                                    arrival.passed_on(arrival.seen(old(sockets).snapshot(), ip_payload@), identity),
                                ),
                                reply,
                            )
                            &&& arrival.carried_out(
                                old(sockets).snapshot(),
                                ip_payload@,
                                *socket,
                                identity,
                                reply,
                                *final(socket),
                                final(sockets).snapshot(),
                                r->Ok_0,
                            )
                        }
                }
            },
    {
        let tcp_repr = match parsed {
            Ok(tcp_repr) => tcp_repr,
            Err(_) => {
                return Ok(None);
            },
        };
        let ghost before = sockets.snapshot();
        let ghost arrival = arrived(*self, meta, ip_repr, tcp_repr);
        // IPv6 extension headers and IP fragments have already been removed.
        // Describe precisely the validated transport segment handed off.
        let transport_ip = transport_header(ip_repr, ip_payload.len());
        let handled = sockets.handle_tcp_ingress(meta, &transport_ip, ip_payload);
        assert(offerable(before, meta, ip_repr, ip_payload@, handled));
        assert(sockets.snapshot() == arrival.seen(before, ip_payload@));
        proof {
            arrival.lemma_processable(before, sockets.snapshot());
        }
        self.try_process_segment(sockets, meta, ip_repr, tcp_repr, handled, process)
    }

    /// Processes a TCP segment of which `parsed` is what its length, checksum and fields make of
    /// `ip_payload`. One that is wrong there is dropped: neither the external handler nor the
    /// registry hears of it. Any other is offered to the handler once. `process` makes a single
    /// socket process the segment.
    pub fn process_parsed<P: FnOnce(
        &mut tcp::Socket,
        &Context,
        &IpRepr,
        &TcpRepr<'_>,
        Option<(&TimeWaitState, Option<u64>)>,
    ) -> Option<(IpRepr, TcpRepr<'static>)>>(
        &self,
        sockets: &mut SocketSet<'_>,
        meta: PacketMeta,
        ip_repr: IpRepr,
        ip_payload: &[u8],
        parsed: wire::Result<TcpRepr<'_>>,
        process: P,
    ) -> (r: Option<Packet>)
        requires
            old(sockets).wf(),
            parsed is Ok ==> arrived(*self, meta, ip_repr, parsed->Ok_0).is_ready(
                old(sockets).snapshot(),
                ip_payload@,
            ),
            parsed is Ok ==> forall|
                socket: &mut tcp::Socket,
                reuse: Option<(&TimeWaitState, Option<u64>)>,
            |
                #[trigger] call_requires(process, (socket, self, &ip_repr, &parsed->Ok_0, reuse)),
        ensures
            final(sockets).wf(),
            old(sockets).aligned() ==> final(sockets).aligned(),
            parsed is Err ==> r is None && final(sockets).snapshot() == old(sockets).snapshot(),
            parsed is Ok ==> {
                let arrival = arrived(*self, meta, ip_repr, parsed->Ok_0);
                ||| arrival.left_to_itself(old(sockets).snapshot(), ip_payload@, final(sockets).snapshot(), r)
                ||| exists|
                    socket: &mut tcp::Socket,
                    identity: Option<u64>,
                    reply: Option<(IpRepr, TcpRepr<'static>)>,
                |
                    {
                        &&& #[trigger] call_ensures(
                            process,
                            (
                                socket,
                                self,
                                &ip_repr,
                                &parsed->Ok_0,
                                arrival.passed_on(arrival.seen(old(sockets).snapshot(), ip_payload@), identity),
                            ),
                            reply,
                        )
                        &&& arrival.carried_out(
                            old(sockets).snapshot(),
                            ip_payload@,
                            *socket,
                            identity,
                            reply,
                            *final(socket),
                            final(sockets).snapshot(),
                            r,
                        )
                    }
            },
    {
        match self.try_process_parsed(sockets, meta, ip_repr, ip_payload, parsed, process) {
            Ok(packet) => packet,
            Err(_) => vstd::pervasive::unreached(),
        }
    }

    /// Processes a TCP segment that came in as the payload of an IP packet. `parse` reads it
    /// between its two addresses, with the checksum capabilities of this interface, where its
    /// length and its checksum are right; otherwise it is dropped. `process` makes a single socket
    /// process the segment.
    pub fn process_tcp<
        'f,
        R: FnOnce(
            &'f [u8],
            &IpAddress,
            &IpAddress,
            &ChecksumCapabilities,
        ) -> wire::Result<TcpRepr<'f>>,
        P: FnOnce(
            &mut tcp::Socket,
            &Context,
            &IpRepr,
            &TcpRepr<'_>,
            Option<(&TimeWaitState, Option<u64>)>,
        ) -> Option<(IpRepr, TcpRepr<'static>)>,
    >(
        &self,
        sockets: &mut SocketSet<'_>,
        meta: PacketMeta,
        ip_repr: IpRepr,
        ip_payload: &'f [u8],
        parse: R,
        process: P,
    ) -> (r: Option<Packet>)
        requires
            old(sockets).wf(),
            call_requires(
                parse,
                (
                    ip_payload,
                    &ip_repr.spec_src_addr(),
                    &ip_repr.spec_dst_addr(),
                    &self.caps.checksum,
                ),
            ),
            forall|parsed: wire::Result<TcpRepr<'f>>| #[trigger]
                call_ensures(
                    parse,
                    (
                        ip_payload,
                        &ip_repr.spec_src_addr(),
                        &ip_repr.spec_dst_addr(),
                        &self.caps.checksum,
                    ),
                    parsed,
                ) && parsed is Ok ==> arrived(*self, meta, ip_repr, parsed->Ok_0).is_ready(
                    old(sockets).snapshot(),
                    ip_payload@,
                ),
            forall|
                socket: &mut tcp::Socket,
                tcp_repr: &TcpRepr<'_>,
                reuse: Option<(&TimeWaitState, Option<u64>)>,
            |
                #[trigger] call_requires(process, (socket, self, &ip_repr, tcp_repr, reuse)),
        ensures
            final(sockets).wf(),
            old(sockets).aligned() ==> final(sockets).aligned(),
            exists|parsed: wire::Result<TcpRepr<'f>>|
                {
                    &&& #[trigger] call_ensures(
                        parse,
                        (
                            ip_payload,
                            &ip_repr.spec_src_addr(),
                            &ip_repr.spec_dst_addr(),
                            &self.caps.checksum,
                        ),
                        parsed,
                    )
                    &&& parsed is Err ==> r is None && final(sockets).snapshot() == old(sockets).snapshot()
                    &&& parsed is Ok ==> {
                        let arrival = arrived(*self, meta, ip_repr, parsed->Ok_0);
                        ||| arrival.left_to_itself(old(sockets).snapshot(), ip_payload@, final(sockets).snapshot(), r)
                        ||| exists|
                            socket: &mut tcp::Socket,
                            identity: Option<u64>,
                            reply: Option<(IpRepr, TcpRepr<'static>)>,
                        |
                            {
                                &&& #[trigger] call_ensures(
                                    process,
                                    (
                                        socket,
                                        self,
                                        &ip_repr,
                                        &parsed->Ok_0,
                                        arrival.passed_on(arrival.seen(old(sockets).snapshot(), ip_payload@), identity),
                                    ),
                                    reply,
                                )
                                &&& arrival.carried_out(
                                    old(sockets).snapshot(),
                                    ip_payload@,
                                    *socket,
                                    identity,
                                    reply,
                                    *final(socket),
                                    final(sockets).snapshot(),
                                    r,
                                )
                            }
                    }
                },
    {
        let (src_addr, dst_addr) = (ip_repr.src_addr(), ip_repr.dst_addr());
        let parsed = parse(ip_payload, &src_addr, &dst_addr, &self.caps.checksum);
        self.process_parsed(sockets, meta, ip_repr, ip_payload, parsed, process)
    }
}

/// What becomes of a segment before it is processed.
#[derive(Debug, Clone, Copy, PartialEq, Eq, Structural)]
pub enum Admission {
    /// Its header describes something else: it is dropped.
    Dropped,
    /// No response can be sent now: it is to be offered again.
    Postponed,
    /// It is processed.
    Admitted,
}

impl Interface {
    /// What becomes of a segment before it is processed.
    pub open spec fn admission(ip: IpRepr, segment: Seq<u8>, has_token: bool) -> Admission {
        if !is_whole_segment(ip, segment) {
            Admission::Dropped
        } else if !has_token {
            Admission::Postponed
        } else {
            Admission::Admitted
        }
    }

    /// Admits a segment at `timestamp` where its header describes it and a response can be sent.
    /// The clock of the interface then stands at that time, and the protection of connections
    /// whose time is over has ended.
    pub fn admit_tcp_ingress(
        &mut self,
        timestamp: Instant,
        has_token: bool,
        sockets: &mut SocketSet<'_>,
        ip_repr: &IpRepr,
        segment: &[u8],
    ) -> (r: Admission)
        requires
            old(sockets).wf(),
        ensures
            final(sockets).wf(),
            r == Interface::admission(*ip_repr, segment@, has_token),
            r == Admission::Admitted ==> {
                &&& *final(self) == (Interface {
                    inner: InterfaceInner { now: timestamp, ..old(self).inner },
                })
                &&& final(sockets).snapshot() == old(sockets).snapshot().aged(timestamp)
            },
            r != Admission::Admitted ==> {
                &&& *final(self) == *old(self)
                &&& final(sockets).snapshot() == old(sockets).snapshot()
            },
    {
        if ip_repr.next_header() != IpProtocol::Tcp || ip_repr.payload_len() != segment.len() {
            return Admission::Dropped;
        }
        if !has_token {
            return Admission::Postponed;
        }
        self.inner.now = timestamp;
        sockets.expire_tcp_time_wait(timestamp);
        Admission::Admitted
    }

    /// Process a TCP segment already classified as local by an external IP layer.
    ///
    /// The caller must perform IP validation, reassembly and local destination
    /// checks. `ip_repr` must describe the TCP segment without extension headers.
    /// TCP length and checksum are checked by `parse`, using this interface's checksum
    /// capabilities. No interface address lookup is performed.
    ///
    /// `has_token` says whether a response can be sent. Returns false only when it says no; no
    /// protocol state is changed and the caller should retain the input for retry. True includes
    /// invalid packets deliberately dropped. The response, where there is one, is to be sent:
    /// reserve sufficient token capacity before calling.
    /// The socket set normally has no external ingress handler installed.
    /// `process` is handed back where a segment that the handler has left cannot be processed.
    pub fn try_process_tcp_ingress<
        'f,
        R: FnOnce(
            &'f [u8],
            &IpAddress,
            &IpAddress,
            &ChecksumCapabilities,
        ) -> wire::Result<TcpRepr<'f>>,
        P: FnOnce(
            &mut tcp::Socket,
            &Context,
            &IpRepr,
            &TcpRepr<'_>,
            Option<(&TimeWaitState, Option<u64>)>,
        ) -> Option<(IpRepr, TcpRepr<'static>)>,
    >(
        &mut self,
        timestamp: Instant,
        has_token: bool,
        sockets: &mut SocketSet<'_>,
        meta: PacketMeta,
        ip_repr: IpRepr,
        segment: &'f [u8],
        parse: R,
        process: P,
    ) -> (r: Result<(bool, Option<Packet>), P>)
        requires
            old(sockets).wf(),
            Interface::admission(ip_repr, segment@, has_token) == Admission::Admitted ==> {
                let cx = InterfaceInner { now: timestamp, ..old(self).inner };
                &&& call_requires(
                    parse,
                    (
                        segment,
                        &ip_repr.spec_src_addr(),
                        &ip_repr.spec_dst_addr(),
                        &old(self).inner.caps.checksum,
                    ),
                )
                &&& forall|
                    socket: &mut tcp::Socket,
                    tcp_repr: &TcpRepr<'_>,
                    reuse: Option<(&TimeWaitState, Option<u64>)>,
                |
                    #[trigger] call_requires(process, (socket, &cx, &ip_repr, tcp_repr, reuse))
            },
        ensures
            final(sockets).wf(),
            old(sockets).aligned() ==> final(sockets).aligned(),
            !(Interface::admission(ip_repr, segment@, has_token) == Admission::Admitted) ==> {
                &&& r == Ok::<(bool, Option<Packet>), P>(
                    (Interface::admission(ip_repr, segment@, has_token) == Admission::Dropped, None),
                )
                &&& *final(self) == *old(self)
                &&& final(sockets).snapshot() == old(sockets).snapshot()
            },
            Interface::admission(ip_repr, segment@, has_token) == Admission::Admitted ==> {
                &&& *final(self) == (Interface {
                    inner: InterfaceInner { now: timestamp, ..old(self).inner },
                })
                &&& r matches Ok(answer) ==> answer.0
                &&& exists|parsed: wire::Result<TcpRepr<'f>>|
                    {
                        let aged = old(sockets).snapshot().aged(timestamp);
                        &&& #[trigger] call_ensures(
                            parse,
                            (
                                segment,
                                &ip_repr.spec_src_addr(),
                                &ip_repr.spec_dst_addr(),
                                &old(self).inner.caps.checksum,
                            ),
                            parsed,
                        )
                        &&& parsed is Err ==> {
                            &&& r == Ok::<(bool, Option<Packet>), P>((true, None))
                            &&& final(sockets).snapshot() == aged
                        }
                        &&& parsed is Ok && r is Err ==> arrived(
                            final(self).inner,
                            meta,
                            ip_repr,
                            parsed->Ok_0,
                        ).handed_back(aged, segment@, final(sockets).snapshot()) && r->Err_0
                            == process
                        &&& parsed is Ok && r is Ok ==> {
                            let arrival = arrived(
                                final(self).inner,
                                meta,
                                ip_repr,
                                parsed->Ok_0,
                            );
                            &&& !arrival.is_processable(aged) ==> (r->Ok_0).1 is None && final(sockets).snapshot() == arrival.seen(aged, segment@)
                            &&& {
                                ||| arrival.left_to_itself(aged, segment@, final(sockets).snapshot(), (r->Ok_0).1)
                                ||| exists|
                                    socket: &mut tcp::Socket,
                                    identity: Option<u64>,
                                    reply: Option<(IpRepr, TcpRepr<'static>)>,
                                |
                                    {
                                        &&& #[trigger] call_ensures(
                                            process,
                                            (
                                                socket,
                                                &final(self).inner,
                                                &ip_repr,
                                                &parsed->Ok_0,
                                                arrival.passed_on(arrival.seen(aged, segment@), identity),
                                            ),
                                            reply,
                                        )
                                        &&& arrival.carried_out(
                                            aged,
                                            segment@,
                                            *socket,
                                            identity,
                                            reply,
                                            *final(socket),
                                            final(sockets).snapshot(),
                                            (r->Ok_0).1,
                                        )
                                    }
                            }
                        }
                    }
            },
    {
        match self.admit_tcp_ingress(timestamp, has_token, sockets, &ip_repr, segment) {
            Admission::Dropped => {
                return Ok((true, None));
            },
            Admission::Postponed => {
                return Ok((false, None));
            },
            Admission::Admitted => {},
        }
        let (src_addr, dst_addr) = (ip_repr.src_addr(), ip_repr.dst_addr());
        let parsed = parse(segment, &src_addr, &dst_addr, &self.inner.caps.checksum);
        match self.inner.try_process_parsed(sockets, meta, ip_repr, segment, parsed, process) {
            Ok(response) => Ok((true, response)),
            Err(process) => Err(process),
        }
    }

    /// Process a TCP segment already classified as local by an external IP layer.
    ///
    /// The caller must perform IP validation, reassembly and local destination
    /// checks. `ip_repr` must describe the TCP segment without extension headers.
    /// TCP length and checksum are checked by `parse`, using this interface's checksum
    /// capabilities. No interface address lookup is performed.
    ///
    /// `has_token` says whether a response can be sent. Returns false only when it says no; no
    /// protocol state is changed and the caller should retain the input for retry. True includes
    /// invalid packets deliberately dropped. The response, where there is one, is to be sent:
    /// reserve sufficient token capacity before calling.
    /// The socket set normally has no external ingress handler installed.
    pub fn process_tcp_ingress<
        'f,
        R: FnOnce(
            &'f [u8],
            &IpAddress,
            &IpAddress,
            &ChecksumCapabilities,
        ) -> wire::Result<TcpRepr<'f>>,
        P: FnOnce(
            &mut tcp::Socket,
            &Context,
            &IpRepr,
            &TcpRepr<'_>,
            Option<(&TimeWaitState, Option<u64>)>,
        ) -> Option<(IpRepr, TcpRepr<'static>)>,
    >(
        &mut self,
        timestamp: Instant,
        has_token: bool,
        sockets: &mut SocketSet<'_>,
        meta: PacketMeta,
        ip_repr: IpRepr,
        segment: &'f [u8],
        parse: R,
        process: P,
    ) -> (r: (bool, Option<Packet>))
        requires
            old(sockets).wf(),
            Interface::admission(ip_repr, segment@, has_token) == Admission::Admitted ==> {
                let cx = InterfaceInner { now: timestamp, ..old(self).inner };
                let aged = old(sockets).snapshot().aged(timestamp);
                &&& call_requires(
                    parse,
                    (
                        segment,
                        &ip_repr.spec_src_addr(),
                        &ip_repr.spec_dst_addr(),
                        &old(self).inner.caps.checksum,
                    ),
                )
                &&& forall|parsed: wire::Result<TcpRepr<'f>>| #[trigger]
                    call_ensures(
                        parse,
                        (
                            segment,
                            &ip_repr.spec_src_addr(),
                            &ip_repr.spec_dst_addr(),
                            &old(self).inner.caps.checksum,
                        ),
                        parsed,
                    ) && parsed is Ok ==> arrived(cx, meta, ip_repr, parsed->Ok_0).is_ready(
                        aged,
                        segment@,
                    )
                &&& forall|
                    socket: &mut tcp::Socket,
                    tcp_repr: &TcpRepr<'_>,
                    reuse: Option<(&TimeWaitState, Option<u64>)>,
                |
                    #[trigger] call_requires(process, (socket, &cx, &ip_repr, tcp_repr, reuse))
            },
        ensures
            final(sockets).wf(),
            old(sockets).aligned() ==> final(sockets).aligned(),
            r.0 == (Interface::admission(ip_repr, segment@, has_token) != Admission::Postponed),
            !(Interface::admission(ip_repr, segment@, has_token) == Admission::Admitted) ==> {
                &&& r.1 is None
                &&& *final(self) == *old(self)
                &&& final(sockets).snapshot() == old(sockets).snapshot()
            },
            Interface::admission(ip_repr, segment@, has_token) == Admission::Admitted ==> {
                &&& *final(self) == (Interface {
                    inner: InterfaceInner { now: timestamp, ..old(self).inner },
                })
                &&& exists|parsed: wire::Result<TcpRepr<'f>>|
                    {
                        let aged = old(sockets).snapshot().aged(timestamp);
                        &&& #[trigger] call_ensures(
                            parse,
                            (
                                segment,
                                &ip_repr.spec_src_addr(),
                                &ip_repr.spec_dst_addr(),
                                &old(self).inner.caps.checksum,
                            ),
                            parsed,
                        )
                        &&& parsed is Err ==> r.1 is None && final(sockets).snapshot() == aged
                        &&& parsed is Ok ==> {
                            let arrival = arrived(
                                final(self).inner,
                                meta,
                                ip_repr,
                                parsed->Ok_0,
                            );
                            ||| arrival.left_to_itself(aged, segment@, final(sockets).snapshot(), r.1)
                            ||| exists|
                                socket: &mut tcp::Socket,
                                identity: Option<u64>,
                                reply: Option<(IpRepr, TcpRepr<'static>)>,
                            |
                                {
                                    &&& #[trigger] call_ensures(
                                        process,
                                        (
                                            socket,
                                            &final(self).inner,
                                            &ip_repr,
                                            &parsed->Ok_0,
                                            arrival.passed_on(arrival.seen(aged, segment@), identity),
                                        ),
                                        reply,
                                    )
                                    &&& arrival.carried_out(
                                        aged,
                                        segment@,
                                        *socket,
                                        identity,
                                        reply,
                                        *final(socket),
                                        final(sockets).snapshot(),
                                        r.1,
                                    )
                                }
                        }
                    }
            },
    {
        match self.try_process_tcp_ingress(
            timestamp,
            has_token,
            sockets,
            meta,
            ip_repr,
            segment,
            parse,
            process,
        ) {
            Ok(answer) => answer,
            Err(_) => vstd::pervasive::unreached(),
        }
    }
}

/// What answers a segment that no socket takes is a reset that goes back where the segment came
/// from, bound to no device. A reset is never answered by one, and none is sent from or to an
/// unspecified address.
pub proof fn unclaimed_segment_is_answered_by_a_reset(
    ip: IpRepr,
    tcp: TcpRepr<'_>,
    listening: bool,
)
    ensures
        unclaimed(ip, tcp, listening) matches Some(packet) ==> {
            &&& tcp.control != TcpControl::Rst
            &&& packet.tcp.control == TcpControl::Rst
            &&& packet.tcp.src_port == tcp.dst_port
            &&& packet.tcp.dst_port == tcp.src_port
            &&& packet.ip.spec_src_addr() == ip.spec_dst_addr()
            &&& packet.ip.spec_dst_addr() == ip.spec_src_addr()
            &&& !packet.ip.spec_src_addr().spec_is_unspecified()
            &&& !packet.ip.spec_dst_addr().spec_is_unspecified()
            &&& packet.meta.id == 0
        },
{
}

impl<'t> Arrival<'t> {
    /// A connection whose time is over blocks nothing: it is gone when the sockets that listen are
    /// looked at, and the segment goes to the first of them.
    pub proof fn expired_connection_blocks_nothing(self, before: Snapshot)
        requires
            self.leads(before),
            !self.is_live(before),
            self.waiting(before) matches Some(state) && state.is_expired(self.now),
        ensures
            self.processor(before) == first_tcp(
                self.passed(before).slots,
                listens(self.meta, self.ip, self.tcp),
            ),
            self.detached(before) matches Some(key) ==> !self.passed(before).protected.contains_key(
                key,
            ),
            self.attached(before) matches Some(index) ==> (tcp_at(
                self.passed(before).slots,
                index,
            ) matches Some(socket) && socket.state == State::Closed && socket.tuple is None),
    {
    }

    /// Neither a socket that processes the segment nor TIME-WAIT leads to a call of the external
    /// handler or of the registry. The registry is asked, once, about a plain SYN that no socket
    /// takes, and about nothing else.
    pub proof fn registry_is_asked_about_unclaimed_plain_syns_only(
        self,
        before: Snapshot,
        listening: bool,
        after: Snapshot,
        result: Option<Packet>,
    )
        requires
            self.processor(before) is None,
            self.concluded(before, listening, after, result),
        ensures
            after.records.offers == before.records.offers,
            self.passes(before) && is_plain_syn(self.tcp) && before.setup.tcp_listen_registry
                is Some ==> after.records.questions == before.records.questions.push(
                Question { endpoint: self.local(), meta: self.meta },
            ),
            !(self.passes(before) && is_plain_syn(self.tcp)) ==> after.records == before.records,
    {
    }

    /// A segment that a socket processes is put neither to the external handler again nor to the
    /// registry.
    pub proof fn processing_asks_nobody(
        self,
        before: Snapshot,
        socket: tcp::Socket,
        reply: Option<(IpRepr, TcpRepr<'static>)>,
        after: Snapshot,
        result: Option<Packet>,
    )
        requires
            self.processor(before) is Some,
            self.resolved(before, socket, reply, after, result),
        ensures
            after.records == before.records,
    {
    }
}

} // verus!
