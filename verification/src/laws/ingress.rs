//! Laws of segments that come in from the network.
use crate::iface::interface::tcp::{offerable, transport, transport_header, Admission, Packet};
use crate::iface::interface::{Context, Interface, InterfaceInner};
use crate::iface::socket_set::{Offer, Question, SocketSet, TcpIngressResult};
use crate::iface::tcp_segments::{arrived, Arrival, Reply};
use crate::iface::tcp_time_wait::Snapshot;
use crate::iface::time_wait_table::Key;
use crate::laws::connect::is_concrete_addr;
use crate::laws::expiry::{is_aged, lemma_aged};
use crate::laws::segments::{
    is_answer, is_first_listener, is_first_reopener, is_found, is_free, is_in_time, is_left,
    is_let_go, is_served, is_unheard, is_waiting, lemma_consulted, lemma_fits, lemma_listener,
    lemma_outcome, lemma_settled, lemma_tcp_in, lemma_waiting,
};
use crate::laws::sets::{names, tcp_in, with_tcp};
use crate::laws::socket::{bound_to, is_reset_of};
use crate::phy::{ChecksumCapabilities, PacketMeta};
use crate::socket::tcp;
use crate::socket::tcp::time_wait::{TimeWaitAction, TimeWaitState};
use crate::time::Instant;
use crate::wire;
use crate::wire::ip::{IpAddress, IpEndpoint, IpProtocol, IpRepr};
use crate::wire::tcp::{TcpControl, TcpRepr};
use vstd::prelude::*;

verus! {

/// The segment only asks for a connection.
pub open spec fn asks_to_open(tcp: TcpRepr<'_>) -> bool {
    tcp.control == TcpControl::Syn && tcp.ack_number is None
}

/// The endpoint that a segment is meant for.
pub open spec fn target(a: Arrival<'_>) -> IpEndpoint {
    IpEndpoint { addr: a.ip.spec_dst_addr(), port: a.tcp.dst_port }
}

/// What answers a segment that nobody takes: a reset, whatever the segment holds, unless it is a reset
/// itself, one of its addresses is unspecified, or it asks for a connection with an endpoint that is
/// listened on.
pub open spec fn is_turned_away(a: Arrival<'_>, listening: bool, answer: Option<Packet>) -> bool {
    &&& answer is Some <==> {
        &&& a.tcp.control != TcpControl::Rst
        &&& is_concrete_addr(a.ip.spec_src_addr())
        &&& is_concrete_addr(a.ip.spec_dst_addr())
        &&& !(asks_to_open(a.tcp) && listening)
    }
    &&& answer is Some ==> {
        &&& is_reset_of(a.ip, a.tcp, (answer->0).ip, (answer->0).tcp)
        &&& (answer->0).meta.id == 0
    }
}

/// What comes of a segment that nobody takes. The registry, where there is one, is asked once where the
/// segment asks for a connection, and for nothing else; without one nothing is listened on.
pub open spec fn is_unclaimed(
    before: Snapshot,
    a: Arrival<'_>,
    after: Snapshot,
    answer: Option<Packet>,
) -> bool {
    &&& after.slots == before.slots
    &&& after.protected == before.protected
    &&& after.notified == before.notified
    &&& after.setup == before.setup
    &&& after.records.offers == before.records.offers
    &&& if asks_to_open(a.tcp) && before.setup.tcp_listen_registry is Some {
        &&& after.records.questions == before.records.questions.push(
            Question { endpoint: target(a), meta: a.meta },
        )
        &&& exists|listening: bool| #[trigger]
            (before.setup.tcp_listen_registry->0).may_answer(target(a), a.meta, listening)
                && is_turned_away(a, listening, answer)
    } else {
        &&& after.records.questions == before.records.questions
        &&& is_turned_away(a, false, answer)
    }
}

/// The first socket that listens for the segment processes it, and nothing else changes.
pub open spec fn is_heard(
    before: Snapshot,
    a: Arrival<'_>,
    asked: tcp::Socket,
    reuse: Option<(&TimeWaitState, Option<u64>)>,
    reply: Option<(IpRepr, TcpRepr<'static>)>,
    became: tcp::Socket,
    after: Snapshot,
    answer: Option<Packet>,
) -> bool {
    exists|i: int|
        {
            &&& #[trigger] is_first_listener(before.slots, a, i)
            &&& tcp_in(before.slots, i) == Some(asked)
            &&& reuse is None
            &&& after == (Snapshot { slots: with_tcp(before.slots, i, became), ..before })
            &&& is_answer(answer, bound_to(asked), reply)
        }
}

/// No socket processes the segment: TIME-WAIT answers it, or it belongs to no connection whose time is
/// not over and nobody listens for it.
pub open spec fn is_quiet(
    before: Snapshot,
    a: Arrival<'_>,
    after: Snapshot,
    answer: Option<Packet>,
) -> bool {
    ||| is_left(before, a, after, answer)
    ||| {
        &&& is_free(before, a)
        &&& is_unheard(before.slots, a)
        &&& is_unclaimed(before, a, after, answer)
    }
    ||| exists|now: Snapshot|
        {
            &&& #[trigger] is_let_go(before, a, now)
            &&& is_unheard(now.slots, a)
            &&& is_unclaimed(now, a, after, answer)
        }
}

/// A socket processes the segment: one that a connection leads to, or, where the segment belongs to none
/// whose time is not over, the first that listens for it.
pub open spec fn is_taken(
    before: Snapshot,
    a: Arrival<'_>,
    asked: tcp::Socket,
    reuse: Option<(&TimeWaitState, Option<u64>)>,
    reply: Option<(IpRepr, TcpRepr<'static>)>,
    became: tcp::Socket,
    after: Snapshot,
    answer: Option<Packet>,
) -> bool {
    ||| is_served(before, a, asked, reuse, reply, became, after, answer)
    ||| {
        &&& is_free(before, a)
        &&& is_heard(before, a, asked, reuse, reply, became, after, answer)
    }
    ||| exists|now: Snapshot|
        {
            &&& #[trigger] is_let_go(before, a, now)
            &&& is_heard(now, a, asked, reuse, reply, became, after, answer)
        }
}

/// What passes the connections of a set leaves what is described.
proof fn lemma_passed(before: Snapshot, a: Arrival<'_>)
    requires
        is_found(before, a),
        a.passes(before),
    ensures
        a.waiting(before) is None ==> is_free(before, a) && a.passed(before) == before,
        a.waiting(before) is Some ==> is_let_go(before, a, a.passed(before)),
{
    lemma_waiting(before, a);
    if a.waiting(before) is Some {
        let state = a.waiting(before)->0;
        assert(a.consulted(before) is None);
        assert(a.settled(before, a.passed(before), None));
        lemma_settled(before, a, a.passed(before), None);
    }
}

/// What comes of a segment that no socket processes.
pub proof fn lemma_quiet(
    before: Snapshot,
    a: Arrival<'_>,
    after: Snapshot,
    answer: Option<Packet>,
)
    requires
        is_found(before, a),
        a.unprocessed(before, after, answer),
    ensures
        is_quiet(before, a, after, answer),
{
    let listening = choose|listening: bool|
        a.may_be_listening(before, listening) && #[trigger] a.concluded(
            before,
            listening,
            after,
            answer,
        );
    lemma_waiting(before, a);
    if a.passes(before) {
        let now = a.passed(before);
        lemma_passed(before, a);
        lemma_listener(now.slots, a);
        assert(now.setup == before.setup);
        assert(is_turned_away(a, listening, answer));
        if asks_to_open(a.tcp) && before.setup.tcp_listen_registry is Some {
            assert((before.setup.tcp_listen_registry->0).may_answer(target(a), a.meta, listening));
        }
        assert(is_unclaimed(now, a, after, answer));
    } else {
        let reply = choose|reply: Option<Reply>| #[trigger]
            a.settled(before, after, Some(reply)) && answer
                == crate::iface::interface::tcp::packet_of(reply);
        lemma_settled(before, a, after, Some(reply));
    }
}

/// What comes of a segment that a socket processes.
pub proof fn lemma_taken(
    before: Snapshot,
    a: Arrival<'_>,
    asked: tcp::Socket,
    identity: Option<u64>,
    reply: Option<(IpRepr, TcpRepr<'static>)>,
    became: tcp::Socket,
    after: Snapshot,
    answer: Option<Packet>,
)
    requires
        is_found(before, a),
        a.processed_by(before, asked, identity, reply, became, after, answer),
    ensures
        is_taken(
            before,
            a,
            asked,
            a.passed_on(before, identity),
            reply,
            became,
            after,
            answer,
        ),
{
    if a.passes(before) {
        let now = a.passed(before);
        lemma_passed(before, a);
        lemma_listener(now.slots, a);
        let index = a.processor(before)->0;
        assert(is_first_listener(now.slots, a, index));
        lemma_tcp_in(now.slots);
        assert(after.slots =~= with_tcp(now.slots, index, became));
        assert(is_heard(
            now,
            a,
            asked,
            a.passed_on(before, identity),
            reply,
            became,
            after,
            answer,
        ));
    } else {
        lemma_consulted(before, a);
        let sent = choose|sent: Option<Reply>| #[trigger]
            a.outcome(before, became, reply, after, Some(sent)) && answer
                == crate::iface::interface::tcp::packet_of(sent);
        lemma_outcome(before, a, asked, identity, reply, became, after, Some(sent));
    }
}

/// A segment that the external handler consumed goes no further. Any other is answered by TIME-WAIT,
/// processed by a socket, or turned away.
pub proof fn segments_take_their_course<
    P: FnOnce(
        &mut tcp::Socket,
        &Context,
        &IpRepr,
        &TcpRepr<'_>,
        Option<(&TimeWaitState, Option<u64>)>,
    ) -> Option<(IpRepr, TcpRepr<'static>)>,
>(
    cx: &InterfaceInner,
    meta: PacketMeta,
    ip: IpRepr,
    tcp: TcpRepr<'_>,
    handled: TcpIngressResult,
    process: P,
)
    ensures
        forall|set: &mut SocketSet<'_>, r: Option<Packet>| #[trigger]
            call_ensures(
                InterfaceInner::process_segment::<P>,
                (cx, set, meta, ip, tcp, handled, process),
                r,
            ) ==> {
                let a = Arrival { meta, ip, tcp, now: cx.now };
                let before = set.snapshot();
                let after = final(set).snapshot();
                &&& handled == TcpIngressResult::Consumed ==> r is None && after == before
                &&& handled == TcpIngressResult::NotHandled && is_found(before, a) ==> {
                    ||| is_quiet(before, a, after, r)
                    ||| exists|
                        socket: &mut tcp::Socket,
                        reuse: Option<(&TimeWaitState, Option<u64>)>,
                        reply: Option<(IpRepr, TcpRepr<'static>)>,
                    |
                        {
                            &&& #[trigger] call_ensures(
                                process,
                                (socket, cx, &ip, &tcp, reuse),
                                reply,
                            )
                            &&& is_taken(
                                before,
                                a,
                                *socket,
                                reuse,
                                reply,
                                *final(socket),
                                after,
                                r,
                            )
                        }
                }
            },
{
    let a = Arrival { meta, ip, tcp, now: cx.now };
    assert(a == arrived(*cx, meta, ip, tcp));
    assert forall|set: &mut SocketSet<'_>, r: Option<Packet>| #[trigger]
        call_ensures(
            InterfaceInner::process_segment::<P>,
            (cx, set, meta, ip, tcp, handled, process),
            r,
        ) && handled == TcpIngressResult::NotHandled && is_found(set.snapshot(), a) implies {
        let before = set.snapshot();
        let after = final(set).snapshot();
        ||| is_quiet(before, a, after, r)
        ||| exists|
            socket: &mut tcp::Socket,
            reuse: Option<(&TimeWaitState, Option<u64>)>,
            reply: Option<(IpRepr, TcpRepr<'static>)>,
        |
            {
                &&& #[trigger] call_ensures(process, (socket, cx, &ip, &tcp, reuse), reply)
                &&& is_taken(before, a, *socket, reuse, reply, *final(socket), after, r)
            }
    } by {
        let before = set.snapshot();
        let after = final(set).snapshot();
        if a.unprocessed(before, after, r) {
            lemma_quiet(before, a, after, r);
        } else {
            let (socket, identity, reply) = choose|
                socket: &mut tcp::Socket,
                identity: Option<u64>,
                reply: Option<(IpRepr, TcpRepr<'static>)>,
            |
                {
                    &&& #[trigger] call_ensures(
                        process,
                        (socket, cx, &ip, &tcp, a.passed_on(before, identity)),
                        reply,
                    )
                    &&& a.processed_by(
                        before,
                        *socket,
                        identity,
                        reply,
                        *final(socket),
                        after,
                        r,
                    )
                };
            lemma_taken(before, a, *socket, identity, reply, *final(socket), after, r);
        }
    }
}

/// A segment that belongs to no connection and that nobody listens for is answered by a reset, whatever it
/// holds, unless it is a reset itself, one of its addresses is unspecified, or it asks for a connection
/// with an endpoint that the registry knows. No socket processes it.
pub proof fn unclaimed_segments_are_reset<
    P: FnOnce(
        &mut tcp::Socket,
        &Context,
        &IpRepr,
        &TcpRepr<'_>,
        Option<(&TimeWaitState, Option<u64>)>,
    ) -> Option<(IpRepr, TcpRepr<'static>)>,
>(cx: &InterfaceInner, meta: PacketMeta, ip: IpRepr, tcp: TcpRepr<'_>, process: P)
    ensures
        forall|set: &mut SocketSet<'_>, r: Option<Packet>| #[trigger]
            call_ensures(
                InterfaceInner::process_segment::<P>,
                (cx, set, meta, ip, tcp, TcpIngressResult::NotHandled, process),
                r,
            ) && is_free(set.snapshot(), Arrival { meta, ip, tcp, now: cx.now }) && is_unheard(
                set@,
                Arrival { meta, ip, tcp, now: cx.now },
            ) ==> {
                &&& r is Some <== {
                    &&& tcp.control != TcpControl::Rst
                    &&& is_concrete_addr(ip.spec_src_addr())
                    &&& is_concrete_addr(ip.spec_dst_addr())
                    &&& !asks_to_open(tcp) || set.setup().tcp_listen_registry is None
                }
                &&& r is Some ==> {
                    &&& tcp.control != TcpControl::Rst
                    &&& is_concrete_addr(ip.spec_src_addr())
                    &&& is_concrete_addr(ip.spec_dst_addr())
                    &&& is_reset_of(ip, tcp, (r->0).ip, (r->0).tcp)
                    &&& (r->0).meta.id == 0
                }
                &&& is_unclaimed(
                    set.snapshot(),
                    Arrival { meta, ip, tcp, now: cx.now },
                    final(set).snapshot(),
                    r,
                )
            },
{
    let a = Arrival { meta, ip, tcp, now: cx.now };
    segments_take_their_course(cx, meta, ip, tcp, TcpIngressResult::NotHandled, process);
    assert forall|set: &mut SocketSet<'_>, r: Option<Packet>| #[trigger]
        call_ensures(
            InterfaceInner::process_segment::<P>,
            (cx, set, meta, ip, tcp, TcpIngressResult::NotHandled, process),
            r,
        ) && is_free(set.snapshot(), a) && is_unheard(set@, a) implies is_unclaimed(
        set.snapshot(),
        a,
        final(set).snapshot(),
        r,
    ) by {
        let before = set.snapshot();
        let after = final(set).snapshot();
        assert(is_found(before, a));
        assert forall|now: Snapshot| !#[trigger] is_let_go(before, a, now) by {}
        assert(!is_left(before, a, after, r));
    }
}

/// The segment can be processed: the handles of the sockets that it concerns lead to TCP sockets, the times
/// that it calls for can be told, and a segment that asks for a connection takes less than half of all
/// sequence numbers.
pub open spec fn is_processable(before: Snapshot, a: Arrival<'_>) -> bool {
    &&& is_found(before, a)
    &&& is_in_time(before, a)
    &&& asks_to_open(a.tcp) ==> a.tcp.payload@.len() + 1 <= i32::MAX
}

pub proof fn lemma_processable(before: Snapshot, a: Arrival<'_>)
    ensures
        a.is_processable(before) <==> is_processable(before, a),
{
    lemma_fits(before, a);
}

/// The header is that of the segment without extension headers: what it says of the payload is that it is
/// the segment, and all else is as it was.
pub open spec fn is_bare(ip: IpRepr, len: nat, header: IpRepr) -> bool {
    &&& header.spec_src_addr() == ip.spec_src_addr()
    &&& header.spec_dst_addr() == ip.spec_dst_addr()
    &&& header.spec_next_header() == IpProtocol::Tcp
    &&& header.spec_payload_len() == len as usize
    &&& ip matches IpRepr::Ipv4(repr) ==> header matches IpRepr::Ipv4(bare) && bare.hop_limit
        == repr.hop_limit
    &&& ip matches IpRepr::Ipv6(repr) ==> header matches IpRepr::Ipv6(bare) && bare.hop_limit
        == repr.hop_limit
}

/// The header of a segment without extension headers is as described.
pub proof fn bare_headers_describe_the_segment(ip: IpRepr, len: usize, r: IpRepr)
    requires
        call_ensures(transport_header, (ip, len), r),
    ensures
        is_bare(ip, len as nat, r),
{
}

/// The segment was offered to the external handler, where there is one, which saw the bare header and gave
/// an answer that it may give. Without one it is not handled. Nothing but the offer is noted.
pub open spec fn is_offered(
    before: Snapshot,
    a: Arrival<'_>,
    segment: Seq<u8>,
    handled: TcpIngressResult,
    after: Snapshot,
) -> bool {
    &&& after.slots == before.slots
    &&& after.protected == before.protected
    &&& after.notified == before.notified
    &&& after.setup == before.setup
    &&& after.records.questions == before.records.questions
    &&& match before.setup.tcp_ingress_handler {
        Some(handler) => exists|header: IpRepr| #[trigger]
            is_bare(a.ip, segment.len(), header) && handler.may_answer(
                a.meta,
                header,
                segment,
                handled,
            ) && after.records.offers == before.records.offers.push(
                Offer { meta: a.meta, ip_repr: header, segment },
            ),
        None => handled == TcpIngressResult::NotHandled && after.records.offers
            == before.records.offers,
    }
}

proof fn lemma_offered(
    before: Snapshot,
    a: Arrival<'_>,
    segment: Seq<u8>,
    handled: TcpIngressResult,
)
    requires
        offerable(before, a.meta, a.ip, segment, handled),
    ensures
        is_offered(before, a, segment, handled, a.seen(before, segment)),
{
    assert(is_bare(a.ip, segment.len(), transport(a.ip, segment)));
}

/// What was offered makes no difference to which sockets are found.
proof fn lemma_same_found(before: Snapshot, now: Snapshot, a: Arrival<'_>)
    requires
        now.slots == before.slots,
        now.protected == before.protected,
        is_found(before, a),
    ensures
        is_found(now, a),
{
    assert forall|attached: Option<int>, detached: Option<Key>, state: TimeWaitState, i: int|
        #[trigger] is_waiting(now, a, attached, detached, state) && #[trigger] is_first_reopener(
            now.slots,
            a,
            state.processed(a.now, a.tcp),
            i,
        ) && state.action(a.now, a.tcp) == TimeWaitAction::Reopen && a.tcp.max_seg_size != Some(
            0u16,
        ) implies tcp_in(now.slots, names(now.slots, i)) is Some by {
        assert(is_waiting(before, a, attached, detached, state));
    }
}

/// A segment that can be processed takes its course, and any other is handed back.
pub proof fn processable_segments_take_their_course<
    P: FnOnce(
        &mut tcp::Socket,
        &Context,
        &IpRepr,
        &TcpRepr<'_>,
        Option<(&TimeWaitState, Option<u64>)>,
    ) -> Option<(IpRepr, TcpRepr<'static>)>,
>(
    cx: &InterfaceInner,
    meta: PacketMeta,
    ip: IpRepr,
    tcp: TcpRepr<'_>,
    handled: TcpIngressResult,
    process: P,
)
    ensures
        forall|set: &mut SocketSet<'_>, r: Result<Option<Packet>, P>| #[trigger]
            call_ensures(
                InterfaceInner::try_process_segment::<P>,
                (cx, set, meta, ip, tcp, handled, process),
                r,
            ) ==> {
                let a = Arrival { meta, ip, tcp, now: cx.now };
                let before = set.snapshot();
                let after = final(set).snapshot();
                &&& handled == TcpIngressResult::Consumed ==> r is Ok && r->Ok_0 is None
                    && after == before
                &&& r is Err <==> handled == TcpIngressResult::NotHandled
                    && !is_processable(before, a)
                &&& r is Err ==> r->Err_0 == process && after == before
                &&& handled == TcpIngressResult::NotHandled && r is Ok ==> {
                    ||| is_quiet(before, a, after, r->Ok_0)
                    ||| exists|
                        socket: &mut tcp::Socket,
                        reuse: Option<(&TimeWaitState, Option<u64>)>,
                        reply: Option<(IpRepr, TcpRepr<'static>)>,
                    |
                        {
                            &&& #[trigger] call_ensures(
                                process,
                                (socket, cx, &ip, &tcp, reuse),
                                reply,
                            )
                            &&& is_taken(
                                before,
                                a,
                                *socket,
                                reuse,
                                reply,
                                *final(socket),
                                after,
                                r->Ok_0,
                            )
                        }
                }
            },
{
    let a = Arrival { meta, ip, tcp, now: cx.now };
    assert(a == arrived(*cx, meta, ip, tcp));
    assert forall|set: &mut SocketSet<'_>, r: Result<Option<Packet>, P>| #[trigger]
        call_ensures(
            InterfaceInner::try_process_segment::<P>,
            (cx, set, meta, ip, tcp, handled, process),
            r,
        ) implies {
        let a = Arrival { meta, ip, tcp, now: cx.now };
        let before = set.snapshot();
        let after = final(set).snapshot();
        &&& handled == TcpIngressResult::Consumed ==> r is Ok && r->Ok_0 is None && after == before
        &&& r is Err <==> handled == TcpIngressResult::NotHandled && !is_processable(before, a)
        &&& r is Err ==> r->Err_0 == process && after == before
        &&& handled == TcpIngressResult::NotHandled && r is Ok ==> {
            ||| is_quiet(before, a, after, r->Ok_0)
            ||| exists|
                socket: &mut tcp::Socket,
                reuse: Option<(&TimeWaitState, Option<u64>)>,
                reply: Option<(IpRepr, TcpRepr<'static>)>,
            |
                {
                    &&& #[trigger] call_ensures(process, (socket, cx, &ip, &tcp, reuse), reply)
                    &&& is_taken(before, a, *socket, reuse, reply, *final(socket), after, r->Ok_0)
                }
        }
    } by {
        let before = set.snapshot();
        let after = final(set).snapshot();
        lemma_processable(before, a);
        if handled == TcpIngressResult::NotHandled && r is Ok {
            if a.unprocessed(before, after, r->Ok_0) {
                lemma_quiet(before, a, after, r->Ok_0);
            } else {
                let (socket, identity, reply) = choose|
                    socket: &mut tcp::Socket,
                    identity: Option<u64>,
                    reply: Option<(IpRepr, TcpRepr<'static>)>,
                |
                    {
                        &&& #[trigger] call_ensures(
                            process,
                            (socket, cx, &ip, &tcp, a.passed_on(before, identity)),
                            reply,
                        )
                        &&& a.processed_by(
                            before,
                            *socket,
                            identity,
                            reply,
                            *final(socket),
                            after,
                            r->Ok_0,
                        )
                    };
                lemma_taken(before, a, *socket, identity, reply, *final(socket), after, r->Ok_0);
            }
        }
    }
}

/// What is no valid segment is dropped, and nobody hears of it. A valid one is offered to the external
/// handler, where there is one, and takes its course where that leaves it.
pub proof fn valid_segments_are_offered<
    P: FnOnce(
        &mut tcp::Socket,
        &Context,
        &IpRepr,
        &TcpRepr<'_>,
        Option<(&TimeWaitState, Option<u64>)>,
    ) -> Option<(IpRepr, TcpRepr<'static>)>,
>(
    cx: &InterfaceInner,
    meta: PacketMeta,
    ip: IpRepr,
    payload: &[u8],
    parsed: wire::Result<TcpRepr<'_>>,
    process: P,
)
    ensures
        forall|set: &mut SocketSet<'_>, r: Option<Packet>| #[trigger]
            call_ensures(
                InterfaceInner::process_parsed::<P>,
                (cx, set, meta, ip, payload, parsed, process),
                r,
            ) ==> {
                let before = set.snapshot();
                let after = final(set).snapshot();
                &&& parsed is Err ==> r is None && after == before
                &&& parsed is Ok
                    && is_found(before, Arrival { meta, ip, tcp: parsed->Ok_0, now: cx.now }) ==> {
                    let a = Arrival { meta, ip, tcp: parsed->Ok_0, now: cx.now };
                    exists|handled: TcpIngressResult, now: Snapshot|
                        {
                            &&& #[trigger] is_offered(before, a, payload@, handled, now)
                            &&& handled == TcpIngressResult::Consumed ==> r is None && after == now
                            &&& handled == TcpIngressResult::NotHandled ==> {
                                ||| is_quiet(now, a, after, r)
                                ||| exists|
                                    socket: &mut tcp::Socket,
                                    reuse: Option<(&TimeWaitState, Option<u64>)>,
                                    reply: Option<(IpRepr, TcpRepr<'static>)>,
                                |
                                    {
                                        &&& #[trigger] call_ensures(
                                            process,
                                            (socket, cx, &ip, &parsed->Ok_0, reuse),
                                            reply,
                                        )
                                        &&& is_taken(
                                            now,
                                            a,
                                            *socket,
                                            reuse,
                                            reply,
                                            *final(socket),
                                            after,
                                            r,
                                        )
                                    }
                            }
                        }
                }
            },
{
    assert forall|set: &mut SocketSet<'_>, r: Option<Packet>| #[trigger]
        call_ensures(
            InterfaceInner::process_parsed::<P>,
            (cx, set, meta, ip, payload, parsed, process),
            r,
        ) implies {
        let before = set.snapshot();
        let after = final(set).snapshot();
        &&& parsed is Err ==> r is None && after == before
        &&& parsed is Ok
            && is_found(before, Arrival { meta, ip, tcp: parsed->Ok_0, now: cx.now }) ==> {
            let a = Arrival { meta, ip, tcp: parsed->Ok_0, now: cx.now };
            exists|handled: TcpIngressResult, now: Snapshot|
                {
                    &&& #[trigger] is_offered(before, a, payload@, handled, now)
                    &&& handled == TcpIngressResult::Consumed ==> r is None && after == now
                    &&& handled == TcpIngressResult::NotHandled ==> {
                        ||| is_quiet(now, a, after, r)
                        ||| exists|
                            socket: &mut tcp::Socket,
                            reuse: Option<(&TimeWaitState, Option<u64>)>,
                            reply: Option<(IpRepr, TcpRepr<'static>)>,
                        |
                            {
                                &&& #[trigger] call_ensures(
                                    process,
                                    (socket, cx, &ip, &parsed->Ok_0, reuse),
                                    reply,
                                )
                                &&& is_taken(
                                    now,
                                    a,
                                    *socket,
                                    reuse,
                                    reply,
                                    *final(socket),
                                    after,
                                    r,
                                )
                            }
                    }
                }
        }
    } by {
        let before = set.snapshot();
        let after = final(set).snapshot();
        let a = Arrival { meta, ip, tcp: parsed->Ok_0, now: cx.now };
        if parsed is Ok && is_found(before, a) {
            assert(a == arrived(*cx, meta, ip, parsed->Ok_0));
            let now = a.seen(before, payload@);
            assert(now.slots == before.slots && now.protected == before.protected);
            lemma_same_found(before, now, a);
            if a.left_to_itself(before, payload@, after, r) {
                if offerable(before, meta, ip, payload@, TcpIngressResult::Consumed) && r is None
                    && after == now {
                    lemma_offered(before, a, payload@, TcpIngressResult::Consumed);
                } else {
                    lemma_offered(before, a, payload@, TcpIngressResult::NotHandled);
                    lemma_quiet(now, a, after, r);
                }
            } else {
                let (socket, identity, reply) = choose|
                    socket: &mut tcp::Socket,
                    identity: Option<u64>,
                    reply: Option<(IpRepr, TcpRepr<'static>)>,
                |
                    {
                        &&& #[trigger] call_ensures(
                            process,
                            (socket, cx, &ip, &parsed->Ok_0, a.passed_on(now, identity)),
                            reply,
                        )
                        &&& a.carried_out(
                            before,
                            payload@,
                            *socket,
                            identity,
                            reply,
                            *final(socket),
                            after,
                            r,
                        )
                    };
                lemma_taken(now, a, *socket, identity, reply, *final(socket), after, r);
                lemma_offered(before, a, payload@, TcpIngressResult::NotHandled);
            }
        }
    }
}

/// What is no valid segment is dropped, and nobody hears of it. A valid one is offered to the external
/// handler, where there is one, and where that leaves it, it takes its course or is handed back.
pub proof fn valid_segments_are_offered_or_handed_back<
    P: FnOnce(
        &mut tcp::Socket,
        &Context,
        &IpRepr,
        &TcpRepr<'_>,
        Option<(&TimeWaitState, Option<u64>)>,
    ) -> Option<(IpRepr, TcpRepr<'static>)>,
>(
    cx: &InterfaceInner,
    meta: PacketMeta,
    ip: IpRepr,
    payload: &[u8],
    parsed: wire::Result<TcpRepr<'_>>,
    process: P,
)
    ensures
        forall|set: &mut SocketSet<'_>, r: Result<Option<Packet>, P>| #[trigger]
            call_ensures(
                InterfaceInner::try_process_parsed::<P>,
                (cx, set, meta, ip, payload, parsed, process),
                r,
            ) ==> {
                let before = set.snapshot();
                let after = final(set).snapshot();
                &&& parsed is Err ==> r is Ok && r->Ok_0 is None && after == before
                &&& parsed is Ok ==> {
                    let a = Arrival { meta, ip, tcp: parsed->Ok_0, now: cx.now };
                    exists|handled: TcpIngressResult, now: Snapshot|
                        {
                            &&& #[trigger] is_offered(before, a, payload@, handled, now)
                            &&& handled == TcpIngressResult::Consumed ==> r is Ok
                                && r->Ok_0 is None && after == now
                            &&& r is Err ==> !is_processable(before, a)
                                && r->Err_0 == process && after == now
                            &&& r is Ok && !is_processable(before, a) ==> r->Ok_0 is None
                                && after == now
                            &&& r is Ok && handled == TcpIngressResult::NotHandled
                                && is_processable(before, a) ==> {
                                ||| is_quiet(now, a, after, r->Ok_0)
                                ||| exists|
                                    socket: &mut tcp::Socket,
                                    reuse: Option<(&TimeWaitState, Option<u64>)>,
                                    reply: Option<(IpRepr, TcpRepr<'static>)>,
                                |
                                    {
                                        &&& #[trigger] call_ensures(
                                            process,
                                            (socket, cx, &ip, &parsed->Ok_0, reuse),
                                            reply,
                                        )
                                        &&& is_taken(
                                            now,
                                            a,
                                            *socket,
                                            reuse,
                                            reply,
                                            *final(socket),
                                            after,
                                            r->Ok_0,
                                        )
                                    }
                            }
                        }
                }
            },
{
    assert forall|set: &mut SocketSet<'_>, r: Result<Option<Packet>, P>| #[trigger]
        call_ensures(
            InterfaceInner::try_process_parsed::<P>,
            (cx, set, meta, ip, payload, parsed, process),
            r,
        ) implies {
        let before = set.snapshot();
        let after = final(set).snapshot();
        &&& parsed is Err ==> r is Ok && r->Ok_0 is None && after == before
        &&& parsed is Ok ==> {
            let a = Arrival { meta, ip, tcp: parsed->Ok_0, now: cx.now };
            exists|handled: TcpIngressResult, now: Snapshot|
                {
                    &&& #[trigger] is_offered(before, a, payload@, handled, now)
                    &&& handled == TcpIngressResult::Consumed ==> r is Ok && r->Ok_0 is None
                        && after == now
                    &&& r is Err ==> !is_processable(before, a) && r->Err_0 == process
                        && after == now
                    &&& r is Ok && !is_processable(before, a) ==> r->Ok_0 is None && after == now
                    &&& r is Ok && handled == TcpIngressResult::NotHandled
                        && is_processable(before, a) ==> {
                        ||| is_quiet(now, a, after, r->Ok_0)
                        ||| exists|
                            socket: &mut tcp::Socket,
                            reuse: Option<(&TimeWaitState, Option<u64>)>,
                            reply: Option<(IpRepr, TcpRepr<'static>)>,
                        |
                            {
                                &&& #[trigger] call_ensures(
                                    process,
                                    (socket, cx, &ip, &parsed->Ok_0, reuse),
                                    reply,
                                )
                                &&& is_taken(
                                    now,
                                    a,
                                    *socket,
                                    reuse,
                                    reply,
                                    *final(socket),
                                    after,
                                    r->Ok_0,
                                )
                            }
                    }
                }
        }
    } by {
        let before = set.snapshot();
        let after = final(set).snapshot();
        let a = Arrival { meta, ip, tcp: parsed->Ok_0, now: cx.now };
        if parsed is Ok {
            assert(a == arrived(*cx, meta, ip, parsed->Ok_0));
            let now = a.seen(before, payload@);
            assert(now.slots == before.slots && now.protected == before.protected);
            lemma_processable(before, a);
            if r is Err {
                lemma_offered(before, a, payload@, TcpIngressResult::NotHandled);
            } else if is_processable(before, a) {
                lemma_same_found(before, now, a);
                if a.left_to_itself(before, payload@, after, r->Ok_0) {
                    if offerable(before, meta, ip, payload@, TcpIngressResult::Consumed)
                        && r->Ok_0 is None
                        && after == now {
                        lemma_offered(before, a, payload@, TcpIngressResult::Consumed);
                    } else {
                        lemma_offered(before, a, payload@, TcpIngressResult::NotHandled);
                        lemma_quiet(now, a, after, r->Ok_0);
                    }
                } else {
                    let (socket, identity, reply) = choose|
                        socket: &mut tcp::Socket,
                        identity: Option<u64>,
                        reply: Option<(IpRepr, TcpRepr<'static>)>,
                    |
                        {
                            &&& #[trigger] call_ensures(
                                process,
                                (socket, cx, &ip, &parsed->Ok_0, a.passed_on(now, identity)),
                                reply,
                            )
                            &&& a.carried_out(
                                before,
                                payload@,
                                *socket,
                                identity,
                                reply,
                                *final(socket),
                                after,
                                r->Ok_0,
                            )
                        };
                    lemma_taken(now, a, *socket, identity, reply, *final(socket), after, r->Ok_0);
                    lemma_offered(before, a, payload@, TcpIngressResult::NotHandled);
                }
            } else if offerable(before, meta, ip, payload@, TcpIngressResult::Consumed) {
                lemma_offered(before, a, payload@, TcpIngressResult::Consumed);
            } else {
                lemma_offered(before, a, payload@, TcpIngressResult::NotHandled);
            }
        }
    }
}

/// A segment is read between its two addresses with the capabilities of the interface. One that is not
/// valid is dropped, and any other is offered and takes its course.
pub proof fn segments_are_read_with_the_capabilities_of_the_interface<
    'f,
    R: FnOnce(&'f [u8], &IpAddress, &IpAddress, &ChecksumCapabilities) -> wire::Result<TcpRepr<'f>>,
    P: FnOnce(
        &mut tcp::Socket,
        &Context,
        &IpRepr,
        &TcpRepr<'_>,
        Option<(&TimeWaitState, Option<u64>)>,
    ) -> Option<(IpRepr, TcpRepr<'static>)>,
>(
    cx: &InterfaceInner,
    meta: PacketMeta,
    ip: IpRepr,
    payload: &'f [u8],
    parse: R,
    process: P,
)
    ensures
        forall|set: &mut SocketSet<'_>, r: Option<Packet>| #[trigger]
            call_ensures(
                InterfaceInner::process_tcp::<R, P>,
                (cx, set, meta, ip, payload, parse, process),
                r,
            ) ==> {
                let before = set.snapshot();
                let after = final(set).snapshot();
                exists|parsed: wire::Result<TcpRepr<'f>>|
                    {
                        &&& #[trigger] call_ensures(
                            parse,
                            (payload, &ip.spec_src_addr(), &ip.spec_dst_addr(), &cx.caps.checksum),
                            parsed,
                        )
                        &&& parsed is Err ==> r is None && after == before
                        &&& parsed is Ok && is_found(
                            before,
                            Arrival { meta, ip, tcp: parsed->Ok_0, now: cx.now },
                        ) ==> {
                            let a = Arrival { meta, ip, tcp: parsed->Ok_0, now: cx.now };
                            exists|handled: TcpIngressResult, now: Snapshot|
                                {
                                    &&& #[trigger] is_offered(before, a, payload@, handled, now)
                                    &&& handled == TcpIngressResult::Consumed ==> r is None
                                        && after == now
                                    &&& handled == TcpIngressResult::NotHandled ==> {
                                        ||| is_quiet(now, a, after, r)
                                        ||| exists|
                                            socket: &mut tcp::Socket,
                                            reuse: Option<(&TimeWaitState, Option<u64>)>,
                                            reply: Option<(IpRepr, TcpRepr<'static>)>,
                                        |
                                            {
                                                &&& #[trigger] call_ensures(
                                                    process,
                                                    (socket, cx, &ip, &parsed->Ok_0, reuse),
                                                    reply,
                                                )
                                                &&& is_taken(
                                                    now,
                                                    a,
                                                    *socket,
                                                    reuse,
                                                    reply,
                                                    *final(socket),
                                                    after,
                                                    r,
                                                )
                                            }
                                    }
                                }
                        }
                    }
            },
{
    assert forall|set: &mut SocketSet<'_>, r: Option<Packet>| #[trigger]
        call_ensures(
            InterfaceInner::process_tcp::<R, P>,
            (cx, set, meta, ip, payload, parse, process),
            r,
        ) implies {
        let before = set.snapshot();
        let after = final(set).snapshot();
        exists|parsed: wire::Result<TcpRepr<'f>>|
            {
                &&& #[trigger] call_ensures(
                    parse,
                    (payload, &ip.spec_src_addr(), &ip.spec_dst_addr(), &cx.caps.checksum),
                    parsed,
                )
                &&& parsed is Err ==> r is None && after == before
                &&& parsed is Ok && is_found(
                    before,
                    Arrival { meta, ip, tcp: parsed->Ok_0, now: cx.now },
                ) ==> {
                    let a = Arrival { meta, ip, tcp: parsed->Ok_0, now: cx.now };
                    exists|handled: TcpIngressResult, now: Snapshot|
                        {
                            &&& #[trigger] is_offered(before, a, payload@, handled, now)
                            &&& handled == TcpIngressResult::Consumed ==> r is None && after == now
                            &&& handled == TcpIngressResult::NotHandled ==> {
                                ||| is_quiet(now, a, after, r)
                                ||| exists|
                                    socket: &mut tcp::Socket,
                                    reuse: Option<(&TimeWaitState, Option<u64>)>,
                                    reply: Option<(IpRepr, TcpRepr<'static>)>,
                                |
                                    {
                                        &&& #[trigger] call_ensures(
                                            process,
                                            (socket, cx, &ip, &parsed->Ok_0, reuse),
                                            reply,
                                        )
                                        &&& is_taken(
                                            now,
                                            a,
                                            *socket,
                                            reuse,
                                            reply,
                                            *final(socket),
                                            after,
                                            r,
                                        )
                                    }
                            }
                        }
                }
            }
    } by {
        let before = set.snapshot();
        let after = final(set).snapshot();
        let parsed = choose|parsed: wire::Result<TcpRepr<'f>>|
            {
                &&& #[trigger] call_ensures(
                    parse,
                    (payload, &ip.spec_src_addr(), &ip.spec_dst_addr(), &cx.caps.checksum),
                    parsed,
                )
                &&& parsed is Err ==> r is None && after == before
                &&& parsed is Ok ==> {
                    let arrival = arrived(*cx, meta, ip, parsed->Ok_0);
                    ||| arrival.left_to_itself(before, payload@, after, r)
                    ||| exists|
                        socket: &mut tcp::Socket,
                        identity: Option<u64>,
                        reply: Option<(IpRepr, TcpRepr<'static>)>,
                    |
                        {
                            &&& #[trigger] call_ensures(
                                process,
                                (
                                    socket,
                                    cx,
                                    &ip,
                                    &parsed->Ok_0,
                                    arrival.passed_on(arrival.seen(before, payload@), identity),
                                ),
                                reply,
                            )
                            &&& arrival.carried_out(
                                before,
                                payload@,
                                *socket,
                                identity,
                                reply,
                                *final(socket),
                                after,
                                r,
                            )
                        }
                }
            };
        let a = Arrival { meta, ip, tcp: parsed->Ok_0, now: cx.now };
        if parsed is Ok && is_found(before, a) {
            assert(a == arrived(*cx, meta, ip, parsed->Ok_0));
            let now = a.seen(before, payload@);
            assert(now.slots == before.slots && now.protected == before.protected);
            lemma_same_found(before, now, a);
            if a.left_to_itself(before, payload@, after, r) {
                if offerable(before, meta, ip, payload@, TcpIngressResult::Consumed) && r is None
                    && after == now {
                    lemma_offered(before, a, payload@, TcpIngressResult::Consumed);
                } else {
                    lemma_offered(before, a, payload@, TcpIngressResult::NotHandled);
                    lemma_quiet(now, a, after, r);
                }
            } else {
                let (socket, identity, reply) = choose|
                    socket: &mut tcp::Socket,
                    identity: Option<u64>,
                    reply: Option<(IpRepr, TcpRepr<'static>)>,
                |
                    {
                        &&& #[trigger] call_ensures(
                            process,
                            (socket, cx, &ip, &parsed->Ok_0, a.passed_on(now, identity)),
                            reply,
                        )
                        &&& a.carried_out(
                            before,
                            payload@,
                            *socket,
                            identity,
                            reply,
                            *final(socket),
                            after,
                            r,
                        )
                    };
                lemma_taken(now, a, *socket, identity, reply, *final(socket), after, r);
                lemma_offered(before, a, payload@, TcpIngressResult::NotHandled);
            }
        }
    }
}

/// The header describes the segment and nothing beside it.
pub open spec fn describes(ip: IpRepr, segment: Seq<u8>) -> bool {
    ip.spec_next_header() == IpProtocol::Tcp && ip.spec_payload_len() == segment.len()
}

/// A segment that its header does not describe is dropped. Where no response can be sent it is put off.
/// Neither changes anything. Any other is admitted: the clock is set, and time has passed.
pub proof fn segments_are_admitted(
    timestamp: Instant,
    has_token: bool,
    ip: &IpRepr,
    segment: &[u8],
    r: Admission,
)
    ensures
        forall|interface: &mut Interface, set: &mut SocketSet<'_>| #[trigger]
            call_ensures(
                Interface::admit_tcp_ingress,
                (interface, timestamp, has_token, set, ip, segment),
                r,
            ) && set.wf() ==> {
                &&& r == Admission::Dropped <==> !describes(*ip, segment@)
                &&& r == Admission::Postponed <==> describes(*ip, segment@) && !has_token
                &&& r == Admission::Admitted ==> {
                    &&& final(interface).inner.now == timestamp
                    &&& final(interface).inner.caps == interface.inner.caps
                    &&& is_aged(set.snapshot(), timestamp, final(set).snapshot())
                }
                &&& r != Admission::Admitted ==> {
                    &&& *final(interface) == *interface
                    &&& final(set).snapshot() == set.snapshot()
                }
            },
{
    assert forall|interface: &mut Interface, set: &mut SocketSet<'_>| #[trigger]
        call_ensures(
            Interface::admit_tcp_ingress,
            (interface, timestamp, has_token, set, ip, segment),
            r,
        ) && set.wf() && r == Admission::Admitted implies is_aged(
        set.snapshot(),
        timestamp,
        final(set).snapshot(),
    ) by {
        set.protected_connections_are_finite();
        lemma_aged(set.snapshot(), timestamp);
    }
}

/// A segment from outside is dropped, put off, or admitted. Where it is admitted the clock is set and time
/// passes first. Then it is read with the capabilities of the interface, offered, and takes its course.
pub proof fn segments_from_outside_take_their_course<
    'f,
    R: FnOnce(&'f [u8], &IpAddress, &IpAddress, &ChecksumCapabilities) -> wire::Result<TcpRepr<'f>>,
    P: FnOnce(
        &mut tcp::Socket,
        &Context,
        &IpRepr,
        &TcpRepr<'_>,
        Option<(&TimeWaitState, Option<u64>)>,
    ) -> Option<(IpRepr, TcpRepr<'static>)>,
>(
    timestamp: Instant,
    has_token: bool,
    meta: PacketMeta,
    ip: IpRepr,
    segment: &'f [u8],
    parse: R,
    process: P,
)
    ensures
        forall|interface: &mut Interface, set: &mut SocketSet<'_>, r: (bool, Option<Packet>)|
            #[trigger]
            call_ensures(
                Interface::process_tcp_ingress::<R, P>,
                (interface, timestamp, has_token, set, meta, ip, segment, parse, process),
                r,
            ) && set.wf() ==> {
                let before = set.snapshot();
                let after = final(set).snapshot();
                &&& !describes(ip, segment@) ==> r.0 && r.1 is None
                &&& describes(ip, segment@) && !has_token ==> !r.0 && r.1 is None
                &&& !describes(ip, segment@) || !has_token
                    ==> *final(interface) == *interface && after == before
                &&& describes(ip, segment@) && has_token ==> {
                    &&& r.0
                    &&& final(interface).inner.now == timestamp
                    &&& final(interface).inner.caps == interface.inner.caps
                    &&& exists|aged: Snapshot, parsed: wire::Result<TcpRepr<'f>>|
                        {
                            &&& #[trigger] is_aged(before, timestamp, aged)
                            &&& #[trigger] call_ensures(
                                parse,
                                (segment, &ip.spec_src_addr(), &ip.spec_dst_addr(), &interface.inner.caps.checksum),
                                parsed,
                            )
                            &&& parsed is Err ==> r.1 is None && after == aged
                            &&& parsed is Ok && is_found(
                                aged,
                                Arrival { meta, ip, tcp: parsed->Ok_0, now: timestamp },
                            ) ==> {
                                let a = Arrival { meta, ip, tcp: parsed->Ok_0, now: timestamp };
                                exists|handled: TcpIngressResult, now: Snapshot|
                                    {
                                        &&& #[trigger] is_offered(aged, a, segment@, handled, now)
                                        &&& handled == TcpIngressResult::Consumed
                                            ==> r.1 is None && after == now
                                        &&& handled == TcpIngressResult::NotHandled ==> {
                                            ||| is_quiet(now, a, after, r.1)
                                            ||| exists|
                                                socket: &mut tcp::Socket,
                                                reuse: Option<(&TimeWaitState, Option<u64>)>,
                                                reply: Option<(IpRepr, TcpRepr<'static>)>,
                                            |
                                                {
                                                    &&& #[trigger] call_ensures(
                                                        process,
                                                        (socket, &final(interface).inner, &ip, &parsed->Ok_0, reuse),
                                                        reply,
                                                    )
                                                    &&& is_taken(
                                                        now,
                                                        a,
                                                        *socket,
                                                        reuse,
                                                        reply,
                                                        *final(socket),
                                                        after,
                                                        r.1,
                                                    )
                                                }
                                        }
                                    }
                            }
                        }
                }
            },
{
    assert forall|interface: &mut Interface, set: &mut SocketSet<'_>, r: (bool, Option<Packet>)|
        #[trigger]
        call_ensures(
            Interface::process_tcp_ingress::<R, P>,
            (interface, timestamp, has_token, set, meta, ip, segment, parse, process),
            r,
        ) && set.wf() implies {
        let before = set.snapshot();
        let after = final(set).snapshot();
        &&& !describes(ip, segment@) ==> r.0 && r.1 is None
        &&& describes(ip, segment@) && !has_token ==> !r.0 && r.1 is None
        &&& !describes(ip, segment@) || !has_token ==> *final(interface) == *interface
            && after == before
        &&& describes(ip, segment@) && has_token ==> {
            &&& r.0
            &&& final(interface).inner.now == timestamp
            &&& final(interface).inner.caps == interface.inner.caps
            &&& exists|aged: Snapshot, parsed: wire::Result<TcpRepr<'f>>|
                {
                    &&& #[trigger] is_aged(before, timestamp, aged)
                    &&& #[trigger] call_ensures(
                        parse,
                        (segment, &ip.spec_src_addr(), &ip.spec_dst_addr(), &interface.inner.caps.checksum),
                        parsed,
                    )
                    &&& parsed is Err ==> r.1 is None && after == aged
                    &&& parsed is Ok && is_found(
                        aged,
                        Arrival { meta, ip, tcp: parsed->Ok_0, now: timestamp },
                    ) ==> {
                        let a = Arrival { meta, ip, tcp: parsed->Ok_0, now: timestamp };
                        exists|handled: TcpIngressResult, now: Snapshot|
                            {
                                &&& #[trigger] is_offered(aged, a, segment@, handled, now)
                                &&& handled == TcpIngressResult::Consumed ==> r.1 is None
                                    && after == now
                                &&& handled == TcpIngressResult::NotHandled ==> {
                                    ||| is_quiet(now, a, after, r.1)
                                    ||| exists|
                                        socket: &mut tcp::Socket,
                                        reuse: Option<(&TimeWaitState, Option<u64>)>,
                                        reply: Option<(IpRepr, TcpRepr<'static>)>,
                                    |
                                        {
                                            &&& #[trigger] call_ensures(
                                                process,
                                                (socket, &final(interface).inner, &ip, &parsed->Ok_0, reuse),
                                                reply,
                                            )
                                            &&& is_taken(
                                                now,
                                                a,
                                                *socket,
                                                reuse,
                                                reply,
                                                *final(socket),
                                                after,
                                                r.1,
                                            )
                                        }
                                }
                            }
                    }
                }
        }
    } by {
        let before = set.snapshot();
        let after = final(set).snapshot();
        if describes(ip, segment@) && has_token {
            let aged = before.aged(timestamp);
            set.protected_connections_are_finite();
            lemma_aged(before, timestamp);
            let parsed = choose|parsed: wire::Result<TcpRepr<'f>>|
                {
                    &&& #[trigger] call_ensures(
                        parse,
                        (segment, &ip.spec_src_addr(), &ip.spec_dst_addr(), &interface.inner.caps.checksum),
                        parsed,
                    )
                    &&& parsed is Err ==> r.1 is None && after == aged
                    &&& parsed is Ok ==> {
                        let arrival = arrived(final(interface).inner, meta, ip, parsed->Ok_0);
                        ||| arrival.left_to_itself(aged, segment@, after, r.1)
                        ||| exists|
                            socket: &mut tcp::Socket,
                            identity: Option<u64>,
                            reply: Option<(IpRepr, TcpRepr<'static>)>,
                        |
                            {
                                &&& #[trigger] call_ensures(
                                    process,
                                    (
                                        socket,
                                        &final(interface).inner,
                                        &ip,
                                        &parsed->Ok_0,
                                        arrival.passed_on(arrival.seen(aged, segment@), identity),
                                    ),
                                    reply,
                                )
                                &&& arrival.carried_out(
                                    aged,
                                    segment@,
                                    *socket,
                                    identity,
                                    reply,
                                    *final(socket),
                                    after,
                                    r.1,
                                )
                            }
                    }
                };
            let a = Arrival { meta, ip, tcp: parsed->Ok_0, now: timestamp };
            if parsed is Ok && is_found(aged, a) {
                assert(a == arrived(final(interface).inner, meta, ip, parsed->Ok_0));
                let now = a.seen(aged, segment@);
                assert(now.slots == aged.slots && now.protected == aged.protected);
                lemma_same_found(aged, now, a);
                if a.left_to_itself(aged, segment@, after, r.1) {
                    if offerable(aged, meta, ip, segment@, TcpIngressResult::Consumed)
                        && r.1 is None
                        && after == now {
                        lemma_offered(aged, a, segment@, TcpIngressResult::Consumed);
                    } else {
                        lemma_offered(aged, a, segment@, TcpIngressResult::NotHandled);
                        lemma_quiet(now, a, after, r.1);
                    }
                } else {
                    let (socket, identity, reply) = choose|
                        socket: &mut tcp::Socket,
                        identity: Option<u64>,
                        reply: Option<(IpRepr, TcpRepr<'static>)>,
                    |
                        {
                            &&& #[trigger] call_ensures(
                                process,
                                (socket, &final(interface).inner, &ip, &parsed->Ok_0, a.passed_on(now, identity)),
                                reply,
                            )
                            &&& a.carried_out(
                                aged,
                                segment@,
                                *socket,
                                identity,
                                reply,
                                *final(socket),
                                after,
                                r.1,
                            )
                        };
                    lemma_taken(now, a, *socket, identity, reply, *final(socket), after, r.1);
                    lemma_offered(aged, a, segment@, TcpIngressResult::NotHandled);
                }
            }
        }
    }
}

/// A segment from outside is dropped, put off, or admitted. Where it is admitted it is read and offered, and
/// takes its course or is handed back.
pub proof fn segments_from_outside_are_offered_or_handed_back<
    'f,
    R: FnOnce(&'f [u8], &IpAddress, &IpAddress, &ChecksumCapabilities) -> wire::Result<TcpRepr<'f>>,
    P: FnOnce(
        &mut tcp::Socket,
        &Context,
        &IpRepr,
        &TcpRepr<'_>,
        Option<(&TimeWaitState, Option<u64>)>,
    ) -> Option<(IpRepr, TcpRepr<'static>)>,
>(
    timestamp: Instant,
    has_token: bool,
    meta: PacketMeta,
    ip: IpRepr,
    segment: &'f [u8],
    parse: R,
    process: P,
)
    ensures
        forall|
            interface: &mut Interface,
            set: &mut SocketSet<'_>,
            r: Result<(bool, Option<Packet>), P>,
        |
            #[trigger]
            call_ensures(
                Interface::try_process_tcp_ingress::<R, P>,
                (interface, timestamp, has_token, set, meta, ip, segment, parse, process),
                r,
            ) && set.wf() ==> {
                let before = set.snapshot();
                let after = final(set).snapshot();
                &&& !describes(ip, segment@) ==> r is Ok && (r->Ok_0).0 && (r->Ok_0).1 is None
                &&& describes(ip, segment@) && !has_token ==> r is Ok && !(r->Ok_0).0
                    && (r->Ok_0).1 is None
                &&& !describes(ip, segment@) || !has_token
                    ==> *final(interface) == *interface && after == before
                &&& describes(ip, segment@) && has_token ==> {
                    &&& r is Ok ==> (r->Ok_0).0
                    &&& final(interface).inner.now == timestamp
                    &&& final(interface).inner.caps == interface.inner.caps
                    &&& exists|aged: Snapshot, parsed: wire::Result<TcpRepr<'f>>|
                        {
                            &&& #[trigger] is_aged(before, timestamp, aged)
                            &&& #[trigger] call_ensures(
                                parse,
                                (segment, &ip.spec_src_addr(), &ip.spec_dst_addr(), &interface.inner.caps.checksum),
                                parsed,
                            )
                            &&& parsed is Err ==> r is Ok && (r->Ok_0).1 is None && after == aged
                            &&& parsed is Ok ==> {
                                let a = Arrival { meta, ip, tcp: parsed->Ok_0, now: timestamp };
                                exists|handled: TcpIngressResult, now: Snapshot|
                                    {
                                        &&& #[trigger] is_offered(aged, a, segment@, handled, now)
                                        &&& handled == TcpIngressResult::Consumed ==> r is Ok
                                            && (r->Ok_0).1 is None && after == now
                                        &&& r is Err ==> !is_processable(aged, a)
                                            && r->Err_0 == process && after == now
                                        &&& r is Ok && !is_processable(aged, a)
                                            ==> (r->Ok_0).1 is None && after == now
                                        &&& r is Ok
                                            && handled == TcpIngressResult::NotHandled && is_processable(aged, a) ==> {
                                            ||| is_quiet(now, a, after, (r->Ok_0).1)
                                            ||| exists|
                                                socket: &mut tcp::Socket,
                                                reuse: Option<(&TimeWaitState, Option<u64>)>,
                                                reply: Option<(IpRepr, TcpRepr<'static>)>,
                                            |
                                                {
                                                    &&& #[trigger] call_ensures(
                                                        process,
                                                        (socket, &final(interface).inner, &ip, &parsed->Ok_0, reuse),
                                                        reply,
                                                    )
                                                    &&& is_taken(
                                                        now,
                                                        a,
                                                        *socket,
                                                        reuse,
                                                        reply,
                                                        *final(socket),
                                                        after,
                                                        (r->Ok_0).1,
                                                    )
                                                }
                                        }
                                    }
                            }
                        }
                }
            },
{
    assert forall|
        interface: &mut Interface,
        set: &mut SocketSet<'_>,
        r: Result<(bool, Option<Packet>), P>,
    |
        #[trigger]
        call_ensures(
            Interface::try_process_tcp_ingress::<R, P>,
            (interface, timestamp, has_token, set, meta, ip, segment, parse, process),
            r,
        ) && set.wf() implies {
        let before = set.snapshot();
        let after = final(set).snapshot();
        &&& !describes(ip, segment@) ==> r is Ok && (r->Ok_0).0 && (r->Ok_0).1 is None
        &&& describes(ip, segment@) && !has_token ==> r is Ok && !(r->Ok_0).0 && (r->Ok_0).1 is None
        &&& !describes(ip, segment@) || !has_token ==> *final(interface) == *interface
            && after == before
        &&& describes(ip, segment@) && has_token ==> {
            &&& r is Ok ==> (r->Ok_0).0
            &&& final(interface).inner.now == timestamp
            &&& final(interface).inner.caps == interface.inner.caps
            &&& exists|aged: Snapshot, parsed: wire::Result<TcpRepr<'f>>|
                {
                    &&& #[trigger] is_aged(before, timestamp, aged)
                    &&& #[trigger] call_ensures(
                        parse,
                        (segment, &ip.spec_src_addr(), &ip.spec_dst_addr(), &interface.inner.caps.checksum),
                        parsed,
                    )
                    &&& parsed is Err ==> r is Ok && (r->Ok_0).1 is None && after == aged
                    &&& parsed is Ok ==> {
                        let a = Arrival { meta, ip, tcp: parsed->Ok_0, now: timestamp };
                        exists|handled: TcpIngressResult, now: Snapshot|
                            {
                                &&& #[trigger] is_offered(aged, a, segment@, handled, now)
                                &&& handled == TcpIngressResult::Consumed ==> r is Ok
                                    && (r->Ok_0).1 is None && after == now
                                &&& r is Err ==> !is_processable(aged, a)
                                    && r->Err_0 == process && after == now
                                &&& r is Ok && !is_processable(aged, a)
                                    ==> (r->Ok_0).1 is None && after == now
                                &&& r is Ok && handled == TcpIngressResult::NotHandled
                                    && is_processable(aged, a) ==> {
                                    ||| is_quiet(now, a, after, (r->Ok_0).1)
                                    ||| exists|
                                        socket: &mut tcp::Socket,
                                        reuse: Option<(&TimeWaitState, Option<u64>)>,
                                        reply: Option<(IpRepr, TcpRepr<'static>)>,
                                    |
                                        {
                                            &&& #[trigger] call_ensures(
                                                process,
                                                (socket, &final(interface).inner, &ip, &parsed->Ok_0, reuse),
                                                reply,
                                            )
                                            &&& is_taken(
                                                now,
                                                a,
                                                *socket,
                                                reuse,
                                                reply,
                                                *final(socket),
                                                after,
                                                (r->Ok_0).1,
                                            )
                                        }
                                }
                            }
                    }
                }
        }
    } by {
        let before = set.snapshot();
        let after = final(set).snapshot();
        if describes(ip, segment@) && has_token {
            let aged = before.aged(timestamp);
            set.protected_connections_are_finite();
            lemma_aged(before, timestamp);
            let parsed = choose|parsed: wire::Result<TcpRepr<'f>>|
                {
                    &&& #[trigger] call_ensures(
                        parse,
                        (segment, &ip.spec_src_addr(), &ip.spec_dst_addr(), &interface.inner.caps.checksum),
                        parsed,
                    )
                    &&& parsed is Err ==> {
                        &&& r is Ok && (r->Ok_0).0 && (r->Ok_0).1 is None
                        &&& after == aged
                    }
                    &&& parsed is Ok && r is Err ==> arrived(
                        final(interface).inner,
                        meta,
                        ip,
                        parsed->Ok_0,
                    ).handed_back(aged, segment@, after) && r->Err_0 == process
                    &&& parsed is Ok && r is Ok ==> {
                        &&& !arrived(final(interface).inner, meta, ip, parsed->Ok_0).is_processable(
                            aged,
                        ) ==> (r->Ok_0).1 is None && after == arrived(
                            final(interface).inner,
                            meta,
                            ip,
                            parsed->Ok_0,
                        ).seen(aged, segment@)
                        &&& {
                            let arrival = arrived(final(interface).inner, meta, ip, parsed->Ok_0);
                            ||| arrival.left_to_itself(aged, segment@, after, (r->Ok_0).1)
                            ||| exists|
                                socket: &mut tcp::Socket,
                                identity: Option<u64>,
                                reply: Option<(IpRepr, TcpRepr<'static>)>,
                            |
                                {
                                    &&& #[trigger] call_ensures(
                                        process,
                                        (
                                            socket,
                                            &final(interface).inner,
                                            &ip,
                                            &parsed->Ok_0,
                                            arrival.passed_on(arrival.seen(aged, segment@), identity),
                                        ),
                                        reply,
                                    )
                                    &&& arrival.carried_out(
                                        aged,
                                        segment@,
                                        *socket,
                                        identity,
                                        reply,
                                        *final(socket),
                                        after,
                                        (r->Ok_0).1,
                                    )
                                }
                        }
                    }
                };
            let a = Arrival { meta, ip, tcp: parsed->Ok_0, now: timestamp };
            if parsed is Ok {
                assert(a == arrived(final(interface).inner, meta, ip, parsed->Ok_0));
                let now = a.seen(aged, segment@);
                assert(now.slots == aged.slots && now.protected == aged.protected);
                lemma_processable(aged, a);
                if r is Err {
                    lemma_offered(aged, a, segment@, TcpIngressResult::NotHandled);
                } else if is_processable(aged, a) {
                    lemma_same_found(aged, now, a);
                    if a.left_to_itself(aged, segment@, after, (r->Ok_0).1) {
                        if offerable(aged, meta, ip, segment@, TcpIngressResult::Consumed)
                            && (r->Ok_0).1 is None
                            && after == now {
                            lemma_offered(aged, a, segment@, TcpIngressResult::Consumed);
                        } else {
                            lemma_offered(aged, a, segment@, TcpIngressResult::NotHandled);
                            lemma_quiet(now, a, after, (r->Ok_0).1);
                        }
                    } else {
                        let (socket, identity, reply) = choose|
                            socket: &mut tcp::Socket,
                            identity: Option<u64>,
                            reply: Option<(IpRepr, TcpRepr<'static>)>,
                        |
                            {
                                &&& #[trigger] call_ensures(
                                    process,
                                    (socket, &final(interface).inner, &ip, &parsed->Ok_0, a.passed_on(now, identity)),
                                    reply,
                                )
                                &&& a.carried_out(
                                    aged,
                                    segment@,
                                    *socket,
                                    identity,
                                    reply,
                                    *final(socket),
                                    after,
                                    (r->Ok_0).1,
                                )
                            };
                        lemma_taken(
                            now,
                            a,
                            *socket,
                            identity,
                            reply,
                            *final(socket),
                            after,
                            (r->Ok_0).1,
                        );
                        lemma_offered(aged, a, segment@, TcpIngressResult::NotHandled);
                    }
                } else if offerable(aged, meta, ip, segment@, TcpIngressResult::Consumed) {
                    lemma_offered(aged, a, segment@, TcpIngressResult::Consumed);
                } else {
                    lemma_offered(aged, a, segment@, TcpIngressResult::NotHandled);
                }
            }
        }
    }
}

} // verus!
