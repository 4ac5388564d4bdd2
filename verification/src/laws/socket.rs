//! Laws of single TCP sockets.
use crate::laws::numbers::steps;
use crate::phy::PacketMeta;
use crate::socket::tcp::congestion::no_control::NoControl;
use crate::socket::tcp::congestion::Controller;
use crate::socket::tcp::time_wait::TimeWaitState;
use crate::socket::tcp::{Notice, Socket, SocketBuffer, State};
use crate::time::Instant;
use crate::wire::ip::{IpEndpoint, IpProtocol, IpRepr};
use crate::wire::tcp::{TcpControl, TcpRepr};
use vstd::arithmetic::power2::{lemma_pow2_pos, pow2};
use vstd::prelude::*;

verus! {

/// A socket is open in every state but closed and TIME-WAIT, and listens in one.
pub proof fn open_sockets(socket: &Socket, state: State, is_open: bool, listening: bool)
    requires
        call_ensures(Socket::state, (socket,), state),
        call_ensures(Socket::is_open, (socket,), is_open),
        call_ensures(Socket::is_listening, (socket,), listening),
    ensures
        state == socket.state,
        !is_open <==> socket.state == State::Closed || socket.state == State::TimeWait,
        listening <==> socket.state == State::Listen,
{
}

/// The endpoints of a socket are those of its connection.
pub proof fn endpoints_are_those_of_the_connection(
    socket: &Socket,
    local: Option<IpEndpoint>,
    remote: Option<IpEndpoint>,
)
    requires
        call_ensures(Socket::local_endpoint, (socket,), local),
        call_ensures(Socket::remote_endpoint, (socket,), remote),
    ensures
        socket.tuple is None ==> local is None && remote is None,
        socket.tuple matches Some(tuple) ==> local == Some(tuple.local) && remote == Some(
            tuple.remote,
        ),
{
}

/// The segment comes from and goes to these endpoints.
pub open spec fn runs_between(
    ip: IpRepr,
    tcp: TcpRepr<'_>,
    local: IpEndpoint,
    remote: IpEndpoint,
) -> bool {
    &&& ip.spec_dst_addr() == local.addr
    &&& tcp.dst_port == local.port
    &&& ip.spec_src_addr() == remote.addr
    &&& tcp.src_port == remote.port
}

/// The segment is meant for the socket. With a connection: it runs between its endpoints. Without
/// one: it goes to the port that the socket listens on, at its address where it names one, and a
/// listener takes no acknowledgement. A closed socket takes nothing.
pub open spec fn is_meant_for(ip: IpRepr, tcp: TcpRepr<'_>, socket: Socket) -> bool {
    &&& socket.state != State::Closed
    &&& socket.state == State::Listen ==> tcp.ack_number is None
    &&& if socket.tuple is Some {
        runs_between(ip, tcp, socket.tuple->0.local, socket.tuple->0.remote)
    } else {
        &&& tcp.dst_port != 0
        &&& tcp.dst_port == socket.listen_endpoint.port
        &&& socket.listen_endpoint.addr is None || socket.listen_endpoint.addr->0
            == ip.spec_dst_addr()
    }
}

/// A socket accepts exactly the segments that are meant for it.
pub proof fn sockets_accept_what_is_meant_for_them(
    socket: &Socket,
    ip: &IpRepr,
    tcp: &TcpRepr<'_>,
    r: bool,
)
    requires
        call_ensures(Socket::accepts, (socket, ip, tcp), r),
    ensures
        r <==> is_meant_for(*ip, *tcp, *socket),
{
}

/// The device that the socket is bound to: that for listening while it listens, and that of its
/// connection otherwise.
pub open spec fn bound_to(socket: Socket) -> u32 {
    if socket.state == State::Listen {
        socket.listen_bound_device
    } else {
        socket.connection_bound_device
    }
}

/// A socket that is bound to a device takes packets of that device only, and its packets are bound to
/// it. Device zero is none.
pub proof fn bound_sockets_keep_to_their_device(
    socket: &Socket,
    meta: PacketMeta,
    takes: bool,
    egress: PacketMeta,
    lifecycle: u32,
    bound: u32,
)
    requires
        call_ensures(Socket::accepts_ingress, (socket, meta), takes),
        call_ensures(Socket::egress_meta, (socket,), egress),
        call_ensures(Socket::lifecycle_device, (socket,), lifecycle),
        call_ensures(Socket::bound_device, (socket,), bound),
    ensures
        takes <==> bound_to(*socket) == 0 || bound_to(*socket) == meta.id,
        egress.id == bound_to(*socket),
        bound == bound_to(*socket),
        lifecycle == socket.connection_bound_device,
{
}

/// An acknowledgement is owed where the last one that was sent lies behind all that was received.
pub proof fn acknowledgements_are_owed(socket: &Socket, r: bool)
    requires
        call_ensures(Socket::ack_to_transmit, (socket,), r),
    ensures
        r <==> socket.remote_last_ack is Some && steps(
            socket.remote_seq_no.0 + socket.rx_buffer@.len(),
            (socket.remote_last_ack->0).0 as int,
        ) >= 0x8000_0000,
{
}

/// The window that is announced is the free space, scaled down, or the largest that the header can
/// state.
pub proof fn announced_window_is_the_free_space(socket: &Socket, r: u16)
    requires
        call_ensures(Socket::scaled_window, (socket,), r),
        socket.rx_buffer@.len() <= socket.rx_buffer.spec_capacity(),
    ensures
        ({
            let free = socket.rx_buffer.spec_capacity() - socket.rx_buffer@.len();
            let unit = pow2(socket.remote_win_shift as nat);
            &&& r * unit <= free
            &&& r < u16::MAX ==> free < (r + 1) * unit
        }),
{
    let free = socket.rx_buffer.spec_capacity() - socket.rx_buffer@.len();
    let unit = pow2(socket.remote_win_shift as nat) as int;
    lemma_pow2_pos(socket.remote_win_shift as nat);
    vstd::arithmetic::div_mod::lemma_fundamental_div_mod(free, unit);
    let q = free / unit;
    assert(q * unit == unit * q) by (nonlinear_arith);
    assert((q + 1) * unit == unit * q + unit) by (nonlinear_arith);
    assert(q >= 0) by {
        vstd::arithmetic::div_mod::lemma_div_pos_is_pos(free, unit);
    }
    if q > u16::MAX {
        assert(u16::MAX as int * unit <= q * unit) by (nonlinear_arith)
            requires
                u16::MAX as int <= q,
                unit > 0,
        ;
    }
}

/// A queue starts empty with the capacity of its storage, or with what it is given, and counts what
/// it holds and what may still come.
pub proof fn queues_count_their_octets(
    storage: Vec<u8>,
    fresh: SocketBuffer,
    capacity: usize,
    queue: Vec<u8>,
    filled: SocketBuffer,
    len: usize,
    window: usize,
    r: &[u8],
)
    requires
        call_ensures(SocketBuffer::new, (storage,), fresh),
        call_ensures(SocketBuffer::holding, (capacity, queue), filled),
        call_ensures(SocketBuffer::len, (&filled,), len),
        call_ensures(SocketBuffer::window, (&filled,), window),
        call_ensures(SocketBuffer::as_slice, (&filled,), r),
    ensures
        fresh@.len() == 0,
        fresh.spec_capacity() == storage@.len(),
        r@ == queue@,
        len == queue@.len(),
        len + window == capacity,
{
}

/// Timestamps are configured or in use where a clock is.
pub proof fn timestamps_need_a_clock(socket: &Socket, configured: bool, enabled: bool)
    requires
        call_ensures(Socket::timestamp_configured, (socket,), configured),
        call_ensures(Socket::timestamp_enabled, (socket,), enabled),
    ensures
        configured <==> socket.configured_tsval_generator is Some,
        enabled <==> socket.tsval_generator is Some,
{
}

/// Two sockets are the same but for their state, their connection and what is recorded of
/// TIME-WAIT.
pub open spec fn same_otherwise(a: Socket, b: Socket) -> bool {
    &&& a.listen_endpoint == b.listen_endpoint
    &&& a.local_seq_no == b.local_seq_no
    &&& a.remote_seq_no == b.remote_seq_no
    &&& a.remote_last_ack == b.remote_last_ack
    &&& a.remote_win_shift == b.remote_win_shift
    &&& a.rx_buffer == b.rx_buffer
    &&& a.hop_limit == b.hop_limit
    &&& a.time_wait_duration == b.time_wait_duration
    &&& a.ts_recent == b.ts_recent
    &&& a.configured_tsval_generator == b.configured_tsval_generator
    &&& a.tsval_generator == b.tsval_generator
    &&& a.lifecycle_observer == b.lifecycle_observer
    &&& a.connection_bound_device == b.connection_bound_device
    &&& a.listen_bound_device == b.listen_bound_device
}

/// Ending a connection closes the socket and forgets its endpoints; what was received can still be
/// read. An observer learns of it, once, with the endpoints and the device that the connection had.
pub(crate) proof fn ending_a_connection_closes_the_socket()
    ensures
        forall|socket: &mut Socket, log: &mut Ghost<Seq<Notice>>| #[trigger]
            call_ensures(Socket::retire_time_wait, (socket, log), ()) ==> {
                &&& is_ended(*socket, *final(socket))
                &&& socket.lifecycle_observer is None ==> final(log)@ == log@
                &&& socket.lifecycle_observer is Some ==> final(log)@.len() == log@.len() + 1
                    && final(log)@.drop_last() == log@ && tells_of_the_end(
                    final(log)@.last(),
                    *socket,
                )
            },
{
    assert forall|socket: &mut Socket, log: &mut Ghost<Seq<Notice>>| #[trigger]
        call_ensures(Socket::retire_time_wait, (socket, log), ()) implies {
        &&& is_ended(*socket, *final(socket))
        &&& socket.lifecycle_observer is None ==> final(log)@ == log@
        &&& socket.lifecycle_observer is Some ==> final(log)@.len() == log@.len() + 1
            && final(log)@.drop_last() == log@ && tells_of_the_end(final(log)@.last(), *socket)
    } by {
        if socket.lifecycle_observer is Some {
            assert(socket.closing_notices()[0].was_heard());
            assert(final(log)@.drop_last() =~= log@);
        } else {
            assert(final(log)@ =~= log@);
        }
    }
}

/// The socket is closed and has no connection; all else is as it was.
pub open spec fn is_ended(before: Socket, after: Socket) -> bool {
    &&& after.state == State::Closed
    &&& after.tuple is None
    &&& after.time_wait is None
    &&& same_otherwise(after, before)
}

/// The notice tells the observer of the socket that its connection is over, and was heard.
pub open spec fn tells_of_the_end(notice: Notice, socket: Socket) -> bool {
    &&& notice.observer == socket.lifecycle_observer
    &&& notice.state == State::Closed
    &&& notice.device == socket.connection_bound_device
    &&& socket.tuple matches Some(tuple) ==> notice.local == Some(tuple.local) && notice.remote
        == Some(tuple.remote)
    &&& socket.tuple is None ==> notice.local is None && notice.remote is None
    &&& notice.was_heard()
}

/// The TIME-WAIT state of a socket is recorded where it is not yet, and kept where it is.
pub proof fn time_wait_is_recorded_once(now: Instant)
    ensures
        forall|socket: &mut Socket| #[trigger]
            call_ensures(Socket::ensure_time_wait, (socket, now), ()) ==> {
                &&& final(socket).time_wait is Some
                &&& socket.time_wait is Some ==> *final(socket) == *socket
                &&& same_otherwise(*final(socket), *socket)
                &&& final(socket).state == socket.state
                &&& final(socket).tuple == socket.tuple
                &&& socket.time_wait is None ==> forall|left: TimeWaitState| #[trigger]
                    call_ensures(TimeWaitState::from_socket, (&*socket, now), left)
                        ==> final(socket).time_wait == Some(left)
            },
{
}

/// The reset that answers a segment goes back where it came from. It takes up the acknowledgement of
/// the segment; where there is none it starts at zero, and acknowledges a SYN with all that it takes.
pub proof fn resets_go_back(ip: &IpRepr, tcp: &TcpRepr<'_>, r: (IpRepr, TcpRepr<'static>))
    requires
        call_ensures(Socket::rst_reply, (ip, tcp), r),
    ensures
        is_reset_of(*ip, *tcp, r.0, r.1),
{
}

/// The reset answers the segment.
pub open spec fn is_reset_of(
    ip: IpRepr,
    tcp: TcpRepr<'_>,
    ip_reset: IpRepr,
    reset: TcpRepr<'static>,
) -> bool {
    &&& ip_reset.spec_src_addr() == ip.spec_dst_addr()
    &&& ip_reset.spec_dst_addr() == ip.spec_src_addr()
    &&& ip_reset.spec_next_header() == IpProtocol::Tcp
    &&& ip_reset.spec_payload_len() == 20
    &&& ip_reset matches IpRepr::Ipv4(repr) ==> repr.hop_limit == 64
    &&& ip_reset matches IpRepr::Ipv6(repr) ==> repr.hop_limit == 64
    &&& reset.src_port == tcp.dst_port
    &&& reset.dst_port == tcp.src_port
    &&& reset.control == TcpControl::Rst
    &&& tcp.ack_number matches Some(ack) ==> reset.seq_number == ack && reset.ack_number is None
    &&& tcp.ack_number is None ==> reset.seq_number.0 == 0
    &&& tcp.ack_number is None && tcp.control == TcpControl::Syn ==> reset.ack_number is Some
        && steps(tcp.seq_number.0 as int, (reset.ack_number->0).0 as int) == (tcp.payload@.len() + 1)
        % 0x1_0000_0000
    &&& tcp.ack_number is None && tcp.control != TcpControl::Syn ==> reset.ack_number is None
    &&& reset.window_len == 0
    &&& reset.window_scale is None
    &&& reset.max_seg_size is None
    &&& !reset.sack_permitted
    &&& reset.sack_ranges@[0] is None && reset.sack_ranges@[1] is None && reset.sack_ranges@[2]
        is None
    &&& reset.timestamp is None
    &&& reset.payload@.len() == 0
}

/// A connection may be opened where no one watches; where someone does, they are asked about these
/// endpoints, the device of the socket and whom they replace, and their answer counts.
pub proof fn observers_decide_on_opening(
    socket: &Socket,
    local: IpEndpoint,
    remote: IpEndpoint,
    replaced: Option<u64>,
    r: bool,
)
    requires
        call_ensures(Socket::prepare_open, (socket, local, remote, replaced), r),
    ensures
        socket.lifecycle_observer is None ==> r,
        socket.lifecycle_observer matches Some(observer) ==> observer.may_answer(
            local,
            remote,
            socket.connection_bound_device,
            replaced,
            r,
        ),
{
}

/// A controller that holds nothing back leaves the window and the threshold open, and has no
/// congestion window.
pub proof fn no_control_holds_nothing_back(
    controller: &NoControl,
    window: usize,
    cwnd: usize,
    ssthresh: usize,
)
    requires
        call_ensures(<NoControl as Controller>::window, (controller,), window),
        call_ensures(<NoControl as Controller>::cwnd, (controller,), cwnd),
        call_ensures(<NoControl as Controller>::ssthresh, (controller,), ssthresh),
    ensures
        window == usize::MAX,
        cwnd == 0,
        ssthresh == usize::MAX,
{
}

/// A new socket is closed, has no connection, listens nowhere, and waits ten seconds in TIME-WAIT.
pub proof fn new_sockets_are_closed(rx_buffer: SocketBuffer, r: Socket)
    requires
        call_ensures(Socket::new, (rx_buffer,), r),
    ensures
        r.state == State::Closed,
        r.tuple is None,
        r.listen_endpoint.addr is None,
        r.listen_endpoint.port == 0,
        r.local_seq_no.0 == 0,
        r.remote_seq_no.0 == 0,
        r.remote_last_ack is None,
        r.remote_win_shift == 0,
        r.hop_limit is None,
        r.rx_buffer == rx_buffer,
        r.time_wait_duration.micros == 10 * 1_000_000,
        r.lifecycle_observer is None,
        r.connection_bound_device == 0,
        r.listen_bound_device == 0,
        r.time_wait is None,
        r.tsval_generator is None,
        r.configured_tsval_generator is None,
        r.ts_recent is None,
{
}

} // verus!
