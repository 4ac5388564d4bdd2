use smoltcp::iface::interface::{Context, InterfaceInner};
use smoltcp::iface::socket_set::{SocketHandle, SocketSet};
use smoltcp::phy::{DeviceCapabilities, PacketMeta};
use smoltcp::socket::tcp::time_wait::TimeWaitState;
use smoltcp::socket::tcp::{
    ConnectError, LifecycleObserver, Socket, SocketBuffer, State, TcpTimestampGenerator,
    TimeWaitReuse, Tuple,
};
use smoltcp::socket::{udp, Socket as AnyKind};
use smoltcp::time::{Duration, Instant};
use smoltcp::wire::ip::{
    IpAddress, IpEndpoint, IpListenEndpoint, IpProtocol, IpRepr, Ipv6Address,
};
use smoltcp::wire::tcp::{TcpControl, TcpRepr, TcpSeqNumber, TcpTimestampRepr};
use std::sync::atomic::{AtomicUsize, Ordering};
use std::sync::{Arc, Mutex};

struct Clock;

impl TcpTimestampGenerator for Clock {
    fn tsval(&self) -> u32 {
        5000
    }
}

fn clock() -> Option<Arc<dyn TcpTimestampGenerator>> {
    Some(Arc::new(Clock))
}

/// Accepts a connection on a listener, whose observer has to agree.
fn process(
    socket: &mut Socket,
    cx: &Context,
    ip: &IpRepr,
    tcp: &TcpRepr<'_>,
    reuse: Option<(&TimeWaitState, Option<u64>)>,
) -> Option<(IpRepr, TcpRepr<'static>)> {
    if socket.state != State::Listen || tcp.control != TcpControl::Syn {
        return None;
    }
    let local = IpEndpoint::new(ip.dst_addr(), tcp.dst_port);
    let remote = IpEndpoint::new(ip.src_addr(), tcp.src_port);
    if !socket.prepare_open(local, remote, reuse.and_then(|(_, identity)| identity)) {
        return None;
    }
    socket.tuple = Some(Tuple { local, remote });
    socket.connection_bound_device = socket.listen_bound_device;
    socket.local_seq_no = reuse.map_or(TcpSeqNumber(7), |(state, _)| state.new_isn());
    socket.remote_seq_no = tcp.seq_number + 1;
    match (&socket.tsval_generator, tcp.timestamp) {
        (Some(_), Some(ts)) => socket.ts_recent = Some((ts.tsval, cx.now())),
        _ => socket.tsval_generator = None,
    }
    socket.state = State::SynReceived;
    None
}

/// Starts an outgoing connection.
fn start(
    socket: &mut Socket,
    _: &Context,
    local: IpEndpoint,
    remote: IpEndpoint,
    reuse: Option<&TimeWaitState>,
) {
    socket.tuple = Some(Tuple { local, remote });
    socket.tsval_generator = socket.configured_tsval_generator.clone();
    socket.ts_recent = None;
    socket.local_seq_no = reuse.map_or(TcpSeqNumber(7), |state| state.new_isn());
    socket.state = State::SynSent;
}

fn endpoints() -> (IpEndpoint, IpEndpoint) {
    (
        IpEndpoint::new(IpAddress::v4(127, 0, 0, 1), 80),
        IpEndpoint::new(IpAddress::v4(127, 0, 0, 1), 40000),
    )
}

fn empty() -> Socket {
    Socket::new(SocketBuffer::new(vec![0; 64]))
}

fn with_clock() -> Socket {
    let mut s = empty();
    s.configured_tsval_generator = clock();
    s.tsval_generator = clock();
    s
}

fn past() -> Socket {
    let (local, remote) = endpoints();
    let mut s = with_clock();
    s.state = State::TimeWait;
    s.tuple = Some(Tuple { local, remote });
    s.local_seq_no = TcpSeqNumber(1000);
    s.remote_seq_no = TcpSeqNumber(2000);
    s.remote_last_ack = Some(s.remote_seq_no);
    s.time_wait_duration = Duration::from_secs(60);
    s.ts_recent = Some((3000, Instant::from_secs(1)));
    s.ensure_time_wait(Instant::from_secs(1));
    s
}

fn syn(seq: i32, ts: u32) -> TcpRepr<'static> {
    let (local, remote) = endpoints();
    TcpRepr {
        src_port: remote.port,
        dst_port: local.port,
        control: TcpControl::Syn,
        seq_number: TcpSeqNumber(seq),
        ack_number: None,
        window_len: 1000,
        window_scale: None,
        max_seg_size: Some(1460),
        sack_permitted: false,
        sack_ranges: [None; 3],
        timestamp: Some(TcpTimestampRepr {
            tsval: ts,
            tsecr: 0,
        }),
        payload: &[],
    }
}

fn ip() -> IpRepr {
    let (l, r) = endpoints();
    IpRepr::new(r.addr, l.addr, IpProtocol::Tcp, 40, 64)
}

fn listening_on(endpoint: IpEndpoint) -> Socket {
    let mut s = empty();
    s.state = State::Listen;
    s.listen_endpoint = IpListenEndpoint {
        addr: Some(endpoint.addr),
        port: endpoint.port,
    };
    s
}

fn listener() -> Socket {
    listening_on(endpoints().0)
}

fn context() -> Context {
    InterfaceInner {
        now: Instant::from_secs(0),
        caps: DeviceCapabilities::default(),
    }
}

#[test]
fn compact_and_attached_reopen_ignore_slot_order() {
    for compact in [false, true] {
        for listener_first in [false, true] {
            let mut sockets = SocketSet::new(vec![]);
            let (old_handle, listen_handle) = if listener_first {
                let l = sockets.add(listener());
                (sockets.add(past()), l)
            } else {
                let o = sockets.add(past());
                (o, sockets.add(listener()))
            };
            if compact {
                assert!(sockets.detach_tcp_time_wait(old_handle));
            }
            let mut cx = context();
            cx.set_now(Instant::from_secs(2));
            assert!(sockets
                .process_tcp_sockets(
                    &cx,
                    PacketMeta::default(),
                    &ip(),
                    &syn(2100, 3001),
                    process
                )
                .is_some());
            let l = sockets.get::<Socket>(listen_handle);
            assert_eq!(l.state(), State::SynReceived);
            assert_eq!(l.local_seq_no, TcpSeqNumber(66537));
            assert!(!sockets.has_tcp_time_wait());
            if !compact {
                assert_eq!(sockets.get::<Socket>(old_handle).state(), State::Closed);
            }
        }
    }
}

#[test]
fn missing_or_invalid_listener_preserves_protection() {
    for invalid_mss in [false, true] {
        let mut sockets = SocketSet::new(vec![]);
        let h = sockets.add(past());
        assert!(sockets.detach_tcp_time_wait(h));
        if invalid_mss {
            sockets.add(listener());
        }
        let mut cx = context();
        cx.set_now(Instant::from_secs(2));
        let mut request = syn(2100, 3001);
        if invalid_mss {
            request.max_seg_size = Some(0);
        }
        assert!(sockets
            .process_tcp_sockets(&cx, PacketMeta::default(), &ip(), &request, process)
            .unwrap()
            .is_some());
        assert!(sockets.has_tcp_time_wait());
    }
}

#[test]
fn stale_syn_never_reaches_listener() {
    let mut sockets = SocketSet::new(vec![]);
    let l = sockets.add(listener());
    let h = sockets.add(past());
    assert!(sockets.detach_tcp_time_wait(h));
    let mut cx = context();
    cx.set_now(Instant::from_secs(2));
    sockets.process_tcp_sockets(
        &cx,
        PacketMeta::default(),
        &ip(),
        &syn(2100, 2999),
        process,
    );
    assert_eq!(sockets.get::<Socket>(l).state(), State::Listen);
    assert!(sockets.has_tcp_time_wait());
}

struct Observer {
    closed: Arc<AtomicUsize>,
    reject: bool,
}

impl LifecycleObserver for Observer {
    fn identity(&self) -> u64 {
        9
    }

    fn prepare_open(&self, _: IpEndpoint, _: IpEndpoint, _: u32, _: Option<u64>) -> bool {
        !self.reject
    }

    fn on_state_change(
        &self,
        state: State,
        _: Option<IpEndpoint>,
        _: Option<IpEndpoint>,
        _: u32,
    ) {
        if state == State::Closed {
            self.closed.fetch_add(1, Ordering::Relaxed);
        }
    }
}

#[test]
fn expiry_releases_observer_once_and_deadline_refresh_is_bounded() {
    let count = Arc::new(AtomicUsize::new(0));
    let mut s = past();
    s.lifecycle_observer = Some(Arc::new(Observer {
        closed: count.clone(),
        reject: false,
    }));
    let mut sockets = SocketSet::new(vec![]);
    let h = sockets.add(s);
    assert!(sockets.detach_tcp_time_wait(h));
    let mut cx = context();
    let mut ack = syn(2000, 3001);
    ack.control = TcpControl::Plain;
    ack.ack_number = Some(TcpSeqNumber(1000));
    for sec in 2..100 {
        cx.set_now(Instant::from_secs(sec));
        sockets.process_tcp_sockets(&cx, PacketMeta::default(), &ip(), &ack, process);
    }
    assert_eq!(
        sockets.tcp_time_wait_poll_at(),
        Some(Instant::from_secs(159))
    );
    sockets.expire_tcp_time_wait(Instant::from_secs(158));
    assert!(sockets.has_tcp_time_wait());
    sockets.expire_tcp_time_wait(Instant::from_secs(159));
    assert!(!sockets.has_tcp_time_wait());
    sockets.expire_tcp_time_wait(Instant::from_secs(200));
    assert_eq!(count.load(Ordering::Relaxed), 1);
}

#[test]
fn active_failure_preserves_both_sockets_then_explicit_reuse_succeeds() {
    let mut sockets = SocketSet::new(vec![]);
    let h = sockets.add(past());
    assert!(sockets.detach_tcp_time_wait(h));
    let n = sockets.add(with_clock());
    let (local, remote) = endpoints();
    let mut cx = context();
    cx.set_now(Instant::from_millis(1500));
    assert_eq!(
        sockets.connect_tcp(
            n,
            &cx,
            remote,
            local,
            TimeWaitReuse::Automatic { loopback: true },
            start
        ),
        Err(ConnectError::AddressInUse)
    );
    assert_eq!(sockets.get::<Socket>(n).state(), State::Closed);
    assert!(sockets.has_tcp_time_wait());
    sockets
        .connect_tcp(n, &cx, remote, local, TimeWaitReuse::Explicit, start)
        .unwrap();
    assert_eq!(sockets.get::<Socket>(n).local_seq_no, TcpSeqNumber(66537));
    assert!(!sockets.has_tcp_time_wait());
}

#[test]
fn rejected_observer_keeps_time_wait() {
    let mut sockets = SocketSet::new(vec![]);
    let h = sockets.add(past());
    assert!(sockets.detach_tcp_time_wait(h));
    let mut l = listener();
    l.lifecycle_observer = Some(Arc::new(Observer {
        closed: Arc::new(AtomicUsize::new(0)),
        reject: true,
    }));
    let l = sockets.add(l);
    let mut cx = context();
    cx.set_now(Instant::from_secs(2));
    sockets.process_tcp_sockets(
        &cx,
        PacketMeta::default(),
        &ip(),
        &syn(2100, 3001),
        process,
    );
    assert_eq!(sockets.get::<Socket>(l).state(), State::Listen);
    assert!(sockets.has_tcp_time_wait());
}

#[test]
fn device_isolation_and_wildcard_overlap() {
    let mut sockets = SocketSet::new(vec![]);
    for device in [2, 3] {
        let mut s = past();
        s.connection_bound_device = device;
        s.time_wait = None;
        s.ensure_time_wait(Instant::from_secs(1));
        let h = sockets.add(s);
        assert!(sockets.detach_tcp_time_wait(h));
    }
    let n = sockets.add(with_clock());
    let (local, remote) = endpoints();
    let mut cx = context();
    cx.set_now(Instant::from_secs(2));
    // An unbound identity overlaps both records and cannot replace just one.
    assert_eq!(
        sockets.connect_tcp(n, &cx, remote, local, TimeWaitReuse::Explicit, start),
        Err(ConnectError::AddressInUse)
    );
    let mut l = listener();
    l.listen_bound_device = 3;
    let l = sockets.add(l);
    sockets.process_tcp_sockets(
        &cx,
        PacketMeta { id: 2 },
        &ip(),
        &syn(2100, 3001),
        process,
    );
    assert_eq!(sockets.get::<Socket>(l).state(), State::Listen);
    sockets.process_tcp_sockets(
        &cx,
        PacketMeta { id: 3 },
        &ip(),
        &syn(2100, 3001),
        process,
    );
    assert_eq!(sockets.get::<Socket>(l).state(), State::SynReceived);
    assert!(sockets.has_tcp_time_wait()); // device 2 remains protected
}

#[test]
fn ipv6_compact_reopen_preserves_family() {
    let local = IpEndpoint::new(Ipv6Address::new(0, 0, 0, 0, 0, 0, 0, 1).into(), 80);
    let remote = IpEndpoint::new(local.addr, 40000);
    let mut s = past();
    s.tuple = Some(Tuple { local, remote });
    s.time_wait = None;
    s.ensure_time_wait(Instant::from_secs(1));
    let mut sockets = SocketSet::new(vec![]);
    let h = sockets.add(s);
    assert!(sockets.detach_tcp_time_wait(h));
    let l = sockets.add(listening_on(local));
    let mut cx = context();
    cx.set_now(Instant::from_secs(2));
    let packet = IpRepr::new(remote.addr, local.addr, IpProtocol::Tcp, 40, 64);
    sockets.process_tcp_sockets(
        &cx,
        PacketMeta::default(),
        &packet,
        &syn(2100, 3001),
        process,
    );
    assert_eq!(sockets.get::<Socket>(l).local_endpoint(), Some(local));
    assert_eq!(sockets.get::<Socket>(l).remote_endpoint(), Some(remote));
    assert_eq!(sockets.get::<Socket>(l).state(), State::SynReceived);
    assert!(!sockets.has_tcp_time_wait());
}

#[test]
fn timestamp_only_reopen_requires_new_listener_timestamp_support() {
    for compact in [false, true] {
        for timestamps in [false, true] {
            for newer_sequence in [false, true] {
                let mut sockets = SocketSet::new(vec![]);
                let h = sockets.add(past());
                if compact {
                    assert!(sockets.detach_tcp_time_wait(h));
                }
                let mut l = listener();
                if timestamps {
                    l.configured_tsval_generator = clock();
                    l.tsval_generator = clock();
                }
                let l = sockets.add(l);
                let mut cx = context();
                cx.set_now(Instant::from_secs(2));
                let seq = if newer_sequence { 2100 } else { 1999 };
                let result = sockets.process_tcp_sockets(
                    &cx,
                    PacketMeta::default(),
                    &ip(),
                    &syn(seq, 3001),
                    process,
                );
                if timestamps || newer_sequence {
                    assert_eq!(sockets.get::<Socket>(l).state(), State::SynReceived);
                    assert!(!sockets.has_tcp_time_wait());
                    if !compact {
                        assert_eq!(sockets.get::<Socket>(h).state(), State::Closed);
                    }
                    if timestamps {
                        assert_eq!(
                            sockets.get::<Socket>(l).ts_recent.map(|t| t.0),
                            Some(3001)
                        );
                    }
                } else {
                    assert_eq!(sockets.get::<Socket>(l).state(), State::Listen);
                    assert!(result.unwrap().is_some(), "old TW must ACK unsafe reopen");
                    if compact {
                        assert!(sockets.has_tcp_time_wait());
                    } else {
                        assert_eq!(sockets.get::<Socket>(h).state(), State::TimeWait);
                    }
                }
            }
        }
    }
}

#[test]
fn active_reuse_checks_timestamp_configuration_before_reset() {
    let mut sockets = SocketSet::new(vec![]);
    let h = sockets.add(past());
    assert!(sockets.detach_tcp_time_wait(h));
    let mut new = with_clock();
    // A previous peer declined timestamps; a fresh connect renegotiates.
    new.tsval_generator = None;
    let n = sockets.add(new);
    let (local, remote) = endpoints();
    let mut cx = context();
    cx.set_now(Instant::from_secs(2));
    sockets
        .connect_tcp(n, &cx, remote, local, TimeWaitReuse::Explicit, start)
        .unwrap();
    assert!(sockets.get::<Socket>(n).timestamp_enabled());
    assert!(!sockets.has_tcp_time_wait());
}

fn connect(
    sockets: &mut SocketSet<'_>,
    handle: SocketHandle,
    now: Instant,
    remote: IpEndpoint,
    local: IpEndpoint,
) -> Result<(), ConnectError> {
    let mut cx = context();
    cx.set_now(now);
    sockets.connect_tcp(handle, &cx, remote, local, TimeWaitReuse::Explicit, start)
}

#[test]
fn open_socket_is_not_connected_again() {
    let mut sockets = SocketSet::new(vec![]);
    let l = sockets.add(listener());
    let (local, remote) = endpoints();
    assert_eq!(
        connect(&mut sockets, l, Instant::from_secs(2), remote, local),
        Err(ConnectError::InvalidState)
    );
    assert_eq!(sockets.get::<Socket>(l).state(), State::Listen);
}

#[test]
fn endpoints_without_port_or_address_or_of_two_versions_are_unaddressable() {
    let mut sockets = SocketSet::new(vec![]);
    let n = sockets.add(empty());
    let (local, remote) = endpoints();
    let now = Instant::from_secs(2);
    let portless = IpEndpoint::new(local.addr, 0);
    let nowhere = IpEndpoint::new(IpAddress::v4(0, 0, 0, 0), 80);
    let other = IpEndpoint::new(Ipv6Address::new(0, 0, 0, 0, 0, 0, 0, 1).into(), 80);
    for (remote, local) in [
        (remote, portless),
        (portless, local),
        (remote, nowhere),
        (nowhere, local),
        (remote, other),
    ] {
        assert_eq!(
            connect(&mut sockets, n, now, remote, local),
            Err(ConnectError::Unaddressable)
        );
    }
    assert_eq!(connect(&mut sockets, n, now, remote, local), Ok(()));
    let socket = sockets.get::<Socket>(n);
    assert_eq!(socket.state(), State::SynSent);
    assert_eq!(socket.local_endpoint(), Some(local));
    assert_eq!(socket.remote_endpoint(), Some(remote));
    assert_eq!(socket.local_seq_no, TcpSeqNumber(7));
}

#[test]
fn live_connection_holds_its_endpoints() {
    let mut sockets = SocketSet::new(vec![]);
    let mut live = past();
    live.state = State::Established;
    live.time_wait = None;
    let live = sockets.add(live);
    let n = sockets.add(with_clock());
    let (local, remote) = endpoints();
    let now = Instant::from_secs(2);
    assert_eq!(
        connect(&mut sockets, n, now, remote, local),
        Err(ConnectError::AddressInUse)
    );
    // Other devices do not collide, unless one of them is any.
    sockets.get_mut::<Socket>(live).connection_bound_device = 2;
    assert_eq!(
        connect(&mut sockets, n, now, remote, local),
        Err(ConnectError::AddressInUse)
    );
    sockets.get_mut::<Socket>(n).connection_bound_device = 3;
    assert_eq!(connect(&mut sockets, n, now, remote, local), Ok(()));
    assert_eq!(sockets.get::<Socket>(live).state(), State::Established);
}

#[test]
fn attached_time_wait_is_taken_over() {
    let count = Arc::new(AtomicUsize::new(0));
    let mut sockets = SocketSet::new(vec![]);
    let mut s = past();
    s.lifecycle_observer = Some(Arc::new(Observer {
        closed: count.clone(),
        reject: false,
    }));
    s.rx_buffer = SocketBuffer::holding(64, b"abc".to_vec());
    let h = sockets.add(s);
    let bare = sockets.add(empty());
    let n = sockets.add(with_clock());
    let (local, remote) = endpoints();
    let now = Instant::from_secs(2);
    // A socket without timestamps cannot continue a connection with them.
    assert_eq!(
        connect(&mut sockets, bare, now, remote, local),
        Err(ConnectError::AddressInUse)
    );
    assert_eq!(sockets.get::<Socket>(h).state(), State::TimeWait);
    assert_eq!(connect(&mut sockets, n, now, remote, local), Ok(()));
    assert_eq!(sockets.get::<Socket>(n).local_seq_no, TcpSeqNumber(66537));
    let retired = sockets.get::<Socket>(h);
    assert_eq!(retired.state(), State::Closed);
    assert_eq!(retired.local_endpoint(), None);
    assert!(retired.time_wait.is_none());
    assert_eq!(retired.rx_buffer.as_slice(), b"abc");
    assert_eq!(count.load(Ordering::Relaxed), 1);
}

#[test]
fn expired_time_wait_is_replaced_without_reuse() {
    for compact in [false, true] {
        let mut sockets = SocketSet::new(vec![]);
        let h = sockets.add(past());
        if compact {
            assert!(sockets.detach_tcp_time_wait(h));
        }
        let n = sockets.add(empty());
        let (local, remote) = endpoints();
        let now = Instant::from_secs(61);
        assert_eq!(connect(&mut sockets, n, now, remote, local), Ok(()));
        assert_eq!(sockets.get::<Socket>(n).local_seq_no, TcpSeqNumber(7));
        assert!(!sockets.has_tcp_time_wait());
        if !compact {
            assert_eq!(sockets.get::<Socket>(h).state(), State::Closed);
        }
    }
}

#[test]
fn two_rivals_or_a_rival_with_a_shadow_refuse() {
    let (local, remote) = endpoints();
    let now = Instant::from_secs(2);
    let mut sockets = SocketSet::new(vec![]);
    sockets.add(past());
    let mut second = past();
    second.connection_bound_device = 4;
    sockets.add(second);
    let n = sockets.add(with_clock());
    assert_eq!(
        connect(&mut sockets, n, now, remote, local),
        Err(ConnectError::AddressInUse)
    );
    let mut sockets = SocketSet::new(vec![]);
    let h = sockets.add(past());
    assert!(sockets.detach_tcp_time_wait(h));
    sockets.add(past());
    let n = sockets.add(with_clock());
    assert_eq!(
        connect(&mut sockets, n, now, remote, local),
        Err(ConnectError::AddressInUse)
    );
    assert!(sockets.has_tcp_time_wait());
}

#[test]
fn rejecting_observer_refuses_the_connection() {
    let mut sockets = SocketSet::new(vec![]);
    let h = sockets.add(past());
    assert!(sockets.detach_tcp_time_wait(h));
    let mut s = with_clock();
    s.lifecycle_observer = Some(Arc::new(Observer {
        closed: Arc::new(AtomicUsize::new(0)),
        reject: true,
    }));
    let n = sockets.add(s);
    let (local, remote) = endpoints();
    assert_eq!(
        connect(&mut sockets, n, Instant::from_secs(2), remote, local),
        Err(ConnectError::AddressInUse)
    );
    assert_eq!(sockets.get::<Socket>(n).state(), State::Closed);
    assert!(sockets.has_tcp_time_wait());
}

#[test]
fn detaching_takes_a_settled_time_wait_socket_once() {
    let mut sockets = SocketSet::new(vec![]);
    let mut live = past();
    live.state = State::FinWait2;
    let live = sockets.add(live);
    assert!(!sockets.detach_tcp_time_wait(live));
    let mut owing = past();
    owing.remote_last_ack = Some(TcpSeqNumber(1999));
    let owing = sockets.add(owing);
    assert!(!sockets.detach_tcp_time_wait(owing));
    let mut unrecorded = past();
    unrecorded.time_wait = None;
    let unrecorded = sockets.add(unrecorded);
    assert!(!sockets.detach_tcp_time_wait(unrecorded));
    assert!(!sockets.has_tcp_time_wait());
    let first = sockets.add(past());
    assert!(sockets.detach_tcp_time_wait(first));
    assert!(!sockets.contains::<Socket>(first));
    let twin = sockets.add(past());
    assert!(!sockets.detach_tcp_time_wait(twin));
    assert_eq!(sockets.get::<Socket>(twin).state(), State::TimeWait);
    assert!(sockets.has_tcp_time_wait());
}

#[test]
fn expired_attached_connection_keeps_unread_data_and_blocks_nothing() {
    let mut sockets = SocketSet::new(vec![]);
    let mut s = past();
    s.rx_buffer = SocketBuffer::holding(64, b"abc".to_vec());
    let h = sockets.add(s);
    let mut cx = context();
    cx.set_now(Instant::from_secs(61));
    assert!(sockets
        .process_tcp_sockets(
            &cx,
            PacketMeta::default(),
            &ip(),
            &syn(2100, 3001),
            process
        )
        .is_none());
    assert_eq!(sockets.get::<Socket>(h).state(), State::Closed);
    assert_eq!(sockets.get::<Socket>(h).rx_buffer.as_slice(), b"abc");
}

#[test]
fn exact_reset_ends_protection_silently() {
    for compact in [false, true] {
        let mut sockets = SocketSet::new(vec![]);
        let h = sockets.add(past());
        if compact {
            assert!(sockets.detach_tcp_time_wait(h));
        }
        let mut cx = context();
        cx.set_now(Instant::from_secs(2));
        let mut rst = syn(2000, 3001);
        rst.control = TcpControl::Rst;
        assert_eq!(
            sockets.process_tcp_sockets(&cx, PacketMeta::default(), &ip(), &rst, process),
            Some(None)
        );
        assert!(!sockets.has_tcp_time_wait());
        if !compact {
            assert_eq!(sockets.get::<Socket>(h).state(), State::Closed);
        }
    }
}

#[test]
fn acknowledgements_are_exact_and_rate_limited() {
    let mut sockets = SocketSet::new(vec![]);
    let mut s = past();
    s.connection_bound_device = 5;
    s.hop_limit = Some(33);
    s.time_wait = None;
    s.ensure_time_wait(Instant::from_secs(1));
    let h = sockets.add(s);
    assert!(sockets.detach_tcp_time_wait(h));
    let (local, remote) = endpoints();
    let mut cx = context();
    cx.set_now(Instant::from_secs(2));
    let stale = syn(2100, 2999);
    let (meta, ip_reply, tcp) = sockets
        .process_tcp_sockets(&cx, PacketMeta { id: 5 }, &ip(), &stale, process)
        .unwrap()
        .unwrap();
    assert_eq!(meta, PacketMeta { id: 5 });
    assert_eq!(
        ip_reply,
        IpRepr::new(local.addr, remote.addr, IpProtocol::Tcp, 32, 33)
    );
    assert_eq!(
        tcp,
        TcpRepr {
            src_port: 80,
            dst_port: 40000,
            control: TcpControl::Plain,
            seq_number: TcpSeqNumber(1000),
            ack_number: Some(TcpSeqNumber(2000)),
            window_len: 64,
            window_scale: None,
            max_seg_size: None,
            sack_permitted: false,
            sack_ranges: [None; 3],
            timestamp: Some(TcpTimestampRepr {
                tsval: 5000,
                tsecr: 3000,
            }),
            payload: &[],
        }
    );
    cx.set_now(Instant::from_millis(2499));
    assert_eq!(
        sockets.process_tcp_sockets(&cx, PacketMeta { id: 5 }, &ip(), &stale, process),
        Some(None)
    );
    cx.set_now(Instant::from_millis(2500));
    assert!(sockets
        .process_tcp_sockets(&cx, PacketMeta { id: 5 }, &ip(), &stale, process)
        .unwrap()
        .is_some());
    // A segment from another device does not find the connection.
    assert_eq!(
        sockets.process_tcp_sockets(&cx, PacketMeta { id: 6 }, &ip(), &stale, process),
        None
    );
}

#[test]
fn live_connection_processes_its_segments_itself() {
    let mut sockets = SocketSet::new(vec![]);
    let mut live = past();
    live.state = State::Established;
    live.time_wait = None;
    live.connection_bound_device = 4;
    let live = sockets.add(live);
    let bystander = sockets.add(listener());
    let cx = context();
    let segment = syn(2100, 3001);
    let answer = (ip(), segment);
    let result = sockets.process_tcp_sockets(
        &cx,
        PacketMeta { id: 4 },
        &ip(),
        &segment,
        |socket: &mut Socket,
         _: &Context,
         _: &IpRepr,
         tcp: &TcpRepr<'_>,
         reuse: Option<(&TimeWaitState, Option<u64>)>| {
            assert!(reuse.is_none());
            socket.remote_seq_no = tcp.seq_number;
            Some(answer)
        },
    );
    assert_eq!(result, Some(Some((PacketMeta { id: 4 }, answer.0, answer.1))));
    assert_eq!(
        sockets.get::<Socket>(live).remote_seq_no,
        TcpSeqNumber(2100)
    );
    assert_eq!(sockets.get::<Socket>(bystander).state(), State::Listen);
}

#[test]
fn expiry_is_bounded_and_earliest_first() {
    let mut sockets = SocketSet::new(vec![]);
    for n in 0..70 {
        let mut s = past();
        s.tuple = Some(Tuple {
            local: endpoints().0,
            remote: IpEndpoint::new(endpoints().1.addr, 1000 + n),
        });
        s.time_wait = None;
        s.ensure_time_wait(Instant::from_secs(100 - i64::from(n)));
        let h = sockets.add(s);
        assert!(sockets.detach_tcp_time_wait(h));
    }
    assert_eq!(
        sockets.tcp_time_wait_poll_at(),
        Some(Instant::from_secs(91))
    );
    sockets.expire_tcp_time_wait(Instant::from_secs(90));
    assert_eq!(
        sockets.tcp_time_wait_poll_at(),
        Some(Instant::from_secs(91))
    );
    sockets.expire_tcp_time_wait(Instant::from_secs(500));
    assert!(sockets.has_tcp_time_wait());
    assert_eq!(
        sockets.tcp_time_wait_poll_at(),
        Some(Instant::from_secs(155))
    );
    sockets.expire_tcp_time_wait(Instant::from_secs(500));
    assert!(!sockets.has_tcp_time_wait());
    assert_eq!(sockets.tcp_time_wait_poll_at(), None);
}

#[test]
fn processing_near_the_end_of_time_is_foreseen() {
    let mut sockets = SocketSet::new(vec![]);
    let mut s = past();
    s.time_wait_duration = Duration::from_micros(10);
    s.time_wait = None;
    let h = sockets.add(s);
    let mut ack = syn(2000, 3001);
    ack.control = TcpControl::Plain;
    ack.ack_number = Some(TcpSeqNumber(1000));
    let mut cx = context();
    cx.set_now(Instant::from_micros(i64::MAX - 10));
    assert!(sockets.can_process_tcp(&cx, PacketMeta::default(), &ip(), &ack));
    cx.set_now(Instant::from_micros(i64::MAX - 9));
    assert!(!sockets.can_process_tcp(&cx, PacketMeta::default(), &ip(), &ack));
    sockets.get_mut::<Socket>(h).state = State::Established;
    assert!(sockets.can_process_tcp(&cx, PacketMeta::default(), &ip(), &ack));
}

struct Listener {
    heard: Arc<Mutex<Vec<(State, Option<IpEndpoint>, Option<IpEndpoint>, u32)>>>,
}

impl LifecycleObserver for Listener {
    fn identity(&self) -> u64 {
        4
    }

    fn prepare_open(&self, _: IpEndpoint, _: IpEndpoint, _: u32, _: Option<u64>) -> bool {
        true
    }

    fn on_state_change(
        &self,
        state: State,
        local: Option<IpEndpoint>,
        remote: Option<IpEndpoint>,
        device: u32,
    ) {
        self.heard.lock().unwrap().push((state, local, remote, device));
    }
}

#[test]
fn observers_hear_of_the_end_of_their_connections() {
    let (local, remote) = endpoints();
    let ended = (State::Closed, Some(local), Some(remote), 0);
    for compact in [false, true] {
        for way in 0..3 {
            let heard = Arc::new(Mutex::new(Vec::new()));
            let mut s = past();
            s.lifecycle_observer = Some(Arc::new(Listener {
                heard: heard.clone(),
            }));
            let mut sockets = SocketSet::new(vec![]);
            let h = sockets.add(s);
            if compact {
                assert!(sockets.detach_tcp_time_wait(h));
            }
            assert!(heard.lock().unwrap().is_empty());
            let mut cx = context();
            cx.set_now(Instant::from_secs(2));
            if way == 0 {
                let n = sockets.add(with_clock());
                assert_eq!(
                    sockets.connect_tcp(n, &cx, remote, local, TimeWaitReuse::Explicit, start),
                    Ok(())
                );
            } else if way == 1 {
                sockets.add(listener());
                let meta = PacketMeta::default();
                sockets.process_tcp_sockets(&cx, meta, &ip(), &syn(2100, 3001), process);
            } else {
                cx.set_now(Instant::from_secs(61));
                let meta = PacketMeta::default();
                sockets.process_tcp_sockets(&cx, meta, &ip(), &syn(2100, 3001), process);
            }
            assert_eq!(*heard.lock().unwrap(), vec![ended]);
        }
    }
}

/// Swaps the first two items of a set, which keep the handles that they record.
fn swap_first_two(sockets: &mut SocketSet<'_>) {
    let mut items = sockets.items_mut().into_iter();
    let first = items.next().unwrap();
    let second = items.next().unwrap();
    std::mem::swap(first, second);
}

#[test]
fn segments_follow_the_recorded_handle() {
    let mut sockets = SocketSet::new(vec![]);
    let mut live = past();
    live.state = State::Established;
    live.time_wait = None;
    sockets.add(live);
    let mut other = empty();
    other.state = State::Established;
    sockets.add(other);
    swap_first_two(&mut sockets);
    // The connection is found in the second space, and its item records the first.
    let cx = context();
    let result = sockets.process_tcp_sockets(
        &cx,
        PacketMeta::default(),
        &ip(),
        &syn(2100, 3001),
        |socket: &mut Socket,
         _: &Context,
         _: &IpRepr,
         _: &TcpRepr<'_>,
         _: Option<(&TimeWaitState, Option<u64>)>| {
            socket.hop_limit = Some(77);
            None
        },
    );
    assert_eq!(result, Some(None));
    let limits: Vec<_> = sockets
        .iter()
        .into_iter()
        .map(|(_, socket)| match socket {
            AnyKind::Tcp(socket) => (socket.tuple.is_some(), socket.hop_limit),
            AnyKind::Udp(_) => unreachable!(),
        })
        .collect();
    assert_eq!(limits, vec![(false, Some(77)), (true, None)]);
}

#[test]
fn connecting_follows_the_recorded_handle() {
    let (local, remote) = endpoints();
    let mut sockets = SocketSet::new(vec![]);
    let n = sockets.add(with_clock());
    let mut live = past();
    live.state = State::Established;
    live.time_wait = None;
    let live = sockets.add(live);
    let cx = context();
    assert!(sockets.can_connect_tcp(n, &cx, remote, local, TimeWaitReuse::Explicit));
    assert_eq!(
        sockets.connect_tcp(n, &cx, remote, local, TimeWaitReuse::Explicit, start),
        Err(ConnectError::AddressInUse)
    );
    // After the swap the handle leads to the connection itself, and the other item records it, so
    // that it is not taken for another socket.
    swap_first_two(&mut sockets);
    assert!(sockets.get::<Socket>(n).tuple.is_some());
    sockets.get_mut::<Socket>(n).state = State::Closed;
    assert_eq!(
        sockets.connect_tcp(live, &cx, remote, local, TimeWaitReuse::Explicit, start),
        Ok(())
    );
}

#[test]
fn stray_handle_is_foreseen() {
    let (local, remote) = endpoints();
    let mut sockets = SocketSet::new(vec![]);
    sockets.add(past());
    sockets.add(udp::Socket {
        endpoint: IpListenEndpoint {
            addr: None,
            port: 9,
        },
    });
    let n = sockets.add(with_clock());
    swap_first_two(&mut sockets);
    let mut cx = context();
    cx.set_now(Instant::from_secs(2));
    assert!(!sockets.can_process_tcp(&cx, PacketMeta::default(), &ip(), &syn(2100, 3001)));
    assert!(!sockets.can_connect_tcp(n, &cx, remote, local, TimeWaitReuse::Explicit));
}

struct Asked {
    times: Arc<AtomicUsize>,
}

impl LifecycleObserver for Asked {
    fn identity(&self) -> u64 {
        self.times.fetch_add(1, Ordering::Relaxed);
        5
    }

    fn prepare_open(&self, _: IpEndpoint, _: IpEndpoint, _: u32, replaced: Option<u64>) -> bool {
        replaced == Some(5)
    }

    fn on_state_change(
        &self,
        _: State,
        _: Option<IpEndpoint>,
        _: Option<IpEndpoint>,
        _: u32,
    ) {
    }
}

#[test]
fn identity_of_the_replaced_connection_is_asked_and_handed_on() {
    let (local, remote) = endpoints();
    for compact in [false, true] {
        let times = Arc::new(AtomicUsize::new(0));
        let mut s = past();
        s.lifecycle_observer = Some(Arc::new(Asked {
            times: times.clone(),
        }));
        let mut sockets = SocketSet::new(vec![]);
        let h = sockets.add(s);
        if compact {
            assert!(sockets.detach_tcp_time_wait(h));
        }
        // Without timestamps the request is refused, after the identity was asked.
        let bare = sockets.add(empty());
        let now = Instant::from_secs(2);
        assert_eq!(
            connect(&mut sockets, bare, now, remote, local),
            Err(ConnectError::AddressInUse)
        );
        assert_eq!(times.load(Ordering::Relaxed), 1);
        let mut new = with_clock();
        new.lifecycle_observer = Some(Arc::new(Asked {
            times: times.clone(),
        }));
        let n = sockets.add(new);
        assert_eq!(connect(&mut sockets, n, now, remote, local), Ok(()));
        assert_eq!(times.load(Ordering::Relaxed), 2);
    }
}
