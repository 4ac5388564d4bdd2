use smoltcp::iface::interface::tcp::{transport_header, Packet};
use smoltcp::iface::interface::{Context, Interface, InterfaceInner};
use smoltcp::iface::socket_set::{
    SocketSet, TcpIngressHandler, TcpIngressResult, TcpListenRegistry,
};
use smoltcp::phy::{Checksum, ChecksumCapabilities, DeviceCapabilities, PacketMeta};
use smoltcp::socket::tcp::time_wait::TimeWaitState;
use smoltcp::socket::tcp::{Socket, SocketBuffer, State, Tuple};
use smoltcp::time::Instant;
use smoltcp::wire::checksum;
use smoltcp::wire::ip::{
    IpAddress, IpEndpoint, IpListenEndpoint, IpProtocol, IpRepr, Ipv4Address, Ipv4Repr,
    Ipv6Address, Ipv6Repr,
};
use smoltcp::wire::tcp::{TcpControl, TcpRepr, TcpSeqNumber};
use smoltcp::wire::Error;
use std::sync::atomic::{AtomicUsize, Ordering};
use std::sync::Arc;

const SERVER_SEQ: i32 = 900;

/// A server that accepts one connection and takes in what it is sent in order.
fn process(
    socket: &mut Socket,
    _: &Context,
    ip: &IpRepr,
    tcp: &TcpRepr<'_>,
    _: Option<(&TimeWaitState, Option<u64>)>,
) -> Option<(IpRepr, TcpRepr<'static>)> {
    match socket.state {
        State::Listen if tcp.control == TcpControl::Syn => {
            socket.tuple = Some(Tuple {
                local: IpEndpoint::new(ip.dst_addr(), tcp.dst_port),
                remote: IpEndpoint::new(ip.src_addr(), tcp.src_port),
            });
            socket.connection_bound_device = socket.listen_bound_device;
            socket.local_seq_no = TcpSeqNumber(SERVER_SEQ);
            socket.remote_seq_no = tcp.seq_number + 1;
            socket.state = State::SynReceived;
        }
        State::SynReceived if tcp.ack_number == Some(TcpSeqNumber(SERVER_SEQ + 1)) => {
            socket.state = State::Established;
        }
        State::Established if tcp.seq_number == socket.remote_seq_no => {
            let mut queue = socket.rx_buffer.as_slice().to_vec();
            queue.extend_from_slice(tcp.payload);
            socket.rx_buffer = SocketBuffer::holding(socket.rx_buffer.capacity(), queue);
        }
        _ => {}
    }
    None
}

struct Registry {
    endpoint: IpEndpoint,
    calls: AtomicUsize,
}

impl TcpListenRegistry for Registry {
    fn is_listening(&self, endpoint: IpEndpoint, _meta: PacketMeta) -> bool {
        self.calls.fetch_add(1, Ordering::Relaxed);
        endpoint == self.endpoint
    }
}

fn syn() -> TcpRepr<'static> {
    TcpRepr {
        src_port: 4242,
        dst_port: 4243,
        control: TcpControl::Syn,
        seq_number: TcpSeqNumber(100),
        ack_number: None,
        window_len: 256,
        window_scale: None,
        max_seg_size: None,
        sack_permitted: false,
        sack_ranges: [None; 3],
        timestamp: None,
        payload: &[],
    }
}

fn inner() -> InterfaceInner {
    InterfaceInner {
        now: Instant::from_millis(0),
        caps: DeviceCapabilities::default(),
    }
}

/// The sum over the pseudo header and a segment.
fn sum(src_addr: &IpAddress, dst_addr: &IpAddress, octets: &[u8]) -> u16 {
    checksum::combine(&[
        checksum::pseudo_header(src_addr, dst_addr, IpProtocol::Tcp, octets.len() as u32),
        checksum::data(octets),
    ])
}

/// Writes a segment without options.
fn emit(ip: &IpRepr, tcp: &TcpRepr<'_>) -> Vec<u8> {
    assert_eq!(tcp.header_len(), 20);
    let mut flags = match tcp.control {
        TcpControl::Plain => 0x00,
        TcpControl::Psh => 0x08,
        TcpControl::Syn => 0x02,
        TcpControl::Fin => 0x01,
        TcpControl::Rst => 0x04,
    };
    if tcp.ack_number.is_some() {
        flags |= 0x10;
    }
    let mut bytes = Vec::new();
    bytes.extend_from_slice(&tcp.src_port.to_be_bytes());
    bytes.extend_from_slice(&tcp.dst_port.to_be_bytes());
    bytes.extend_from_slice(&tcp.seq_number.0.to_be_bytes());
    bytes.extend_from_slice(&tcp.ack_number.map_or(0, |ack| ack.0).to_be_bytes());
    bytes.extend_from_slice(&[0x50, flags]);
    bytes.extend_from_slice(&tcp.window_len.to_be_bytes());
    bytes.extend_from_slice(&[0; 4]);
    bytes.extend_from_slice(tcp.payload);
    let checksum = !sum(&ip.src_addr(), &ip.dst_addr(), &bytes);
    bytes[16..18].copy_from_slice(&checksum.to_be_bytes());
    bytes
}

/// Reads a segment without options, where its length and its checksum are right.
fn read<'p>(
    octets: &'p [u8],
    src_addr: &IpAddress,
    dst_addr: &IpAddress,
    caps: &ChecksumCapabilities,
) -> Result<TcpRepr<'p>, Error> {
    if octets.len() < 20 || octets[12] != 0x50 {
        return Err(Error);
    }
    if caps.tcp.rx() && sum(src_addr, dst_addr, octets) != 0xffff {
        return Err(Error);
    }
    let half = |at: usize| u16::from_be_bytes([octets[at], octets[at + 1]]);
    let word = |at: usize| {
        i32::from_be_bytes([octets[at], octets[at + 1], octets[at + 2], octets[at + 3]])
    };
    let control = match octets[13] & 0x0f {
        0x00 => TcpControl::Plain,
        0x08 => TcpControl::Psh,
        0x02 => TcpControl::Syn,
        0x01 => TcpControl::Fin,
        0x04 => TcpControl::Rst,
        _ => return Err(Error),
    };
    Ok(TcpRepr {
        src_port: half(0),
        dst_port: half(2),
        control,
        seq_number: TcpSeqNumber(word(4)),
        ack_number: if octets[13] & 0x10 != 0 {
            Some(TcpSeqNumber(word(8)))
        } else {
            None
        },
        window_len: half(14),
        window_scale: None,
        max_seg_size: None,
        sack_permitted: false,
        sack_ranges: [None; 3],
        timestamp: None,
        payload: &octets[20..],
    })
}

fn deliver_bytes(
    sockets: &mut SocketSet<'_>,
    meta: PacketMeta,
    ip: &IpRepr,
    bytes: &[u8],
) -> Option<Packet> {
    inner().process_tcp(sockets, meta, *ip, bytes, read, process)
}

fn deliver(
    sockets: &mut SocketSet<'_>,
    meta: PacketMeta,
    ip: &IpRepr,
    tcp: &TcpRepr<'_>,
) -> Option<Packet> {
    deliver_bytes(sockets, meta, ip, &emit(ip, tcp))
}

fn listener_at(endpoint: IpListenEndpoint, capacity: usize) -> Socket {
    let mut socket = Socket::new(SocketBuffer::new(vec![0; capacity]));
    socket.state = State::Listen;
    socket.listen_endpoint = endpoint;
    socket
}

fn any_address(port: u16) -> IpListenEndpoint {
    IpListenEndpoint { addr: None, port }
}

#[test]
fn listener_fallback_ipv4() {
    listener_fallback(IpRepr::Ipv4(Ipv4Repr {
        src_addr: Ipv4Address::new(192, 168, 1, 2),
        dst_addr: Ipv4Address::new(192, 168, 1, 1),
        next_header: IpProtocol::Tcp,
        payload_len: 20,
        hop_limit: 64,
    }));
}

#[test]
fn listener_fallback_ipv6() {
    listener_fallback(IpRepr::Ipv6(Ipv6Repr {
        src_addr: Ipv6Address::new(0xfe80, 0, 0, 0, 0, 0, 0, 2),
        dst_addr: Ipv6Address::new(0xfe80, 0, 0, 0, 0, 0, 0, 1),
        next_header: IpProtocol::Tcp,
        payload_len: 20,
        hop_limit: 64,
    }));
}

fn listener_fallback(ip: IpRepr) {
    let mut sockets = SocketSet::new(vec![]);
    let mut tcp = syn();
    let meta = PacketMeta::default();
    let registry = Arc::new(Registry {
        endpoint: IpEndpoint::new(ip.dst_addr(), tcp.dst_port),
        calls: AtomicUsize::new(0),
    });
    assert!(deliver(&mut sockets, meta, &ip, &tcp).is_some());
    assert!(sockets
        .set_tcp_listen_registry(Some(registry.clone()))
        .is_none());
    assert!(deliver(&mut sockets, meta, &ip, &tcp).is_none());
    assert_eq!(registry.calls.load(Ordering::Relaxed), 1);

    // A different port or destination address is not covered by the registry.
    tcp.dst_port += 1;
    assert!(deliver(&mut sockets, meta, &ip, &tcp).is_some());
    tcp.dst_port -= 1;
    let other_ip = match ip {
        IpRepr::Ipv4(mut repr) => {
            repr.dst_addr = repr.src_addr;
            IpRepr::Ipv4(repr)
        }
        IpRepr::Ipv6(mut repr) => {
            repr.dst_addr = repr.src_addr;
            IpRepr::Ipv6(repr)
        }
    };
    assert!(deliver(&mut sockets, meta, &other_ip, &tcp).is_some());
    let calls = registry.calls.load(Ordering::Relaxed);
    let bytes = emit(&ip, &tcp);
    let mut corrupt = bytes.clone();
    corrupt[16] ^= 1;
    assert!(deliver_bytes(&mut sockets, meta, &ip, &corrupt).is_none());
    assert!(deliver_bytes(&mut sockets, meta, &ip, &bytes[..10]).is_none());
    // SYN+ACK and ordinary ACK retain the closed-port reset; RST gets no reply.
    tcp.ack_number = Some(TcpSeqNumber(1));
    assert!(deliver(&mut sockets, meta, &ip, &tcp).is_some());
    tcp.control = TcpControl::Plain;
    assert!(deliver(&mut sockets, meta, &ip, &tcp).is_some());
    tcp.control = TcpControl::Rst;
    assert!(deliver(&mut sockets, meta, &ip, &tcp).is_none());
    assert_eq!(registry.calls.load(Ordering::Relaxed), calls);
    assert!(sockets.set_tcp_listen_registry(None).is_some());
    assert!(deliver(&mut sockets, meta, &ip, &syn()).is_some());
    assert_eq!(registry.calls.load(Ordering::Relaxed), calls);

    // A real listening socket, its SYN retransmission, and established data
    // take precedence over the registry, even though it matches the endpoint.
    sockets.set_tcp_listen_registry(Some(registry.clone()));
    let handle = sockets.add(listener_at(
        IpListenEndpoint {
            addr: Some(registry.endpoint.addr),
            port: registry.endpoint.port,
        },
        128,
    ));
    assert!(deliver(&mut sockets, meta, &ip, &syn()).is_none());
    let server_seq = sockets.get::<Socket>(handle).local_seq_no;
    assert_eq!(
        sockets.get::<Socket>(handle).state(),
        State::SynReceived
    );
    deliver(&mut sockets, meta, &ip, &syn());
    tcp = syn();
    tcp.control = TcpControl::Plain;
    tcp.seq_number = tcp.seq_number + 1;
    tcp.ack_number = Some(server_seq + 1);
    deliver(&mut sockets, meta, &ip, &tcp);
    assert_eq!(
        sockets.get::<Socket>(handle).state(),
        State::Established
    );
    tcp.payload = b"hello";
    deliver(&mut sockets, meta, &ip, &tcp);
    assert_eq!(
        sockets.get::<Socket>(handle).rx_buffer.as_slice(),
        b"hello"
    );
    assert_eq!(registry.calls.load(Ordering::Relaxed), calls);
}

fn device_ip() -> IpRepr {
    IpRepr::Ipv4(Ipv4Repr {
        src_addr: Ipv4Address::new(192, 168, 1, 2),
        dst_addr: Ipv4Address::new(192, 168, 1, 1),
        next_header: IpProtocol::Tcp,
        payload_len: 20,
        hop_limit: 64,
    })
}

struct BoundRegistry;

impl TcpListenRegistry for BoundRegistry {
    fn is_listening(&self, endpoint: IpEndpoint, meta: PacketMeta) -> bool {
        endpoint == IpEndpoint::new(device_ip().dst_addr(), 4243) && meta.id == 7
    }
}

#[test]
fn tcp_device_binding_overflow_registry() {
    let mut sockets = SocketSet::new(vec![]);
    sockets.set_tcp_listen_registry(Some(Arc::new(BoundRegistry)));
    let ip = device_ip();
    assert!(deliver(&mut sockets, PacketMeta { id: 7 }, &ip, &syn()).is_none());
    let reset = deliver(&mut sockets, PacketMeta { id: 8 }, &ip, &syn()).unwrap();
    assert_eq!(reset.tx_meta().id, 0);
}

struct Handler {
    result: TcpIngressResult,
    calls: AtomicUsize,
}

impl TcpIngressHandler for Handler {
    fn handle_tcp_ingress(
        &self,
        _meta: PacketMeta,
        ip: &IpRepr,
        segment: &[u8],
    ) -> TcpIngressResult {
        assert_eq!(ip.next_header(), IpProtocol::Tcp);
        assert_eq!(ip.payload_len(), segment.len());
        self.calls.fetch_add(1, Ordering::Relaxed);
        self.result
    }
}

fn segment(ip: &mut IpRepr) -> Vec<u8> {
    let mut repr = syn();
    repr.src_port = 40000;
    repr.dst_port = 80;
    ip.set_payload(ip.next_header(), repr.buffer_len());
    emit(ip, &repr)
}

fn addresses() -> Vec<IpRepr> {
    vec![
        IpRepr::Ipv4(Ipv4Repr {
            src_addr: Ipv4Address::new(192, 0, 2, 1),
            dst_addr: Ipv4Address::new(192, 0, 2, 2),
            next_header: IpProtocol::Tcp,
            payload_len: 0,
            hop_limit: 64,
        }),
        IpRepr::Ipv6(Ipv6Repr {
            src_addr: Ipv6Address::new(0x2001, 0xdb8, 0, 0, 0, 0, 0, 1),
            dst_addr: Ipv6Address::new(0x2001, 0xdb8, 0, 0, 0, 0, 0, 2),
            next_header: IpProtocol::Tcp,
            payload_len: 0,
            hop_limit: 64,
        }),
    ]
}

#[test]
fn tcp_handler_consumed_suppresses_socket_and_reset() {
    for mut ip in addresses() {
        let mut sockets = SocketSet::new(vec![]);
        let handler = Arc::new(Handler {
            result: TcpIngressResult::Consumed,
            calls: AtomicUsize::new(0),
        });
        sockets.set_tcp_ingress_handler(Some(handler.clone()));
        let handle = sockets.add(listener_at(any_address(80), 64));
        let bytes = segment(&mut ip);
        assert!(inner()
            .process_tcp(
                &mut sockets,
                PacketMeta::default(),
                ip,
                &bytes,
                read,
                process
            )
            .is_none());
        assert_eq!(handler.calls.load(Ordering::Relaxed), 1);
        assert_eq!(sockets.get::<Socket>(handle).state(), State::Listen);
        sockets.remove(handle);
        assert!(inner()
            .process_tcp(
                &mut sockets,
                PacketMeta::default(),
                ip,
                &bytes,
                read,
                process
            )
            .is_none());
        assert_eq!(handler.calls.load(Ordering::Relaxed), 2);
    }
}

#[test]
fn tcp_handler_normalizes_ipv6_extension_metadata() {
    let mut sockets = SocketSet::new(vec![]);
    let handler = Arc::new(Handler {
        result: TcpIngressResult::Consumed,
        calls: AtomicUsize::new(0),
    });
    sockets.set_tcp_ingress_handler(Some(handler.clone()));
    let mut ip = addresses()
        .into_iter()
        .find(|ip| matches!(ip, IpRepr::Ipv6(_)))
        .unwrap();
    let bytes = segment(&mut ip);
    let IpRepr::Ipv6(mut ipv6) = ip else {
        unreachable!()
    };
    ipv6.next_header = IpProtocol::HopByHop;
    ipv6.payload_len += 8;
    assert!(inner()
        .process_tcp(
            &mut sockets,
            PacketMeta::default(),
            IpRepr::Ipv6(ipv6),
            &bytes,
            read,
            process
        )
        .is_none());
    assert_eq!(handler.calls.load(Ordering::Relaxed), 1);
    assert_eq!(transport_header(IpRepr::Ipv6(ipv6), bytes.len()), ip);
}

#[test]
fn tcp_transport_preserves_device_constraint() {
    for mut ip in addresses() {
        let mut iface = Interface { inner: inner() };
        let mut sockets = SocketSet::new(vec![]);
        let mut socket = listener_at(any_address(80), 256);
        socket.listen_bound_device = 7;
        let handle = sockets.add(socket);
        let bytes = segment(&mut ip);
        let mut meta = PacketMeta::default();
        meta.id = 8;
        assert!(
            iface
                .process_tcp_ingress(
                    Instant::from_millis(0),
                    true,
                    &mut sockets,
                    meta,
                    ip,
                    &bytes,
                    read,
                    process
                )
                .0
        );
        assert_eq!(sockets.get::<Socket>(handle).state(), State::Listen);
        meta.id = 7;
        assert!(
            iface
                .process_tcp_ingress(
                    Instant::from_millis(0),
                    true,
                    &mut sockets,
                    meta,
                    ip,
                    &bytes,
                    read,
                    process
                )
                .0
        );
        assert_eq!(
            sockets.get::<Socket>(handle).state(),
            State::SynReceived
        );
    }
}

#[test]
fn tcp_handler_not_handled_preserves_reset_and_bad_checksum_is_not_offered() {
    for mut ip in addresses() {
        let mut sockets = SocketSet::new(vec![]);
        let handler = Arc::new(Handler {
            result: TcpIngressResult::NotHandled,
            calls: AtomicUsize::new(0),
        });
        sockets.set_tcp_ingress_handler(Some(handler.clone()));
        let mut bytes = segment(&mut ip);
        assert!(inner()
            .process_tcp(
                &mut sockets,
                PacketMeta::default(),
                ip,
                &bytes,
                read,
                process
            )
            .is_some());
        bytes[16] ^= 1;
        assert!(inner()
            .process_tcp(
                &mut sockets,
                PacketMeta::default(),
                ip,
                &bytes,
                read,
                process
            )
            .is_none());
        assert_eq!(handler.calls.load(Ordering::Relaxed), 1);
    }
}

#[test]
fn tcp_transport_rejects_inconsistent_ip_metadata() {
    for mut ip in addresses() {
        let mut iface = Interface { inner: inner() };
        let mut sockets = SocketSet::new(vec![]);
        let bytes = segment(&mut ip);
        ip.set_payload(ip.next_header(), bytes.len() + 1);
        assert_eq!(
            iface.process_tcp_ingress(
                Instant::from_millis(0),
                true,
                &mut sockets,
                PacketMeta::default(),
                ip,
                &bytes,
                read,
                process
            ),
            (true, None)
        );
        ip.set_payload(IpProtocol::Udp, bytes.len());
        assert_eq!(
            iface.process_tcp_ingress(
                Instant::from_millis(0),
                true,
                &mut sockets,
                PacketMeta::default(),
                ip,
                &bytes,
                read,
                process
            ),
            (true, None)
        );
    }
}

#[test]
fn tcp_transport_unconfigured_destination_capacity_and_routed_synack_mss() {
    for mut ip in addresses() {
        let mut iface = Interface { inner: inner() };
        let mut sockets = SocketSet::new(vec![]);
        let handle = sockets.add(listener_at(any_address(80), 256));
        let bytes = segment(&mut ip);
        assert_eq!(
            iface.process_tcp_ingress(
                Instant::from_millis(123),
                false,
                &mut sockets,
                PacketMeta::default(),
                ip,
                &bytes,
                read,
                process
            ),
            (false, None)
        );
        assert_eq!(sockets.get::<Socket>(handle).state(), State::Listen);
        assert_eq!(iface.inner.now(), Instant::from_millis(0));
        assert_eq!(
            iface.process_tcp_ingress(
                Instant::from_millis(124),
                true,
                &mut sockets,
                PacketMeta::default(),
                ip,
                &bytes,
                read,
                process
            ),
            (true, None)
        );
        assert_eq!(
            sockets.get::<Socket>(handle).state(),
            State::SynReceived
        );
        assert_eq!(iface.inner.now(), Instant::from_millis(124));
    }
}

#[test]
fn tcp_not_accepted() {
    let mut sockets = SocketSet::new(vec![]);
    let tcp = TcpRepr {
        src_port: 4242,
        dst_port: 4243,
        control: TcpControl::Syn,
        seq_number: TcpSeqNumber(-10001),
        ack_number: None,
        window_len: 256,
        window_scale: None,
        max_seg_size: None,
        sack_permitted: false,
        sack_ranges: [None, None, None],
        timestamp: None,
        payload: &[],
    };
    let dst_addr = Ipv6Address::new(0xfe80, 0, 0, 0, 0, 0, 0, 1);
    let src_addr: IpAddress = Ipv6Address::new(0xfe80, 0, 0, 0, 0, 0, 0, 2).into();
    let header = IpRepr::new(src_addr, dst_addr.into(), IpProtocol::Tcp, 20, 64);
    let tcp_bytes = emit(&header, &tcp);

    assert_eq!(
        inner().process_tcp(
            &mut sockets,
            PacketMeta::default(),
            IpRepr::Ipv6(Ipv6Repr {
                src_addr: Ipv6Address::new(0xfe80, 0, 0, 0, 0, 0, 0, 2),
                dst_addr: Ipv6Address::new(0xfe80, 0, 0, 0, 0, 0, 0, 1),
                next_header: IpProtocol::Tcp,
                payload_len: tcp.buffer_len(),
                hop_limit: 64,
            }),
            &tcp_bytes,
            read,
            process,
        ),
        Some(Packet::new(
            IpRepr::Ipv6(Ipv6Repr {
                src_addr: Ipv6Address::new(0xfe80, 0, 0, 0, 0, 0, 0, 1),
                dst_addr: Ipv6Address::new(0xfe80, 0, 0, 0, 0, 0, 0, 2),
                next_header: IpProtocol::Tcp,
                payload_len: tcp.buffer_len(),
                hop_limit: 64,
            }),
            TcpRepr {
                src_port: 4243,
                dst_port: 4242,
                control: TcpControl::Rst,
                seq_number: TcpSeqNumber(0),
                ack_number: Some(TcpSeqNumber(-10000)),
                window_len: 0,
                window_scale: None,
                max_seg_size: None,
                sack_permitted: false,
                sack_ranges: [None, None, None],
                timestamp: None,
                payload: &[],
            }
        ))
    );
    // Unspecified destination address.
    let unspecified: IpAddress = Ipv6Address::new(0, 0, 0, 0, 0, 0, 0, 0).into();
    let header = IpRepr::new(src_addr, unspecified, IpProtocol::Tcp, 20, 64);
    let tcp_bytes = emit(&header, &tcp);
    assert_eq!(
        inner().process_tcp(
            &mut sockets,
            PacketMeta::default(),
            IpRepr::Ipv6(Ipv6Repr {
                src_addr: Ipv6Address::new(0xfe80, 0, 0, 0, 0, 0, 0, 2),
                dst_addr: Ipv6Address::new(0, 0, 0, 0, 0, 0, 0, 0),
                next_header: IpProtocol::Tcp,
                payload_len: tcp.buffer_len(),
                hop_limit: 64,
            }),
            &tcp_bytes,
            read,
            process,
        ),
        None,
    );
}

#[test]
fn first_listener_that_matches_gets_the_segment() {
    let ip = device_ip();
    let mut sockets = SocketSet::new(vec![]);
    let other_port = sockets.add(listener_at(any_address(4244), 64));
    let elsewhere = sockets.add(listener_at(
        IpListenEndpoint {
            addr: Some(IpAddress::v4(10, 0, 0, 1)),
            port: 4243,
        },
        64,
    ));
    let first = sockets.add(listener_at(any_address(4243), 64));
    let second = sockets.add(listener_at(any_address(4243), 64));
    assert!(deliver(&mut sockets, PacketMeta::default(), &ip, &syn()).is_none());
    assert_eq!(
        sockets.get::<Socket>(first).state(),
        State::SynReceived
    );
    for handle in [other_port, elsewhere, second] {
        assert_eq!(sockets.get::<Socket>(handle).state(), State::Listen);
    }
    // An acknowledgement is not for a listener.
    let mut ack = syn();
    ack.src_port = 5000;
    ack.control = TcpControl::Plain;
    ack.ack_number = Some(TcpSeqNumber(77));
    let reset = deliver(&mut sockets, PacketMeta::default(), &ip, &ack).unwrap();
    assert_eq!(reset.tcp.control, TcpControl::Rst);
    assert_eq!(reset.tcp.seq_number, TcpSeqNumber(77));
    assert_eq!(reset.tcp.ack_number, None);
    assert_eq!(sockets.get::<Socket>(second).state(), State::Listen);
}

#[test]
fn reply_of_a_listener_is_bound_to_its_device() {
    let ip = device_ip();
    let mut sockets = SocketSet::new(vec![]);
    let mut socket = listener_at(any_address(4243), 64);
    socket.listen_bound_device = 6;
    sockets.add(socket);
    let answer = (ip, syn());
    let packet = inner()
        .process_tcp(
            &mut sockets,
            PacketMeta { id: 6 },
            ip,
            &emit(&ip, &syn()),
            read,
            |_: &mut Socket,
             _: &Context,
             _: &IpRepr,
             _: &TcpRepr<'_>,
             _: Option<(&TimeWaitState, Option<u64>)>| Some(answer),
        )
        .unwrap();
    assert_eq!(packet, Packet::new(ip, syn()).with_tx_meta(PacketMeta { id: 6 }));
}

#[test]
fn segment_is_read_with_the_capabilities_of_the_interface() {
    let ip = device_ip();
    let mut sockets = SocketSet::new(vec![]);
    let mut bytes = emit(&ip, &syn());
    bytes[16] ^= 1;
    let meta = PacketMeta::default();
    assert!(deliver_bytes(&mut sockets, meta, &ip, &bytes).is_none());
    let mut unverifying = inner();
    unverifying.caps.checksum.tcp = Checksum::Tx;
    assert!(unverifying
        .process_tcp(&mut sockets, meta, ip, &bytes, read, process)
        .is_some());
}

#[test]
fn parsed_segment_is_offered_once_and_the_registry_asked_once() {
    let ip = device_ip();
    let mut sockets = SocketSet::new(vec![]);
    let handler = Arc::new(Handler {
        result: TcpIngressResult::NotHandled,
        calls: AtomicUsize::new(0),
    });
    let registry = Arc::new(Registry {
        endpoint: IpEndpoint::new(ip.dst_addr(), 4243),
        calls: AtomicUsize::new(0),
    });
    sockets.set_tcp_ingress_handler(Some(handler.clone()));
    sockets.set_tcp_listen_registry(Some(registry.clone()));
    let meta = PacketMeta::default();
    let bytes = emit(&ip, &syn());
    assert!(inner()
        .process_parsed(&mut sockets, meta, ip, &bytes, Err(Error), process)
        .is_none());
    assert_eq!(handler.calls.load(Ordering::Relaxed), 0);
    assert_eq!(registry.calls.load(Ordering::Relaxed), 0);
    assert!(inner()
        .process_parsed(&mut sockets, meta, ip, &bytes, Ok(syn()), process)
        .is_none());
    assert_eq!(handler.calls.load(Ordering::Relaxed), 1);
    assert_eq!(registry.calls.load(Ordering::Relaxed), 1);
    let mut ack = syn();
    ack.ack_number = Some(TcpSeqNumber(1));
    assert!(inner()
        .process_parsed(&mut sockets, meta, ip, &emit(&ip, &ack), Ok(ack), process)
        .is_some());
    assert_eq!(handler.calls.load(Ordering::Relaxed), 2);
    assert_eq!(registry.calls.load(Ordering::Relaxed), 1);
}

#[test]
fn segment_that_cannot_be_processed_is_handed_back_after_the_offer() {
    let ip = device_ip();
    let mut sockets = SocketSet::new(vec![]);
    let handler = Arc::new(Handler {
        result: TcpIngressResult::NotHandled,
        calls: AtomicUsize::new(0),
    });
    sockets.set_tcp_ingress_handler(Some(handler.clone()));
    let mut waiting = Socket::new(SocketBuffer::new(vec![0; 64]));
    waiting.state = State::TimeWait;
    waiting.tuple = Some(Tuple {
        local: IpEndpoint::new(ip.dst_addr(), 4243),
        remote: IpEndpoint::new(ip.src_addr(), 4242),
    });
    let handle = sockets.add(waiting);
    let mut iface = Interface { inner: inner() };
    let bytes = emit(&ip, &syn());
    let end = Instant::from_micros(i64::MAX);
    let meta = PacketMeta::default();
    assert!(iface
        .try_process_tcp_ingress(end, true, &mut sockets, meta, ip, &bytes, read, process)
        .is_err());
    assert_eq!(handler.calls.load(Ordering::Relaxed), 1);
    assert_eq!(sockets.get::<Socket>(handle).state(), State::TimeWait);
    assert!(sockets.get::<Socket>(handle).time_wait.is_none());
    let start = Instant::from_millis(0);
    let processed =
        iface.try_process_tcp_ingress(start, true, &mut sockets, meta, ip, &bytes, read, process);
    assert!(matches!(processed, Ok((true, Some(_)))));
    let postponed =
        iface.try_process_tcp_ingress(start, false, &mut sockets, meta, ip, &bytes, read, process);
    assert!(matches!(postponed, Ok((false, None))));
    let mut other = ip;
    other.set_payload(IpProtocol::Udp, bytes.len());
    let dropped =
        iface.try_process_tcp_ingress(start, true, &mut sockets, meta, other, &bytes, read, process);
    assert!(matches!(dropped, Ok((true, None))));
    assert_eq!(handler.calls.load(Ordering::Relaxed), 2);
}
