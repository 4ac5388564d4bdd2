use smoltcp::iface::socket_set::{
    SocketHandle, SocketSet, SocketStorage, UdpIngressHandler, UdpIngressResult,
};
use smoltcp::phy::{ChecksumCapabilities, PacketMeta};
use smoltcp::socket::tcp::congestion::no_control::NoControl;
use smoltcp::socket::tcp::congestion::Controller;
use smoltcp::socket::tcp::SocketBuffer;
use smoltcp::socket::{tcp, udp, Socket};
use smoltcp::wire::ip::{IpListenEndpoint, IpProtocol, IpRepr, Ipv4Address, Ipv4Repr};
use smoltcp::wire::udp::{Packet, Repr};
use std::sync::atomic::{AtomicUsize, Ordering};
use std::sync::Arc;

fn udp_socket(port: u16) -> udp::Socket {
    udp::Socket {
        endpoint: IpListenEndpoint { addr: None, port },
    }
}

fn tcp_socket(hop_limit: u8) -> tcp::Socket {
    let mut socket = tcp::Socket::new(SocketBuffer::new(vec![0; 8]));
    socket.hop_limit = Some(hop_limit);
    socket
}

#[test]
fn added_sockets_are_found_and_removed() {
    let mut sockets = SocketSet::new(vec![]);
    let a = sockets.add(udp_socket(1));
    let b = sockets.add(tcp_socket(2));
    let c = sockets.add(udp_socket(3));
    assert_eq!(a, SocketHandle::default());
    assert_eq!(a.to_text(), "#0");
    assert_eq!(c.to_text(), "#2");
    assert_eq!(sockets.get::<udp::Socket>(a).endpoint.port, 1);
    assert_eq!(sockets.get::<tcp::Socket>(b).hop_limit, Some(2));
    assert!(sockets.contains::<tcp::Socket>(b));
    assert!(!sockets.contains::<udp::Socket>(b));
    sockets.get_mut::<udp::Socket>(c).endpoint.port = 33;
    assert_eq!(sockets.get::<udp::Socket>(c).endpoint.port, 33);
    assert!(matches!(sockets.remove(b), Socket::Tcp(socket) if socket.hop_limit == Some(2)));
    assert!(!sockets.contains::<tcp::Socket>(b));
    // The first free space is taken again.
    let d = sockets.add(udp_socket(4));
    assert_eq!(d, b);
    assert_eq!(sockets.get::<udp::Socket>(d).endpoint.port, 4);
    assert_eq!(sockets.get::<udp::Socket>(a).endpoint.port, 1);
    assert_eq!(sockets.get::<udp::Socket>(c).endpoint.port, 33);
}

#[test]
fn borrowed_storage_holds_sockets() {
    let mut storage = [SocketStorage::empty(), SocketStorage::default()];
    let mut sockets = SocketSet::new(&mut storage[..]);
    let a = sockets.add(udp_socket(1));
    let b = sockets.add(udp_socket(2));
    assert_eq!(sockets.get::<udp::Socket>(a).endpoint.port, 1);
    assert_eq!(sockets.get::<udp::Socket>(b).endpoint.port, 2);
    assert_eq!(sockets.items().len(), 2);
}

#[test]
fn array_storage_grows() {
    let mut sockets = SocketSet::new([SocketStorage::empty()]);
    let a = sockets.add(udp_socket(1));
    let b = sockets.add(udp_socket(2));
    assert_eq!(sockets.get::<udp::Socket>(a).endpoint.port, 1);
    assert_eq!(sockets.get::<udp::Socket>(b).endpoint.port, 2);
    assert_eq!(b.to_text(), "#1");
}

#[test]
fn freed_handle_is_given_again() {
    let mut sockets = SocketSet::new(vec![]);
    sockets.add(udp_socket(1));
    let b = sockets.add(udp_socket(2));
    sockets.add(udp_socket(3));
    sockets.remove(b);
    assert_eq!(sockets.add(udp_socket(4)), b);
}

#[test]
fn sockets_are_walked_in_order() {
    let mut sockets = SocketSet::new(vec![]);
    let a = sockets.add(udp_socket(1));
    let b = sockets.add(udp_socket(2));
    let c = sockets.add(udp_socket(3));
    sockets.remove(b);
    let handles: Vec<SocketHandle> = sockets.iter().into_iter().map(|(h, _)| h).collect();
    assert_eq!(handles, vec![a, c]);
    for (handle, socket) in sockets.iter_mut() {
        if let Socket::Udp(socket) = socket {
            socket.endpoint.port += if handle == a { 10 } else { 20 };
        }
    }
    assert_eq!(sockets.get::<udp::Socket>(a).endpoint.port, 11);
    assert_eq!(sockets.get::<udp::Socket>(c).endpoint.port, 23);
    for item in sockets.items_mut() {
        assert!(item.meta.handle == a || item.meta.handle == c);
        item.socket = Socket::Tcp(tcp_socket(9));
    }
    assert_eq!(sockets.get::<tcp::Socket>(c).hop_limit, Some(9));
    assert_eq!(sockets.items().len(), 2);
    assert_eq!(sockets.items()[1].meta.handle, c);
}

struct UdpHandler {
    result: UdpIngressResult,
    calls: AtomicUsize,
}

impl UdpIngressHandler for UdpHandler {
    fn handle_udp_ingress(
        &self,
        _meta: PacketMeta,
        ip_repr: &IpRepr,
        udp_repr: &Repr,
        is_broadcast: bool,
        payload: &[u8],
    ) -> UdpIngressResult {
        assert_eq!(ip_repr.src_addr(), Ipv4Address::new(127, 0, 0, 2).into());
        assert_eq!(ip_repr.dst_addr(), Ipv4Address::new(127, 0, 0, 1).into());
        assert_eq!(udp_repr.src_port, 67);
        assert_eq!(udp_repr.dst_port, 68);
        assert!(!is_broadcast);
        assert_eq!(payload, b"hello");
        self.calls.fetch_add(1, Ordering::Relaxed);
        self.result
    }
}

#[test]
fn udp_handler_is_offered_datagrams() {
    let udp_repr = Repr {
        src_port: 67,
        dst_port: 68,
    };
    let ip_repr = IpRepr::Ipv4(Ipv4Repr {
        src_addr: Ipv4Address::new(127, 0, 0, 2),
        dst_addr: Ipv4Address::new(127, 0, 0, 1),
        next_header: IpProtocol::Udp,
        payload_len: udp_repr.header_len() + 5,
        hop_limit: 64,
    });
    let mut bytes = vec![0; udp_repr.header_len() + 5];
    udp_repr.emit(
        &mut Packet::new_unchecked(&mut bytes),
        &ip_repr.src_addr(),
        &ip_repr.dst_addr(),
        5,
        |payload: &mut [u8]| payload.copy_from_slice(b"hello"),
        &ChecksumCapabilities::default(),
    );
    let packet = Packet::new_checked(&bytes[..]).unwrap();
    let meta = PacketMeta::default();
    let mut sockets = SocketSet::new(vec![]);
    assert_eq!(
        sockets.handle_udp_ingress(meta, &ip_repr, &udp_repr, false, packet.payload()),
        UdpIngressResult::NotHandled
    );
    for result in [UdpIngressResult::Consumed, UdpIngressResult::NotHandled] {
        let handler = Arc::new(UdpHandler {
            result,
            calls: AtomicUsize::new(0),
        });
        sockets.set_udp_ingress_handler(Some(handler.clone()));
        assert_eq!(
            sockets.handle_udp_ingress(meta, &ip_repr, &udp_repr, false, packet.payload()),
            result
        );
        assert_eq!(handler.calls.load(Ordering::Relaxed), 1);
    }
    assert!(sockets.set_udp_ingress_handler(None).is_some());
    assert!(sockets.set_udp_ingress_handler(None).is_none());
}

#[test]
fn no_control_holds_nothing_back() {
    assert_eq!(NoControl.window(), usize::MAX);
    assert_eq!(NoControl.cwnd(), 0);
    assert_eq!(NoControl.ssthresh(), usize::MAX);
}

#[test]
fn window_is_scaled_and_capped() {
    let mut socket = tcp::Socket::new(SocketBuffer::new(vec![0; 0x3_0001]));
    assert_eq!(socket.scaled_window(), 0xffff);
    socket.remote_win_shift = 2;
    assert_eq!(socket.scaled_window(), 0xc000);
    socket.rx_buffer = SocketBuffer::holding(0x3_0001, vec![0; 2]);
    assert_eq!(socket.scaled_window(), 0xbfff);
    socket.remote_win_shift = 200;
    assert_eq!(socket.scaled_window(), 0);
}
