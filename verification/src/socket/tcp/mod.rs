//! TCP sockets, as far as the interface around them reads and writes them.
pub mod congestion;
pub mod time_wait;

use crate::phy::PacketMeta;
use crate::socket::tcp::time_wait::TimeWaitState;
use crate::time::{Duration, Instant};
use crate::wire::ip::{IpEndpoint, IpListenEndpoint, IpProtocol, IpRepr};
use crate::wire::tcp::{TcpControl, TcpRepr, TcpSeqNumber};
use std::sync::Arc;
use vstd::prelude::*;

verus! {

/// The state of a TCP socket.
#[derive(Debug, Clone, Copy, PartialEq, Eq, Hash, Structural)]
pub enum State {
    Closed,
    Listen,
    SynSent,
    SynReceived,
    Established,
    FinWait1,
    FinWait2,
    CloseWait,
    Closing,
    LastAck,
    TimeWait,
}

/// The two endpoints of a connection.
#[derive(Debug, Clone, Copy, PartialEq, Eq, Hash, Structural)]
pub struct Tuple {
    pub local: IpEndpoint,
    pub remote: IpEndpoint,
}

/// Why a connection was not opened.
#[derive(Debug, Clone, Copy, PartialEq, Eq, Structural)]
pub enum ConnectError {
    /// The socket is open already.
    InvalidState,
    /// One of the endpoints cannot take part in a connection.
    Unaddressable,
    /// Another connection holds the endpoints.
    AddressInUse,
}

/// When an outgoing connection may take over the endpoints of one in TIME-WAIT.
#[derive(Debug, Clone, Copy, PartialEq, Eq, Structural)]
pub enum TimeWaitReuse {
    /// The caller asks for it.
    Explicit,
    /// The endpoints were picked by the system, which takes them over on a loopback device only.
    Automatic { loopback: bool },
}

/// The clock of the timestamp option.
pub trait TcpTimestampGenerator: Send + Sync {
    /// What the clock may show; anything, unless an implementation says more.
    open spec fn may_show(&self, value: u32) -> bool {
        true
    }

    /// The value of the clock now.
    fn tsval(&self) -> (r: u32)
        ensures
            self.may_show(r),
    ;
}

/// Watches the connections of a socket.
pub trait LifecycleObserver: Send + Sync {
    /// What may identify the observer; anything, unless an implementation says more.
    open spec fn may_identify(&self, identity: u64) -> bool {
        true
    }

    /// What the observer may answer to the question whether a connection may be opened; anything,
    /// unless an implementation says more.
    open spec fn may_answer(
        &self,
        local: IpEndpoint,
        remote: IpEndpoint,
        device: u32,
        replaced: Option<u64>,
        answer: bool,
    ) -> bool {
        true
    }

    /// What the observer has heard of; anything, unless an implementation says more.
    open spec fn heard(
        &self,
        state: State,
        local: Option<IpEndpoint>,
        remote: Option<IpEndpoint>,
        device: u32,
    ) -> bool {
        true
    }

    /// Who watches.
    fn identity(&self) -> (r: u64)
        ensures
            self.may_identify(r),
    ;

    /// Whether the connection between `local` and `remote` may be opened, in place of one that
    /// `replaced` watches where there is one.
    fn prepare_open(
        &self,
        local: IpEndpoint,
        remote: IpEndpoint,
        device: u32,
        replaced: Option<u64>,
    ) -> (r: bool)
        ensures
            self.may_answer(local, remote, device, replaced, r),
    ;

    /// Learns of the state that a connection has reached.
    fn on_state_change(
        &self,
        state: State,
        local: Option<IpEndpoint>,
        remote: Option<IpEndpoint>,
        device: u32,
    )
        ensures
            self.heard(state, local, remote, device),
    ;
}

/// What may identify an observer: nothing where there is none.
pub open spec fn is_identity(
    observer: Option<Arc<dyn LifecycleObserver>>,
    identity: Option<u64>,
) -> bool {
    match (observer, identity) {
        (Some(observer), Some(identity)) => observer.may_identify(identity),
        (None, None) => true,
        _ => false,
    }
}

/// One call of [`LifecycleObserver::on_state_change`].
pub struct Notice {
    pub observer: Option<Arc<dyn LifecycleObserver>>,
    pub state: State,
    pub local: Option<IpEndpoint>,
    pub remote: Option<IpEndpoint>,
    pub device: u32,
}

impl Notice {
    /// The observer has heard of the state.
    pub open spec fn was_heard(self) -> bool {
        self.observer matches Some(observer) && observer.heard(
            self.state,
            self.local,
            self.remote,
            self.device,
        )
    }
}

/// Every notice has reached its observer.
pub open spec fn all_heard(notices: Seq<Notice>) -> bool {
    forall|i: int| 0 <= i < notices.len() ==> (#[trigger] notices[i]).was_heard()
}

/// The notices that an observer, where there is one, gets of a state.
pub open spec fn notices(
    observer: Option<Arc<dyn LifecycleObserver>>,
    state: State,
    local: Option<IpEndpoint>,
    remote: Option<IpEndpoint>,
    device: u32,
) -> Seq<Notice> {
    if observer is Some {
        seq![Notice { observer, state, local, remote, device }]
    } else {
        Seq::empty()
    }
}

/// Tells an observer, where there is one, of a state, and notes that in `log`.
pub(crate) fn announce(
    observer: &Option<Arc<dyn LifecycleObserver>>,
    state: State,
    local: Option<IpEndpoint>,
    remote: Option<IpEndpoint>,
    device: u32,
    log: &mut Ghost<Seq<Notice>>,
)
    ensures
        final(log)@ == old(log)@ + notices(*observer, state, local, remote, device),
        all_heard(notices(*observer, state, local, remote, device)),
{
    match observer {
        Some(watching) => {
            watching.on_state_change(state, local, remote, device);
            proof {
                *log.borrow_mut() = log@ + notices(*observer, state, local, remote, device);
            }
        },
        None => {},
    }
}

/// Who watches, where someone does.
pub(crate) fn identity_of(observer: &Option<Arc<dyn LifecycleObserver>>) -> (r: Option<u64>)
    ensures
        is_identity(*observer, r),
{
    match observer {
        Some(observer) => Some(observer.identity()),
        None => None,
    }
}

/// The longest receive buffer whose window the protocol can announce.
pub const MAX_RX_CAPACITY: usize = 0x4000_0000;

/// A receive queue: octets that wait to be read, never more than its capacity.
#[derive(Debug)]
pub struct SocketBuffer {
    queue: Vec<u8>,
    capacity: usize,
}

impl SocketBuffer {
    #[verifier::type_invariant]
    closed spec fn within_capacity(self) -> bool {
        self.queue@.len() <= self.capacity <= MAX_RX_CAPACITY
    }

    /// The octets that wait to be read.
    pub closed spec fn view(self) -> Seq<u8> {
        self.queue@
    }

    pub closed spec fn spec_capacity(self) -> usize {
        self.capacity
    }

    /// An empty queue as long as `storage`.
    pub fn new(storage: Vec<u8>) -> (r: SocketBuffer)
        requires
            storage@.len() <= MAX_RX_CAPACITY,
        ensures
            r@ == Seq::<u8>::empty(),
            r.spec_capacity() == storage@.len(),
    {
        SocketBuffer { capacity: storage.len(), queue: Vec::new() }
    }

    /// A queue of that capacity that holds `queue`.
    pub fn holding(capacity: usize, queue: Vec<u8>) -> (r: SocketBuffer)
        requires
            queue@.len() <= capacity <= MAX_RX_CAPACITY,
        ensures
            r@ == queue@,
            r.spec_capacity() == capacity,
    {
        SocketBuffer { queue, capacity }
    }

    /// The largest number of octets that can wait to be read.
    pub fn capacity(&self) -> (r: usize)
        ensures
            r == self.spec_capacity(),
    {
        self.capacity
    }

    /// The number of octets that wait to be read.
    pub fn len(&self) -> (r: usize)
        ensures
            r == self@.len(),
            r <= self.spec_capacity() <= MAX_RX_CAPACITY,
    {
        proof {
            use_type_invariant(self);
        }
        self.queue.len()
    }

    /// The octets that wait to be read.
    pub fn as_slice(&self) -> (r: &[u8])
        ensures
            r@ == self@,
    {
        self.queue.as_slice()
    }

    /// The number of octets that may still come.
    pub fn window(&self) -> (r: usize)
        ensures
            r == self.spec_capacity() - self@.len(),
    {
        proof {
            use_type_invariant(self);
        }
        self.capacity - self.queue.len()
    }
}

/// A TCP socket, as far as the interface around it reads and writes it.
pub struct Socket {
    pub state: State,
    pub tuple: Option<Tuple>,
    pub listen_endpoint: IpListenEndpoint,
    /// The next sequence number to send.
    pub local_seq_no: TcpSeqNumber,
    /// The sequence number of the first octet in the receive buffer.
    pub remote_seq_no: TcpSeqNumber,
    /// The last acknowledgement that was sent.
    pub remote_last_ack: Option<TcpSeqNumber>,
    /// The power of two by which announced windows are scaled down.
    pub remote_win_shift: u8,
    pub rx_buffer: SocketBuffer,
    pub hop_limit: Option<u8>,
    pub time_wait_duration: Duration,
    /// The latest timestamp of the peer, and when it came.
    pub ts_recent: Option<(u32, Instant)>,
    /// The timestamp clock that connections are offered.
    pub configured_tsval_generator: Option<Arc<dyn TcpTimestampGenerator>>,
    /// The timestamp clock in use.
    pub tsval_generator: Option<Arc<dyn TcpTimestampGenerator>>,
    pub lifecycle_observer: Option<Arc<dyn LifecycleObserver>>,
    /// The device that the connection is bound to, or zero.
    pub connection_bound_device: u32,
    /// The device that listening is bound to, or zero.
    pub listen_bound_device: u32,
    pub time_wait: Option<TimeWaitState>,
}

/// The quotient of `n` by a power of two.
pub open spec fn scaled_down(n: int, shift: u8) -> int {
    n / vstd::arithmetic::power2::pow2(shift as nat) as int
}

impl Socket {
    /// The sequence number that the peer sends next.
    pub open spec fn spec_rcv_nxt(self) -> TcpSeqNumber {
        TcpSeqNumber(crate::wire::tcp::wrap_i32(self.remote_seq_no.0 + self.rx_buffer@.len()))
    }

    /// The sequence number that the peer sends next.
    pub fn rcv_nxt(&self) -> (r: TcpSeqNumber)
        ensures
            r == self.spec_rcv_nxt(),
    {
        let queued: usize = self.rx_buffer.len();
        self.remote_seq_no + queued
    }

    /// The free space of the receive buffer, scaled down, as far as the header can announce it.
    pub open spec fn spec_scaled_window(self) -> u16 {
        let window = scaled_down(
            self.rx_buffer.spec_capacity() - self.rx_buffer@.len(),
            self.remote_win_shift,
        );
        if window <= u16::MAX {
            window as u16
        } else {
            u16::MAX
        }
    }

    /// The window to announce.
    pub fn scaled_window(&self) -> (r: u16)
        ensures
            r == self.spec_scaled_window(),
    {
        let free: u64 = self.rx_buffer.window() as u64;
        let shift: u64 = self.remote_win_shift as u64;
        let window: u64 = if shift < 64 {
            proof {
                vstd::bits::lemma_u64_shr_is_div(free, shift);
            }
            free >> shift
        } else {
            proof {
                vstd::arithmetic::power2::lemma2_to64();
                if shift > 64 {
                    vstd::arithmetic::power2::lemma_pow2_strictly_increases(64, shift as nat);
                }
                vstd::arithmetic::div_mod::lemma_basic_div(
                    free as int,
                    vstd::arithmetic::power2::pow2(shift as nat) as int,
                );
            }
            0
        };
        if window <= 0xffff {
            window as u16
        } else {
            0xffff
        }
    }

    /// A closed socket that receives into `rx_buffer`.
    pub fn new(rx_buffer: SocketBuffer) -> (r: Socket)
        ensures
            r.state == State::Closed,
            r.tuple is None,
            r.listen_endpoint == (IpListenEndpoint { addr: None, port: 0 }),
            r.local_seq_no == TcpSeqNumber(0),
            r.remote_seq_no == TcpSeqNumber(0),
            r.remote_last_ack is None,
            r.remote_win_shift == 0,
            r.rx_buffer == rx_buffer,
            r.hop_limit is None,
            r.time_wait_duration.micros == 10_000_000,
            r.ts_recent is None,
            r.configured_tsval_generator is None,
            r.tsval_generator is None,
            r.lifecycle_observer is None,
            r.connection_bound_device == 0,
            r.listen_bound_device == 0,
            r.time_wait is None,
    {
        Socket {
            state: State::Closed,
            tuple: None,
            listen_endpoint: IpListenEndpoint { addr: None, port: 0 },
            local_seq_no: TcpSeqNumber(0),
            remote_seq_no: TcpSeqNumber(0),
            remote_last_ack: None,
            remote_win_shift: 0,
            rx_buffer,
            hop_limit: None,
            time_wait_duration: Duration::from_secs(10),
            ts_recent: None,
            configured_tsval_generator: None,
            tsval_generator: None,
            lifecycle_observer: None,
            connection_bound_device: 0,
            listen_bound_device: 0,
            time_wait: None,
        }
    }

    /// The state of the socket.
    pub fn state(&self) -> (r: State)
        ensures
            r == self.state,
    {
        self.state
    }

    pub open spec fn spec_is_open(self) -> bool {
        self.state != State::Closed && self.state != State::TimeWait
    }

    /// Whether the socket listens or takes part in a connection.
    pub fn is_open(&self) -> (r: bool)
        ensures
            r == self.spec_is_open(),
    {
        self.state != State::Closed && self.state != State::TimeWait
    }

    pub open spec fn spec_is_listening(self) -> bool {
        self.state == State::Listen
    }

    /// Whether the socket listens.
    pub fn is_listening(&self) -> (r: bool)
        ensures
            r == self.spec_is_listening(),
    {
        self.state == State::Listen
    }

    pub open spec fn spec_local_endpoint(self) -> Option<IpEndpoint> {
        match self.tuple {
            Some(tuple) => Some(tuple.local),
            None => None,
        }
    }

    /// The local endpoint of the connection.
    pub fn local_endpoint(&self) -> (r: Option<IpEndpoint>)
        ensures
            r == self.spec_local_endpoint(),
    {
        match self.tuple {
            Some(tuple) => Some(tuple.local),
            None => None,
        }
    }

    pub open spec fn spec_remote_endpoint(self) -> Option<IpEndpoint> {
        match self.tuple {
            Some(tuple) => Some(tuple.remote),
            None => None,
        }
    }

    /// The remote endpoint of the connection.
    pub fn remote_endpoint(&self) -> (r: Option<IpEndpoint>)
        ensures
            r == self.spec_remote_endpoint(),
    {
        match self.tuple {
            Some(tuple) => Some(tuple.remote),
            None => None,
        }
    }

    /// The last acknowledgement that was sent does not cover everything that was received.
    pub open spec fn spec_ack_to_transmit(self) -> bool {
        self.remote_last_ack matches Some(acked) && acked.spec_before(self.spec_rcv_nxt())
    }

    /// Whether an acknowledgement is owed.
    pub fn ack_to_transmit(&self) -> (r: bool)
        ensures
            r == self.spec_ack_to_transmit(),
    {
        match self.remote_last_ack {
            Some(acked) => acked.before(self.rcv_nxt()),
            None => false,
        }
    }

    /// Whether connections are offered timestamps.
    pub fn timestamp_configured(&self) -> (r: bool)
        ensures
            r == self.configured_tsval_generator is Some,
    {
        self.configured_tsval_generator.is_some()
    }

    /// Whether the connection uses timestamps.
    pub fn timestamp_enabled(&self) -> (r: bool)
        ensures
            r == self.tsval_generator is Some,
    {
        self.tsval_generator.is_some()
    }

    /// The device that the socket is bound to in its present role, or zero.
    pub open spec fn spec_bound_device(self) -> u32 {
        if self.spec_is_listening() {
            self.listen_bound_device
        } else {
            self.connection_bound_device
        }
    }

    /// The device that the socket is bound to in its present role, or zero.
    pub fn bound_device(&self) -> (r: u32)
        ensures
            r == self.spec_bound_device(),
    {
        if self.is_listening() {
            self.listen_bound_device
        } else {
            self.connection_bound_device
        }
    }

    /// The socket is not bound, or bound to the device that the packet came from.
    pub open spec fn spec_accepts_ingress(self, meta: PacketMeta) -> bool {
        self.spec_bound_device() == 0 || self.spec_bound_device() == meta.id
    }

    /// Whether the socket takes packets from the device that `meta` names.
    pub fn accepts_ingress(&self, meta: PacketMeta) -> (r: bool)
        ensures
            r == self.spec_accepts_ingress(meta),
    {
        let bound: u32 = self.bound_device();
        bound == 0 || bound == meta.id
    }

    /// The device that packets of the socket are bound to.
    pub fn egress_meta(&self) -> (r: PacketMeta)
        ensures
            r == (PacketMeta { id: self.spec_bound_device() }),
    {
        PacketMeta { id: self.bound_device() }
    }

    /// The segment is meant for this socket: it belongs to its connection, or starts one with the
    /// endpoint that the socket listens on.
    pub open spec fn spec_accepts(self, ip: IpRepr, tcp: TcpRepr<'_>) -> bool {
        &&& self.state != State::Closed
        &&& !(self.state == State::Listen && tcp.ack_number is Some)
        &&& match self.tuple {
            Some(tuple) => {
                &&& tuple.local == (IpEndpoint { addr: ip.spec_dst_addr(), port: tcp.dst_port })
                &&& tuple.remote == (IpEndpoint { addr: ip.spec_src_addr(), port: tcp.src_port })
            },
            None => {
                &&& self.listen_endpoint.addr matches Some(addr) ==> addr == ip.spec_dst_addr()
                &&& tcp.dst_port != 0
                &&& tcp.dst_port == self.listen_endpoint.port
            },
        }
    }

    /// Whether the segment is meant for this socket.
    pub fn accepts(&self, ip: &IpRepr, tcp: &TcpRepr<'_>) -> (r: bool)
        ensures
            r == self.spec_accepts(*ip, *tcp),
    {
        if self.state == State::Closed {
            return false;
        }
        // A listener starts connections; an acknowledgement belongs to one that exists.
        if self.state == State::Listen && tcp.ack_number.is_some() {
            return false;
        }
        match self.tuple {
            Some(tuple) => ip.dst_addr() == tuple.local.addr && tcp.dst_port == tuple.local.port
                && ip.src_addr() == tuple.remote.addr && tcp.src_port == tuple.remote.port,
            None => {
                let addr_ok = match self.listen_endpoint.addr {
                    Some(addr) => addr == ip.dst_addr(),
                    None => true,
                };
                addr_ok && tcp.dst_port != 0 && tcp.dst_port == self.listen_endpoint.port
            },
        }
    }

    /// Who watches the connection.
    pub fn lifecycle_identity(&self) -> (r: Option<u64>)
        ensures
            is_identity(self.lifecycle_observer, r),
    {
        identity_of(&self.lifecycle_observer)
    }

    /// What may come of the question whether the connection may be opened: the observer answers
    /// it, and without an observer the connection may be opened.
    pub open spec fn may_be_allowed(
        self,
        local: IpEndpoint,
        remote: IpEndpoint,
        replaced: Option<u64>,
        answer: bool,
    ) -> bool {
        match self.lifecycle_observer {
            Some(observer) => observer.may_answer(
                local,
                remote,
                self.spec_lifecycle_device(),
                replaced,
                answer,
            ),
            None => answer,
        }
    }

    /// Whether the observer lets the connection open. Without an observer it does.
    pub fn prepare_open(
        &self,
        local: IpEndpoint,
        remote: IpEndpoint,
        replaced: Option<u64>,
    ) -> (r: bool)
        ensures
            self.may_be_allowed(local, remote, replaced, r),
    {
        match &self.lifecycle_observer {
            Some(observer) => observer.prepare_open(
                local,
                remote,
                self.lifecycle_device(),
                replaced,
            ),
            None => true,
        }
    }

    /// The socket with its TIME-WAIT state recorded, from `now` on where it was not before.
    pub open spec fn spec_ensure_time_wait(self, now: Instant) -> Socket {
        match self.time_wait {
            Some(_) => self,
            None => Socket { time_wait: Some(TimeWaitState::left_of(self, now)), ..self },
        }
    }

    /// Records the TIME-WAIT state of a connected socket, where it is not recorded yet.
    pub fn ensure_time_wait(&mut self, now: Instant)
        requires
            old(self).time_wait is None ==> {
                &&& old(self).tuple is Some
                &&& time_wait::can_add(now, old(self).time_wait_duration)
            },
        ensures
            *final(self) == old(self).spec_ensure_time_wait(now),
    {
        if self.time_wait.is_none() {
            self.time_wait = Some(TimeWaitState::from_socket(self, now));
        }
    }

    /// The socket after its connection is over: what was received can still be read.
    pub open spec fn retired(self) -> Socket {
        Socket { state: State::Closed, tuple: None, time_wait: None, ..self }
    }

    /// What the observer learns of the end of the connection.
    pub open spec fn closing_notices(self) -> Seq<Notice> {
        notices(
            self.lifecycle_observer,
            State::Closed,
            self.spec_local_endpoint(),
            self.spec_remote_endpoint(),
            self.spec_lifecycle_device(),
        )
    }

    /// Ends the connection; what was received can still be read.
    pub(crate) fn retire_time_wait(&mut self, log: &mut Ghost<Seq<Notice>>)
        ensures
            *final(self) == old(self).retired(),
            final(log)@ == old(log)@ + old(self).closing_notices(),
            all_heard(old(self).closing_notices()),
    {
        announce(
            &self.lifecycle_observer,
            State::Closed,
            self.local_endpoint(),
            self.remote_endpoint(),
            self.lifecycle_device(),
            log,
        );
        self.state = State::Closed;
        self.tuple = None;
        self.time_wait = None;
    }

    /// The reset that answers a segment: it takes up the acknowledgement of the segment, or
    /// acknowledges a plain SYN.
    pub open spec fn reset_segment(tcp: TcpRepr<'_>) -> TcpRepr<'static> {
        TcpRepr {
            src_port: tcp.dst_port,
            dst_port: tcp.src_port,
            control: TcpControl::Rst,
            seq_number: match tcp.ack_number {
                Some(ack_number) => ack_number,
                None => TcpSeqNumber(0),
            },
            ack_number: if tcp.control == TcpControl::Syn && tcp.ack_number is None {
                Some(
                    TcpSeqNumber(
                        crate::wire::tcp::wrap_i32(tcp.seq_number.0 + tcp.spec_segment_len()),
                    ),
                )
            } else {
                None
            },
            window_len: 0,
            window_scale: None,
            max_seg_size: None,
            sack_permitted: false,
            sack_ranges: [None, None, None],
            timestamp: None,
            payload: &[],
        }
    }

    /// The header of the reset that answers a segment.
    pub open spec fn reset_header(ip: IpRepr) -> IpRepr {
        IpRepr::spec_new(ip.spec_dst_addr(), ip.spec_src_addr(), IpProtocol::Tcp, 20, 64)
    }

    /// The reset that answers a segment.
    pub fn rst_reply(ip: &IpRepr, tcp: &TcpRepr<'_>) -> (r: (IpRepr, TcpRepr<'static>))
        requires
            tcp.control == TcpControl::Syn && tcp.ack_number is None ==> tcp.spec_segment_len()
                <= i32::MAX,
        ensures
            r == (Socket::reset_header(*ip), Socket::reset_segment(*tcp)),
    {
        let ack_number = if tcp.control == TcpControl::Syn && tcp.ack_number.is_none() {
            let len: usize = tcp.segment_len();
            Some(tcp.seq_number + len)
        } else {
            None
        };
        let reply = TcpRepr {
            src_port: tcp.dst_port,
            dst_port: tcp.src_port,
            control: TcpControl::Rst,
            seq_number: match tcp.ack_number {
                Some(ack_number) => ack_number,
                None => TcpSeqNumber(0),
            },
            ack_number,
            window_len: 0,
            window_scale: None,
            max_seg_size: None,
            sack_permitted: false,
            sack_ranges: [None, None, None],
            timestamp: None,
            payload: &[],
        };
        let len: usize = reply.buffer_len();
        (IpRepr::new(ip.dst_addr(), ip.src_addr(), IpProtocol::Tcp, len, 64), reply)
    }

    /// The device that the connection is bound to, or zero.
    pub open spec fn spec_lifecycle_device(self) -> u32 {
        self.connection_bound_device
    }

    /// The device that the connection is bound to, or zero.
    pub fn lifecycle_device(&self) -> (r: u32)
        ensures
            r == self.spec_lifecycle_device(),
    {
        self.connection_bound_device
    }
}

} // verus!
