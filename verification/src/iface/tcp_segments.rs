//! TCP segments that come in for a set of sockets, and what TIME-WAIT makes of them.
use crate::iface::interface::Context;
use crate::iface::socket_set::{aligned, holds, socket_at, SocketHandle, SocketSet};
use crate::iface::tcp_connect::place_of;
use crate::iface::tcp_time_wait::{
    aligned_handles_lead_back, first_named, first_tcp, is_first, lemma_first, lemma_no_first,
    lemma_same_first, listens, reopens, takes, tcp_at, Snapshot,
};
use crate::iface::time_wait_table::{found, Key};
use crate::phy::PacketMeta;
use crate::socket::tcp;
use crate::socket::tcp::time_wait::{
    can_add, fits, paws_rejects, stale_segment_is_harmless, TimeWaitAction, TimeWaitState,
    REPLY_INTERVAL,
};
use crate::socket::tcp::{identity_of, is_identity, LifecycleObserver, State};
use crate::time::{Duration, Instant};
use crate::wire::ip::{IpEndpoint, IpRepr};
use crate::wire::tcp::TcpRepr;
use std::sync::Arc;
use vstd::prelude::*;

verus! {

/// A packet that answers a segment, and the device it is bound to.
pub type Reply = (PacketMeta, IpRepr, TcpRepr<'static>);

/// A segment that came in, and when.
pub struct Arrival<'t> {
    pub meta: PacketMeta,
    pub ip: IpRepr,
    pub tcp: TcpRepr<'t>,
    pub now: Instant,
}

/// The clock can be read as far ahead as the segment calls for, and a reply has two addresses of
/// one version.
pub open spec fn answerable(state: TimeWaitState, now: Instant, tcp: TcpRepr<'_>) -> bool {
    &&& state.refreshes(now, tcp) ==> can_add(now, state.duration)
    &&& (state.action(now, tcp) == TimeWaitAction::Ack || state.action(now, tcp)
        == TimeWaitAction::Reopen) && state.may_reply(now) ==> {
        &&& state.one_family()
        &&& can_add(now, Duration { micros: REPLY_INTERVAL })
    }
}

/// Whether the clock can be read as far ahead as the segment calls for, and a reply has two
/// addresses of one version.
fn can_answer(state: &TimeWaitState, now: Instant, tcp: &TcpRepr<'_>) -> (r: bool)
    ensures
        r == answerable(*state, now, *tcp),
{
    let (action, refresh) = state.judge(now, tcp);
    let replies = (action == TimeWaitAction::Ack || action == TimeWaitAction::Reopen) && now.micros
        >= state.ack_at.micros;
    (!refresh || fits(now, state.duration)) && (!replies || (state.tuple.local.addr.version()
        == state.tuple.remote.addr.version() && fits(now, Duration { micros: REPLY_INTERVAL })))
}

/// A reply with the device that it is bound to.
pub open spec fn bound_reply(
    meta: PacketMeta,
    reply: Option<(IpRepr, TcpRepr<'static>)>,
) -> Option<Reply> {
    match reply {
        Some((ip, tcp)) => Some((meta, ip, tcp)),
        None => None,
    }
}

/// A reply with the device that it is bound to.
fn bind_reply(meta: PacketMeta, reply: Option<(IpRepr, TcpRepr<'static>)>) -> (r: Option<Reply>)
    ensures
        r == bound_reply(meta, reply),
{
    match reply {
        Some((ip, tcp)) => Some((meta, ip, tcp)),
        None => None,
    }
}

/// The segment that came in.
pub open spec fn arrived<'t>(
    cx: Context,
    meta: PacketMeta,
    ip: IpRepr,
    tcp: TcpRepr<'t>,
) -> Arrival<'t> {
    Arrival { meta, ip, tcp, now: cx.now }
}

/// What came of offering a segment: nothing where it was handed back.
pub open spec fn offered<P>(result: Result<Option<Reply>, P>) -> Option<Option<Reply>> {
    match result {
        Ok(reply) => Some(reply),
        Err(_) => None,
    }
}

impl<'t> Arrival<'t> {
    /// The endpoint that the segment is meant for.
    pub open spec fn local(self) -> IpEndpoint {
        IpEndpoint { addr: self.ip.spec_dst_addr(), port: self.tcp.dst_port }
    }

    /// The endpoint that the segment comes from.
    pub open spec fn remote(self) -> IpEndpoint {
        IpEndpoint { addr: self.ip.spec_src_addr(), port: self.tcp.src_port }
    }

    /// Where the handle of the first socket whose connection the segment belongs to leads.
    pub open spec fn attached(self, before: Snapshot) -> Option<int> {
        first_named(before.slots, takes(self.meta, self.ip, self.tcp))
    }

    /// The segment belongs to a connection that is not in TIME-WAIT.
    pub open spec fn is_live(self, before: Snapshot) -> bool {
        self.attached(before) matches Some(index) && socket_at::<tcp::Socket>(
            before.slots,
            index,
        ).state != State::TimeWait
    }

    /// The connection that has left its socket and that the segment belongs to.
    pub open spec fn detached(self, before: Snapshot) -> Option<Key> {
        found(before.protected, self.local(), self.remote(), self.meta.id)
    }

    /// What the set holds once the TIME-WAIT state of the socket is recorded.
    pub open spec fn recorded(self, before: Snapshot) -> Snapshot {
        match self.attached(before) {
            Some(index) => before.with_socket(
                index,
                socket_at::<tcp::Socket>(before.slots, index).spec_ensure_time_wait(self.now),
            ),
            None => before,
        }
    }

    /// The TIME-WAIT state of the connection that the segment belongs to.
    pub open spec fn waiting(self, before: Snapshot) -> Option<TimeWaitState> {
        match (self.attached(before), self.detached(before)) {
            (Some(index), _) => socket_at::<tcp::Socket>(
                self.recorded(before).slots,
                index,
            ).time_wait,
            (None, Some(key)) => Some(before.protected[key].state),
            (None, None) => None,
        }
    }

    /// Who watches the connection in TIME-WAIT.
    pub open spec fn watching(self, before: Snapshot) -> Option<Arc<dyn LifecycleObserver>> {
        match (self.attached(before), self.detached(before)) {
            (Some(index), _) => socket_at::<tcp::Socket>(before.slots, index).lifecycle_observer,
            (None, Some(key)) => before.protected[key].observer,
            (None, None) => None,
        }
    }

    /// The connection in TIME-WAIT is over, with its socket and beside it.
    pub open spec fn ended(self, before: Snapshot, now: Snapshot) -> Snapshot {
        now.retire_attached(self.attached(before)).retire_detached(self.detached(before))
    }

    /// Where the handle of the first socket leads that listens for the segment and on which the
    /// connection may be opened again.
    pub open spec fn listener(self, before: Snapshot) -> Option<int> {
        let state = self.waiting(before)->0;
        if state.action(self.now, self.tcp) == TimeWaitAction::Reopen && self.tcp.max_seg_size
            != Some(0u16) {
            first_named(
                self.recorded(before).slots,
                reopens(state.processed(self.now, self.tcp), self.meta, self.ip, self.tcp),
            )
        } else {
            None
        }
    }

    /// The handles of the sockets that are found lead to TCP sockets, as they do in every aligned
    /// set.
    pub open spec fn leads(self, before: Snapshot) -> bool {
        &&& self.attached(before) matches Some(index) ==> holds::<tcp::Socket>(before.slots, index)
        &&& !self.is_live(before) && self.waiting(before) is Some ==> (self.listener(
            before,
        ) matches Some(index) ==> holds::<tcp::Socket>(before.slots, index))
    }

    /// The handles of the sockets that are found lead to TCP sockets, the clock can be read as far
    /// ahead as the segment calls for, and a reply has two addresses of one version.
    pub open spec fn fits(self, before: Snapshot) -> bool {
        &&& self.leads(before)
        &&& !self.is_live(before) ==> {
            &&& self.attached(before) matches Some(index) ==> {
                let socket = socket_at::<tcp::Socket>(before.slots, index);
                socket.time_wait is None ==> socket.tuple is Some && can_add(
                    self.now,
                    socket.time_wait_duration,
                )
            }
            &&& self.waiting(before) matches Some(state) ==> answerable(state, self.now, self.tcp)
        }
    }

    /// The connection stays in TIME-WAIT, and an acknowledgement answers the segment where one
    /// is due.
    pub open spec fn acknowledged(
        self,
        before: Snapshot,
        now: Snapshot,
        after: Snapshot,
        result: Option<Option<Reply>>,
    ) -> bool {
        let state = self.waiting(before)->0.processed(self.now, self.tcp);
        &&& after == now.with_state(
            self.attached(before),
            self.detached(before),
            state.replied(self.now),
        )
        &&& exists|reply: Option<(IpRepr, TcpRepr<'static>)>| #[trigger]
            state.is_reply(self.now, reply) && result == Some(
                bound_reply(PacketMeta { id: state.device }, reply),
            )
    }

    /// What comes of a segment for a connection in TIME-WAIT that opens no new one.
    pub open spec fn answered(
        self,
        before: Snapshot,
        after: Snapshot,
        result: Option<Option<Reply>>,
    ) -> bool {
        let state = self.waiting(before)->0;
        match state.action(self.now, self.tcp) {
            TimeWaitAction::Remove => {
                &&& after == self.ended(before, self.recorded(before))
                &&& result == if state.is_expired(self.now) {
                    // A genuinely expired entry must not block a new SYN.
                    None
                } else {
                    Some(None::<Reply>)
                }
            },
            TimeWaitAction::Ignore => {
                &&& after == self.recorded(before).with_state(
                    self.attached(before),
                    self.detached(before),
                    state.processed(self.now, self.tcp),
                )
                &&& result == Some(None::<Reply>)
            },
            TimeWaitAction::Ack | TimeWaitAction::Reopen => self.acknowledged(
                before,
                self.recorded(before),
                after,
                result,
            ),
        }
    }

    /// What comes of handing the segment to a listener that became `accepted`: where it accepted
    /// the connection the old one is over, and otherwise that is acknowledged.
    pub open spec fn handed(
        self,
        before: Snapshot,
        listener: int,
        accepted: tcp::Socket,
        after: Snapshot,
        result: Option<Option<Reply>>,
    ) -> bool {
        let now = self.recorded(before).with_socket(listener, accepted);
        if accepted.state == State::SynReceived {
            &&& after == self.ended(before, now)
            &&& result == Some(None::<Reply>)
        } else {
            self.acknowledged(before, now, after, result)
        }
    }

    /// The socket that has to process the segment itself: that of a connection that is not in
    /// TIME-WAIT, or a listener on which a connection in TIME-WAIT may be opened again.
    pub open spec fn consulted(self, before: Snapshot) -> Option<int> {
        if self.is_live(before) {
            self.attached(before)
        } else if self.waiting(before) is Some {
            self.listener(before)
        } else {
            None
        }
    }

    /// What the set holds when that socket is asked.
    pub open spec fn asked(self, before: Snapshot) -> Snapshot {
        if self.is_live(before) {
            before
        } else {
            self.recorded(before)
        }
    }

    /// What that socket is handed beside the segment: the state of the connection that it may open
    /// again and the identity of who watches that, and nothing for a connection of its own.
    pub open spec fn handover(self, before: Snapshot, identity: Option<u64>) -> Option<
        (&'static TimeWaitState, Option<u64>),
    > {
        if self.is_live(before) {
            None
        } else {
            Some((&self.waiting(before)->0.processed(self.now, self.tcp), identity))
        }
    }

    /// The identity is that of who watches the connection in TIME-WAIT.
    pub open spec fn identified(self, before: Snapshot, identity: Option<u64>) -> bool {
        self.is_live(before) || is_identity(self.watching(before), identity)
    }

    /// What comes of the segment when the socket that had to process it became `socket` and
    /// answered with `reply`.
    pub open spec fn outcome(
        self,
        before: Snapshot,
        socket: tcp::Socket,
        reply: Option<(IpRepr, TcpRepr<'static>)>,
        after: Snapshot,
        result: Option<Option<Reply>>,
    ) -> bool {
        let index = self.consulted(before)->0;
        if self.is_live(before) {
            let meta = PacketMeta {
                id: socket_at::<tcp::Socket>(before.slots, index).spec_bound_device(),
            };
            &&& after == before.with_socket(index, socket)
            &&& result == Some(bound_reply(meta, reply))
        } else {
            self.handed(before, index, socket, after, result)
        }
    }

    /// What comes of the segment when no socket has to process it: nothing where it belongs to no
    /// connection, and what TIME-WAIT makes of it otherwise.
    pub open spec fn settled(
        self,
        before: Snapshot,
        after: Snapshot,
        result: Option<Option<Reply>>,
    ) -> bool {
        if self.waiting(before) is Some {
            self.answered(before, after, result)
        } else {
            &&& after == before
            &&& result is None
        }
    }
}

impl<'a> SocketSet<'a> {
    /// The handle of the first socket whose connection the segment belongs to.
    fn find_attached(
        &self,
        meta: PacketMeta,
        ip: &IpRepr,
        tcp: &TcpRepr<'_>,
    ) -> (r: Option<SocketHandle>)
        ensures
            match r {
                Some(handle) => first_named(self@, takes(meta, *ip, *tcp)) == Some(handle.index()),
                None => first_named(self@, takes(meta, *ip, *tcp)) is None,
            },
    {
        let ghost wanted = takes(meta, *ip, *tcp);
        let count: usize = self.slot_count();
        let mut index: usize = 0;
        while index < count
            invariant
                index <= count == self@.len(),
                wanted == takes(meta, *ip, *tcp),
                forall|i: int|
                    0 <= i < index ==> !(#[trigger] tcp_at(self@, i) matches Some(socket)
                        && wanted(socket)),
            decreases count - index,
        {
            if let Some((handle, socket)) = self.tcp_item(index) {
                if !socket.is_listening() && socket.accepts_ingress(meta) && socket.accepts(
                    ip,
                    tcp,
                ) {
                    proof {
                        lemma_first(self@, wanted, index as int);
                    }
                    return Some(handle);
                }
            }
            index = index + 1;
        }
        proof {
            lemma_no_first(self@, wanted);
        }
        None
    }

    /// The space of the first socket that listens for the segment.
    pub(crate) fn find_listener(
        &self,
        meta: PacketMeta,
        ip: &IpRepr,
        tcp: &TcpRepr<'_>,
    ) -> (r: Option<usize>)
        ensures
            match r {
                Some(index) => first_tcp(self@, listens(meta, *ip, *tcp)) == Some(index as int)
                    && is_first(self@, listens(meta, *ip, *tcp), index as int),
                None => first_tcp(self@, listens(meta, *ip, *tcp)) is None,
            },
    {
        let ghost wanted = listens(meta, *ip, *tcp);
        let count: usize = self.slot_count();
        let mut index: usize = 0;
        while index < count
            invariant
                index <= count == self@.len(),
                wanted == listens(meta, *ip, *tcp),
                forall|i: int|
                    0 <= i < index ==> !(#[trigger] tcp_at(self@, i) matches Some(socket)
                        && wanted(socket)),
            decreases count - index,
        {
            if let Some((_, socket)) = self.tcp_item(index) {
                if socket.is_listening() && socket.accepts_ingress(meta) && socket.accepts(
                    ip,
                    tcp,
                ) {
                    proof {
                        lemma_first(self@, wanted, index as int);
                    }
                    return Some(index);
                }
            }
            index = index + 1;
        }
        proof {
            lemma_no_first(self@, wanted);
        }
        None
    }

    /// The handle of the first socket that listens for the segment and on which the connection may be
    /// opened again.
    fn find_reopening(
        &self,
        state: &TimeWaitState,
        meta: PacketMeta,
        ip: &IpRepr,
        tcp: &TcpRepr<'_>,
    ) -> (r: Option<SocketHandle>)
        ensures
            match r {
                Some(handle) => first_named(self@, reopens(*state, meta, *ip, *tcp)) == Some(handle.index()),
                None => first_named(self@, reopens(*state, meta, *ip, *tcp)) is None,
            },
    {
        let ghost wanted = reopens(*state, meta, *ip, *tcp);
        let count: usize = self.slot_count();
        let mut index: usize = 0;
        while index < count
            invariant
                index <= count == self@.len(),
                wanted == reopens(*state, meta, *ip, *tcp),
                forall|i: int|
                    0 <= i < index ==> !(#[trigger] tcp_at(self@, i) matches Some(socket)
                        && wanted(socket)),
            decreases count - index,
        {
            if let Some((handle, socket)) = self.tcp_item(index) {
                if socket.is_listening() && socket.accepts_ingress(meta) && socket.accepts(ip, tcp)
                    && state.can_reopen_on(tcp, socket) {
                    proof {
                        lemma_first(self@, wanted, index as int);
                    }
                    return Some(handle);
                }
            }
            index = index + 1;
        }
        proof {
            lemma_no_first(self@, wanted);
        }
        None
    }

    /// Puts another TIME-WAIT state in the place of that of a connection: of a socket, where one
    /// is named, or else of a connection that has left its socket.
    fn store(
        &mut self,
        attached: Option<SocketHandle>,
        detached: Option<Key>,
        state: TimeWaitState,
    )
        requires
            old(self).wf(),
            attached matches Some(handle) ==> holds::<tcp::Socket>(old(self)@, handle.index()),
            attached is None ==> (detached matches Some(key) ==> old(
                self,
            ).protected().contains_key(key) && Key::spec_of(state) == key),
        ensures
            final(self).wf(),
            final(self).snapshot() == old(self).snapshot().with_state(
                place_of(attached),
                detached,
                state,
            ),
            old(self).aligned() ==> final(self).aligned(),
    {
        if let Some(handle) = attached {
            self.get_mut::<tcp::Socket>(handle).time_wait = Some(state);
        } else if let Some(key) = detached {
            self.time_wait_mut().refresh(key, state);
        }
    }

    /// Whether the handles of the sockets that are found lead to TCP sockets, the clock can be read
    /// as far ahead as the segment calls for, and a reply has two addresses of one version.
    pub fn can_process_tcp(
        &self,
        cx: &Context,
        meta: PacketMeta,
        ip: &IpRepr,
        tcp: &TcpRepr<'_>,
    ) -> (r: bool)
        requires
            self.wf(),
        ensures
            r == arrived(*cx, meta, *ip, *tcp).fits(self.snapshot()),
    {
        let ghost arrival = arrived(*cx, meta, *ip, *tcp);
        let attached = self.find_attached(meta, ip, tcp);
        let detached = self.time_wait().find(
            IpEndpoint::new(ip.dst_addr(), tcp.dst_port),
            IpEndpoint::new(ip.src_addr(), tcp.src_port),
            meta.id,
        );
        let now = cx.now();
        let mut state = match (attached, detached) {
            (Some(handle), _) => {
                if !self.contains::<tcp::Socket>(handle) {
                    return false;
                }
                let socket = self.get::<tcp::Socket>(handle);
                if socket.state() != State::TimeWait {
                    return true;
                }
                match &socket.time_wait {
                    Some(state) => state.clone(),
                    None => {
                        if socket.tuple.is_none() || !fits(now, socket.time_wait_duration) {
                            return false;
                        }
                        TimeWaitState::from_socket(socket, now)
                    },
                }
            },
            (None, Some(key)) => match self.time_wait().get(&key) {
                Some(entry) => entry.state.clone(),
                None => vstd::pervasive::unreached(),
            },
            (None, None) => {
                return true;
            },
        };
        assert(arrival.waiting(self.snapshot()) == Some(state));
        if !can_answer(&state, now, tcp) {
            return false;
        }
        let action = state.process(now, tcp);
        if action != TimeWaitAction::Reopen || tcp.max_seg_size == Some(0u16) {
            return true;
        }
        proof {
            arrival.lemma_recording_moves_no_listener(self.snapshot(), state);
        }
        match self.find_reopening(&state, meta, ip, tcp) {
            Some(handle) => self.contains::<tcp::Socket>(handle),
            None => true,
        }
    }

    /// Processes a segment that came in, where it belongs to a connection of some socket or to one
    /// that has left its socket; hands `process` back where it does not. `process` makes a single
    /// socket process the segment, and take over a state where there is one.
    pub(crate) fn offer_tcp<P: FnOnce(
        &mut tcp::Socket,
        &Context,
        &IpRepr,
        &TcpRepr<'_>,
        Option<(&TimeWaitState, Option<u64>)>,
    ) -> Option<(IpRepr, TcpRepr<'static>)>>(
        &mut self,
        cx: &Context,
        meta: PacketMeta,
        ip: &IpRepr,
        tcp: &TcpRepr<'_>,
        process: P,
    ) -> (r: Result<Option<Reply>, P>)
        requires
            old(self).wf(),
            arrived(*cx, meta, *ip, *tcp).fits(old(self).snapshot()),
            forall|socket: &mut tcp::Socket, reuse: Option<(&TimeWaitState, Option<u64>)>|
                #[trigger] call_requires(process, (socket, cx, ip, tcp, reuse)),
        ensures
            final(self).wf(),
            old(self).aligned() ==> final(self).aligned(),
            r matches Err(unused) ==> unused == process,
            ({
                let arrival = arrived(*cx, meta, *ip, *tcp);
                arrival.consulted(old(self).snapshot()) is None ==> arrival.settled(
                    old(self).snapshot(),
                    final(self).snapshot(),
                    offered(r),
                )
            }),
            ({
                let arrival = arrived(*cx, meta, *ip, *tcp);
                arrival.consulted(old(self).snapshot()) matches Some(index) ==> exists|
                    socket: &mut tcp::Socket,
                    identity: Option<u64>,
                    reply: Option<(IpRepr, TcpRepr<'static>)>,
                |
                    {
                        &&& *socket == socket_at::<tcp::Socket>(
                            arrival.asked(old(self).snapshot()).slots,
                            index,
                        )
                        &&& arrival.identified(old(self).snapshot(), identity)
                        &&& #[trigger] call_ensures(
                            process,
                            (
                                socket,
                                cx,
                                ip,
                                tcp,
                                arrival.handover(old(self).snapshot(), identity),
                            ),
                            reply,
                        )
                        &&& arrival.outcome(
                            old(self).snapshot(),
                            *final(socket),
                            reply,
                            final(self).snapshot(),
                            offered(r),
                        )
                    }
            }),
    {
        let ghost before = self.snapshot();
        let ghost arrival = arrived(*cx, meta, *ip, *tcp);
        let attached = self.find_attached(meta, ip, tcp);
        if let Some(handle) = attached {
            if self.get::<tcp::Socket>(handle).state() != State::TimeWait {
                let tx = self.get::<tcp::Socket>(handle).egress_meta();
                let socket = self.get_mut::<tcp::Socket>(handle);
                assert(arrival.handover(before, None) == None::<(&TimeWaitState, Option<u64>)>);
                let reply = process(socket, cx, ip, tcp, None);
                return Ok(bind_reply(tx, reply));
            }
        }
        let detached = self.time_wait().find(
            IpEndpoint::new(ip.dst_addr(), tcp.dst_port),
            IpEndpoint::new(ip.src_addr(), tcp.src_port),
            meta.id,
        );
        let (mut state, identity) = match (attached, detached) {
            (Some(handle), _) => {
                self.get_mut::<tcp::Socket>(handle).ensure_time_wait(cx.now());
                let socket = self.get::<tcp::Socket>(handle);
                match &socket.time_wait {
                    Some(state) => (state.clone(), socket.lifecycle_identity()),
                    None => vstd::pervasive::unreached(),
                }
            },
            (None, Some(key)) => match self.time_wait().get(&key) {
                Some(entry) => (entry.state.clone(), identity_of(&entry.observer)),
                None => vstd::pervasive::unreached(),
            },
            (None, None) => {
                return Err(process);
            },
        };
        assert(self.snapshot() == arrival.recorded(before));
        assert(arrival.waiting(before) == Some(state));
        let action = state.process(cx.now(), tcp);
        if action == TimeWaitAction::Reopen && tcp.max_seg_size != Some(0u16) {
            if let Some(handle) = self.find_reopening(&state, meta, ip, tcp) {
                let socket = self.get_mut::<tcp::Socket>(handle);
                assert(arrival.handover(before, identity) == Some((&state, identity)));
                let _ = process(socket, cx, ip, tcp, Some((&state, identity)));
                if self.get::<tcp::Socket>(handle).state() == State::SynReceived {
                    self.retire(attached, detached);
                    return Ok(None);
                }
                let tx = state.meta();
                let reply = state.reply(cx.now(), tcp);
                self.store(attached, detached, state);
                return Ok(bind_reply(tx, reply));
            }
        }
        if action == TimeWaitAction::Remove {
            self.retire(attached, detached);
            // A genuinely expired entry must not block a new SYN.
            if state.expires.micros <= cx.now().micros {
                return Err(process);
            }
            return Ok(None);
        }
        let reply = if action == TimeWaitAction::Ignore {
            None
        } else {
            state.reply(cx.now(), tcp)
        };
        let tx = state.meta();
        self.store(attached, detached, state);
        Ok(bind_reply(tx, reply))
    }

    /// Processes a segment that came in, where it belongs to a connection of some socket or to one
    /// that has left its socket. Returns the answer to it, where there is one, and nothing where
    /// it belongs to no connection. `process` makes a single socket process the segment, and take
    /// over a state where there is one.
    pub fn process_tcp_sockets<P: FnOnce(
        &mut tcp::Socket,
        &Context,
        &IpRepr,
        &TcpRepr<'_>,
        Option<(&TimeWaitState, Option<u64>)>,
    ) -> Option<(IpRepr, TcpRepr<'static>)>>(
        &mut self,
        cx: &Context,
        meta: PacketMeta,
        ip: &IpRepr,
        tcp: &TcpRepr<'_>,
        process: P,
    ) -> (r: Option<Option<Reply>>)
        requires
            old(self).wf(),
            arrived(*cx, meta, *ip, *tcp).fits(old(self).snapshot()),
            forall|socket: &mut tcp::Socket, reuse: Option<(&TimeWaitState, Option<u64>)>|
                #[trigger] call_requires(process, (socket, cx, ip, tcp, reuse)),
        ensures
            final(self).wf(),
            old(self).aligned() ==> final(self).aligned(),
            ({
                let arrival = arrived(*cx, meta, *ip, *tcp);
                arrival.consulted(old(self).snapshot()) is None ==> arrival.settled(
                    old(self).snapshot(),
                    final(self).snapshot(),
                    r,
                )
            }),
            ({
                let arrival = arrived(*cx, meta, *ip, *tcp);
                arrival.consulted(old(self).snapshot()) matches Some(index) ==> exists|
                    socket: &mut tcp::Socket,
                    identity: Option<u64>,
                    reply: Option<(IpRepr, TcpRepr<'static>)>,
                |
                    {
                        &&& *socket == socket_at::<tcp::Socket>(
                            arrival.asked(old(self).snapshot()).slots,
                            index,
                        )
                        &&& arrival.identified(old(self).snapshot(), identity)
                        &&& #[trigger] call_ensures(
                            process,
                            (
                                socket,
                                cx,
                                ip,
                                tcp,
                                arrival.handover(old(self).snapshot(), identity),
                            ),
                            reply,
                        )
                        &&& arrival.outcome(
                            old(self).snapshot(),
                            *final(socket),
                            reply,
                            final(self).snapshot(),
                            r,
                        )
                    }
            }),
    {
        match self.offer_tcp(cx, meta, ip, tcp, process) {
            Ok(reply) => Some(reply),
            Err(_) => None,
        }
    }
}

impl<'t> Arrival<'t> {
    /// The connection in TIME-WAIT that the segment belongs to is still there: with its socket, or
    /// beside the sockets.
    pub open spec fn still_protected(self, before: Snapshot, after: Snapshot) -> bool {
        match (self.attached(before), self.detached(before)) {
            (Some(index), _) => tcp_at(after.slots, index) matches Some(socket) && socket.state
                == State::TimeWait && socket.time_wait is Some,
            (None, Some(key)) => after.protected.contains_key(key),
            (None, None) => true,
        }
    }

    /// No connection that has left its socket has gone or come.
    pub open spec fn same_protected_keys(self, before: Snapshot, after: Snapshot) -> bool {
        before.protected.dom() =~= after.protected.dom()
    }

    /// Every socket but that of the connection and the one at `other` is as it was.
    pub open spec fn others_untouched(
        self,
        before: Snapshot,
        after: Snapshot,
        other: Option<int>,
    ) -> bool {
        &&& before.slots.len() == after.slots.len()
        &&& forall|i: int|
            0 <= i < before.slots.len() && self.attached(before) != Some(i) && other != Some(i)
                ==> #[trigger] after.slots[i] == before.slots[i]
    }

    /// Recording the TIME-WAIT state of a socket changes nothing about who listens.
    pub proof fn lemma_recording_moves_no_listener(self, before: Snapshot, state: TimeWaitState)
        requires
            self.attached(before) matches Some(index) ==> holds::<tcp::Socket>(
                before.slots,
                index,
            ),
        ensures
            first_named(
                self.recorded(before).slots,
                reopens(state, self.meta, self.ip, self.tcp),
            ) == first_named(before.slots, reopens(state, self.meta, self.ip, self.tcp)),
    {
        let wanted = reopens(state, self.meta, self.ip, self.tcp);
        let after = self.recorded(before).slots;
        assert forall|i: int|
            #![trigger tcp_at(after, i)]
            #![trigger tcp_at(before.slots, i)]
            (tcp_at(after, i) matches Some(socket) && wanted(socket)) == (tcp_at(
                before.slots,
                i,
            ) matches Some(socket) && wanted(socket)) by {
            if self.attached(before) != Some(i) {
                assert(holds::<tcp::Socket>(after, i) == holds::<tcp::Socket>(before.slots, i));
            }
        }
        lemma_same_first(after, before.slots, wanted);
    }

    /// In an aligned set all handles lead to TCP sockets, and a listener on which a connection may
    /// be opened again is not the socket of that connection.
    pub proof fn aligned_handles_lead(self, before: Snapshot)
        requires
            aligned(before.slots),
        ensures
            self.leads(before),
            !self.is_live(before) && self.consulted(before) is Some ==> self.attached(before)
                != self.consulted(before),
    {
        aligned_handles_lead_back(before.slots, takes(self.meta, self.ip, self.tcp));
        if self.waiting(before) is Some {
            let state = self.waiting(before)->0.processed(self.now, self.tcp);
            self.lemma_recording_moves_no_listener(before, state);
            aligned_handles_lead_back(
                before.slots,
                reopens(state, self.meta, self.ip, self.tcp),
            );
        }
    }

    /// A segment that no socket has to process and that does not end the protection of its
    /// connection leaves that in TIME-WAIT, and every other socket untouched.
    pub proof fn unanswered_segment_keeps_protection(
        self,
        before: Snapshot,
        after: Snapshot,
        result: Option<Option<Reply>>,
    )
        requires
            self.leads(before),
            !self.is_live(before),
            self.waiting(before) matches Some(state) && state.action(self.now, self.tcp)
                != TimeWaitAction::Remove,
            self.consulted(before) is None,
            self.settled(before, after, result),
        ensures
            result is Some,
            self.still_protected(before, after),
            self.same_protected_keys(before, after),
            self.others_untouched(before, after, None),
            after.notified == before.notified,
    {
    }

    /// A segment with an old timestamp reaches no listener: no socket processes it, and its
    /// connection stays in TIME-WAIT.
    pub proof fn stale_segment_reaches_no_listener(
        self,
        before: Snapshot,
        after: Snapshot,
        result: Option<Option<Reply>>,
    )
        requires
            self.leads(before),
            !self.is_live(before),
            self.waiting(before) matches Some(state) && !state.is_expired(self.now) && paws_rejects(
                state.ts_recent,
                self.tcp,
                self.now,
            ),
            self.settled(before, after, result),
        ensures
            self.consulted(before) is None,
            result is Some,
            self.still_protected(before, after),
            self.same_protected_keys(before, after),
            self.others_untouched(before, after, None),
    {
        stale_segment_is_harmless(self.waiting(before)->0, self.now, self.tcp);
        self.unanswered_segment_keeps_protection(before, after, result);
    }

    /// What a segment is answered, where no socket has to process it, depends on the state of its
    /// connection alone, and not on whether the connection is still with its socket: what may come
    /// of it in one set may come of it in any other where the connection has the same state.
    pub proof fn attached_and_detached_connections_answer_alike(
        self,
        first: Snapshot,
        first_after: Snapshot,
        second: Snapshot,
        result: Option<Option<Reply>>,
    ) -> (second_after: Snapshot)
        requires
            !self.is_live(first),
            !self.is_live(second),
            self.waiting(first) == self.waiting(second),
            self.consulted(first) is None,
            self.consulted(second) is None,
            self.settled(first, first_after, result),
        ensures
            self.settled(second, second_after, result),
    {
        match self.waiting(second) {
            Some(state) => match state.action(self.now, self.tcp) {
                TimeWaitAction::Remove => self.ended(second, self.recorded(second)),
                TimeWaitAction::Ignore => self.recorded(second).with_state(
                    self.attached(second),
                    self.detached(second),
                    state.processed(self.now, self.tcp),
                ),
                TimeWaitAction::Ack | TimeWaitAction::Reopen => self.recorded(second).with_state(
                    self.attached(second),
                    self.detached(second),
                    state.processed(self.now, self.tcp).replied(self.now),
                ),
            },
            None => second,
        }
    }

    /// Where the listener does not accept the new connection, the old one stays in TIME-WAIT, and
    /// every other socket is untouched.
    pub proof fn refused_reopening_keeps_protection(
        self,
        before: Snapshot,
        accepted: tcp::Socket,
        reply: Option<(IpRepr, TcpRepr<'static>)>,
        after: Snapshot,
        result: Option<Option<Reply>>,
    )
        requires
            self.leads(before),
            !self.is_live(before),
            self.consulted(before) is Some,
            self.attached(before) != self.consulted(before),
            accepted.state != State::SynReceived,
            self.outcome(before, accepted, reply, after, result),
        ensures
            result is Some,
            self.still_protected(before, after),
            self.same_protected_keys(before, after),
            self.others_untouched(before, after, self.consulted(before)),
            after.notified == before.notified,
    {
    }

    /// Where the listener accepts the new connection, the old one is over, and no answer is sent.
    pub proof fn accepted_reopening_ends_the_old_connection(
        self,
        before: Snapshot,
        accepted: tcp::Socket,
        reply: Option<(IpRepr, TcpRepr<'static>)>,
        after: Snapshot,
        result: Option<Option<Reply>>,
    )
        requires
            self.leads(before),
            !self.is_live(before),
            self.consulted(before) is Some,
            self.attached(before) != self.consulted(before),
            accepted.state == State::SynReceived,
            self.outcome(before, accepted, reply, after, result),
        ensures
            result == Some(None::<Reply>),
            tcp_at(after.slots, self.consulted(before)->0) == Some(accepted),
            self.attached(before) matches Some(index) ==> (tcp_at(after.slots, index) matches Some(
                socket,
            ) && socket.state == State::Closed && socket.time_wait is None),
            self.detached(before) matches Some(key) ==> !after.protected.contains_key(key),
            self.others_untouched(before, after, self.consulted(before)),
    {
    }

    /// A segment for a connection that is not in TIME-WAIT concerns the socket of that connection
    /// alone.
    pub proof fn live_segment_concerns_one_socket(
        self,
        before: Snapshot,
        socket: tcp::Socket,
        reply: Option<(IpRepr, TcpRepr<'static>)>,
        after: Snapshot,
        result: Option<Option<Reply>>,
    )
        requires
            self.leads(before),
            self.is_live(before),
            self.outcome(before, socket, reply, after, result),
        ensures
            self.consulted(before) == self.attached(before),
            tcp_at(after.slots, self.consulted(before)->0) == Some(socket),
            self.others_untouched(before, after, None),
            after.protected == before.protected,
            after.notified == before.notified,
            result is Some,
            result->0 is Some <==> reply is Some,
    {
    }
}

} // verus!
