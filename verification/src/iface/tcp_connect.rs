//! Outgoing TCP connections, and what protects the endpoints that they ask for.
use crate::iface::interface::Context;
use crate::iface::socket_set::{aligned, holds, socket_at, SocketHandle, SocketSet};
use crate::iface::tcp_time_wait::{handle_at, tcp_at, Snapshot};
use crate::iface::time_wait_table::{found, holds_endpoints, holds_endpoints_twice, Key};
use crate::socket::tcp::time_wait::TimeWaitState;
use crate::socket::tcp;
use crate::socket::tcp::{
    identity_of, is_identity, ConnectError, LifecycleObserver, Notice, State, TimeWaitReuse,
};
use crate::time::Instant;
use crate::wire::ip::IpEndpoint;
use std::sync::Arc;
use vstd::prelude::*;

verus! {

/// A request for a connection: the space of the socket, the endpoints, the time and the way in
/// which endpoints may be taken over.
pub struct Request {
    pub index: int,
    pub remote: IpEndpoint,
    pub local: IpEndpoint,
    pub mode: TimeWaitReuse,
    pub now: Instant,
}

/// What opening a connection does beside: which connection of another socket it ends, the
/// protection of which connection it ends, which state it takes over, and who watched the connection
/// that it replaces.
pub struct Plan {
    pub attached: Option<SocketHandle>,
    pub detached: Option<Key>,
    pub reuse: Option<TimeWaitState>,
    pub identity: Option<u64>,
}

/// Where a handle leads, where there is one.
pub open spec fn place_of(handle: Option<SocketHandle>) -> Option<int> {
    match handle {
        Some(handle) => Some(handle.index()),
        None => None,
    }
}

/// Both endpoints have an address, of one version, and a port.
pub open spec fn addressable(local: IpEndpoint, remote: IpEndpoint) -> bool {
    &&& local.port != 0
    &&& remote.port != 0
    &&& !local.addr.spec_is_unspecified()
    &&& !remote.addr.spec_is_unspecified()
    &&& local.addr.spec_version() == remote.addr.spec_version()
}

/// Connections on two devices collide where the devices are the same or one of them is any.
pub open spec fn devices_collide(first: u32, second: u32) -> bool {
    first == 0 || second == 0 || first == second
}

/// The time is not over and the endpoints may not be taken over.
pub open spec fn is_guarded(state: TimeWaitState, now: Instant, mode: TimeWaitReuse) -> bool {
    !state.is_expired(now) && !state.spec_active_reuse(now, mode)
}

impl Request {
    /// The socket that is to be connected.
    pub open spec fn socket(self, before: Snapshot) -> tcp::Socket {
        socket_at::<tcp::Socket>(before.slots, self.index)
    }

    /// The device of the connection, or zero.
    pub open spec fn device(self, before: Snapshot) -> u32 {
        self.socket(before).spec_lifecycle_device()
    }

    /// The socket in a space, which records another handle, has a connection between the endpoints
    /// on a device that collides.
    pub open spec fn is_rival(self, before: Snapshot, index: int) -> bool {
        &&& handle_at(before.slots, index) != self.index
        &&& tcp_at(before.slots, index) matches Some(socket)
            && socket.spec_local_endpoint() == Some(self.local)
            && socket.spec_remote_endpoint() == Some(self.remote)
            && devices_collide(self.device(before), socket.spec_lifecycle_device())
    }

    /// Two other sockets have such a connection.
    pub open spec fn has_two_rivals(self, before: Snapshot) -> bool {
        exists|first: int, second: int|
            first < second && #[trigger] self.is_rival(before, first) && #[trigger] self.is_rival(
                before,
                second,
            )
    }

    /// Where the handle of the other socket that has such a connection leads, where there is one.
    pub open spec fn rival(self, before: Snapshot) -> Option<int> {
        if exists|index: int| self.is_rival(before, index) {
            Some(handle_at(before.slots, choose|index: int| self.is_rival(before, index)))
        } else {
            None
        }
    }

    /// Where it comes to a lone other socket, its handle leads to a TCP socket, as it does in every
    /// aligned set.
    pub open spec fn is_reachable(self, before: Snapshot) -> bool {
        !self.socket(before).spec_is_open() && addressable(self.local, self.remote)
            && !self.has_two_rivals(before) ==> (self.rival(before) matches Some(index) ==> holds::<
            tcp::Socket,
        >(before.slots, index))
    }

    /// Every request to an aligned set is reachable.
    pub proof fn aligned_requests_are_reachable(self, before: Snapshot)
        requires
            aligned(before.slots),
        ensures
            self.is_reachable(before),
    {
        if exists|index: int| self.is_rival(before, index) {
            let index = choose|index: int| self.is_rival(before, index);
            assert(self.is_rival(before, index));
        }
    }

    /// Connections that collide have left two sockets. A request for no particular device
    /// overlaps every device domain, not just device zero.
    pub open spec fn has_two_shadows(self, before: Snapshot) -> bool {
        self.device(before) == 0 && holds_endpoints_twice(
            before.protected,
            self.local,
            self.remote,
        )
    }

    /// The connection that collides and has left its socket, where there is one.
    pub open spec fn shadow(self, before: Snapshot) -> Option<Key> {
        if self.device(before) != 0 {
            found(before.protected, self.local, self.remote, self.device(before))
        } else if holds_endpoints(before.protected, self.local, self.remote) {
            Some(
                choose|key: Key| #[trigger]
                    before.protected.contains_key(key) && key.same_endpoints(
                        self.local,
                        self.remote,
                    ),
            )
        } else {
            None
        }
    }

    /// The other socket holds on to its connection.
    pub open spec fn rival_refuses(self, before: Snapshot) -> bool {
        self.rival(before) matches Some(index) && {
            let socket = socket_at::<tcp::Socket>(before.slots, index);
            ||| socket.state != State::TimeWait
            ||| match socket.time_wait {
                Some(state) => is_guarded(state, self.now, self.mode),
                None => true,
            }
        }
    }

    /// The connection that has left its socket is still protected.
    pub open spec fn shadow_refuses(self, before: Snapshot) -> bool {
        self.shadow(before) matches Some(key) && is_guarded(
            before.protected[key].state,
            self.now,
            self.mode,
        )
    }

    /// The state that the connection takes over: that of the connection it replaces, where the
    /// time of that is not over.
    pub open spec fn reuse(self, before: Snapshot) -> Option<TimeWaitState> {
        let state = match (self.rival(before), self.shadow(before)) {
            (Some(index), _) => socket_at::<tcp::Socket>(before.slots, index).time_wait,
            (None, Some(key)) => Some(before.protected[key].state),
            (None, None) => None,
        };
        match state {
            Some(state) if !state.is_expired(self.now) => Some(state),
            _ => None,
        }
    }

    /// Who watches the connection that is replaced.
    pub open spec fn replaced_observer(self, before: Snapshot) -> Option<
        Arc<dyn LifecycleObserver>,
    > {
        match (self.rival(before), self.shadow(before)) {
            (Some(index), _) => socket_at::<tcp::Socket>(before.slots, index).lifecycle_observer,
            (None, Some(key)) => before.protected[key].observer,
            (None, None) => None,
        }
    }

    /// What the observer of the socket, where there is one, may answer when it is asked about the
    /// connection and told who watches the one that is replaced.
    pub open spec fn may_be_allowed(self, before: Snapshot, answer: bool) -> bool {
        exists|replaced: Option<u64>| #[trigger]
            is_identity(self.replaced_observer(before), replaced) && self.socket(
                before,
            ).may_be_allowed(self.local, self.remote, replaced, answer)
    }

    /// The endpoints are taken: by two connections, by one that may not be replaced, or by one
    /// whose timestamps the socket could not continue.
    pub open spec fn in_use(self, before: Snapshot) -> bool {
        ||| self.has_two_rivals(before)
        ||| self.rival_refuses(before)
        ||| self.has_two_shadows(before)
        ||| self.rival(before) is Some && self.shadow(before) is Some
        ||| self.shadow_refuses(before)
        ||| self.reuse(before) is Some && self.socket(before).configured_tsval_generator is None
    }

    /// Why the request is refused, where it is.
    pub open spec fn refusal(self, before: Snapshot) -> Option<ConnectError> {
        if self.socket(before).spec_is_open() {
            Some(ConnectError::InvalidState)
        } else if !addressable(self.local, self.remote) {
            Some(ConnectError::Unaddressable)
        } else if self.in_use(before) {
            Some(ConnectError::AddressInUse)
        } else {
            None
        }
    }

    /// The plan that the request calls for.
    pub open spec fn is_plan(self, before: Snapshot, plan: Plan) -> bool {
        &&& place_of(plan.attached) == self.rival(before)
        &&& plan.detached == self.shadow(before)
        &&& plan.reuse == self.reuse(before)
        &&& is_identity(self.replaced_observer(before), plan.identity)
    }

    /// What the set holds after the socket became `opened`: the connection that it replaces is
    /// over.
    pub open spec fn connected(self, before: Snapshot, opened: tcp::Socket) -> Snapshot {
        before.with_socket(self.index, opened).retire_attached(self.rival(before)).retire_detached(
            self.shadow(before),
        )
    }

    /// A lone rival is the rival.
    pub proof fn lemma_rival(self, before: Snapshot, index: int)
        requires
            self.is_rival(before, index),
            !self.has_two_rivals(before),
        ensures
            self.rival(before) == Some(handle_at(before.slots, index)),
    {
        let chosen = choose|index: int| self.is_rival(before, index);
        assert(self.is_rival(before, chosen));
        if chosen < index {
            assert(self.has_two_rivals(before));
        } else if index < chosen {
            assert(self.has_two_rivals(before));
        }
    }

    /// A lone shadow is the shadow.
    pub proof fn lemma_shadow(self, before: Snapshot, key: Key)
        requires
            before.protected.contains_key(key),
            key.same_endpoints(self.local, self.remote),
            self.device(before) == 0,
            !self.has_two_shadows(before),
        ensures
            self.shadow(before) == Some(key),
    {
        assert(holds_endpoints(before.protected, self.local, self.remote));
        let chosen = choose|key: Key| #[trigger]
            before.protected.contains_key(key) && key.same_endpoints(self.local, self.remote);
        assert(before.protected.contains_key(chosen));
    }
}

/// The state handed on by reference, where there is one.
pub open spec fn lent(state: Option<TimeWaitState>) -> Option<&'static TimeWaitState> {
    match state {
        Some(state) => Some(&state),
        None => None,
    }
}

impl<'a> SocketSet<'a> {
    /// The other sockets with a connection that collides: the handle of the first one, and whether
    /// there is another.
    fn find_rivals(
        &self,
        handle: SocketHandle,
        local: IpEndpoint,
        remote: IpEndpoint,
        Ghost(request): Ghost<Request>,
    ) -> (r: (Option<SocketHandle>, bool))
        requires
            holds::<tcp::Socket>(self@, handle.index()),
            request.index == handle.index(),
            request.local == local,
            request.remote == remote,
        ensures
            r.1 == request.has_two_rivals(self.snapshot()),
            !r.1 ==> place_of(r.0) == request.rival(self.snapshot()),
    {
        let ghost before = self.snapshot();
        let device: u32 = self.get::<tcp::Socket>(handle).lifecycle_device();
        let own: usize = handle.place();
        let count: usize = self.slot_count();
        let mut first: Option<SocketHandle> = None;
        let ghost mut found: int = 0;
        let mut second = false;
        let mut index: usize = 0;
        while index < count
            invariant
                index <= count,
                count == self@.len(),
                before == self.snapshot(),
                own == request.index,
                device == request.device(before),
                request.local == local,
                request.remote == remote,
                match first {
                    Some(named) => {
                        &&& 0 <= found < index
                        &&& named.index() == handle_at(before.slots, found)
                        &&& request.is_rival(before, found)
                        &&& second == exists|i: int|
                            found < i < index && #[trigger] request.is_rival(before, i)
                        &&& forall|i: int|
                            0 <= i < index && #[trigger] request.is_rival(before, i) ==> i >= found
                    },
                    None => {
                        &&& !second
                        &&& forall|i: int| 0 <= i < index ==> !#[trigger] request.is_rival(before, i)
                    },
                },
            decreases count - index,
        {
            let rival = match self.tcp_item(index) {
                Some((named, socket)) => {
                    let theirs: u32 = socket.lifecycle_device();
                    if named.place() != own && socket.local_endpoint() == Some(local)
                        && socket.remote_endpoint() == Some(remote) && (device == 0 || theirs == 0
                        || theirs == device) {
                        Some(named)
                    } else {
                        None
                    }
                },
                None => None,
            };
            assert(rival is Some == request.is_rival(before, index as int));
            if rival.is_some() {
                if first.is_none() {
                    first = rival;
                    proof {
                        found = index as int;
                    }
                } else {
                    second = true;
                }
            }
            index = index + 1;
        }
        proof {
            assert forall|i: int| #[trigger] request.is_rival(before, i) implies 0 <= i < count by {
            }
            if request.has_two_rivals(before) {
                let (i, j) = choose|i: int, j: int|
                    i < j && #[trigger] request.is_rival(before, i) && #[trigger] request.is_rival(
                        before,
                        j,
                    );
                assert(request.is_rival(before, i) && request.is_rival(before, j));
                assert(second);
            } else if first is Some {
                request.lemma_rival(before, found);
            }
        }
        (first, second)
    }

    /// The request to connect a socket of this set.
    pub open spec fn request(
        handle: SocketHandle,
        cx: Context,
        remote: IpEndpoint,
        local: IpEndpoint,
        mode: TimeWaitReuse,
    ) -> Request {
        Request { index: handle.index(), remote, local, mode, now: cx.now }
    }

    /// Whether the handle of a lone other socket with a connection that collides, where it comes to
    /// that, leads to a TCP socket.
    pub fn can_connect_tcp(
        &self,
        handle: SocketHandle,
        cx: &Context,
        remote: IpEndpoint,
        local: IpEndpoint,
        mode: TimeWaitReuse,
    ) -> (r: bool)
        requires
            holds::<tcp::Socket>(self@, handle.index()),
        ensures
            r == SocketSet::request(handle, *cx, remote, local, mode).is_reachable(
                self.snapshot(),
            ),
    {
        let ghost request = SocketSet::request(handle, *cx, remote, local, mode);
        if self.get::<tcp::Socket>(handle).is_open() || local.port == 0 || remote.port == 0
            || local.addr.is_unspecified() || remote.addr.is_unspecified() || local.addr.version()
            != remote.addr.version() {
            return true;
        }
        let (attached, more) = self.find_rivals(handle, local, remote, Ghost(request));
        match attached {
            Some(h) => more || self.contains::<tcp::Socket>(h),
            None => true,
        }
    }

    /// Decides whether a socket can be connected, and what that does beside.
    pub fn plan_connect(
        &self,
        handle: SocketHandle,
        cx: &Context,
        remote: IpEndpoint,
        local: IpEndpoint,
        mode: TimeWaitReuse,
    ) -> (r: Result<Plan, ConnectError>)
        requires
            self.wf(),
            holds::<tcp::Socket>(self@, handle.index()),
            SocketSet::request(handle, *cx, remote, local, mode).is_reachable(self.snapshot()),
        ensures
            ({
                let request = SocketSet::request(handle, *cx, remote, local, mode);
                match r {
                    Ok(plan) => {
                        &&& request.refusal(self.snapshot()) is None
                        &&& request.is_plan(self.snapshot(), plan)
                    },
                    Err(err) => request.refusal(self.snapshot()) == Some(err),
                }
            }),
    {
        let ghost request = SocketSet::request(handle, *cx, remote, local, mode);
        let ghost before = self.snapshot();
        let socket = self.get::<tcp::Socket>(handle);
        if socket.is_open() {
            return Err(ConnectError::InvalidState);
        }
        if local.port == 0 || remote.port == 0 || local.addr.is_unspecified()
            || remote.addr.is_unspecified() || local.addr.version() != remote.addr.version() {
            return Err(ConnectError::Unaddressable);
        }
        let device: u32 = socket.lifecycle_device();
        let (attached, more) = self.find_rivals(handle, local, remote, Ghost(request));
        if more {
            return Err(ConnectError::AddressInUse);
        }
        let mut reuse: Option<TimeWaitState> = None;
        let mut identity: Option<u64> = None;
        if let Some(h) = attached {
            let old = self.get::<tcp::Socket>(h);
            if old.state() != State::TimeWait {
                return Err(ConnectError::AddressInUse);
            }
            match &old.time_wait {
                Some(state) => {
                    if state.expires.micros > cx.now().micros {
                        if !state.active_reuse(cx.now(), mode) {
                            return Err(ConnectError::AddressInUse);
                        }
                        reuse = Some(state.clone());
                    }
                },
                None => {
                    return Err(ConnectError::AddressInUse);
                },
            }
            identity = old.lifecycle_identity();
        }
        // Unbound sockets overlap every device domain, not just device zero.
        let detached = if device == 0 {
            let (key, more) = self.time_wait().find_any(local, remote);
            if more {
                return Err(ConnectError::AddressInUse);
            }
            proof {
                if key is Some {
                    request.lemma_shadow(before, key->0);
                }
            }
            key
        } else {
            self.time_wait().find(local, remote, device)
        };
        assert(detached == request.shadow(before));
        if attached.is_some() && detached.is_some() {
            return Err(ConnectError::AddressInUse);
        }
        if let Some(key) = detached {
            match self.time_wait().get(&key) {
                Some(old) => {
                    if old.state.expires.micros > cx.now().micros {
                        if !old.state.active_reuse(cx.now(), mode) {
                            return Err(ConnectError::AddressInUse);
                        }
                        reuse = Some(old.state.clone());
                    }
                    identity = identity_of(&old.observer);
                },
                None => {},
            }
        }
        assert(reuse == request.reuse(before));
        if reuse.is_some() && !self.get::<tcp::Socket>(handle).timestamp_configured() {
            return Err(ConnectError::AddressInUse);
        }
        Ok(Plan { attached, detached, reuse, identity })
    }

    /// Ends the connection of a socket, where one is named, and the protection of a connection
    /// that has left its socket, where one is named.
    pub(crate) fn retire(&mut self, attached: Option<SocketHandle>, detached: Option<Key>)
        requires
            old(self).wf(),
            attached matches Some(handle) ==> holds::<tcp::Socket>(old(self)@, handle.index()),
            detached matches Some(key) ==> old(self).protected().contains_key(key),
        ensures
            final(self).wf(),
            final(self).snapshot() == old(self).snapshot().retire_attached(
                place_of(attached),
            ).retire_detached(detached),
            old(self).aligned() ==> final(self).aligned(),
    {
        if let Some(handle) = attached {
            let mut note: Ghost<Seq<Notice>> = Ghost(Seq::empty());
            self.get_mut::<tcp::Socket>(handle).retire_time_wait(&mut note);
            let log = self.log_mut();
            proof {
                *log.borrow_mut() = log@ + note@;
            }
        }
        if let Some(key) = detached {
            match self.time_wait_mut().remove(key) {
                Some(entry) => {
                    entry.retire(self.log_mut());
                },
                None => {},
            }
        }
    }

    /// Opens a connection as planned, where its observer lets it open. `open` opens the
    /// connection of the socket from `local` to `remote`, and takes over a state where there
    /// is one.
    pub fn finish_connect<F: FnOnce(
        &mut tcp::Socket,
        &Context,
        IpEndpoint,
        IpEndpoint,
        Option<&TimeWaitState>,
    )>(
        &mut self,
        handle: SocketHandle,
        cx: &Context,
        remote: IpEndpoint,
        local: IpEndpoint,
        mode: TimeWaitReuse,
        plan: Plan,
        allowed: bool,
        open: F,
    ) -> (r: Result<(), ConnectError>)
        requires
            old(self).wf(),
            holds::<tcp::Socket>(old(self)@, handle.index()),
            SocketSet::request(handle, *cx, remote, local, mode).is_reachable(
                old(self).snapshot(),
            ),
            SocketSet::request(handle, *cx, remote, local, mode).refusal(old(self).snapshot())
                is None,
            SocketSet::request(handle, *cx, remote, local, mode).is_plan(
                old(self).snapshot(),
                plan,
            ),
            forall|socket: &mut tcp::Socket, reuse: Option<&TimeWaitState>| #[trigger]
                call_requires(open, (socket, cx, local, remote, reuse)),
        ensures
            final(self).wf(),
            old(self).aligned() ==> final(self).aligned(),
            r == if allowed {
                Ok::<(), ConnectError>(())
            } else {
                Err(ConnectError::AddressInUse)
            },
            !allowed ==> final(self).snapshot() == old(self).snapshot(),
            allowed ==> {
                let request = SocketSet::request(handle, *cx, remote, local, mode);
                exists|socket: &mut tcp::Socket|
                    {
                        &&& *socket == request.socket(old(self).snapshot())
                        &&& #[trigger] call_ensures(
                            open,
                            (socket, cx, local, remote, lent(plan.reuse)),
                            (),
                        )
                        &&& final(self).snapshot() == request.connected(
                            old(self).snapshot(),
                            *final(socket),
                        )
                    }
            },
    {
        if !allowed {
            return Err(ConnectError::AddressInUse);
        }
        let ghost request = SocketSet::request(handle, *cx, remote, local, mode);
        let ghost before = self.snapshot();
        // No ordinary failure is possible after the identity preparation.
        let socket = self.get_mut::<tcp::Socket>(handle);
        open(socket, cx, local, remote, plan.reuse.as_ref());
        self.retire(plan.attached, plan.detached);
        Ok(())
    }

    /// Atomically validate/open an outgoing TCP connection, including existing
    /// TIME-WAIT protection. The caller supplies a concrete selected source, and in `open` what
    /// opens the connection of a socket.
    pub fn connect_tcp<F: FnOnce(
        &mut tcp::Socket,
        &Context,
        IpEndpoint,
        IpEndpoint,
        Option<&TimeWaitState>,
    )>(
        &mut self,
        handle: SocketHandle,
        cx: &Context,
        remote: IpEndpoint,
        local: IpEndpoint,
        mode: TimeWaitReuse,
        open: F,
    ) -> (r: Result<(), ConnectError>)
        requires
            old(self).wf(),
            holds::<tcp::Socket>(old(self)@, handle.index()),
            SocketSet::request(handle, *cx, remote, local, mode).is_reachable(
                old(self).snapshot(),
            ),
            forall|socket: &mut tcp::Socket, reuse: Option<&TimeWaitState>| #[trigger]
                call_requires(open, (socket, cx, local, remote, reuse)),
        ensures
            final(self).wf(),
            old(self).aligned() ==> final(self).aligned(),
            ({
                let request = SocketSet::request(handle, *cx, remote, local, mode);
                match request.refusal(old(self).snapshot()) {
                    Some(err) => r == Err::<(), ConnectError>(err),
                    None => {
                        &&& r is Err ==> r == Err::<(), ConnectError>(ConnectError::AddressInUse)
                        &&& request.may_be_allowed(old(self).snapshot(), r is Ok)
                    },
                }
            }),
            r is Err ==> final(self).snapshot() == old(self).snapshot(),
            r is Ok ==> {
                let request = SocketSet::request(handle, *cx, remote, local, mode);
                exists|socket: &mut tcp::Socket|
                    {
                        &&& *socket == request.socket(old(self).snapshot())
                        &&& #[trigger] call_ensures(
                            open,
                            (
                                socket,
                                cx,
                                local,
                                remote,
                                lent(request.reuse(old(self).snapshot())),
                            ),
                            (),
                        )
                        &&& final(self).snapshot() == request.connected(
                            old(self).snapshot(),
                            *final(socket),
                        )
                    }
            },
    {
        let plan = match self.plan_connect(handle, cx, remote, local, mode) {
            Ok(plan) => plan,
            Err(err) => {
                return Err(err);
            },
        };
        let allowed = self.get::<tcp::Socket>(handle).prepare_open(local, remote, plan.identity);
        self.finish_connect(handle, cx, remote, local, mode, plan, allowed, open)
    }
}

impl Request {
    /// A connection that is not in TIME-WAIT is never displaced by an outgoing one.
    pub proof fn live_connection_is_never_displaced(self, before: Snapshot, index: int)
        requires
            self.is_rival(before, index),
            handle_at(before.slots, index) == index,
            socket_at::<tcp::Socket>(before.slots, index).state != State::TimeWait,
        ensures
            self.refusal(before) is Some,
            !self.socket(before).spec_is_open() && addressable(self.local, self.remote)
                ==> self.refusal(before) == Some(ConnectError::AddressInUse),
    {
        if !self.has_two_rivals(before) {
            self.lemma_rival(before, index);
        }
    }

    /// A connection whose time is not over is taken over only from one that used timestamps, by a
    /// socket that offers timestamps.
    pub proof fn unexpired_protection_yields_to_timestamps_only(self, before: Snapshot)
        requires
            self.refusal(before) is None,
            self.reuse(before) is Some,
        ensures
            self.reuse(before)->0.spec_active_reuse(self.now, self.mode),
            self.reuse(before)->0.ts_generator is Some,
            self.reuse(before)->0.ts_recent is Some,
            self.socket(before).configured_tsval_generator is Some,
    {
    }

    /// Once the connection is open, no other socket has a connection between its endpoints on a
    /// device that collides, and the protection that it replaced is over. A connection on no
    /// particular device leaves no protection of its endpoints behind at all. The sockets that have
    /// a connection between the endpoints have to record the handles of their own spaces.
    pub proof fn open_connection_owns_its_endpoints(self, before: Snapshot, opened: tcp::Socket)
        requires
            forall|i: int|
                #[trigger] tcp_at(before.slots, i) matches Some(socket)
                    && socket.spec_local_endpoint() == Some(self.local)
                    && socket.spec_remote_endpoint() == Some(self.remote) ==> handle_at(
                    before.slots,
                    i,
                ) == i,
            self.refusal(before) is None,
            holds::<tcp::Socket>(before.slots, self.index),
        ensures
            ({
                let after = self.connected(before, opened);
                &&& tcp_at(after.slots, self.index) == Some(opened)
                &&& forall|i: int|
                    i != self.index ==> !(#[trigger] tcp_at(after.slots, i) matches Some(socket)
                        && socket.spec_local_endpoint() == Some(self.local)
                        && socket.spec_remote_endpoint() == Some(self.remote) && devices_collide(
                        self.device(before),
                        socket.spec_lifecycle_device(),
                    ))
                &&& self.shadow(before) matches Some(key) ==> !after.protected.contains_key(key)
                &&& self.device(before) == 0 ==> !holds_endpoints(
                    after.protected,
                    self.local,
                    self.remote,
                )
            }),
    {
        let after = self.connected(before, opened);
        if self.rival(before) is Some {
            let index = choose|index: int| self.is_rival(before, index);
            assert(self.is_rival(before, index));
            assert(tcp_at(before.slots, index) is Some);
            assert(handle_at(before.slots, index) == index);
        }
        assert forall|i: int| i != self.index implies !(#[trigger] tcp_at(after.slots, i) matches Some(
            socket,
        ) && socket.spec_local_endpoint() == Some(self.local) && socket.spec_remote_endpoint()
            == Some(self.remote) && devices_collide(
            self.device(before),
            socket.spec_lifecycle_device(),
        )) by {
            if self.rival(before) != Some(i) {
                assert(tcp_at(after.slots, i) == tcp_at(before.slots, i));
                if self.is_rival(before, i) {
                    self.lemma_rival(before, i);
                }
            }
        }
        if self.device(before) == 0 && holds_endpoints(after.protected, self.local, self.remote) {
            let key = choose|key: Key| #[trigger]
                after.protected.contains_key(key) && key.same_endpoints(self.local, self.remote);
            assert(before.protected.contains_key(key));
            self.lemma_shadow(before, key);
        }
    }
}

} // verus!
