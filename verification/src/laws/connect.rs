//! Laws of outgoing connections.
use crate::iface::interface::Context;
use crate::iface::socket_set::{Item, SocketHandle, SocketSet};
use crate::iface::tcp_connect::{lent, place_of, Plan, Request};
use crate::iface::tcp_time_wait::{tcp_at, Snapshot};
use crate::iface::time_wait_table::{Entry, Key};
use crate::laws::sets::{identifies, is_over, lemma_over, names, tcp_in, with_tcp};
use crate::laws::time_wait::{lemma_may_reuse, may_reuse};
use crate::socket::tcp;
use crate::socket::tcp::time_wait::TimeWaitState;
use crate::socket::tcp::{ConnectError, LifecycleObserver, State, TimeWaitReuse};
use crate::time::Instant;
use crate::wire::ip::{IpAddress, IpEndpoint};
use std::sync::Arc;
use vstd::prelude::*;

verus! {

/// The address is another than the unspecified one.
pub open spec fn is_concrete_addr(addr: IpAddress) -> bool {
    &&& addr matches IpAddress::Ipv4(addr) ==> addr.bits != 0
    &&& addr matches IpAddress::Ipv6(addr) ==> addr.bits != 0
}

/// The endpoint has a port and an address other than the unspecified one.
pub open spec fn is_concrete(endpoint: IpEndpoint) -> bool {
    endpoint.port != 0 && is_concrete_addr(endpoint.addr)
}

/// The endpoints can be those of one connection.
pub open spec fn can_be_joined(local: IpEndpoint, remote: IpEndpoint) -> bool {
    &&& is_concrete(local)
    &&& is_concrete(remote)
    &&& local.addr is Ipv4 <==> remote.addr is Ipv4
}

/// The socket can be connected: it is closed or in TIME-WAIT.
pub open spec fn is_idle(socket: tcp::Socket) -> bool {
    socket.state == State::Closed || socket.state == State::TimeWait
}

/// The socket in a space is another than the one at `own`, and has a connection between the
/// endpoints, where the devices are the same or one of them is any.
pub open spec fn contends(
    slots: Seq<Option<Item>>,
    own: int,
    local: IpEndpoint,
    remote: IpEndpoint,
    index: int,
) -> bool {
    &&& tcp_in(slots, index) is Some
    &&& names(slots, index) != own
    &&& (tcp_in(slots, index)->0).tuple is Some
    &&& ((tcp_in(slots, index)->0).tuple->0).local == local
    &&& ((tcp_in(slots, index)->0).tuple->0).remote == remote
    &&& {
        let ours = (tcp_in(slots, own)->0).connection_bound_device;
        let theirs = (tcp_in(slots, index)->0).connection_bound_device;
        ours == 0 || theirs == 0 || ours == theirs
    }
}

/// No other socket has such a connection.
pub open spec fn is_uncontended(
    slots: Seq<Option<Item>>,
    own: int,
    local: IpEndpoint,
    remote: IpEndpoint,
) -> bool {
    forall|index: int| !#[trigger] contends(slots, own, local, remote, index)
}

/// One other socket alone has such a connection.
pub open spec fn contends_alone(
    slots: Seq<Option<Item>>,
    own: int,
    local: IpEndpoint,
    remote: IpEndpoint,
    index: int,
) -> bool {
    &&& contends(slots, own, local, remote, index)
    &&& forall|other: int| #[trigger] contends(slots, own, local, remote, other) ==> other == index
}

/// A connection between the endpoints has left its socket and counts for the device: any does for no
/// particular device, and for a device that of the device, or else that of no device.
pub open spec fn shadows(
    table: Map<Key, Entry>,
    device: u32,
    local: IpEndpoint,
    remote: IpEndpoint,
    key: Key,
) -> bool {
    &&& table.contains_key(key)
    &&& key.local == local
    &&& key.remote == remote
    &&& {
        ||| device == 0
        ||| key.device == device
        ||| key.device == 0 && !table.contains_key(Key { local, remote, device })
    }
}

/// No connection that has left its socket counts.
pub open spec fn is_unshadowed(
    table: Map<Key, Entry>,
    device: u32,
    local: IpEndpoint,
    remote: IpEndpoint,
) -> bool {
    forall|key: Key| #[trigger]
        table.contains_key(key) ==> !shadows(table, device, local, remote, key)
}

/// One connection that has left its socket alone counts.
pub open spec fn shadows_alone(
    table: Map<Key, Entry>,
    device: u32,
    local: IpEndpoint,
    remote: IpEndpoint,
    key: Key,
) -> bool {
    &&& shadows(table, device, local, remote, key)
    &&& forall|other: Key| #[trigger]
        table.contains_key(other) && shadows(table, device, local, remote, other) ==> other == key
}

/// The time of a connection is over, or its endpoints may be taken over by a socket that can continue
/// its timestamps.
pub open spec fn gives_way(
    state: TimeWaitState,
    now: Instant,
    mode: TimeWaitReuse,
    socket: tcp::Socket,
) -> bool {
    ||| state.expires.micros <= now.micros
    ||| may_reuse(state, now, mode) && socket.configured_tsval_generator is Some
}

/// What is handed over of a connection that gives way: its state, while its time is not over.
pub open spec fn hands_over(
    state: TimeWaitState,
    now: Instant,
    reuse: Option<TimeWaitState>,
) -> bool {
    if state.expires.micros <= now.micros {
        reuse is None
    } else {
        reuse == Some(state)
    }
}

pub proof fn lemma_rivals(request: Request, before: Snapshot)
    requires
        tcp_in(before.slots, request.index) is Some,
    ensures
        forall|i: int|
            #![trigger request.is_rival(before, i)]
            #![trigger contends(before.slots, request.index, request.local, request.remote, i)]
            request.is_rival(before, i) <==> contends(
                before.slots,
                request.index,
                request.local,
                request.remote,
                i,
            ),
{
    assert(tcp_at(before.slots, request.index) == tcp_in(before.slots, request.index));
    assert forall|i: int|
        #![trigger request.is_rival(before, i)]
        #![trigger contends(before.slots, request.index, request.local, request.remote, i)]
        request.is_rival(before, i) <==> contends(
            before.slots,
            request.index,
            request.local,
            request.remote,
            i,
        ) by {
        assert(tcp_at(before.slots, i) == tcp_in(before.slots, i));
    }
}

proof fn lemma_shadows(request: Request, before: Snapshot, key: Key)
    requires
        tcp_in(before.slots, request.index) is Some,
        shadows_alone(
            before.protected,
            request.device(before),
            request.local,
            request.remote,
            key,
        ),
    ensures
        !request.has_two_shadows(before),
        request.shadow(before) == Some(key),
{
    let device = request.device(before);
    if device == 0 {
        if request.has_two_shadows(before) {
            let (a, b) = choose|a: Key, b: Key|
                #![trigger before.protected.contains_key(a), before.protected.contains_key(b)]
                before.protected.contains_key(a) && before.protected.contains_key(b) && a != b
                    && a.same_endpoints(request.local, request.remote) && b.same_endpoints(
                    request.local,
                    request.remote,
                );
            assert(before.protected.contains_key(a) && shadows(
                before.protected,
                device,
                request.local,
                request.remote,
                a,
            ));
            assert(before.protected.contains_key(b) && shadows(
                before.protected,
                device,
                request.local,
                request.remote,
                b,
            ));
        }
        request.lemma_shadow(before, key);
    }
}

proof fn lemma_no_shadow(request: Request, before: Snapshot)
    requires
        tcp_in(before.slots, request.index) is Some,
        is_unshadowed(before.protected, request.device(before), request.local, request.remote),
    ensures
        !request.has_two_shadows(before),
        request.shadow(before) is None,
{
    let device = request.device(before);
    let exact = Key { local: request.local, remote: request.remote, device };
    let any = Key { local: request.local, remote: request.remote, device: 0 };
    assert(before.protected.contains_key(exact) ==> !shadows(
        before.protected,
        device,
        request.local,
        request.remote,
        exact,
    ));
    assert(before.protected.contains_key(any) ==> !shadows(
        before.protected,
        device,
        request.local,
        request.remote,
        any,
    ));
}

proof fn lemma_some_shadow(request: Request, before: Snapshot, key: Key)
    requires
        tcp_in(before.slots, request.index) is Some,
        shadows(before.protected, request.device(before), request.local, request.remote, key),
    ensures
        request.shadow(before) is Some,
{
    assert(before.protected.contains_key(key));
}

/// A socket that is open is not connected again, and endpoints that cannot be joined are refused.
pub proof fn open_sockets_are_not_connected(
    set: &SocketSet<'_>,
    handle: SocketHandle,
    cx: &Context,
    remote: IpEndpoint,
    local: IpEndpoint,
    mode: TimeWaitReuse,
    r: Result<Plan, ConnectError>,
)
    requires
        call_ensures(SocketSet::plan_connect, (set, handle, cx, remote, local, mode), r),
        tcp_in(set@, handle.index()) is Some,
    ensures
        r == Err::<Plan, ConnectError>(ConnectError::InvalidState) <==> !is_idle(
            tcp_in(set@, handle.index())->0,
        ),
        r == Err::<Plan, ConnectError>(ConnectError::Unaddressable) <==> is_idle(
            tcp_in(set@, handle.index())->0,
        ) && !can_be_joined(local, remote),
{
}

/// Where two other sockets have a connection that collides, a third is refused.
pub proof fn two_contenders_refuse(
    set: &SocketSet<'_>,
    handle: SocketHandle,
    cx: &Context,
    remote: IpEndpoint,
    local: IpEndpoint,
    mode: TimeWaitReuse,
    r: Result<Plan, ConnectError>,
    first: int,
    second: int,
)
    requires
        call_ensures(SocketSet::plan_connect, (set, handle, cx, remote, local, mode), r),
        tcp_in(set@, handle.index()) is Some,
        is_idle(tcp_in(set@, handle.index())->0),
        can_be_joined(local, remote),
        first != second,
        contends(set@, handle.index(), local, remote, first),
        contends(set@, handle.index(), local, remote, second),
    ensures
        r == Err::<Plan, ConnectError>(ConnectError::AddressInUse),
{
    let request = SocketSet::request(handle, *cx, remote, local, mode);
    lemma_rivals(request, set.snapshot());
    assert(request.is_rival(set.snapshot(), first));
    assert(request.is_rival(set.snapshot(), second));
}

/// A lone other socket with a connection that collides gives way where it is in TIME-WAIT, its time is
/// over or its endpoints may be taken over, and no connection that has left its socket counts beside.
/// Then its handle is in the plan, and its state is handed over while its time is not over. Otherwise
/// the request is refused.
pub proof fn lone_contender_decides(
    set: &SocketSet<'_>,
    handle: SocketHandle,
    cx: &Context,
    remote: IpEndpoint,
    local: IpEndpoint,
    mode: TimeWaitReuse,
    r: Result<Plan, ConnectError>,
    index: int,
)
    requires
        call_ensures(SocketSet::plan_connect, (set, handle, cx, remote, local, mode), r),
        tcp_in(set@, handle.index()) is Some,
        is_idle(tcp_in(set@, handle.index())->0),
        can_be_joined(local, remote),
        contends_alone(set@, handle.index(), local, remote, index),
        tcp_in(set@, names(set@, index)) is Some,
    ensures
        ({
            let ours = tcp_in(set@, handle.index())->0;
            let theirs = tcp_in(set@, names(set@, index))->0;
            &&& r is Ok <==> {
                &&& theirs.state == State::TimeWait
                &&& theirs.time_wait is Some
                &&& gives_way(theirs.time_wait->0, cx.now, mode, ours)
                &&& is_unshadowed(set.protected(), ours.connection_bound_device, local, remote)
            }
            &&& r is Err ==> r->Err_0 == ConnectError::AddressInUse
            &&& r is Ok ==> {
                &&& r->Ok_0.attached is Some
                &&& (r->Ok_0.attached->0).index() == names(set@, index)
                &&& r->Ok_0.detached is None
                &&& hands_over(theirs.time_wait->0, cx.now, r->Ok_0.reuse)
                &&& identifies(theirs.lifecycle_observer, r->Ok_0.identity)
            }
        }),
{
    let request = SocketSet::request(handle, *cx, remote, local, mode);
    let before = set.snapshot();
    let ours = tcp_in(set@, handle.index())->0;
    let theirs = tcp_in(set@, names(set@, index))->0;
    lemma_rivals(request, before);
    assert(request.is_rival(before, index));
    if request.has_two_rivals(before) {
        let (a, b) = choose|a: int, b: int|
            a < b && #[trigger] request.is_rival(before, a) && #[trigger] request.is_rival(before, b);
        assert(request.is_rival(before, a) && request.is_rival(before, b));
    }
    request.lemma_rival(before, index);
    if theirs.time_wait is Some {
        lemma_may_reuse(theirs.time_wait->0, cx.now, mode);
    }
    if is_unshadowed(set.protected(), ours.connection_bound_device, local, remote) {
        lemma_no_shadow(request, before);
    } else {
        let key = choose|key: Key| #[trigger]
            before.protected.contains_key(key) && shadows(
                before.protected,
                ours.connection_bound_device,
                local,
                remote,
                key,
            );
        lemma_some_shadow(request, before, key);
    }
}

/// Where no other socket has a connection that collides, a lone connection that has left its socket
/// and counts decides in the same way.
pub proof fn lone_shadow_decides(
    set: &SocketSet<'_>,
    handle: SocketHandle,
    cx: &Context,
    remote: IpEndpoint,
    local: IpEndpoint,
    mode: TimeWaitReuse,
    r: Result<Plan, ConnectError>,
    key: Key,
)
    requires
        call_ensures(SocketSet::plan_connect, (set, handle, cx, remote, local, mode), r),
        tcp_in(set@, handle.index()) is Some,
        is_idle(tcp_in(set@, handle.index())->0),
        can_be_joined(local, remote),
        is_uncontended(set@, handle.index(), local, remote),
        shadows_alone(
            set.protected(),
            (tcp_in(set@, handle.index())->0).connection_bound_device,
            local,
            remote,
            key,
        ),
    ensures
        ({
            let ours = tcp_in(set@, handle.index())->0;
            let theirs = set.protected()[key];
            &&& r is Ok <==> gives_way(theirs.state, cx.now, mode, ours)
            &&& r is Err ==> r->Err_0 == ConnectError::AddressInUse
            &&& r is Ok ==> {
                &&& r->Ok_0.attached is None
                &&& r->Ok_0.detached == Some(key)
                &&& hands_over(theirs.state, cx.now, r->Ok_0.reuse)
                &&& identifies(theirs.observer, r->Ok_0.identity)
            }
        }),
{
    let request = SocketSet::request(handle, *cx, remote, local, mode);
    let before = set.snapshot();
    lemma_rivals(request, before);
    lemma_shadows(request, before, key);
    lemma_may_reuse(set.protected()[key].state, cx.now, mode);
}

/// Where two connections that have left their sockets count, the request is refused.
pub proof fn two_shadows_refuse(
    set: &SocketSet<'_>,
    handle: SocketHandle,
    cx: &Context,
    remote: IpEndpoint,
    local: IpEndpoint,
    mode: TimeWaitReuse,
    r: Result<Plan, ConnectError>,
    first: Key,
    second: Key,
)
    requires
        call_ensures(SocketSet::plan_connect, (set, handle, cx, remote, local, mode), r),
        tcp_in(set@, handle.index()) is Some,
        is_idle(tcp_in(set@, handle.index())->0),
        can_be_joined(local, remote),
        first != second,
        shadows(
            set.protected(),
            (tcp_in(set@, handle.index())->0).connection_bound_device,
            local,
            remote,
            first,
        ),
        shadows(
            set.protected(),
            (tcp_in(set@, handle.index())->0).connection_bound_device,
            local,
            remote,
            second,
        ),
    ensures
        r == Err::<Plan, ConnectError>(ConnectError::AddressInUse),
{
    let request = SocketSet::request(handle, *cx, remote, local, mode);
    let before = set.snapshot();
    assert(before.protected.contains_key(first) && before.protected.contains_key(second));
    assert(request.has_two_shadows(before));
}

/// Endpoints that no one holds are granted, and nothing is replaced.
pub proof fn free_endpoints_are_granted(
    set: &SocketSet<'_>,
    handle: SocketHandle,
    cx: &Context,
    remote: IpEndpoint,
    local: IpEndpoint,
    mode: TimeWaitReuse,
    r: Result<Plan, ConnectError>,
)
    requires
        call_ensures(SocketSet::plan_connect, (set, handle, cx, remote, local, mode), r),
        tcp_in(set@, handle.index()) is Some,
        is_idle(tcp_in(set@, handle.index())->0),
        can_be_joined(local, remote),
        is_uncontended(set@, handle.index(), local, remote),
        is_unshadowed(
            set.protected(),
            (tcp_in(set@, handle.index())->0).connection_bound_device,
            local,
            remote,
        ),
    ensures
        r is Ok,
        r->Ok_0.attached is None,
        r->Ok_0.detached is None,
        r->Ok_0.reuse is None,
        r->Ok_0.identity is None,
{
    let request = SocketSet::request(handle, *cx, remote, local, mode);
    lemma_rivals(request, set.snapshot());
    lemma_no_shadow(request, set.snapshot());
}

/// Where endpoints are granted that another socket holds, its connection is in TIME-WAIT and gives way: its
/// time is over, or it may be taken over and its state is handed on.
pub proof fn sockets_give_way_where_endpoints_are_granted(
    set: &SocketSet<'_>,
    handle: SocketHandle,
    cx: &Context,
    remote: IpEndpoint,
    local: IpEndpoint,
    mode: TimeWaitReuse,
    plan: Plan,
    index: int,
)
    requires
        call_ensures(
            SocketSet::plan_connect,
            (set, handle, cx, remote, local, mode),
            Ok::<Plan, ConnectError>(plan),
        ),
        tcp_in(set@, handle.index()) is Some,
        contends(set@, handle.index(), local, remote, index),
        names(set@, index) == index,
    ensures
        plan.attached is Some,
        (plan.attached->0).index() == index,
        (tcp_in(set@, index)->0).state == State::TimeWait,
        (tcp_in(set@, index)->0).time_wait is Some,
        gives_way(
            (tcp_in(set@, index)->0).time_wait->0,
            cx.now,
            mode,
            tcp_in(set@, handle.index())->0,
        ),
        hands_over((tcp_in(set@, index)->0).time_wait->0, cx.now, plan.reuse),
{
    let r = Ok::<Plan, ConnectError>(plan);
    open_sockets_are_not_connected(set, handle, cx, remote, local, mode, r);
    assert forall|other: int| #[trigger]
        contends(set@, handle.index(), local, remote, other) implies other == index by {
        if other != index {
            two_contenders_refuse(set, handle, cx, remote, local, mode, r, index, other);
        }
    }
    lone_contender_decides(set, handle, cx, remote, local, mode, r, index);
}

/// Where endpoints are granted that a connection holds that has left its socket, that gives way: its time
/// is over, or it may be taken over and its state is handed on.
pub proof fn shadows_give_way_where_endpoints_are_granted(
    set: &SocketSet<'_>,
    handle: SocketHandle,
    cx: &Context,
    remote: IpEndpoint,
    local: IpEndpoint,
    mode: TimeWaitReuse,
    plan: Plan,
    key: Key,
)
    requires
        call_ensures(
            SocketSet::plan_connect,
            (set, handle, cx, remote, local, mode),
            Ok::<Plan, ConnectError>(plan),
        ),
        tcp_in(set@, handle.index()) is Some,
        shadows(
            set.protected(),
            (tcp_in(set@, handle.index())->0).connection_bound_device,
            local,
            remote,
            key,
        ),
    ensures
        plan.attached is None,
        plan.detached == Some(key),
        gives_way(
            set.protected()[key].state,
            cx.now,
            mode,
            tcp_in(set@, handle.index())->0,
        ),
        hands_over(set.protected()[key].state, cx.now, plan.reuse),
{
    let request = SocketSet::request(handle, *cx, remote, local, mode);
    let before = set.snapshot();
    let r = Ok::<Plan, ConnectError>(plan);
    let device = (tcp_in(set@, handle.index())->0).connection_bound_device;
    open_sockets_are_not_connected(set, handle, cx, remote, local, mode, r);
    assert forall|other: Key| #[trigger]
        before.protected.contains_key(other) && shadows(
            before.protected,
            device,
            local,
            remote,
            other,
        ) implies other == key by {
        if other != key {
            two_shadows_refuse(set, handle, cx, remote, local, mode, r, key, other);
        }
    }
    lemma_shadows(request, before, key);
    lemma_may_reuse(set.protected()[key].state, cx.now, mode);
}

/// What opening a connection leaves of a set: the opened socket, and the end of what it replaces; all
/// else is as it was.
pub open spec fn is_joined(
    before: Snapshot,
    after: Snapshot,
    own: int,
    opened: tcp::Socket,
    attached: Option<int>,
    detached: Option<Key>,
) -> bool {
    is_over(
        Snapshot { slots: with_tcp(before.slots, own, opened), ..before },
        after,
        attached,
        detached,
    )
}

proof fn lemma_joined(request: Request, before: Snapshot, opened: tcp::Socket)
    requires
        tcp_in(before.slots, request.index) is Some,
        request.rival(before) matches Some(index) ==> tcp_in(before.slots, index) is Some,
        request.shadow(before) matches Some(key) ==> before.protected.contains_key(key),
    ensures
        is_joined(
            before,
            request.connected(before, opened),
            request.index,
            opened,
            request.rival(before),
            request.shadow(before),
        ),
{
    let attached = request.rival(before);
    let detached = request.shadow(before);
    if exists|index: int| request.is_rival(before, index) {
        let index = choose|index: int| request.is_rival(before, index);
        assert(request.is_rival(before, index));
        assert(attached->0 != request.index);
    }
    let opening = Snapshot { slots: with_tcp(before.slots, request.index, opened), ..before };
    assert(opening.slots =~= before.with_socket(request.index, opened).slots);
    lemma_over(opening, attached, detached);
}

/// Who watches the connection that is replaced.
pub open spec fn watcher(before: Snapshot, plan: Plan) -> Option<Arc<dyn LifecycleObserver>> {
    if plan.attached is Some {
        (tcp_in(before.slots, (plan.attached->0).index())->0).lifecycle_observer
    } else if plan.detached is Some {
        before.protected[plan.detached->0].observer
    } else {
        None
    }
}

/// The observer of the socket, where there is one, may give this answer when it is asked about the
/// connection, the device of the socket and who watches the connection that is replaced. Without one
/// the answer is yes.
pub open spec fn asks_the_observer(
    before: Snapshot,
    own: int,
    plan: Plan,
    local: IpEndpoint,
    remote: IpEndpoint,
    answer: bool,
) -> bool {
    let ours = tcp_in(before.slots, own)->0;
    match ours.lifecycle_observer {
        Some(observer) => exists|replaced: Option<u64>| #[trigger]
            identifies(watcher(before, plan), replaced) && observer.may_answer(
                local,
                remote,
                ours.connection_bound_device,
                replaced,
                answer,
            ),
        None => answer,
    }
}

/// Opening a connection refuses what its plan refuses, and otherwise asks the observer of the socket,
/// where there is one. What is refused changes nothing. What is granted opens the socket with the state
/// that the plan hands over, and ends what the plan names.
pub proof fn connecting_carries_out_the_plan<
    F: FnOnce(&mut tcp::Socket, &Context, IpEndpoint, IpEndpoint, Option<&TimeWaitState>),
>(
    handle: SocketHandle,
    cx: &Context,
    remote: IpEndpoint,
    local: IpEndpoint,
    mode: TimeWaitReuse,
    open: F,
    p: Result<Plan, ConnectError>,
)
    ensures
        forall|set: &mut SocketSet<'_>, r: Result<(), ConnectError>|
            #![trigger call_ensures(
                SocketSet::connect_tcp::<F>,
                (set, handle, cx, remote, local, mode, open),
                r,
            )]
            call_ensures(
                SocketSet::connect_tcp::<F>,
                (set, handle, cx, remote, local, mode, open),
                r,
            ) && call_ensures(
                SocketSet::plan_connect,
                (&*set, handle, cx, remote, local, mode),
                p,
            ) && tcp_in(set@, handle.index()) is Some && (p is Ok && p->Ok_0.attached is Some
                ==> tcp_in(set@, (p->Ok_0.attached->0).index()) is Some) ==> {
                &&& p is Err ==> r is Err && r->Err_0 == p->Err_0
                &&& p is Ok && r is Err ==> r->Err_0 == ConnectError::AddressInUse && (tcp_in(
                    set@,
                    handle.index(),
                )->0).lifecycle_observer is Some
                &&& p is Ok ==> asks_the_observer(
                    set.snapshot(),
                    handle.index(),
                    p->Ok_0,
                    local,
                    remote,
                    r is Ok,
                )
                &&& r is Err ==> final(set).snapshot() == set.snapshot()
                &&& r is Ok ==> exists|socket: &mut tcp::Socket|
                    {
                        &&& *socket == tcp_in(set@, handle.index())->0
                        &&& #[trigger] call_ensures(
                            open,
                            (socket, cx, local, remote, lent(p->Ok_0.reuse)),
                            (),
                        )
                        &&& is_joined(
                            set.snapshot(),
                            final(set).snapshot(),
                            handle.index(),
                            *final(socket),
                            place_of(p->Ok_0.attached),
                            p->Ok_0.detached,
                        )
                    }
            },
{
    let request = SocketSet::request(handle, *cx, remote, local, mode);
    assert forall|set: &mut SocketSet<'_>, r: Result<(), ConnectError>|
        #![trigger call_ensures(
            SocketSet::connect_tcp::<F>,
            (set, handle, cx, remote, local, mode, open),
            r,
        )]
        call_ensures(
            SocketSet::connect_tcp::<F>,
            (set, handle, cx, remote, local, mode, open),
            r,
        ) && call_ensures(
            SocketSet::plan_connect,
            (&*set, handle, cx, remote, local, mode),
            p,
        ) && tcp_in(set@, handle.index()) is Some && (p is Ok && p->Ok_0.attached is Some
            ==> tcp_in(set@, (p->Ok_0.attached->0).index()) is Some) implies {
        &&& p is Err ==> r is Err && r->Err_0 == p->Err_0
        &&& p is Ok && r is Err ==> r->Err_0 == ConnectError::AddressInUse && (tcp_in(
            set@,
            handle.index(),
        )->0).lifecycle_observer is Some
        &&& p is Ok ==> asks_the_observer(
            set.snapshot(),
            handle.index(),
            p->Ok_0,
            local,
            remote,
            r is Ok,
        )
        &&& r is Err ==> final(set).snapshot() == set.snapshot()
        &&& r is Ok ==> exists|socket: &mut tcp::Socket|
            {
                &&& *socket == tcp_in(set@, handle.index())->0
                &&& #[trigger] call_ensures(
                    open,
                    (socket, cx, local, remote, lent(p->Ok_0.reuse)),
                    (),
                )
                &&& is_joined(
                    set.snapshot(),
                    final(set).snapshot(),
                    handle.index(),
                    *final(socket),
                    place_of(p->Ok_0.attached),
                    p->Ok_0.detached,
                )
            }
    } by {
        let before = set.snapshot();
        if p is Ok {
            let replaced = choose|replaced: Option<u64>| #[trigger]
                crate::socket::tcp::is_identity(request.replaced_observer(before), replaced)
                    && request.socket(before).may_be_allowed(local, remote, replaced, r is Ok);
            assert(identifies(request.replaced_observer(before), replaced));
            assert(asks_the_observer(before, handle.index(), p->Ok_0, local, remote, r is Ok)) by {
                assert(identifies(watcher(before, p->Ok_0), replaced));
            }
            if r is Ok {
                let socket = choose|socket: &mut tcp::Socket|
                    {
                        &&& *socket == request.socket(before)
                        &&& #[trigger] call_ensures(
                            open,
                            (socket, cx, local, remote, lent(request.reuse(before))),
                            (),
                        )
                        &&& final(set).snapshot() == request.connected(before, *final(socket))
                    };
                lemma_joined(request, before, *final(socket));
            }
        }
    }
}

/// What an observer does not allow is refused and changes nothing. What it allows opens the socket with
/// the state that the plan hands over, and ends what the plan names.
pub proof fn observers_decide_on_the_plan<
    F: FnOnce(&mut tcp::Socket, &Context, IpEndpoint, IpEndpoint, Option<&TimeWaitState>),
>(
    handle: SocketHandle,
    cx: &Context,
    remote: IpEndpoint,
    local: IpEndpoint,
    mode: TimeWaitReuse,
    plan: Plan,
    allowed: bool,
    open: F,
)
    ensures
        forall|set: &mut SocketSet<'_>, r: Result<(), ConnectError>|
            #![trigger call_ensures(
                SocketSet::finish_connect::<F>,
                (set, handle, cx, remote, local, mode, plan, allowed, open),
                r,
            )]
            call_ensures(
                SocketSet::finish_connect::<F>,
                (set, handle, cx, remote, local, mode, plan, allowed, open),
                r,
            ) && call_ensures(
                SocketSet::plan_connect,
                (&*set, handle, cx, remote, local, mode),
                Ok::<Plan, ConnectError>(plan),
            ) && tcp_in(set@, handle.index()) is Some && (plan.attached is Some ==> tcp_in(
                set@,
                (plan.attached->0).index(),
            ) is Some) ==> {
                &&& r is Ok <==> allowed
                &&& r is Err ==> r->Err_0 == ConnectError::AddressInUse
                &&& !allowed ==> final(set).snapshot() == set.snapshot()
                &&& allowed ==> exists|socket: &mut tcp::Socket|
                    {
                        &&& *socket == tcp_in(set@, handle.index())->0
                        &&& #[trigger] call_ensures(
                            open,
                            (socket, cx, local, remote, lent(plan.reuse)),
                            (),
                        )
                        &&& is_joined(
                            set.snapshot(),
                            final(set).snapshot(),
                            handle.index(),
                            *final(socket),
                            place_of(plan.attached),
                            plan.detached,
                        )
                    }
            },
{
    let request = SocketSet::request(handle, *cx, remote, local, mode);
    assert forall|set: &mut SocketSet<'_>, r: Result<(), ConnectError>|
        #![trigger call_ensures(
            SocketSet::finish_connect::<F>,
            (set, handle, cx, remote, local, mode, plan, allowed, open),
            r,
        )]
        call_ensures(
            SocketSet::finish_connect::<F>,
            (set, handle, cx, remote, local, mode, plan, allowed, open),
            r,
        ) && call_ensures(
            SocketSet::plan_connect,
            (&*set, handle, cx, remote, local, mode),
            Ok::<Plan, ConnectError>(plan),
        ) && tcp_in(set@, handle.index()) is Some && (plan.attached is Some ==> tcp_in(
            set@,
            (plan.attached->0).index(),
        ) is Some) implies {
        &&& r is Ok <==> allowed
        &&& r is Err ==> r->Err_0 == ConnectError::AddressInUse
        &&& !allowed ==> final(set).snapshot() == set.snapshot()
        &&& allowed ==> exists|socket: &mut tcp::Socket|
            {
                &&& *socket == tcp_in(set@, handle.index())->0
                &&& #[trigger] call_ensures(
                    open,
                    (socket, cx, local, remote, lent(plan.reuse)),
                    (),
                )
                &&& is_joined(
                    set.snapshot(),
                    final(set).snapshot(),
                    handle.index(),
                    *final(socket),
                    place_of(plan.attached),
                    plan.detached,
                )
            }
    } by {
        let before = set.snapshot();
        if allowed {
            let socket = choose|socket: &mut tcp::Socket|
                {
                    &&& *socket == request.socket(before)
                    &&& #[trigger] call_ensures(
                        open,
                        (socket, cx, local, remote, lent(plan.reuse)),
                        (),
                    )
                    &&& final(set).snapshot() == request.connected(before, *final(socket))
                };
            lemma_joined(request, before, *final(socket));
        }
    }
}

/// A request can be answered unless it comes to a lone other socket whose handle leads to no TCP
/// socket.
pub proof fn requests_can_be_answered(
    set: &SocketSet<'_>,
    handle: SocketHandle,
    cx: &Context,
    remote: IpEndpoint,
    local: IpEndpoint,
    mode: TimeWaitReuse,
    r: bool,
)
    requires
        call_ensures(SocketSet::can_connect_tcp, (set, handle, cx, remote, local, mode), r),
        tcp_in(set@, handle.index()) is Some,
    ensures
        !r <==> {
            &&& is_idle(tcp_in(set@, handle.index())->0)
            &&& can_be_joined(local, remote)
            &&& exists|index: int| #[trigger]
                contends_alone(set@, handle.index(), local, remote, index) && tcp_in(
                    set@,
                    names(set@, index),
                ) is None
        },
{
    let request = SocketSet::request(handle, *cx, remote, local, mode);
    let before = set.snapshot();
    lemma_rivals(request, before);
    assert forall|i: int| tcp_at(before.slots, i) == #[trigger] tcp_in(before.slots, i) by {}
    if request.has_two_rivals(before) {
        let (a, b) = choose|a: int, b: int|
            a < b && #[trigger] request.is_rival(before, a) && #[trigger] request.is_rival(before, b);
        assert(contends(set@, handle.index(), local, remote, a));
        assert(contends(set@, handle.index(), local, remote, b));
    } else if exists|index: int| request.is_rival(before, index) {
        let index = choose|index: int| request.is_rival(before, index);
        assert forall|other: int| #[trigger]
            contends(set@, handle.index(), local, remote, other) implies other == index by {
            assert(request.is_rival(before, other) && request.is_rival(before, index));
        }
        assert(contends_alone(set@, handle.index(), local, remote, index));
        assert(request.rival(before) == Some(names(set@, index)));
    }
}

} // verus!
