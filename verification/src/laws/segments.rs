//! Laws of segments that come in for a set of sockets.
use crate::iface::interface::tcp::Packet;
use crate::iface::interface::Context;
use crate::iface::socket_set::{socket_at, Item, SocketSet};
use crate::iface::tcp_segments::{arrived, Arrival, Reply};
use crate::iface::tcp_time_wait::{
    first_tcp, is_first, lemma_first, lemma_no_first, listens, reopens, takes, tcp_at, Snapshot,
};
use crate::iface::time_wait_table::{Entry, Key};
use crate::laws::sets::{identifies, is_over, lemma_over, names, tcp_in, with_tcp};
use crate::laws::socket::{bound_to, is_meant_for};
use crate::laws::time_wait::{ahead, is_acknowledgement};
use crate::phy::PacketMeta;
use crate::socket::tcp;
use crate::socket::tcp::time_wait::{TimeWaitAction, TimeWaitState};
use crate::socket::tcp::{LifecycleObserver, State};
use crate::time::{Duration, Instant};
use crate::wire::ip::{IpEndpoint, IpRepr};
use crate::wire::tcp::TcpRepr;
use std::sync::Arc;
use vstd::prelude::*;

verus! {

/// The segment is meant for the socket, and came from a device that it takes packets from.
pub open spec fn reaches(a: Arrival<'_>, socket: tcp::Socket) -> bool {
    &&& is_meant_for(a.ip, a.tcp, socket)
    &&& bound_to(socket) == 0 || bound_to(socket) == a.meta.id
}

/// The segment belongs to the connection of the socket in a space.
pub open spec fn is_owner(slots: Seq<Option<Item>>, a: Arrival<'_>, index: int) -> bool {
    &&& tcp_in(slots, index) is Some
    &&& (tcp_in(slots, index)->0).state != State::Listen
    &&& reaches(a, tcp_in(slots, index)->0)
}

/// The socket in a space listens for the segment.
pub open spec fn is_listener(slots: Seq<Option<Item>>, a: Arrival<'_>, index: int) -> bool {
    &&& tcp_in(slots, index) is Some
    &&& (tcp_in(slots, index)->0).state == State::Listen
    &&& reaches(a, tcp_in(slots, index)->0)
}

/// The socket in a space listens for the segment, which lies ahead of all that the connection in
/// TIME-WAIT received, or the socket uses timestamps.
pub open spec fn is_reopener(
    slots: Seq<Option<Item>>,
    a: Arrival<'_>,
    state: TimeWaitState,
    index: int,
) -> bool {
    &&& is_listener(slots, a, index)
    &&& ahead(a.tcp.seq_number.0 as int, state.rcv_nxt.0 as int) || (tcp_in(
        slots,
        index,
    )->0).tsval_generator is Some
}

/// The first such socket.
pub open spec fn is_first_owner(slots: Seq<Option<Item>>, a: Arrival<'_>, index: int) -> bool {
    &&& is_owner(slots, a, index)
    &&& forall|i: int| 0 <= i < index ==> !#[trigger] is_owner(slots, a, i)
}

/// The first such socket.
pub open spec fn is_first_listener(slots: Seq<Option<Item>>, a: Arrival<'_>, index: int) -> bool {
    &&& is_listener(slots, a, index)
    &&& forall|i: int| 0 <= i < index ==> !#[trigger] is_listener(slots, a, i)
}

/// The first such socket.
pub open spec fn is_first_reopener(
    slots: Seq<Option<Item>>,
    a: Arrival<'_>,
    state: TimeWaitState,
    index: int,
) -> bool {
    &&& is_reopener(slots, a, state, index)
    &&& forall|i: int| 0 <= i < index ==> !#[trigger] is_reopener(slots, a, state, i)
}

/// The segment belongs to the connection of no socket.
pub open spec fn is_unowned(slots: Seq<Option<Item>>, a: Arrival<'_>) -> bool {
    forall|i: int| !#[trigger] is_owner(slots, a, i)
}

/// No socket listens for the segment.
pub open spec fn is_unheard(slots: Seq<Option<Item>>, a: Arrival<'_>) -> bool {
    forall|i: int| !#[trigger] is_listener(slots, a, i)
}

/// The key of a connection between the endpoints of the segment.
pub open spec fn key_on(a: Arrival<'_>, device: u32) -> Key {
    Key {
        local: IpEndpoint { addr: a.ip.spec_dst_addr(), port: a.tcp.dst_port },
        remote: IpEndpoint { addr: a.ip.spec_src_addr(), port: a.tcp.src_port },
        device,
    }
}

/// The connection that has left its socket and that the segment belongs to: that of the device it came
/// from, or else that of no device, or else none.
pub open spec fn is_beside(table: Map<Key, Entry>, a: Arrival<'_>, detached: Option<Key>) -> bool {
    if table.contains_key(key_on(a, a.meta.id)) {
        detached == Some(key_on(a, a.meta.id))
    } else if table.contains_key(key_on(a, 0)) {
        detached == Some(key_on(a, 0))
    } else {
        detached is None
    }
}

/// The segment belongs to no connection.
pub open spec fn is_free(before: Snapshot, a: Arrival<'_>) -> bool {
    is_unowned(before.slots, a) && is_beside(before.protected, a, None)
}

/// The segment belongs to a connection in TIME-WAIT, which is with its socket or beside the sockets and
/// has the state. A socket that has recorded none has the state that is left of it now.
pub open spec fn is_waiting(
    before: Snapshot,
    a: Arrival<'_>,
    attached: Option<int>,
    detached: Option<Key>,
    state: TimeWaitState,
) -> bool {
    &&& is_beside(before.protected, a, detached)
    &&& match attached {
        Some(index) => {
            &&& exists|i: int| #[trigger]
                is_first_owner(before.slots, a, i) && names(before.slots, i) == index
            &&& tcp_in(before.slots, index) is Some
            &&& (tcp_in(before.slots, index)->0).state == State::TimeWait
            &&& match (tcp_in(before.slots, index)->0).time_wait {
                Some(recorded) => state == recorded,
                None => state == TimeWaitState::left_of(tcp_in(before.slots, index)->0, a.now),
            }
        },
        None => {
            &&& is_unowned(before.slots, a)
            &&& detached is Some
            &&& state == before.protected[detached->0].state
        },
    }
}

/// The spaces once the state of the connection is recorded in its socket.
pub open spec fn noted(
    slots: Seq<Option<Item>>,
    attached: Option<int>,
    state: TimeWaitState,
) -> Seq<Option<Item>> {
    match attached {
        Some(index) => with_tcp(
            slots,
            index,
            tcp::Socket { time_wait: Some(state), ..tcp_in(slots, index)->0 },
        ),
        None => slots,
    }
}

/// What a connection that stays in TIME-WAIT leaves of a set: its state is another one, with its socket
/// or else beside the sockets, and all else is as it was.
pub open spec fn is_kept(
    before: Snapshot,
    after: Snapshot,
    attached: Option<int>,
    detached: Option<Key>,
    state: TimeWaitState,
) -> bool {
    &&& after.slots == noted(before.slots, attached, state)
    &&& forall|key: Key| #[trigger]
        after.protected.contains_key(key) <==> before.protected.contains_key(key)
    &&& forall|key: Key| #[trigger]
        after.protected.contains_key(key) ==> {
            &&& after.protected[key].observer == before.protected[key].observer
            &&& after.protected[key].state == if attached is None && detached == Some(key) {
                state
            } else {
                before.protected[key].state
            }
        }
    &&& after.notified == before.notified
    &&& after.records == before.records
    &&& after.setup == before.setup
}

/// The answer carries what a socket replied, bound to a device.
pub open spec fn is_answer(
    answer: Option<Packet>,
    device: u32,
    reply: Option<(IpRepr, TcpRepr<'static>)>,
) -> bool {
    &&& answer is Some <==> reply is Some
    &&& answer is Some ==> {
        &&& (answer->0).ip == (reply->0).0
        &&& (answer->0).tcp == (reply->0).1
        &&& (answer->0).meta.id == device
    }
}

/// The answer acknowledges all that a connection in TIME-WAIT received, where it may be sent now.
pub open spec fn is_acked(answer: Option<Packet>, a: Arrival<'_>, state: TimeWaitState) -> bool {
    &&& answer is Some <==> a.now.micros >= state.ack_at.micros
    &&& answer is Some ==> {
        &&& (answer->0).meta.id == state.device
        &&& state.tuple.local.addr is Ipv4 == state.tuple.remote.addr is Ipv4
            ==> is_acknowledgement(state, (answer->0).ip, (answer->0).tcp)
    }
}

/// Who watches a connection in TIME-WAIT.
pub open spec fn guard(before: Snapshot, attached: Option<int>, detached: Option<Key>) -> Option<
    Arc<dyn LifecycleObserver>,
> {
    if attached is Some {
        (tcp_in(before.slots, attached->0)->0).lifecycle_observer
    } else {
        before.protected[detached->0].observer
    }
}

/// What comes of a segment for a connection in TIME-WAIT whose time is not over and that no socket opens
/// again: it ends, it stays, or it stays and the segment is acknowledged.
pub open spec fn is_settled(
    before: Snapshot,
    a: Arrival<'_>,
    attached: Option<int>,
    detached: Option<Key>,
    state: TimeWaitState,
    after: Snapshot,
    answer: Option<Packet>,
) -> bool {
    let next = state.processed(a.now, a.tcp);
    &&& is_waiting(before, a, attached, detached, state)
    &&& a.now.micros < state.expires.micros
    &&& match state.action(a.now, a.tcp) {
        TimeWaitAction::Remove => is_over(before, after, attached, detached) && answer is None,
        TimeWaitAction::Ignore => is_kept(before, after, attached, detached, next) && answer
            is None,
        TimeWaitAction::Ack => is_kept(before, after, attached, detached, next.replied(a.now))
            && is_acked(answer, a, next),
        TimeWaitAction::Reopen => {
            &&& a.tcp.max_seg_size == Some(0u16) || forall|i: int|
                !#[trigger] is_reopener(before.slots, a, next, i)
            &&& is_kept(before, after, attached, detached, next.replied(a.now))
            &&& is_acked(answer, a, next)
        },
    }
}

/// What comes of a segment for a connection in TIME-WAIT that the first socket that can opens again: it
/// is handed the state and the identity of who watches. Where it has accepted, the old connection is over
/// and nothing is sent; where it has not, that stays and the segment is acknowledged.
pub open spec fn is_reopened(
    before: Snapshot,
    a: Arrival<'_>,
    attached: Option<int>,
    detached: Option<Key>,
    state: TimeWaitState,
    listener: int,
    asked: tcp::Socket,
    reuse: Option<(&TimeWaitState, Option<u64>)>,
    became: tcp::Socket,
    after: Snapshot,
    answer: Option<Packet>,
) -> bool {
    let next = state.processed(a.now, a.tcp);
    let index = names(before.slots, listener);
    let slots = noted(before.slots, attached, state);
    let now = Snapshot { slots: with_tcp(slots, index, became), ..before };
    &&& is_waiting(before, a, attached, detached, state)
    &&& a.now.micros < state.expires.micros
    &&& state.action(a.now, a.tcp) == TimeWaitAction::Reopen
    &&& a.tcp.max_seg_size != Some(0u16)
    &&& is_first_reopener(before.slots, a, next, listener)
    &&& tcp_in(slots, index) == Some(asked)
    &&& reuse is Some
    &&& *(reuse->0).0 == next
    &&& identifies(guard(before, attached, detached), (reuse->0).1)
    &&& if became.state == State::SynReceived {
        is_over(now, after, attached, detached) && answer is None
    } else {
        is_kept(now, after, attached, detached, next.replied(a.now)) && is_acked(answer, a, next)
    }
}

/// What comes of a segment for a connection that is not in TIME-WAIT: its socket processes it, and
/// nothing else changes.
pub open spec fn is_live_served(
    before: Snapshot,
    a: Arrival<'_>,
    owner: int,
    asked: tcp::Socket,
    reuse: Option<(&TimeWaitState, Option<u64>)>,
    reply: Option<(IpRepr, TcpRepr<'static>)>,
    became: tcp::Socket,
    after: Snapshot,
    answer: Option<Packet>,
) -> bool {
    let index = names(before.slots, owner);
    &&& is_first_owner(before.slots, a, owner)
    &&& tcp_in(before.slots, index) == Some(asked)
    &&& asked.state != State::TimeWait
    &&& reuse is None
    &&& after == (Snapshot { slots: with_tcp(before.slots, index, became), ..before })
    &&& is_answer(answer, bound_to(asked), reply)
}

/// The packet that carries a reply.
pub open spec fn carried(reply: Option<Reply>) -> Option<Packet> {
    if reply is Some {
        Some(Packet { meta: (reply->0).0, ip: (reply->0).1, tcp: (reply->0).2 })
    } else {
        None
    }
}

pub proof fn lemma_tcp_in(slots: Seq<Option<Item>>)
    ensures
        forall|i: int|
            #![trigger tcp_at(slots, i)]
            #![trigger tcp_in(slots, i)]
            tcp_at(slots, i) == tcp_in(slots, i),
{
}

/// The first owner is the one whose handle counts, and without one there is none.
pub proof fn lemma_owner(before: Snapshot, a: Arrival<'_>)
    ensures
        forall|i: int| #[trigger]
            is_first_owner(before.slots, a, i) ==> a.attached(before) == Some(
                names(before.slots, i),
            ),
        is_unowned(before.slots, a) <==> a.attached(before) is None,
        a.attached(before) is Some ==> exists|i: int| #[trigger]
            is_first_owner(before.slots, a, i) && a.attached(before) == Some(
                names(before.slots, i),
            ),
{
    let slots = before.slots;
    let wanted = takes(a.meta, a.ip, a.tcp);
    lemma_tcp_in(slots);
    assert forall|i: int| #[trigger]
        is_owner(slots, a, i) <==> (tcp_at(slots, i) is Some && wanted(tcp_at(slots, i)->0)) by {}
    assert forall|i: int| is_first_owner(slots, a, i) <==> is_first(slots, wanted, i) by {
        if is_first_owner(slots, a, i) {
            assert forall|j: int| 0 <= j < i implies !(#[trigger] tcp_at(slots, j) matches Some(socket)
                && wanted(socket)) by {
                assert(!is_owner(slots, a, j));
            }
        }
        if is_first(slots, wanted, i) {
            assert forall|j: int| 0 <= j < i implies !#[trigger] is_owner(slots, a, j) by {
                assert(tcp_at(slots, j) == tcp_in(slots, j));
            }
        }
    }
    assert forall|i: int| #[trigger] is_first_owner(slots, a, i) implies a.attached(before) == Some(
        names(slots, i),
    ) by {
        lemma_first(slots, wanted, i);
    }
    if is_unowned(slots, a) {
        assert forall|i: int| 0 <= i < slots.len() implies !(#[trigger] tcp_at(slots, i) matches Some(
            socket,
        ) && wanted(socket)) by {
            assert(!is_owner(slots, a, i));
        }
        lemma_no_first(slots, wanted);
    } else {
        let i = choose|i: int| is_owner(slots, a, i);
        lemma_least_owner(slots, a, i);
        let first = choose|first: int| is_first_owner(slots, a, first);
        assert(is_first_owner(slots, a, first));
    }
}

proof fn lemma_least_owner(slots: Seq<Option<Item>>, a: Arrival<'_>, index: int)
    requires
        is_owner(slots, a, index),
    ensures
        exists|i: int| is_first_owner(slots, a, i),
    decreases index,
{
    if forall|i: int| 0 <= i < index ==> !#[trigger] is_owner(slots, a, i) {
        assert(is_first_owner(slots, a, index));
    } else {
        let i = choose|i: int| 0 <= i < index && #[trigger] is_owner(slots, a, i);
        lemma_least_owner(slots, a, i);
    }
}

/// The first listener is the one that counts, and without one there is none.
pub proof fn lemma_listener(slots: Seq<Option<Item>>, a: Arrival<'_>)
    ensures
        forall|i: int| #[trigger]
            is_first_listener(slots, a, i) <==> first_tcp(slots, listens(a.meta, a.ip, a.tcp))
                == Some(i),
        is_unheard(slots, a) <==> first_tcp(slots, listens(a.meta, a.ip, a.tcp)) is None,
{
    let wanted = listens(a.meta, a.ip, a.tcp);
    lemma_tcp_in(slots);
    assert forall|i: int| #[trigger]
        is_listener(slots, a, i) <==> (tcp_at(slots, i) is Some && wanted(
            tcp_at(slots, i)->0,
        )) by {}
    assert forall|i: int|
        #![trigger is_first_listener(slots, a, i)]
        #![trigger is_first(slots, wanted, i)]
        is_first_listener(slots, a, i) <==> is_first(slots, wanted, i) by {
        if is_first_listener(slots, a, i) {
            assert forall|j: int| 0 <= j < i implies !(#[trigger] tcp_at(slots, j) matches Some(socket)
                && wanted(socket)) by {
                assert(!is_listener(slots, a, j));
            }
        }
        if is_first(slots, wanted, i) {
            assert forall|j: int| 0 <= j < i implies !#[trigger] is_listener(slots, a, j) by {
                assert(tcp_at(slots, j) == tcp_in(slots, j));
            }
        }
    }
    assert forall|i: int| #[trigger]
        is_first_listener(slots, a, i) <==> first_tcp(slots, wanted) == Some(i) by {
        if is_first_listener(slots, a, i) {
            lemma_first(slots, wanted, i);
        } else if first_tcp(slots, wanted) == Some(i) {
            assert(is_first(slots, wanted, i));
        }
    }
    if is_unheard(slots, a) {
        assert forall|i: int| 0 <= i < slots.len() implies !(#[trigger] tcp_at(slots, i) matches Some(
            socket,
        ) && wanted(socket)) by {
            assert(!is_listener(slots, a, i));
        }
        lemma_no_first(slots, wanted);
    } else {
        let i = choose|i: int| is_listener(slots, a, i);
        lemma_least_listener(slots, a, i);
        let first = choose|first: int| is_first_listener(slots, a, first);
        assert(is_first_listener(slots, a, first));
    }
}

proof fn lemma_least_listener(slots: Seq<Option<Item>>, a: Arrival<'_>, index: int)
    requires
        is_listener(slots, a, index),
    ensures
        exists|i: int| is_first_listener(slots, a, i),
    decreases index,
{
    if forall|i: int| 0 <= i < index ==> !#[trigger] is_listener(slots, a, i) {
        assert(is_first_listener(slots, a, index));
    } else {
        let i = choose|i: int| 0 <= i < index && #[trigger] is_listener(slots, a, i);
        lemma_least_listener(slots, a, i);
    }
}

/// The first socket that can open the connection again is the one whose handle counts, and without one
/// there is none.
proof fn lemma_reopener(before: Snapshot, a: Arrival<'_>, state: TimeWaitState)
    requires
        a.waiting(before) == Some(state),
        a.attached(before) matches Some(index) ==> tcp_in(before.slots, index) is Some,
        state.action(a.now, a.tcp) == TimeWaitAction::Reopen,
        a.tcp.max_seg_size != Some(0u16),
    ensures
        ({
            let next = state.processed(a.now, a.tcp);
            &&& a.listener(before) is None <==> forall|i: int|
                !#[trigger] is_reopener(before.slots, a, next, i)
            &&& a.listener(before) is Some ==> exists|i: int| #[trigger]
                is_first_reopener(before.slots, a, next, i) && a.listener(before) == Some(
                    names(before.slots, i),
                )
        }),
{
    let slots = before.slots;
    let next = state.processed(a.now, a.tcp);
    let wanted = reopens(next, a.meta, a.ip, a.tcp);
    lemma_tcp_in(slots);
    a.lemma_recording_moves_no_listener(before, next);
    assert forall|i: int| #[trigger]
        is_reopener(slots, a, next, i) <==> (tcp_at(slots, i) is Some && wanted(
            tcp_at(slots, i)->0,
        )) by {}
    if forall|i: int| !#[trigger] is_reopener(slots, a, next, i) {
        assert forall|i: int| 0 <= i < slots.len() implies !(#[trigger] tcp_at(slots, i) matches Some(
            socket,
        ) && wanted(socket)) by {
            assert(!is_reopener(slots, a, next, i));
        }
        lemma_no_first(slots, wanted);
    } else {
        let i = choose|i: int| is_reopener(slots, a, next, i);
        lemma_least_reopener(slots, a, next, i);
        let first = choose|first: int| is_first_reopener(slots, a, next, first);
        assert forall|j: int| 0 <= j < first implies !(#[trigger] tcp_at(slots, j) matches Some(
            socket,
        ) && wanted(socket)) by {
            assert(!is_reopener(slots, a, next, j));
        }
        assert(is_first(slots, wanted, first));
        lemma_first(slots, wanted, first);
        assert(is_first_reopener(slots, a, next, first));
    }
}

proof fn lemma_least_reopener(
    slots: Seq<Option<Item>>,
    a: Arrival<'_>,
    state: TimeWaitState,
    index: int,
)
    requires
        is_reopener(slots, a, state, index),
    ensures
        exists|i: int| is_first_reopener(slots, a, state, i),
    decreases index,
{
    if forall|i: int| 0 <= i < index ==> !#[trigger] is_reopener(slots, a, state, i) {
        assert(is_first_reopener(slots, a, state, index));
    } else {
        let i = choose|i: int| 0 <= i < index && #[trigger] is_reopener(slots, a, state, i);
        lemma_least_reopener(slots, a, state, i);
    }
}

/// The handle of the first socket whose connection the segment belongs to leads to a TCP socket.
pub open spec fn is_owner_found(slots: Seq<Option<Item>>, a: Arrival<'_>) -> bool {
    forall|i: int| #[trigger]
        is_first_owner(slots, a, i) ==> tcp_in(slots, names(slots, i)) is Some
}

/// The handles of the sockets that the segment concerns lead to TCP sockets: of the first whose connection
/// it belongs to, and of the first that can open a connection in TIME-WAIT again.
pub open spec fn is_found(before: Snapshot, a: Arrival<'_>) -> bool {
    &&& is_owner_found(before.slots, a)
    &&& forall|attached: Option<int>, detached: Option<Key>, state: TimeWaitState, i: int|
        #[trigger] is_waiting(before, a, attached, detached, state)
            && #[trigger] is_first_reopener(before.slots, a, state.processed(a.now, a.tcp), i)
            && state.action(a.now, a.tcp) == TimeWaitAction::Reopen && a.tcp.max_seg_size != Some(
            0u16,
        ) ==> tcp_in(before.slots, names(before.slots, i)) is Some
}

/// In a set whose items record the handles of their own spaces, the handles lead to TCP sockets.
pub proof fn own_handles_lead_to_sockets(before: Snapshot, a: Arrival<'_>)
    requires
        forall|i: int|
            0 <= i < before.slots.len() && before.slots[i] is Some ==> #[trigger] names(
                before.slots,
                i,
            ) == i,
    ensures
        is_found(before, a),
{
}

/// The connection in TIME-WAIT that the segment belongs to is the one described.
pub proof fn lemma_waiting(before: Snapshot, a: Arrival<'_>)
    requires
        is_owner_found(before.slots, a),
    ensures
        a.attached(before) matches Some(index) ==> tcp_in(before.slots, index) is Some,
        is_beside(before.protected, a, a.detached(before)),
        !a.is_live(before) && a.waiting(before) is Some ==> is_waiting(
            before,
            a,
            a.attached(before),
            a.detached(before),
            a.waiting(before)->0,
        ),
        !a.is_live(before) && a.waiting(before) is None ==> is_free(before, a),
        a.waiting(before) is Some ==> a.recorded(before) == (Snapshot {
            slots: noted(before.slots, a.attached(before), a.waiting(before)->0),
            ..before
        }),
{
    lemma_owner(before, a);
    if a.attached(before) is Some {
        let i = choose|i: int| #[trigger]
            is_first_owner(before.slots, a, i) && a.attached(before) == Some(
                names(before.slots, i),
            );
        let index = a.attached(before)->0;
        assert(tcp_at(before.slots, index) == tcp_in(before.slots, index));
        if a.waiting(before) is Some {
            assert(a.recorded(before).slots =~= noted(
                before.slots,
                a.attached(before),
                a.waiting(before)->0,
            ));
        }
    }
}

/// Recording the state of a connection that is over makes no difference.
proof fn lemma_over_recorded(
    before: Snapshot,
    after: Snapshot,
    attached: Option<int>,
    detached: Option<Key>,
    state: TimeWaitState,
)
    requires
        attached matches Some(index) ==> tcp_in(before.slots, index) is Some,
        is_over(
            Snapshot { slots: noted(before.slots, attached, state), ..before },
            after,
            attached,
            detached,
        ),
    ensures
        is_over(before, after, attached, detached),
{
    let now = Snapshot { slots: noted(before.slots, attached, state), ..before };
    let notified = choose|notified: Seq<crate::socket::tcp::Notice>|
        {
            &&& #[trigger] crate::laws::sets::ends_attached(now, notified, attached)
            &&& match detached {
                Some(key) => crate::laws::sets::is_told(
                    notified,
                    after.notified,
                    before.protected[key].observer,
                    Some(before.protected[key].state.tuple.local),
                    Some(before.protected[key].state.tuple.remote),
                    before.protected[key].state.device,
                ),
                None => after.notified == notified,
            }
        };
    assert(crate::laws::sets::ends_attached(before, notified, attached));
    assert forall|i: int| 0 <= i < before.slots.len() && Some(i) != attached implies
        #[trigger] after.slots[i] == before.slots[i] by {
        assert(now.slots[i] == before.slots[i]);
    }
}

/// What the state of a connection in TIME-WAIT is replaced by is all that changes.
proof fn lemma_kept(
    before: Snapshot,
    attached: Option<int>,
    detached: Option<Key>,
    first: TimeWaitState,
    state: TimeWaitState,
)
    requires
        attached matches Some(index) ==> tcp_in(before.slots, index) is Some,
        attached is None ==> detached is Some && before.protected.contains_key(detached->0),
    ensures
        is_kept(
            before,
            (Snapshot { slots: noted(before.slots, attached, first), ..before }).with_state(
                attached,
                detached,
                state,
            ),
            attached,
            detached,
            state,
        ),
        is_kept(
            before,
            before.with_state(attached, detached, state),
            attached,
            detached,
            state,
        ),
{
    let now = Snapshot { slots: noted(before.slots, attached, first), ..before };
    let after = now.with_state(attached, detached, state);
    assert(after.slots =~= noted(before.slots, attached, state));
    assert(before.with_state(attached, detached, state).slots =~= noted(
        before.slots,
        attached,
        state,
    ));
}

/// The answer of a connection in TIME-WAIT is the acknowledgement.
proof fn lemma_acked(
    a: Arrival<'_>,
    state: TimeWaitState,
    reply: Option<(IpRepr, TcpRepr<'static>)>,
)
    requires
        state.is_reply(a.now, reply),
    ensures
        is_acked(
            carried(
                crate::iface::tcp_segments::bound_reply(PacketMeta { id: state.device }, reply),
            ),
            a,
            state,
        ),
{
}

/// What comes of a segment that no socket processes.
pub proof fn lemma_settled(
    before: Snapshot,
    a: Arrival<'_>,
    after: Snapshot,
    result: Option<Option<Reply>>,
)
    requires
        is_found(before, a),
        !a.is_live(before),
        a.waiting(before) is Some,
        a.consulted(before) is None,
        a.settled(before, after, result),
    ensures
        ({
            let state = a.waiting(before)->0;
            let attached = a.attached(before);
            let detached = a.detached(before);
            &&& is_waiting(before, a, attached, detached, state)
            &&& result is None <==> a.now.micros >= state.expires.micros
            &&& result is None ==> is_over(before, after, attached, detached)
            &&& result is Some ==> is_settled(
                before,
                a,
                attached,
                detached,
                state,
                after,
                carried(result->0),
            )
        }),
{
    let state = a.waiting(before)->0;
    let next = state.processed(a.now, a.tcp);
    let attached = a.attached(before);
    let detached = a.detached(before);
    lemma_waiting(before, a);
    let now = a.recorded(before);
    if state.action(a.now, a.tcp) == TimeWaitAction::Remove {
        lemma_over(now, attached, detached);
        lemma_over_recorded(before, after, attached, detached, state);
    } else if state.action(a.now, a.tcp) == TimeWaitAction::Ignore {
        lemma_kept(before, attached, detached, state, next);
    } else {
        lemma_kept(before, attached, detached, state, next.replied(a.now));
        let reply = choose|reply: Option<(IpRepr, TcpRepr<'static>)>| #[trigger]
            next.is_reply(a.now, reply) && result == Some(
                crate::iface::tcp_segments::bound_reply(PacketMeta { id: next.device }, reply),
            );
        lemma_acked(a, next, reply);
        if state.action(a.now, a.tcp) == TimeWaitAction::Reopen && a.tcp.max_seg_size != Some(
            0u16,
        ) {
            lemma_reopener(before, a, state);
        }
    }
}

/// What comes of a segment that a socket processes.
pub proof fn lemma_outcome(
    before: Snapshot,
    a: Arrival<'_>,
    asked: tcp::Socket,
    identity: Option<u64>,
    reply: Option<(IpRepr, TcpRepr<'static>)>,
    became: tcp::Socket,
    after: Snapshot,
    result: Option<Option<Reply>>,
)
    requires
        is_found(before, a),
        a.consulted(before) is Some,
        tcp_at(a.asked(before).slots, a.consulted(before)->0) == Some(asked),
        a.identified(before, identity),
        a.outcome(before, became, reply, after, result),
    ensures
        result is Some,
        a.is_live(before) ==> exists|owner: int|
            #[trigger] is_first_owner(before.slots, a, owner) && is_live_served(
                before,
                a,
                owner,
                asked,
                a.handover(before, identity),
                reply,
                became,
                after,
                carried(result->0),
            ),
        !a.is_live(before) ==> exists|listener: int|
            #[trigger] is_listener(before.slots, a, listener) && is_reopened(
                before,
                a,
                a.attached(before),
                a.detached(before),
                a.waiting(before)->0,
                listener,
                asked,
                a.handover(before, identity),
                became,
                after,
                carried(result->0),
            ),
{
    lemma_owner(before, a);
    lemma_waiting(before, a);
    let attached = a.attached(before);
    let detached = a.detached(before);
    if a.is_live(before) {
        let i = choose|i: int| #[trigger]
            is_first_owner(before.slots, a, i) && attached == Some(names(before.slots, i));
        assert(after.slots =~= with_tcp(before.slots, names(before.slots, i), became));
        lemma_tcp_in(before.slots);
        assert(is_live_served(
            before,
            a,
            i,
            asked,
            a.handover(before, identity),
            reply,
            became,
            after,
            carried(result->0),
        ));
    } else {
        let state = a.waiting(before)->0;
        let next = state.processed(a.now, a.tcp);
        lemma_reopener(before, a, state);
        let i = choose|i: int| #[trigger]
            is_first_reopener(before.slots, a, next, i) && a.listener(before) == Some(
                names(before.slots, i),
            );
        let index = names(before.slots, i);
        let slots = noted(before.slots, attached, state);
        let now = a.recorded(before).with_socket(index, became);
        lemma_tcp_in(slots);
        assert(now.slots =~= with_tcp(slots, index, became));
        assert(now == (Snapshot { slots: with_tcp(slots, index, became), ..before }));
        assert(tcp_in(before.slots, i) is Some);
        if became.state == State::SynReceived {
            lemma_over(now, attached, detached);
        } else {
            lemma_kept(now, attached, detached, state, next.replied(a.now));
            let sent = choose|sent: Option<(IpRepr, TcpRepr<'static>)>| #[trigger]
                next.is_reply(a.now, sent) && result == Some(
                    crate::iface::tcp_segments::bound_reply(PacketMeta { id: next.device }, sent),
                );
            lemma_acked(a, next, sent);
        }
        assert(is_reopened(
            before,
            a,
            attached,
            detached,
            state,
            i,
            asked,
            a.handover(before, identity),
            became,
            after,
            carried(result->0),
        ));
    }
}

/// The segment belongs to a connection in TIME-WAIT whose time is over: that is gone.
pub open spec fn is_let_go(before: Snapshot, a: Arrival<'_>, after: Snapshot) -> bool {
    exists|attached: Option<int>, detached: Option<Key>, state: TimeWaitState|
        {
            &&& #[trigger] is_waiting(before, a, attached, detached, state)
            &&& a.now.micros >= state.expires.micros
            &&& is_over(before, after, attached, detached)
        }
}

/// The segment belongs to a connection in TIME-WAIT whose time is not over, and no socket processes it.
pub open spec fn is_left(
    before: Snapshot,
    a: Arrival<'_>,
    after: Snapshot,
    answer: Option<Packet>,
) -> bool {
    exists|attached: Option<int>, detached: Option<Key>, state: TimeWaitState| #[trigger]
        is_settled(before, a, attached, detached, state, after, answer)
}

/// A socket processes the segment: the one whose connection it belongs to, or one that listens and can
/// open the connection again.
pub open spec fn is_served(
    before: Snapshot,
    a: Arrival<'_>,
    asked: tcp::Socket,
    reuse: Option<(&TimeWaitState, Option<u64>)>,
    reply: Option<(IpRepr, TcpRepr<'static>)>,
    became: tcp::Socket,
    after: Snapshot,
    answer: Option<Packet>,
) -> bool {
    ||| exists|owner: int| #[trigger]
        is_live_served(before, a, owner, asked, reuse, reply, became, after, answer)
    ||| exists|attached: Option<int>, detached: Option<Key>, state: TimeWaitState, listener: int|
        #[trigger]
        is_reopened(
            before,
            a,
            attached,
            detached,
            state,
            listener,
            asked,
            reuse,
            became,
            after,
            answer,
        )
}

/// Of a segment that belongs to no connection nothing comes, and neither of one that belongs to a
/// connection whose time is over, which is gone then. To any other TIME-WAIT or a socket gives its answer.
pub proof fn segments_find_their_connections<
    P: FnOnce(
        &mut tcp::Socket,
        &Context,
        &IpRepr,
        &TcpRepr<'_>,
        Option<(&TimeWaitState, Option<u64>)>,
    ) -> Option<(IpRepr, TcpRepr<'static>)>,
>(cx: &Context, meta: PacketMeta, ip: &IpRepr, tcp: &TcpRepr<'_>, process: P)
    ensures
        forall|set: &mut SocketSet<'_>, r: Option<Option<Reply>>| #[trigger]
            call_ensures(
                SocketSet::process_tcp_sockets::<P>,
                (set, cx, meta, ip, tcp, process),
                r,
            ) && is_found(
                set.snapshot(),
                Arrival { meta, ip: *ip, tcp: *tcp, now: cx.now },
            ) ==> {
                let a = Arrival { meta, ip: *ip, tcp: *tcp, now: cx.now };
                let before = set.snapshot();
                let after = final(set).snapshot();
                if r is None {
                    (is_free(before, a) && after == before) || is_let_go(before, a, after)
                } else {
                    ||| is_left(before, a, after, carried(r->0))
                    ||| exists|
                        socket: &mut tcp::Socket,
                        reuse: Option<(&TimeWaitState, Option<u64>)>,
                        reply: Option<(IpRepr, TcpRepr<'static>)>,
                    |
                        {
                            &&& #[trigger] call_ensures(
                                process,
                                (socket, cx, ip, tcp, reuse),
                                reply,
                            )
                            &&& is_served(
                                before,
                                a,
                                *socket,
                                reuse,
                                reply,
                                *final(socket),
                                after,
                                carried(r->0),
                            )
                        }
                }
            },
{
    let a = Arrival { meta, ip: *ip, tcp: *tcp, now: cx.now };
    assert(a == arrived(*cx, meta, *ip, *tcp));
    assert forall|set: &mut SocketSet<'_>, r: Option<Option<Reply>>| #[trigger]
        call_ensures(
            SocketSet::process_tcp_sockets::<P>,
            (set, cx, meta, ip, tcp, process),
            r,
        ) && is_found(set.snapshot(), a) implies {
        let before = set.snapshot();
        let after = final(set).snapshot();
        if r is None {
            (is_free(before, a) && after == before) || is_let_go(before, a, after)
        } else {
            ||| is_left(before, a, after, carried(r->0))
            ||| exists|
                socket: &mut tcp::Socket,
                reuse: Option<(&TimeWaitState, Option<u64>)>,
                reply: Option<(IpRepr, TcpRepr<'static>)>,
            |
                {
                    &&& #[trigger] call_ensures(process, (socket, cx, ip, tcp, reuse), reply)
                    &&& is_served(
                        before,
                        a,
                        *socket,
                        reuse,
                        reply,
                        *final(socket),
                        after,
                        carried(r->0),
                    )
                }
        }
    } by {
        let before = set.snapshot();
        let after = final(set).snapshot();
        lemma_waiting(before, a);
        if a.consulted(before) is None {
            if a.waiting(before) is Some {
                lemma_settled(before, a, after, r);
            }
        } else {
            let index = a.consulted(before)->0;
            let (socket, identity, reply) = choose|
                socket: &mut tcp::Socket,
                identity: Option<u64>,
                reply: Option<(IpRepr, TcpRepr<'static>)>,
            |
                {
                    &&& *socket == socket_at::<tcp::Socket>(a.asked(before).slots, index)
                    &&& a.identified(before, identity)
                    &&& #[trigger] call_ensures(
                        process,
                        (socket, cx, ip, tcp, a.handover(before, identity)),
                        reply,
                    )
                    &&& a.outcome(before, *final(socket), reply, after, r)
                };
            lemma_consulted(before, a);
            lemma_outcome(before, a, *socket, identity, reply, *final(socket), after, r);
            assert(is_served(
                before,
                a,
                *socket,
                a.handover(before, identity),
                reply,
                *final(socket),
                after,
                carried(r->0),
            ));
        }
    }
}

/// A socket that has to process the segment is there.
pub proof fn lemma_consulted(before: Snapshot, a: Arrival<'_>)
    requires
        is_found(before, a),
        a.consulted(before) is Some,
    ensures
        tcp_at(a.asked(before).slots, a.consulted(before)->0) == Some(
            socket_at::<tcp::Socket>(a.asked(before).slots, a.consulted(before)->0),
        ),
{
    lemma_waiting(before, a);
    if !a.is_live(before) {
        let state = a.waiting(before)->0;
        let next = state.processed(a.now, a.tcp);
        lemma_reopener(before, a, state);
        let i = choose|i: int| #[trigger]
            is_first_reopener(before.slots, a, next, i) && a.listener(before) == Some(
                names(before.slots, i),
            );
        assert(tcp_in(before.slots, i) is Some);
        assert(tcp_in(before.slots, names(before.slots, i)) is Some);
        lemma_tcp_in(a.recorded(before).slots);
    }
}

/// A time that much later can be told.
pub open spec fn can_be_told(now: Instant, later: Duration) -> bool {
    now.micros + later.micros <= i64::MAX && later.micros <= i64::MAX
}

/// The times that a segment for a connection in TIME-WAIT calls for can be told, and its endpoints have
/// addresses of one version where it is acknowledged.
pub open spec fn is_in_time(before: Snapshot, a: Arrival<'_>) -> bool {
    forall|attached: Option<int>, detached: Option<Key>, state: TimeWaitState|
        #[trigger] is_waiting(before, a, attached, detached, state) ==> {
            let socket = tcp_in(before.slots, attached->0)->0;
            &&& attached is Some && socket.time_wait is None ==> socket.tuple is Some
                && can_be_told(a.now, socket.time_wait_duration)
            &&& state.refreshes(a.now, a.tcp) ==> can_be_told(a.now, state.duration)
            &&& (state.action(a.now, a.tcp) == TimeWaitAction::Ack || state.action(a.now, a.tcp)
                == TimeWaitAction::Reopen) && a.now.micros >= state.ack_at.micros ==> {
                &&& state.tuple.local.addr is Ipv4 <==> state.tuple.remote.addr is Ipv4
                &&& a.now.micros + 500_000 <= i64::MAX
            }
        }
}

/// There is at most one such connection.
proof fn lemma_one_is_waiting(
    before: Snapshot,
    a: Arrival<'_>,
    attached: Option<int>,
    detached: Option<Key>,
    state: TimeWaitState,
)
    requires
        is_waiting(before, a, attached, detached, state),
    ensures
        attached == a.attached(before),
        detached == a.detached(before),
        a.waiting(before) == Some(state),
        !a.is_live(before),
{
    lemma_owner(before, a);
    if attached is Some {
        let i = choose|i: int| #[trigger]
            is_first_owner(before.slots, a, i) && names(before.slots, i) == attached->0;
        lemma_tcp_in(before.slots);
        assert(tcp_at(before.slots, attached->0) is Some);
    }
}

pub proof fn lemma_fits(before: Snapshot, a: Arrival<'_>)
    ensures
        a.fits(before) <==> is_found(before, a) && is_in_time(before, a),
{
    lemma_owner(before, a);
    lemma_tcp_in(before.slots);
    if is_owner_found(before.slots, a) {
        lemma_waiting(before, a);
        assert forall|attached: Option<int>, detached: Option<Key>, state: TimeWaitState| #[trigger]
            is_waiting(before, a, attached, detached, state) implies attached == a.attached(before)
            && detached == a.detached(before) && a.waiting(before) == Some(state) && !a.is_live(
            before,
        ) by {
            lemma_one_is_waiting(before, a, attached, detached, state);
        }
        if !a.is_live(before) && a.waiting(before) is Some {
            let state = a.waiting(before)->0;
            if state.action(a.now, a.tcp) == TimeWaitAction::Reopen && a.tcp.max_seg_size != Some(
                0u16,
            ) {
                lemma_reopener(before, a, state);
                lemma_one_reopener(before, a, state);
            }
        }
    } else {
        let i = choose|i: int| #[trigger]
            is_first_owner(before.slots, a, i) && tcp_in(before.slots, names(before.slots, i))
                is None;
        assert(a.attached(before) == Some(names(before.slots, i)));
        assert(tcp_at(before.slots, names(before.slots, i)) is None);
    }
}

proof fn lemma_one_reopener(before: Snapshot, a: Arrival<'_>, state: TimeWaitState)
    ensures
        forall|i: int, j: int|
            #[trigger] is_first_reopener(before.slots, a, state.processed(a.now, a.tcp), i)
                && #[trigger] is_first_reopener(
                before.slots,
                a,
                state.processed(a.now, a.tcp),
                j,
            ) ==> i == j,
{
    let next = state.processed(a.now, a.tcp);
    assert forall|i: int, j: int|
        #[trigger] is_first_reopener(before.slots, a, next, i) && #[trigger] is_first_reopener(
            before.slots,
            a,
            next,
            j,
        ) implies i == j by {
        if i < j {
            assert(!is_reopener(before.slots, a, next, i));
        } else if j < i {
            assert(!is_reopener(before.slots, a, next, j));
        }
    }
}

/// A segment can be processed where the handles of the sockets that it concerns lead to TCP sockets and
/// the times that it calls for can be told.
pub proof fn processable_segments_are_told(
    set: &SocketSet<'_>,
    cx: &Context,
    meta: PacketMeta,
    ip: &IpRepr,
    tcp: &TcpRepr<'_>,
    r: bool,
)
    requires
        call_ensures(SocketSet::can_process_tcp, (set, cx, meta, ip, tcp), r),
    ensures
        ({
            let a = Arrival { meta, ip: *ip, tcp: *tcp, now: cx.now };
            r <==> is_found(set.snapshot(), a) && is_in_time(set.snapshot(), a)
        }),
{
    lemma_fits(set.snapshot(), Arrival { meta, ip: *ip, tcp: *tcp, now: cx.now });
}

} // verus!
