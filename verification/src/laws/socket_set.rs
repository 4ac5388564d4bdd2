//! Laws of sets of sockets.
use crate::iface::socket_set::{
    occupied, places_are_numbers, with_items, IntoStorage, Item, Offer, Question, SocketHandle, SocketSet,
    SocketStorage, TcpIngressHandler, TcpIngressResult, TcpListenRegistry, UdpIngressHandler, UdpIngressResult,
};
use crate::laws::numbers::{decimal_reads_back, value};
use crate::phy::PacketMeta;
use crate::socket::{tcp, udp, AnySocket, Socket};
use crate::wire;
use crate::wire::ip::{IpEndpoint, IpRepr};
use std::sync::Arc;
use vstd::prelude::*;

verus! {

/// Two sets are the same but for their sockets.
pub open spec fn same_beside_sockets(a: SocketSet<'_>, b: SocketSet<'_>) -> bool {
    &&& a.setup() == b.setup()
    &&& a.protected() == b.protected()
    &&& a.notified() == b.notified()
    &&& a.records() == b.records()
}

/// A socket of a protocol is one of that protocol and of no other, and forgetting its protocol loses
/// nothing.
pub proof fn protocols_are_told_apart(a: tcp::Socket, b: udp::Socket, any: Socket)
    ensures
        <tcp::Socket as AnySocket>::from_any(a.any()) == Some(a),
        <udp::Socket as AnySocket>::from_any(b.any()) == Some(b),
        <tcp::Socket as AnySocket>::from_any(b.any()) is None,
        <udp::Socket as AnySocket>::from_any(a.any()) is None,
        any is Tcp ==> <tcp::Socket as AnySocket>::from_any(any) == Some(any->Tcp_0),
        any is Udp ==> <udp::Socket as AnySocket>::from_any(any) == Some(any->Udp_0),
{
}

/// A new set has the spaces of its storage, and holds and knows nothing beside.
pub proof fn new_sets_have_the_spaces_of_their_storage<'a, S: IntoStorage<'a>>(
    sockets: S,
    r: SocketSet<'a>,
)
    requires
        call_ensures(SocketSet::<'a>::new::<S>, (sockets,), r),
    ensures
        r@.len() == sockets.slots().len(),
        forall|i: int| 0 <= i < r@.len() ==> #[trigger] r@[i] == sockets.slots()[i].item(),
        r.setup().can_grow == sockets.can_grow(),
        r.setup().udp_ingress_handler is None,
        r.setup().tcp_ingress_handler is None,
        r.setup().tcp_listen_registry is None,
        forall|key: crate::iface::time_wait_table::Key| !#[trigger]
            r.protected().contains_key(key),
        r.notified().len() == 0,
        r.records().offers.len() == 0,
        r.records().questions.len() == 0,
{
}

/// A socket that is added takes the first free space, or a new one behind the others where none is
/// free. Its item records the handle that is returned, which leads to that space. Nothing else changes.
pub proof fn sockets_are_added_to_the_first_free_space<T: AnySocket>(socket: T, r: SocketHandle)
    ensures
        forall|set: &mut SocketSet<'_>| #[trigger]
            call_ensures(SocketSet::add::<T>, (set, socket), r) ==> {
                &&& 0 <= r.index() < final(set)@.len()
                &&& final(set)@[r.index()] is Some
                &&& (final(set)@[r.index()]->0).meta.handle == r
                &&& (final(set)@[r.index()]->0).socket == socket.any()
                &&& forall|i: int| 0 <= i < r.index() ==> #[trigger] set@[i] is Some
                &&& r.index() < set@.len() ==> set@[r.index()] is None && final(set)@.len()
                    == set@.len()
                &&& r.index() >= set@.len() ==> r.index() == set@.len() && final(set)@.len()
                    == set@.len() + 1
                &&& forall|i: int|
                    0 <= i < set@.len() && i != r.index() ==> #[trigger] final(set)@[i] == set@[i]
                &&& same_beside_sockets(*final(set), *set)
            },
{
}

/// A socket is found under the handle of its space where it is of the protocol that is asked for.
pub proof fn handles_lead_to_sockets<T: AnySocket>(
    set: &SocketSet<'_>,
    handle: SocketHandle,
    there: bool,
    r: &T,
)
    requires
        call_ensures(SocketSet::contains::<T>, (set, handle), there),
        call_ensures(SocketSet::get::<T>, (set, handle), r),
    ensures
        there <==> {
            &&& 0 <= handle.index() < set@.len()
            &&& set@[handle.index()] is Some
            &&& T::from_any((set@[handle.index()]->0).socket) is Some
        },
        there ==> T::from_any((set@[handle.index()]->0).socket) == Some(*r),
{
}

/// What is done to a socket of a set is done to the socket in that space, and to nothing else.
pub proof fn one_socket_is_changed<T: AnySocket>(handle: SocketHandle)
    ensures
        forall|set: &mut SocketSet<'_>, r: &mut T| #[trigger]
            call_ensures(SocketSet::get_mut::<T>, (set, handle), r) && 0 <= handle.index()
                < set@.len() && set@[handle.index()] is Some && T::from_any(
                (set@[handle.index()]->0).socket,
            ) is Some ==> {
                &&& T::from_any((set@[handle.index()]->0).socket) == Some(*r)
                &&& final(set)@.len() == set@.len()
                &&& final(set)@[handle.index()] is Some
                &&& (final(set)@[handle.index()]->0).meta == (set@[handle.index()]->0).meta
                &&& (final(set)@[handle.index()]->0).socket == (*final(r)).any()
                &&& forall|i: int|
                    0 <= i < set@.len() && i != handle.index() ==> #[trigger] final(set)@[i]
                        == set@[i]
                &&& same_beside_sockets(*final(set), *set)
            },
{
}

/// A socket that is removed is handed back as it was, and its space is free. Nothing else changes.
pub proof fn removed_sockets_are_handed_back(handle: SocketHandle, r: Socket)
    ensures
        forall|set: &mut SocketSet<'_>| #[trigger]
            call_ensures(SocketSet::remove, (set, handle), r) && 0 <= handle.index() < set@.len()
                && set@[handle.index()] is Some ==> {
                &&& r == (set@[handle.index()]->0).socket
                &&& final(set)@.len() == set@.len()
                &&& final(set)@[handle.index()] is None
                &&& forall|i: int|
                    0 <= i < set@.len() && i != handle.index() ==> #[trigger] final(set)@[i]
                        == set@[i]
                &&& same_beside_sockets(*final(set), *set)
            },
{
}

/// The places are those of all occupied spaces, in order.
pub open spec fn are_occupied(slots: Seq<Option<Item>>, places: Seq<int>) -> bool {
    &&& forall|k: int|
        0 <= k < places.len() ==> 0 <= #[trigger] places[k] < slots.len() && slots[places[k]]
            is Some
    &&& forall|k: int, l: int|
        0 <= k < l < places.len() ==> #[trigger] places[k] < #[trigger] places[l]
    &&& forall|i: int|
        0 <= i < slots.len() && #[trigger] slots[i] is Some ==> places.contains(i)
}

proof fn lemma_occupied(slots: Seq<Option<Item>>) -> (places: Seq<int>)
    ensures
        are_occupied(slots, places),
        places.len() == occupied(slots).len(),
        forall|k: int|
            0 <= k < places.len() ==> slots[#[trigger] places[k]] == Some(occupied(slots)[k]),
    decreases slots.len(),
{
    if slots.len() == 0 {
        Seq::empty()
    } else {
        let front = slots.drop_last();
        let before = lemma_occupied(front);
        assert forall|i: int| 0 <= i < front.len() && #[trigger] slots[i] is Some implies before.contains(
            i,
        ) by {
            assert(front[i] == slots[i]);
        }
        match slots.last() {
            Some(item) => {
                let places = before.push(slots.len() - 1);
                assert forall|k: int| 0 <= k < places.len() implies 0 <= #[trigger] places[k]
                    < slots.len() && slots[places[k]] == Some(occupied(slots)[k]) by {
                    if k < before.len() {
                        assert(front[before[k]] == Some(occupied(front)[k]));
                    }
                }
                assert forall|i: int|
                    0 <= i < slots.len() && #[trigger] slots[i] is Some implies places.contains(
                    i,
                ) by {
                    if i < front.len() {
                        let k = before.index_of(i);
                        assert(places[k] == i);
                    } else {
                        assert(places[before.len() as int] == i);
                    }
                }
                places
            },
            None => {
                assert forall|k: int| 0 <= k < before.len() implies slots[#[trigger] before[k]]
                    == Some(occupied(slots)[k]) by {
                    assert(front[before[k]] == Some(occupied(front)[k]));
                }
                before
            },
        }
    }
}

proof fn lemma_with_items(slots: Seq<Option<Item>>, items: Seq<Item>, places: Seq<int>)
    requires
        are_occupied(slots, places),
        places.len() == items.len(),
    ensures
        with_items(slots, items).len() == slots.len(),
        forall|k: int|
            0 <= k < places.len() ==> with_items(slots, items)[#[trigger] places[k]] == Some(
                items[k],
            ),
        forall|i: int|
            0 <= i < slots.len() && slots[i] is None ==> #[trigger] with_items(slots, items)[i]
                is None,
    decreases slots.len(),
{
    if slots.len() == 0 {
    } else {
        let front = slots.drop_last();
        let end = slots.len() - 1;
        match slots.last() {
            Some(_) => {
                assert(places.contains(end));
                let at = places.index_of(end);
                assert(at == places.len() - 1) by {
                    if at < places.len() - 1 {
                        assert(places[at] < places[places.len() - 1]);
                    }
                }
                let before = places.drop_last();
                assert forall|k: int| 0 <= k < before.len() implies 0 <= #[trigger] before[k]
                    < front.len() && front[before[k]] is Some by {
                    assert(places[k] < places[at]);
                }
                assert forall|i: int|
                    0 <= i < front.len() && #[trigger] front[i] is Some implies before.contains(
                    i,
                ) by {
                    assert(slots[i] is Some);
                    let k = places.index_of(i);
                    assert(before[k] == i);
                }
                lemma_with_items(front, items.drop_last(), before);
                assert forall|k: int| 0 <= k < places.len() implies with_items(
                    slots,
                    items,
                )[#[trigger] places[k]] == Some(items[k]) by {
                    if k < before.len() {
                        assert(before[k] == places[k]);
                    }
                }
                assert forall|i: int| 0 <= i < slots.len() && slots[i] is None implies
                    #[trigger] with_items(slots, items)[i] is None by {
                    assert(front[i] is None);
                    assert(with_items(front, items.drop_last())[i] is None);
                }
            },
            None => {
                assert forall|k: int| 0 <= k < places.len() implies 0 <= #[trigger] places[k]
                    < front.len() && front[places[k]] is Some by {
                    assert(slots[places[k]] is Some);
                }
                assert forall|i: int|
                    0 <= i < front.len() && #[trigger] front[i] is Some implies places.contains(
                    i,
                ) by {
                    assert(slots[i] is Some);
                }
                lemma_with_items(front, items, places);
                assert forall|k: int| 0 <= k < places.len() implies with_items(
                    slots,
                    items,
                )[#[trigger] places[k]] == Some(items[k]) by {
                    assert(with_items(front, items)[places[k]] == Some(items[k]));
                }
                assert forall|i: int| 0 <= i < slots.len() && slots[i] is None implies
                    #[trigger] with_items(slots, items)[i] is None by {
                    if i < front.len() {
                        assert(front[i] is None);
                        assert(with_items(front, items)[i] is None);
                    }
                }
            },
        }
    }
}

/// Every socket of a set is listed once, in the order of the spaces.
pub proof fn sockets_are_listed_in_order(
    set: &SocketSet<'_>,
    items: Vec<&Item>,
    sockets: Vec<(SocketHandle, &Socket)>,
)
    requires
        call_ensures(SocketSet::items, (set,), items),
        call_ensures(SocketSet::iter, (set,), sockets),
    ensures
        exists|places: Seq<int>|
            {
                &&& #[trigger] are_occupied(set@, places)
                &&& items@.len() == places.len()
                &&& sockets@.len() == places.len()
                &&& forall|k: int|
                    0 <= k < places.len() ==> set@[#[trigger] places[k]] == Some(*items@[k])
                &&& forall|k: int|
                    0 <= k < places.len() ==> sockets@[k].0 == (set@[#[trigger] places[k]]->0).meta.handle
                        && *sockets@[k].1 == (set@[places[k]]->0).socket
            },
{
    let places = lemma_occupied(set@);
    assert(are_occupied(set@, places));
    assert forall|k: int| 0 <= k < places.len() implies set@[#[trigger] places[k]] == Some(
        *items@[k],
    ) by {}
    assert forall|k: int| 0 <= k < places.len() implies sockets@[k].0 == (
    set@[#[trigger] places[k]]->0).meta.handle && *sockets@[k].1 == (set@[places[k]]->0).socket by {}
}

/// Every socket of a set is handed out once, in the order of the spaces, and what is done to it is done to
/// the socket in that space. Spaces that are free stay free.
pub proof fn sockets_are_handed_out_in_order()
    ensures
        forall|set: &mut SocketSet<'_>, r: Vec<&mut Item>| #[trigger]
            call_ensures(SocketSet::items_mut, (set,), r) ==> {
                &&& exists|places: Seq<int>|
                    {
                        &&& #[trigger] are_occupied(set@, places)
                        &&& r@.len() == places.len()
                        &&& forall|k: int|
                            0 <= k < places.len() ==> set@[#[trigger] places[k]] == Some(*r@[k])
                        &&& forall|k: int|
                            0 <= k < places.len() ==> final(set)@[#[trigger] places[k]] == Some(
                                *final(r@[k]),
                            )
                    }
                &&& final(set)@.len() == set@.len()
                &&& forall|i: int|
                    0 <= i < set@.len() && set@[i] is None ==> #[trigger] final(set)@[i] is None
                &&& same_beside_sockets(*final(set), *set)
            },
        forall|set: &mut SocketSet<'_>, r: Vec<(SocketHandle, &mut Socket)>| #[trigger]
            call_ensures(SocketSet::iter_mut, (set,), r) ==> {
                &&& exists|places: Seq<int>|
                    {
                        &&& #[trigger] are_occupied(set@, places)
                        &&& r@.len() == places.len()
                        &&& forall|k: int|
                            0 <= k < places.len() ==> r@[k].0 == (
                            set@[#[trigger] places[k]]->0).meta.handle && *r@[k].1 == (
                            set@[places[k]]->0).socket
                        &&& forall|k: int|
                            0 <= k < places.len() ==> {
                                &&& final(set)@[#[trigger] places[k]] is Some
                                &&& (final(set)@[places[k]]->0).meta == (set@[places[k]]->0).meta
                                &&& (final(set)@[places[k]]->0).socket == *final(r@[k].1)
                            }
                    }
                &&& final(set)@.len() == set@.len()
                &&& forall|i: int|
                    0 <= i < set@.len() && set@[i] is None ==> #[trigger] final(set)@[i] is None
                &&& same_beside_sockets(*final(set), *set)
            },
{
    assert forall|set: &mut SocketSet<'_>, r: Vec<&mut Item>| #[trigger]
        call_ensures(SocketSet::items_mut, (set,), r) implies {
        &&& exists|places: Seq<int>|
            {
                &&& #[trigger] are_occupied(set@, places)
                &&& r@.len() == places.len()
                &&& forall|k: int|
                    0 <= k < places.len() ==> set@[#[trigger] places[k]] == Some(*r@[k])
                &&& forall|k: int|
                    0 <= k < places.len() ==> final(set)@[#[trigger] places[k]] == Some(
                        *final(r@[k]),
                    )
            }
        &&& final(set)@.len() == set@.len()
        &&& forall|i: int|
            0 <= i < set@.len() && set@[i] is None ==> #[trigger] final(set)@[i] is None
        &&& same_beside_sockets(*final(set), *set)
    } by {
        let places = lemma_occupied(set@);
        let items = Seq::new(r@.len(), |i: int| *final(r@[i]));
        lemma_with_items(set@, items, places);
        assert(are_occupied(set@, places));
        assert forall|k: int| 0 <= k < places.len() implies set@[#[trigger] places[k]] == Some(
            *r@[k],
        ) by {}
        assert forall|k: int| 0 <= k < places.len() implies final(set)@[#[trigger] places[k]]
            == Some(*final(r@[k])) by {
            assert(items[k] == *final(r@[k]));
        }
    }
    assert forall|set: &mut SocketSet<'_>, r: Vec<(SocketHandle, &mut Socket)>| #[trigger]
        call_ensures(SocketSet::iter_mut, (set,), r) implies {
        &&& exists|places: Seq<int>|
            {
                &&& #[trigger] are_occupied(set@, places)
                &&& r@.len() == places.len()
                &&& forall|k: int|
                    0 <= k < places.len() ==> r@[k].0 == (
                    set@[#[trigger] places[k]]->0).meta.handle && *r@[k].1 == (
                    set@[places[k]]->0).socket
                &&& forall|k: int|
                    0 <= k < places.len() ==> {
                        &&& final(set)@[#[trigger] places[k]] is Some
                        &&& (final(set)@[places[k]]->0).meta == (set@[places[k]]->0).meta
                        &&& (final(set)@[places[k]]->0).socket == *final(r@[k].1)
                    }
            }
        &&& final(set)@.len() == set@.len()
        &&& forall|i: int|
            0 <= i < set@.len() && set@[i] is None ==> #[trigger] final(set)@[i] is None
        &&& same_beside_sockets(*final(set), *set)
    } by {
        let places = lemma_occupied(set@);
        let items = Seq::new(
            r@.len(),
            |i: int| Item { meta: occupied(set@)[i].meta, socket: *final(r@[i].1) },
        );
        lemma_with_items(set@, items, places);
        assert(are_occupied(set@, places));
        assert forall|k: int| 0 <= k < places.len() implies r@[k].0 == (
        set@[#[trigger] places[k]]->0).meta.handle && *r@[k].1 == (set@[places[k]]->0).socket by {}
        assert forall|k: int| 0 <= k < places.len() implies {
            &&& final(set)@[#[trigger] places[k]] is Some
            &&& (final(set)@[places[k]]->0).meta == (set@[places[k]]->0).meta
            &&& (final(set)@[places[k]]->0).socket == *final(r@[k].1)
        } by {
            assert(set@[places[k]] == Some(occupied(set@)[k]));
            assert(with_items(set@, items)[places[k]] == Some(items[k]));
        }
    }
}

/// Handlers and the registry are installed one in the place of the other, which is handed back. Nothing
/// else changes.
pub proof fn handlers_take_each_others_place(
    udp_handler: Option<Arc<dyn UdpIngressHandler>>,
    tcp_handler: Option<Arc<dyn TcpIngressHandler>>,
    registry: Option<Arc<dyn TcpListenRegistry>>,
)
    ensures
        forall|set: &mut SocketSet<'_>, r: Option<Arc<dyn UdpIngressHandler>>| #[trigger]
            call_ensures(SocketSet::set_udp_ingress_handler, (set, udp_handler), r) ==> {
                &&& r == set.setup().udp_ingress_handler
                &&& final(set).setup().udp_ingress_handler == udp_handler
                &&& final(set).setup().tcp_ingress_handler == set.setup().tcp_ingress_handler
                &&& final(set).setup().tcp_listen_registry == set.setup().tcp_listen_registry
                &&& final(set).setup().can_grow == set.setup().can_grow
                &&& final(set)@ == set@
                &&& final(set).protected() == set.protected()
                &&& final(set).notified() == set.notified()
                &&& final(set).records() == set.records()
            },
        forall|set: &mut SocketSet<'_>, r: Option<Arc<dyn TcpIngressHandler>>| #[trigger]
            call_ensures(SocketSet::set_tcp_ingress_handler, (set, tcp_handler), r) ==> {
                &&& r == set.setup().tcp_ingress_handler
                &&& final(set).setup().tcp_ingress_handler == tcp_handler
                &&& final(set).setup().udp_ingress_handler == set.setup().udp_ingress_handler
                &&& final(set).setup().tcp_listen_registry == set.setup().tcp_listen_registry
                &&& final(set).setup().can_grow == set.setup().can_grow
                &&& final(set)@ == set@
                &&& final(set).protected() == set.protected()
                &&& final(set).notified() == set.notified()
                &&& final(set).records() == set.records()
            },
        forall|set: &mut SocketSet<'_>, r: Option<Arc<dyn TcpListenRegistry>>| #[trigger]
            call_ensures(SocketSet::set_tcp_listen_registry, (set, registry), r) ==> {
                &&& r == set.setup().tcp_listen_registry
                &&& final(set).setup().tcp_listen_registry == registry
                &&& final(set).setup().udp_ingress_handler == set.setup().udp_ingress_handler
                &&& final(set).setup().tcp_ingress_handler == set.setup().tcp_ingress_handler
                &&& final(set).setup().can_grow == set.setup().can_grow
                &&& final(set)@ == set@
                &&& final(set).protected() == set.protected()
                &&& final(set).notified() == set.notified()
                &&& final(set).records() == set.records()
            },
{
}

/// A datagram is put to the handler as it is, and without one it is not handled.
pub proof fn datagrams_are_put_to_the_handler(
    set: &SocketSet<'_>,
    meta: PacketMeta,
    ip: &IpRepr,
    repr: &wire::udp::Repr,
    is_broadcast: bool,
    payload: &[u8],
    r: UdpIngressResult,
)
    requires
        call_ensures(
            SocketSet::handle_udp_ingress,
            (set, meta, ip, repr, is_broadcast, payload),
            r,
        ),
    ensures
        set.setup().udp_ingress_handler is None ==> r == UdpIngressResult::NotHandled,
        set.setup().udp_ingress_handler matches Some(handler) ==> handler.may_answer(
            meta,
            *ip,
            *repr,
            is_broadcast,
            payload@,
            r,
        ),
{
}

/// A segment is put to the handler once, as it is, and without one it is not handled.
pub proof fn segments_are_put_to_the_handler(
    meta: PacketMeta,
    ip: &IpRepr,
    segment: &[u8],
    r: TcpIngressResult,
)
    ensures
        forall|set: &mut SocketSet<'_>| #[trigger]
            call_ensures(SocketSet::handle_tcp_ingress, (set, meta, ip, segment), r) ==> {
                &&& set.setup().tcp_ingress_handler is None ==> r == TcpIngressResult::NotHandled
                    && final(set).records() == set.records()
                &&& set.setup().tcp_ingress_handler matches Some(handler) ==> {
                    &&& handler.may_answer(meta, *ip, segment@, r)
                    &&& final(set).records().offers == set.records().offers.push(
                        Offer { meta, ip_repr: *ip, segment: segment@ },
                    )
                    &&& final(set).records().questions == set.records().questions
                }
                &&& final(set)@ == set@
                &&& final(set).setup() == set.setup()
                &&& final(set).protected() == set.protected()
                &&& final(set).notified() == set.notified()
            },
{
}

/// The registry is asked once about the endpoint, and without one nothing is listened on.
pub proof fn endpoints_are_put_to_the_registry(endpoint: IpEndpoint, meta: PacketMeta, r: bool)
    ensures
        forall|set: &mut SocketSet<'_>| #[trigger]
            call_ensures(SocketSet::tcp_is_listening, (set, endpoint, meta), r) ==> {
                &&& set.setup().tcp_listen_registry is None ==> !r && final(set).records()
                    == set.records()
                &&& set.setup().tcp_listen_registry matches Some(registry) ==> {
                    &&& registry.may_answer(endpoint, meta, r)
                    &&& final(set).records().questions == set.records().questions.push(
                        Question { endpoint, meta },
                    )
                    &&& final(set).records().offers == set.records().offers
                }
                &&& final(set)@ == set@
                &&& final(set).setup() == set.setup()
                &&& final(set).protected() == set.protected()
                &&& final(set).notified() == set.notified()
            },
{
}

/// The handle that is there by default leads to the first space, and space is free by default.
pub proof fn defaults_are_first_and_free(
    handle: SocketHandle,
    storage: SocketStorage,
    empty: SocketStorage,
)
    requires
        call_ensures(<SocketHandle as Default>::default, (), handle),
        call_ensures(<SocketStorage as Default>::default, (), storage),
        call_ensures(SocketStorage::empty, (), empty),
    ensures
        handle.index() == 0,
        storage.item() is None,
        empty.item() is None,
{
}

/// A handle is written as a hash and the number of its place.
pub proof fn handles_are_written_as_numbers(handle: &SocketHandle, r: String)
    requires
        call_ensures(SocketHandle::to_text, (handle,), r),
    ensures
        r@.len() >= 2,
        r@[0] == '#',
        value(r@.skip(1)) == handle.index(),
        forall|i: int| 1 <= i < r@.len() ==> '0' <= #[trigger] r@[i] <= '9',
        handle.index() > 0 ==> r@[1] != '0',
{
    reveal_strlit("#");
    places_are_numbers(*handle);
    let n = handle.index() as nat;
    decimal_reads_back(n);
    assert(r@.skip(1) =~= crate::text::decimal(n));
}

} // verus!
