//! The sockets of an interface.
use crate::iface::time_wait_table::{own_keys, Entry, Key, TimeWaitTable};
use crate::phy::PacketMeta;
use crate::socket::tcp::{all_heard, Notice};
use crate::socket::{tcp, AnySocket, Socket};
use crate::text::{append_decimal, decimal};
use crate::wire::ip::{IpEndpoint, IpRepr};
use crate::wire::udp;
use managed::ManagedSlice;
use std::sync::Arc;
use vstd::prelude::*;

verus! {

/// Result of offering a validated UDP datagram to an external ingress handler.
#[derive(Debug, Clone, Copy, PartialEq, Eq, Structural)]
pub enum UdpIngressResult {
    /// Continue with UDP and DNS socket demultiplexing.
    NotHandled,
    /// The handler consumed or deliberately dropped the datagram.
    ///
    /// It will not be offered to UDP/DNS sockets and will not be answered by an ICMP
    /// port-unreachable response.
    Consumed,
}

/// Optional external consumer for validated UDP ingress.
///
/// The callback runs after IP reassembly and UDP length/checksum validation,
/// but before UDP and DNS socket demultiplexing.
/// `is_broadcast` reports limited or interface-directed IPv4 broadcast; it is
/// always false for IPv6.
pub trait UdpIngressHandler: Send + Sync {
    /// What may come of a datagram; anything, unless an implementation says more.
    open spec fn may_answer(
        &self,
        meta: PacketMeta,
        ip_repr: IpRepr,
        udp_repr: udp::Repr,
        is_broadcast: bool,
        payload: Seq<u8>,
        answer: UdpIngressResult,
    ) -> bool {
        true
    }

    fn handle_udp_ingress(
        &self,
        meta: PacketMeta,
        ip_repr: &IpRepr,
        udp_repr: &udp::Repr,
        is_broadcast: bool,
        payload: &[u8],
    ) -> (r: UdpIngressResult)
        ensures
            self.may_answer(meta, *ip_repr, *udp_repr, is_broadcast, payload@, r),
    ;
}

/// Result of offering a validated TCP segment to an external ingress handler.
#[derive(Debug, Clone, Copy, PartialEq, Eq, Structural)]
pub enum TcpIngressResult {
    /// Continue with TCP socket demultiplexing.
    NotHandled,
    /// The handler consumed or deliberately dropped the segment.
    Consumed,
}

/// Optional external consumer for validated TCP ingress.
///
/// `ip_repr` describes the segment without extension headers.
pub trait TcpIngressHandler: Send + Sync {
    /// What may come of a segment; anything, unless an implementation says more.
    open spec fn may_answer(
        &self,
        meta: PacketMeta,
        ip_repr: IpRepr,
        segment: Seq<u8>,
        answer: TcpIngressResult,
    ) -> bool {
        true
    }

    fn handle_tcp_ingress(
        &self,
        meta: PacketMeta,
        ip_repr: &IpRepr,
        segment: &[u8],
    ) -> (r: TcpIngressResult)
        ensures
            self.may_answer(meta, *ip_repr, segment@, r),
    ;
}

/// Knows the endpoints that are listened on, also while all of their sockets are occupied.
pub trait TcpListenRegistry: Send + Sync {
    /// What the registry may know; anything, unless an implementation says more.
    open spec fn may_answer(&self, endpoint: IpEndpoint, meta: PacketMeta, answer: bool) -> bool {
        true
    }

    fn is_listening(&self, endpoint: IpEndpoint, meta: PacketMeta) -> (r: bool)
        ensures
            self.may_answer(endpoint, meta, r),
    ;
}

/// What the set knows of a socket beside the socket itself.
#[derive(Debug, Clone, Copy, PartialEq, Eq, Structural)]
pub struct Meta {
    /// Handle of this socket within its enclosing `SocketSet`.
    pub handle: SocketHandle,
}

/// Opaque struct with space for storing one socket.
///
/// This is public so you can use it to allocate space for storing
/// sockets when creating an Interface.
pub struct SocketStorage {
    inner: Option<Item>,
}

impl SocketStorage {
    /// The socket in this space, where there is one.
    pub closed spec fn item(self) -> Option<Item> {
        self.inner
    }

    /// Space without a socket.
    pub fn empty() -> (r: SocketStorage)
        ensures
            r.item() is None,
    {
        SocketStorage { inner: None }
    }
}

impl Default for SocketStorage {
    fn default() -> (r: SocketStorage)
        ensures
            r.item() is None,
    {
        SocketStorage { inner: None }
    }
}

/// An item of a socket set.
pub struct Item {
    pub meta: Meta,
    pub socket: Socket,
}

/// A handle, identifying a socket in an Interface.
#[derive(Debug, Clone, Copy, PartialEq, Eq, PartialOrd, Ord, Hash, Structural)]
pub struct SocketHandle(usize);

impl Default for SocketHandle {
    fn default() -> (r: SocketHandle)
        ensures
            r.index() == 0,
    {
        SocketHandle(0)
    }
}

impl SocketHandle {
    /// The place of the socket in the set.
    pub closed spec fn index(self) -> int {
        self.0 as int
    }

    /// The handle of a place in the set.
    pub(crate) fn at(index: usize) -> (r: SocketHandle)
        ensures
            r.index() == index,
    {
        SocketHandle(index)
    }

    /// The place of the socket in the set.
    pub(crate) fn place(&self) -> (r: usize)
        ensures
            r == self.index(),
    {
        self.0
    }

    /// The handle as it is written.
    pub fn to_text(&self) -> (r: String)
        ensures
            r@ == "#"@ + decimal(self.index() as nat),
    {
        let mut text = String::new();
        text.append("#");
        append_decimal(&mut text, self.0);
        assert(text@ =~= "#"@ + decimal(self.index() as nat));
        text
    }
}

/// The place of a handle is a number that a machine can hold.
pub proof fn places_are_numbers(handle: SocketHandle)
    ensures
        0 <= handle.index() <= usize::MAX,
{
}

/// A handle is told by its place alone: handles that lead to the same place are the same.
pub proof fn equal_places_are_equal_handles(a: SocketHandle, b: SocketHandle)
    requires
        a.index() == b.index(),
    ensures
        a == b,
{
}

/// The slice of `managed`, which owns its elements or borrows them.
#[verifier::external_type_specification]
#[verifier::external_body]
#[verifier::reject_recursive_types(T)]
pub struct ExManagedSlice<'a, T: 'a>(ManagedSlice<'a, T>);

/// The elements of a managed slice, in order.
pub uninterp spec fn managed_slots(slots: ManagedSlice<'_, SocketStorage>) -> Seq<SocketStorage>;

/// A managed slice owns its elements, and can take more.
pub uninterp spec fn managed_owned(slots: ManagedSlice<'_, SocketStorage>) -> bool;

/// `ManagedSlice::from` on a vector: an owned slice of its elements.
#[verifier::external_body]
fn managed_from_vec<'a>(slots: Vec<SocketStorage>) -> (r: ManagedSlice<'a, SocketStorage>)
    ensures
        managed_slots(r) == slots@,
        managed_owned(r),
{
    ManagedSlice::from(slots)
}

/// `ManagedSlice::from` on a borrowed slice: a borrowed slice of its elements.
#[verifier::external_body]
fn managed_from_slice<'a>(slots: &'a mut [SocketStorage]) -> (r: ManagedSlice<'a, SocketStorage>)
    ensures
        managed_slots(r) == old(slots)@,
        !managed_owned(r),
{
    ManagedSlice::from(slots)
}

/// `ManagedSlice::from` on an array of a length that it takes: an owned slice of its elements.
#[verifier::external_body]
fn managed_from_array<'a, const N: usize>(slots: [SocketStorage; N]) -> (r: ManagedSlice<
    'a,
    SocketStorage,
>) where ManagedSlice<'a, SocketStorage>: From<[SocketStorage; N]>
    ensures
        managed_slots(r) == slots@,
        managed_owned(r),
{
    ManagedSlice::from(slots)
}

/// `Deref::deref` of a managed slice: its elements.
#[verifier::external_body]
fn managed_as_slice<'s, 'a>(slots: &'s ManagedSlice<'a, SocketStorage>) -> (r: &'s [SocketStorage])
    ensures
        r@ == managed_slots(*slots),
{
    &**slots
}

/// `DerefMut::deref_mut` of a managed slice: its elements, which take on what is written there.
#[verifier::external_body]
fn managed_as_mut_slice<'s, 'a>(slots: &'s mut ManagedSlice<'a, SocketStorage>) -> (r:
    &'s mut [SocketStorage])
    ensures
        r@ == managed_slots(*old(slots)),
        managed_slots(*final(slots)) == final(r)@,
        managed_owned(*final(slots)) == managed_owned(*old(slots)),
{
    &mut **slots
}

/// The variants of a managed slice: the vector of an owned one, which takes on what is done to
/// it, and nothing of a borrowed one.
#[verifier::external_body]
fn managed_as_vec<'s, 'a>(slots: &'s mut ManagedSlice<'a, SocketStorage>) -> (r: Option<
    &'s mut Vec<SocketStorage>,
>)
    ensures
        match r {
            Some(vec) => {
                &&& managed_owned(*old(slots))
                &&& managed_owned(*final(slots))
                &&& vec@ == managed_slots(*old(slots))
                &&& managed_slots(*final(slots)) == final(vec)@
            },
            None => !managed_owned(*old(slots)) && *final(slots) == *old(slots),
        },
{
    match slots {
        ManagedSlice::Borrowed(_) => None,
        ManagedSlice::Owned(vec) => Some(vec),
    }
}

/// Storage that a socket set can be made from.
pub trait IntoStorage<'a>: Sized {
    /// The space in the storage, in order.
    spec fn slots(&self) -> Seq<SocketStorage>;

    /// The storage can take more sockets than there is space for.
    spec fn can_grow(&self) -> bool;

    /// The storage as a managed slice.
    fn into_storage(self) -> (r: ManagedSlice<'a, SocketStorage>)
        ensures
            managed_slots(r) == self.slots(),
            managed_owned(r) == self.can_grow(),
    ;
}

impl<'a> IntoStorage<'a> for Vec<SocketStorage> {
    open spec fn slots(&self) -> Seq<SocketStorage> {
        self@
    }

    open spec fn can_grow(&self) -> bool {
        true
    }

    fn into_storage(self) -> (r: ManagedSlice<'a, SocketStorage>) {
        managed_from_vec(self)
    }
}

impl<'a> IntoStorage<'a> for &'a mut [SocketStorage] {
    open spec fn slots(&self) -> Seq<SocketStorage> {
        (**self)@
    }

    open spec fn can_grow(&self) -> bool {
        false
    }

    fn into_storage(self) -> (r: ManagedSlice<'a, SocketStorage>) {
        managed_from_slice(self)
    }
}

impl<'a, const N: usize> IntoStorage<'a> for [SocketStorage; N] where
    ManagedSlice<'a, SocketStorage>: From<[SocketStorage; N]>,
 {
    open spec fn slots(&self) -> Seq<SocketStorage> {
        self@
    }

    open spec fn can_grow(&self) -> bool {
        true
    }

    fn into_storage(self) -> (r: ManagedSlice<'a, SocketStorage>) {
        managed_from_array(self)
    }
}

impl<'a> IntoStorage<'a> for ManagedSlice<'a, SocketStorage> {
    open spec fn slots(&self) -> Seq<SocketStorage> {
        managed_slots(*self)
    }

    open spec fn can_grow(&self) -> bool {
        managed_owned(*self)
    }

    fn into_storage(self) -> (r: ManagedSlice<'a, SocketStorage>) {
        self
    }
}

/// What the spaces hold.
pub open spec fn items_in(slots: Seq<SocketStorage>) -> Seq<Option<Item>> {
    Seq::new(slots.len(), |i: int| slots[i].item())
}

/// What the occupied spaces hold, in order.
pub open spec fn occupied(slots: Seq<Option<Item>>) -> Seq<Item>
    decreases slots.len(),
{
    if slots.len() == 0 {
        Seq::empty()
    } else {
        match slots.last() {
            Some(item) => occupied(slots.drop_last()).push(item),
            None => occupied(slots.drop_last()),
        }
    }
}

/// The same spaces, with `items` in those that are occupied.
pub open spec fn with_items(slots: Seq<Option<Item>>, items: Seq<Item>) -> Seq<Option<Item>>
    decreases slots.len(),
{
    if slots.len() == 0 {
        Seq::empty()
    } else {
        match slots.last() {
            Some(_) => with_items(slots.drop_last(), items.drop_last()).push(Some(items.last())),
            None => with_items(slots.drop_last(), items).push(None),
        }
    }
}

/// The space `index` holds a socket of the protocol `T`.
pub open spec fn holds<T: AnySocket>(slots: Seq<Option<Item>>, index: int) -> bool {
    &&& 0 <= index < slots.len()
    &&& slots[index] matches Some(item) && T::from_any(item.socket) is Some
}

/// The socket of the protocol `T` in the space `index`.
pub open spec fn socket_at<T: AnySocket>(slots: Seq<Option<Item>>, index: int) -> T {
    T::from_any(slots[index]->0.socket)->0
}

/// The same spaces with another socket in the occupied space `index`.
pub open spec fn replaced(
    slots: Seq<Option<Item>>,
    index: int,
    socket: Socket,
) -> Seq<Option<Item>> {
    slots.update(index, Some(Item { meta: slots[index]->0.meta, socket }))
}

/// `index` is the first space without a socket.
pub open spec fn first_free(slots: Seq<Option<Item>>, index: int) -> bool {
    &&& 0 <= index < slots.len()
    &&& slots[index] is None
    &&& forall|i: int| 0 <= i < index ==> #[trigger] slots[i] is Some
}

/// Every item records the handle of the space that it is in. A set keeps that, unless items are
/// swapped through [`SocketSet::items_mut`].
pub open spec fn aligned(slots: Seq<Option<Item>>) -> bool {
    forall|i: int|
        0 <= i < slots.len() ==> (#[trigger] slots[i] matches Some(item)
            ==> item.meta.handle.index() == i)
}

/// Some space holds no socket.
pub open spec fn has_free(slots: Seq<Option<Item>>) -> bool {
    exists|i: int| 0 <= i < slots.len() && #[trigger] slots[i] is None
}

/// A socket was put into the first free space, or behind the others where there was none.
pub open spec fn is_added(
    before: Seq<Option<Item>>,
    after: Seq<Option<Item>>,
    index: int,
    item: Item,
) -> bool {
    if has_free(before) {
        &&& first_free(before, index)
        &&& after == before.update(index, Some(item))
    } else {
        &&& index == before.len()
        &&& after == before.push(Some(item))
    }
}

/// A socket that was added is found under its handle, which led to no socket before, and the other
/// sockets stay where they were.
pub proof fn added_socket_is_found(
    before: Seq<Option<Item>>,
    after: Seq<Option<Item>>,
    index: int,
    item: Item,
)
    requires
        is_added(before, after, index, item),
    ensures
        0 <= index < after.len(),
        after[index] == Some(item),
        index < before.len() ==> before[index] is None,
        forall|i: int| 0 <= i < before.len() && i != index ==> #[trigger] after[i] == before[i],
        after.len() <= before.len() + 1,
{
}

/// Removing a socket that was added leaves the other sockets, and the space of the socket free.
pub proof fn removing_undoes_adding(
    before: Seq<Option<Item>>,
    after: Seq<Option<Item>>,
    index: int,
    item: Item,
)
    requires
        is_added(before, after, index, item),
    ensures
        occupied(after.update(index, None)) == occupied(before),
        has_free(before) ==> after.update(index, None) == before,
{
    let removed = after.update(index, None);
    if has_free(before) {
        assert(removed =~= before);
    } else {
        assert(removed.drop_last() =~= before);
    }
}

/// Getting the items of a set and putting others in their place puts each where the one before it
/// in the order was.
pub proof fn replaced_items_are_found(slots: Seq<Option<Item>>, items: Seq<Item>)
    requires
        items.len() == occupied(slots).len(),
    ensures
        occupied(with_items(slots, items)) == items,
        with_items(slots, items).len() == slots.len(),
        with_items(slots, occupied(slots)) == slots,
    decreases slots.len(),
{
    if slots.len() > 0 {
        let front = slots.drop_last();
        match slots.last() {
            Some(_) => {
                replaced_items_are_found(front, items.drop_last());
                let after = with_items(slots, items);
                assert(after.drop_last() =~= with_items(front, items.drop_last()));
                assert(occupied(after) =~= items);
                assert(occupied(slots).drop_last() =~= occupied(front));
                assert(with_items(slots, occupied(slots)) =~= slots);
            },
            None => {
                replaced_items_are_found(front, items);
                let after = with_items(slots, items);
                assert(after.drop_last() =~= with_items(front, items));
                assert(with_items(slots, occupied(slots)) =~= slots);
            },
        }
    } else {
        assert(with_items(slots, occupied(slots)) =~= slots);
        assert(items =~= Seq::<Item>::empty());
    }
}

/// How a socket set was set up.
pub struct Setup {
    pub can_grow: bool,
    pub udp_ingress_handler: Option<Arc<dyn UdpIngressHandler>>,
    pub tcp_ingress_handler: Option<Arc<dyn TcpIngressHandler>>,
    pub tcp_listen_registry: Option<Arc<dyn TcpListenRegistry>>,
}

/// One call of [`TcpIngressHandler::handle_tcp_ingress`].
pub struct Offer {
    pub meta: PacketMeta,
    pub ip_repr: IpRepr,
    pub segment: Seq<u8>,
}

/// One call of [`TcpListenRegistry::is_listening`].
pub struct Question {
    pub endpoint: IpEndpoint,
    pub meta: PacketMeta,
}

/// The calls of the external handler and of the registry, in order.
pub struct Records {
    pub offers: Seq<Offer>,
    pub questions: Seq<Question>,
}

impl Records {
    /// With a segment offered to the handler, where there is one.
    pub open spec fn with_offer(self, setup: Setup, offer: Offer) -> Records {
        if setup.tcp_ingress_handler is Some {
            Records { offers: self.offers.push(offer), ..self }
        } else {
            self
        }
    }

    /// With the registry asked, where there is one.
    pub open spec fn with_question(self, setup: Setup, question: Question) -> Records {
        if setup.tcp_listen_registry is Some {
            Records { questions: self.questions.push(question), ..self }
        } else {
            self
        }
    }
}

impl Setup {
    /// What may come of offering a TCP segment to the external handler: without one it is not
    /// handled.
    pub open spec fn may_handle(
        self,
        meta: PacketMeta,
        ip_repr: IpRepr,
        segment: Seq<u8>,
        answer: TcpIngressResult,
    ) -> bool {
        match self.tcp_ingress_handler {
            Some(handler) => handler.may_answer(meta, ip_repr, segment, answer),
            None => answer == TcpIngressResult::NotHandled,
        }
    }

    /// What the registry may know of an endpoint: without one nothing is listened on.
    pub open spec fn may_list(self, endpoint: IpEndpoint, meta: PacketMeta, answer: bool) -> bool {
        match self.tcp_listen_registry {
            Some(registry) => registry.may_answer(endpoint, meta, answer),
            None => !answer,
        }
    }
}

/// An extensible set of sockets.
///
/// The lifetime `'a` is that of the storage.  If you're using
/// owned storage (passed in as a `Vec`) you can use
/// `SocketSet<'static>`.
pub struct SocketSet<'a> {
    sockets: ManagedSlice<'a, SocketStorage>,
    udp_ingress_handler: Option<Arc<dyn UdpIngressHandler>>,
    tcp_ingress_handler: Option<Arc<dyn TcpIngressHandler>>,
    tcp_listen_registry: Option<Arc<dyn TcpListenRegistry>>,
    time_wait: TimeWaitTable,
    log: Ghost<Seq<Notice>>,
    records: Ghost<Records>,
}

impl<'a> SocketSet<'a> {
    /// What the spaces of the set hold.
    pub closed spec fn view(&self) -> Seq<Option<Item>> {
        items_in(managed_slots(self.sockets))
    }

    /// How the set was set up.
    pub closed spec fn setup(&self) -> Setup {
        Setup {
            can_grow: managed_owned(self.sockets),
            udp_ingress_handler: self.udp_ingress_handler,
            tcp_ingress_handler: self.tcp_ingress_handler,
            tcp_listen_registry: self.tcp_listen_registry,
        }
    }

    /// The connections in TIME-WAIT that have left their sockets.
    pub closed spec fn protected(&self) -> Map<Key, Entry> {
        self.time_wait@
    }

    /// The notices that observers got from the set, in order.
    pub closed spec fn notified(&self) -> Seq<Notice> {
        self.log@
    }

    /// The segments that were offered to the external handler, and the endpoints that the registry
    /// was asked about.
    pub closed spec fn records(&self) -> Records {
        self.records@
    }

    /// The connections that left their sockets are filed correctly.
    pub closed spec fn filed(&self) -> bool {
        self.time_wait.wf()
    }

    /// The connections that left their sockets are filed correctly, each under its own key, and
    /// every notice that was noted has reached its observer.
    pub open spec fn wf(&self) -> bool {
        &&& self.filed()
        &&& own_keys(self.protected())
        &&& all_heard(self.notified())
    }

    /// Every socket knows its own place.
    pub open spec fn aligned(&self) -> bool {
        aligned(self@)
    }

    /// Create a socket set using the provided storage.
    pub fn new<SocketsT: IntoStorage<'a>>(sockets: SocketsT) -> (r: SocketSet<'a>)
        ensures
            r.wf(),
            r@ == items_in(sockets.slots()),
            r.setup() == (Setup {
                can_grow: sockets.can_grow(),
                udp_ingress_handler: None,
                tcp_ingress_handler: None,
                tcp_listen_registry: None,
            }),
            r.protected() == Map::<Key, Entry>::empty(),
            r.notified() == Seq::<Notice>::empty(),
            r.records() == (Records { offers: Seq::empty(), questions: Seq::empty() }),
    {
        let sockets = sockets.into_storage();
        SocketSet {
            sockets,
            udp_ingress_handler: None,
            tcp_ingress_handler: None,
            tcp_listen_registry: None,
            time_wait: TimeWaitTable::new(),
            log: Ghost(Seq::empty()),
            records: Ghost(Records { offers: Seq::empty(), questions: Seq::empty() }),
        }
    }

    /// Install or remove the external UDP ingress handler. Returns the one before.
    pub fn set_udp_ingress_handler(
        &mut self,
        handler: Option<Arc<dyn UdpIngressHandler>>,
    ) -> (r: Option<Arc<dyn UdpIngressHandler>>)
        ensures
            r == old(self).setup().udp_ingress_handler,
            final(self).setup() == (Setup { udp_ingress_handler: handler, ..old(self).setup() }),
            final(self)@ == old(self)@,
            final(self).protected() == old(self).protected(),
            final(self).notified() == old(self).notified(),
            final(self).records() == old(self).records(),
            final(self).wf() == old(self).wf(),
    {
        let mut handler = handler;
        core::mem::swap(&mut self.udp_ingress_handler, &mut handler);
        handler
    }

    /// Install or remove the external TCP ingress handler. Returns the one before.
    pub fn set_tcp_ingress_handler(
        &mut self,
        handler: Option<Arc<dyn TcpIngressHandler>>,
    ) -> (r: Option<Arc<dyn TcpIngressHandler>>)
        ensures
            r == old(self).setup().tcp_ingress_handler,
            final(self).setup() == (Setup { tcp_ingress_handler: handler, ..old(self).setup() }),
            final(self)@ == old(self)@,
            final(self).protected() == old(self).protected(),
            final(self).notified() == old(self).notified(),
            final(self).records() == old(self).records(),
            final(self).wf() == old(self).wf(),
    {
        let mut handler = handler;
        core::mem::swap(&mut self.tcp_ingress_handler, &mut handler);
        handler
    }

    /// Install or remove the registry of listeners. Returns the one before.
    pub fn set_tcp_listen_registry(
        &mut self,
        registry: Option<Arc<dyn TcpListenRegistry>>,
    ) -> (r: Option<Arc<dyn TcpListenRegistry>>)
        ensures
            r == old(self).setup().tcp_listen_registry,
            final(self).setup() == (Setup { tcp_listen_registry: registry, ..old(self).setup() }),
            final(self)@ == old(self)@,
            final(self).protected() == old(self).protected(),
            final(self).notified() == old(self).notified(),
            final(self).records() == old(self).records(),
            final(self).wf() == old(self).wf(),
    {
        let mut registry = registry;
        core::mem::swap(&mut self.tcp_listen_registry, &mut registry);
        registry
    }

    /// Offers a datagram to the external handler. Without one it is not handled.
    pub fn handle_udp_ingress(
        &self,
        meta: PacketMeta,
        ip_repr: &IpRepr,
        udp_repr: &udp::Repr,
        is_broadcast: bool,
        payload: &[u8],
    ) -> (r: UdpIngressResult)
        ensures
            match self.setup().udp_ingress_handler {
                Some(handler) => handler.may_answer(
                    meta,
                    *ip_repr,
                    *udp_repr,
                    is_broadcast,
                    payload@,
                    r,
                ),
                None => r == UdpIngressResult::NotHandled,
            },
    {
        match &self.udp_ingress_handler {
            Some(handler) => handler.handle_udp_ingress(
                meta,
                ip_repr,
                udp_repr,
                is_broadcast,
                payload,
            ),
            None => UdpIngressResult::NotHandled,
        }
    }

    /// Offers a segment to the external handler, once, and notes that. Without one it is not
    /// handled.
    pub fn handle_tcp_ingress(
        &mut self,
        meta: PacketMeta,
        ip_repr: &IpRepr,
        segment: &[u8],
    ) -> (r: TcpIngressResult)
        ensures
            old(self).setup().may_handle(meta, *ip_repr, segment@, r),
            final(self).records() == old(self).records().with_offer(
                old(self).setup(),
                Offer { meta, ip_repr: *ip_repr, segment: segment@ },
            ),
            final(self)@ == old(self)@,
            final(self).setup() == old(self).setup(),
            final(self).protected() == old(self).protected(),
            final(self).notified() == old(self).notified(),
            final(self).wf() == old(self).wf(),
    {
        match &self.tcp_ingress_handler {
            Some(handler) => {
                let answer = handler.handle_tcp_ingress(meta, ip_repr, segment);
                let ghost offer = Offer { meta, ip_repr: *ip_repr, segment: segment@ };
                proof {
                    *self.records.borrow_mut() = self.records@.with_offer(self.setup(), offer);
                }
                answer
            },
            None => TcpIngressResult::NotHandled,
        }
    }

    /// Asks the registry, once, whether the endpoint is one that is listened on, and notes that.
    /// Without a registry it is not.
    pub fn tcp_is_listening(&mut self, endpoint: IpEndpoint, meta: PacketMeta) -> (r: bool)
        ensures
            old(self).setup().may_list(endpoint, meta, r),
            final(self).records() == old(self).records().with_question(
                old(self).setup(),
                Question { endpoint, meta },
            ),
            final(self)@ == old(self)@,
            final(self).setup() == old(self).setup(),
            final(self).protected() == old(self).protected(),
            final(self).notified() == old(self).notified(),
            final(self).wf() == old(self).wf(),
    {
        match &self.tcp_listen_registry {
            Some(registry) => {
                let answer = registry.is_listening(endpoint, meta);
                proof {
                    *self.records.borrow_mut() = self.records@.with_question(
                        self.setup(),
                        Question { endpoint, meta },
                    );
                }
                answer
            },
            None => false,
        }
    }

    /// Add a socket to the set, and return its handle.
    ///
    /// The socket takes the first free space. Where there is none the storage has to be growable.
    pub fn add<T: AnySocket>(&mut self, socket: T) -> (r: SocketHandle)
        requires
            has_free(old(self)@) || (old(self).setup().can_grow && old(self)@.len() < usize::MAX),
        ensures
            is_added(
                old(self)@,
                final(self)@,
                r.index(),
                Item { meta: Meta { handle: r }, socket: socket.any() },
            ),
            final(self).setup() == old(self).setup(),
            final(self).protected() == old(self).protected(),
            final(self).notified() == old(self).notified(),
            final(self).records() == old(self).records(),
            final(self).wf() == old(self).wf(),
            old(self).aligned() ==> final(self).aligned(),
    {
        let ghost before = self@;
        let socket = socket.upcast();
        let count: usize = managed_as_slice(&self.sockets).len();
        let mut index: usize = 0;
        while index < count
            invariant
                *self == *old(self),
                before == self@,
                count == before.len(),
                index <= count,
                forall|i: int| 0 <= i < index ==> #[trigger] before[i] is Some,
            ensures
                *self == *old(self),
                index == count ==> forall|i: int| 0 <= i < count ==> #[trigger] before[i] is Some,
                index < count ==> first_free(before, index as int),
                index <= count,
            decreases count - index,
        {
            if managed_as_slice(&self.sockets)[index].inner.is_none() {
                break;
            }
            index = index + 1;
        }
        let handle = SocketHandle(index);
        let slot = SocketStorage { inner: Some(Item { meta: Meta { handle }, socket }) };
        let ghost item = slot.inner;
        if index < count {
            let slots = managed_as_mut_slice(&mut self.sockets);
            slots[index] = slot;
            assert(self@ =~= before.update(index as int, item));
        } else {
            match managed_as_vec(&mut self.sockets) {
                Some(slots) => {
                    slots.push(slot);
                },
                None => {},
            }
            assert(self@ =~= before.push(item));
        }
        handle
    }

    /// The connections in TIME-WAIT that have left their sockets.
    pub(crate) fn time_wait(&self) -> (r: &TimeWaitTable)
        ensures
            r@ == self.protected(),
            r.wf() == self.filed(),
    {
        &self.time_wait
    }

    /// There is a finite number of connections that have left their sockets.
    pub proof fn protected_connections_are_finite(&self)
        requires
            self.wf(),
        ensures
            self.protected().dom().finite(),
    {
        self.time_wait.lemma_finite();
    }

    /// The connections in TIME-WAIT that have left their sockets.
    pub(crate) fn time_wait_mut(&mut self) -> (r: &mut TimeWaitTable)
        ensures
            r@ == old(self).protected(),
            r.wf() == old(self).filed(),
            final(self).protected() == (*final(r))@,
            final(self).filed() == (*final(r)).wf(),
            final(self)@ == old(self)@,
            final(self).setup() == old(self).setup(),
            final(self).notified() == old(self).notified(),
            final(self).records() == old(self).records(),
    {
        &mut self.time_wait
    }

    /// The notices that observers got from the set.
    pub(crate) fn log_mut(&mut self) -> (r: &mut Ghost<Seq<Notice>>)
        ensures
            r@ == old(self).notified(),
            final(self).notified() == final(r)@,
            final(self).records() == old(self).records(),
            final(self)@ == old(self)@,
            final(self).setup() == old(self).setup(),
            final(self).protected() == old(self).protected(),
            final(self).filed() == old(self).filed(),
    {
        &mut self.log
    }

    /// The number of spaces for sockets.
    pub(crate) fn slot_count(&self) -> (r: usize)
        ensures
            r == self@.len(),
    {
        managed_as_slice(&self.sockets).len()
    }

    /// The TCP socket in a space, where there is one, and the handle that its item records.
    pub(crate) fn tcp_item(&self, index: usize) -> (r: Option<(SocketHandle, &tcp::Socket)>)
        requires
            index < self@.len(),
        ensures
            match r {
                Some((handle, socket)) => {
                    &&& holds::<tcp::Socket>(self@, index as int)
                    &&& *socket == socket_at::<tcp::Socket>(self@, index as int)
                    &&& handle == self@[index as int]->0.meta.handle
                },
                None => !holds::<tcp::Socket>(self@, index as int),
            },
    {
        match &managed_as_slice(&self.sockets)[index].inner {
            Some(item) => match tcp::Socket::downcast(&item.socket) {
                Some(socket) => Some((item.meta.handle, socket)),
                None => None,
            },
            None => None,
        }
    }

    /// Whether the handle leads to a socket of this type.
    pub fn contains<T: AnySocket>(&self, handle: SocketHandle) -> (r: bool)
        ensures
            r == holds::<T>(self@, handle.index()),
    {
        let slots = managed_as_slice(&self.sockets);
        if handle.0 >= slots.len() {
            return false;
        }
        match &slots[handle.0].inner {
            Some(item) => T::downcast(&item.socket).is_some(),
            None => false,
        }
    }

    /// Get a socket from the set by its handle.
    ///
    /// The handle has to belong to this socket set and the socket has to be of this type.
    pub fn get<T: AnySocket>(&self, handle: SocketHandle) -> (r: &T)
        requires
            holds::<T>(self@, handle.index()),
        ensures
            *r == socket_at::<T>(self@, handle.index()),
    {
        match managed_as_slice(&self.sockets)[handle.0].inner.as_ref() {
            Some(item) => match T::downcast(&item.socket) {
                Some(socket) => socket,
                None => vstd::pervasive::unreached(),
            },
            None => vstd::pervasive::unreached(),
        }
    }

    /// Get a mutable socket from the set by its handle, as mutable.
    ///
    /// The handle has to belong to this socket set and the socket has to be of this type.
    pub fn get_mut<T: AnySocket>(&mut self, handle: SocketHandle) -> (r: &mut T)
        requires
            holds::<T>(old(self)@, handle.index()),
        ensures
            *r == socket_at::<T>(old(self)@, handle.index()),
            final(self)@ == replaced(old(self)@, handle.index(), (*final(r)).any()),
            final(self).setup() == old(self).setup(),
            final(self).protected() == old(self).protected(),
            final(self).notified() == old(self).notified(),
            final(self).records() == old(self).records(),
            final(self).wf() == old(self).wf(),
    {
        let ghost before = self@;
        let slots = managed_as_mut_slice(&mut self.sockets);
        match slots[handle.0].inner.as_mut() {
            Some(item) => match T::downcast_mut(&mut item.socket) {
                Some(socket) => socket,
                None => vstd::pervasive::unreached(),
            },
            None => vstd::pervasive::unreached(),
        }
    }

    /// Remove a socket from the set, without changing its state.
    ///
    /// The handle has to belong to this socket set.
    pub fn remove(&mut self, handle: SocketHandle) -> (r: Socket)
        requires
            0 <= handle.index() < old(self)@.len(),
            old(self)@[handle.index()] is Some,
        ensures
            r == old(self)@[handle.index()]->0.socket,
            final(self)@ == old(self)@.update(handle.index(), None),
            final(self).setup() == old(self).setup(),
            final(self).protected() == old(self).protected(),
            final(self).notified() == old(self).notified(),
            final(self).records() == old(self).records(),
            final(self).wf() == old(self).wf(),
            old(self).aligned() ==> final(self).aligned(),
    {
        let ghost before = self@;
        let slots = managed_as_mut_slice(&mut self.sockets);
        let taken = slots[handle.0].inner.take();
        assert(self@ =~= before.update(handle.index(), None));
        match taken {
            Some(item) => item.socket,
            None => vstd::pervasive::unreached(),
        }
    }

    /// Get the inner sockets with their handles.
    pub fn iter(&self) -> (r: Vec<(SocketHandle, &Socket)>)
        ensures
            r@.len() == occupied(self@).len(),
            forall|i: int|
                0 <= i < r@.len() ==> (#[trigger] r@[i]).0 == occupied(self@)[i].meta.handle
                    && *r@[i].1 == occupied(self@)[i].socket,
    {
        let items = self.items();
        let mut sockets: Vec<(SocketHandle, &Socket)> = Vec::new();
        let mut index: usize = 0;
        while index < items.len()
            invariant
                items@.len() == occupied(self@).len(),
                forall|i: int| 0 <= i < items@.len() ==> *#[trigger] items@[i] == occupied(self@)[i],
                index <= items@.len(),
                sockets@.len() == index,
                forall|i: int|
                    0 <= i < index ==> (#[trigger] sockets@[i]).0 == occupied(
                        self@,
                    )[i].meta.handle && *sockets@[i].1 == occupied(self@)[i].socket,
            decreases items@.len() - index,
        {
            let item = items[index];
            assert(*item == occupied(self@)[index as int]);
            sockets.push((item.meta.handle, &item.socket));
            index = index + 1;
        }
        sockets
    }

    /// Get every socket in this set, as an item.
    pub fn items(&self) -> (r: Vec<&Item>)
        ensures
            r@.len() == occupied(self@).len(),
            forall|i: int| 0 <= i < r@.len() ==> *#[trigger] r@[i] == occupied(self@)[i],
    {
        let slots = managed_as_slice(&self.sockets);
        let mut items: Vec<&Item> = Vec::new();
        let mut index: usize = 0;
        while index < slots.len()
            invariant
                items_in(slots@) == self@,
                index <= slots@.len(),
                items@.len() == occupied(self@.take(index as int)).len(),
                forall|i: int|
                    0 <= i < items@.len() ==> *#[trigger] items@[i] == occupied(
                        self@.take(index as int),
                    )[i],
            decreases slots@.len() - index,
        {
            let ghost next = self@.take(index + 1);
            assert(next.drop_last() =~= self@.take(index as int));
            assert(next.last() == slots@[index as int].inner);
            match &slots[index].inner {
                Some(item) => {
                    items.push(item);
                },
                None => {},
            }
            index = index + 1;
        }
        assert(self@.take(index as int) =~= self@);
        items
    }

    /// Get every socket in this set, as a mutable item.
    pub fn items_mut(&mut self) -> (r: Vec<&mut Item>)
        ensures
            r@.len() == occupied(old(self)@).len(),
            forall|i: int| 0 <= i < r@.len() ==> *#[trigger] r@[i] == occupied(old(self)@)[i],
            final(self)@ == with_items(
                old(self)@,
                Seq::new(r@.len(), |i: int| *final(r@[i])),
            ),
            final(self).setup() == old(self).setup(),
            final(self).protected() == old(self).protected(),
            final(self).notified() == old(self).notified(),
            final(self).records() == old(self).records(),
            final(self).wf() == old(self).wf(),
    {
        let ghost before = self@;
        let slots = managed_as_mut_slice(&mut self.sockets);
        let ghost after = final(slots)@;
        let mut rest = slots;
        let mut items: Vec<&mut Item> = Vec::new();
        let ghost mut done: int = 0;
        assert(items_in(after) =~= with_items(
            before.take(0),
            Seq::new(0, |i: int| *final(items@[i])),
        ) + items_in(final(rest)@));
        while rest.len() > 0
            invariant
                0 <= done <= before.len(),
                items_in(rest@) == before.skip(done),
                items@.len() == occupied(before.take(done)).len(),
                forall|i: int|
                    0 <= i < items@.len() ==> *#[trigger] items@[i] == occupied(
                        before.take(done),
                    )[i],
                items_in(after) == with_items(
                    before.take(done),
                    Seq::new(items@.len(), |i: int| *final(items@[i])),
                ) + items_in(final(rest)@),
            decreases rest.len(),
        {
            assert(items_in(rest@).len() == before.len() - done);
            let ghost next = before.take(done + 1);
            assert(next.drop_last() =~= before.take(done));
            assert(items_in(rest@)[0] == before.skip(done)[0]);
            assert(next.last() == items_in(rest@)[0]);
            let ghost finals = Seq::new(items@.len(), |i: int| *final(items@[i]));
            let ghost rest_before = rest@;
            let ghost rest_after = final(rest)@;
            let (front, back) = rest.split_at_mut(1);
            assert(items_in(rest_after) =~= items_in(final(front)@) + items_in(final(back)@));
            match &mut front[0].inner {
                Some(item) => {
                    items.push(item);
                    assert(Seq::new(items@.len(), |i: int| *final(items@[i])).drop_last()
                        =~= finals);
                },
                None => {},
            }
            assert forall|i: int| 0 <= i < back@.len() implies items_in(back@)[i] == before.skip(
                done + 1,
            )[i] by {
                assert(back@[i] == rest_before[i + 1]);
                assert(items_in(rest_before)[i + 1] == before.skip(done)[i + 1]);
            }
            assert(items_in(back@) =~= before.skip(done + 1));
            rest = back;
            proof {
                done = done + 1;
            }
            assert(items_in(after) =~= with_items(
                before.take(done),
                Seq::new(items@.len(), |i: int| *final(items@[i])),
            ) + items_in(final(rest)@));
        }
        assert(before.take(done) =~= before);
        items
    }

    /// Get the inner sockets with their handles, as mutable.
    pub fn iter_mut(&mut self) -> (r: Vec<(SocketHandle, &mut Socket)>)
        ensures
            r@.len() == occupied(old(self)@).len(),
            forall|i: int|
                0 <= i < r@.len() ==> (#[trigger] r@[i]).0 == occupied(old(self)@)[i].meta.handle
                    && *r@[i].1 == occupied(old(self)@)[i].socket,
            final(self)@ == with_items(
                old(self)@,
                Seq::new(
                    r@.len(),
                    |i: int|
                        Item {
                            meta: occupied(old(self)@)[i].meta,
                            socket: *final(r@[i].1),
                        },
                ),
            ),
            final(self).setup() == old(self).setup(),
            final(self).protected() == old(self).protected(),
            final(self).notified() == old(self).notified(),
            final(self).records() == old(self).records(),
            final(self).wf() == old(self).wf(),
    {
        let ghost before = self@;
        let slots = managed_as_mut_slice(&mut self.sockets);
        let ghost after = final(slots)@;
        let mut rest = slots;
        let mut sockets: Vec<(SocketHandle, &mut Socket)> = Vec::new();
        let ghost mut done: int = 0;
        assert(items_in(after) =~= with_items(
            before.take(0),
            Seq::new(
                0,
                |i: int|
                    Item {
                        meta: occupied(before.take(0))[i].meta,
                        socket: *final(sockets@[i].1),
                    },
            ),
        ) + items_in(final(rest)@));
        while rest.len() > 0
            invariant
                0 <= done <= before.len(),
                items_in(rest@) == before.skip(done),
                sockets@.len() == occupied(before.take(done)).len(),
                forall|i: int|
                    0 <= i < sockets@.len() ==> (#[trigger] sockets@[i]).0 == occupied(
                        before.take(done),
                    )[i].meta.handle && *sockets@[i].1 == occupied(before.take(done))[i].socket,
                items_in(after) == with_items(
                    before.take(done),
                    Seq::new(
                        sockets@.len(),
                        |i: int|
                            Item {
                                meta: occupied(before.take(done))[i].meta,
                                socket: *final(sockets@[i].1),
                            },
                    ),
                ) + items_in(final(rest)@),
            decreases rest.len(),
        {
            assert(items_in(rest@).len() == before.len() - done);
            let ghost next = before.take(done + 1);
            assert(next.drop_last() =~= before.take(done));
            assert(items_in(rest@)[0] == before.skip(done)[0]);
            assert(next.last() == items_in(rest@)[0]);
            let ghost finals = Seq::new(
                sockets@.len(),
                |i: int|
                    Item {
                        meta: occupied(before.take(done))[i].meta,
                        socket: *final(sockets@[i].1),
                    },
            );
            let ghost rest_before = rest@;
            let ghost rest_after = final(rest)@;
            let (front, back) = rest.split_at_mut(1);
            assert(items_in(rest_after) =~= items_in(final(front)@) + items_in(final(back)@));
            match &mut front[0].inner {
                Some(item) => {
                    let handle = item.meta.handle;
                    sockets.push((handle, &mut item.socket));
                },
                None => {},
            }
            let ghost finals_next = Seq::new(
                sockets@.len(),
                |i: int|
                    Item { meta: occupied(next)[i].meta, socket: *final(sockets@[i].1) },
            );
            assert(finals =~= finals_next.take(finals.len() as int));
            assert(next.last() is Some ==> finals_next.drop_last() =~= finals);
            assert forall|i: int| 0 <= i < back@.len() implies items_in(back@)[i] == before.skip(
                done + 1,
            )[i] by {
                assert(back@[i] == rest_before[i + 1]);
                assert(items_in(rest_before)[i + 1] == before.skip(done)[i + 1]);
            }
            assert(items_in(back@) =~= before.skip(done + 1));
            rest = back;
            proof {
                done = done + 1;
            }
            assert(items_in(after) =~= with_items(before.take(done), finals_next) + items_in(
                final(rest)@,
            ));
        }
        assert(before.take(done) =~= before);
        sockets
    }
}

} // verus!
