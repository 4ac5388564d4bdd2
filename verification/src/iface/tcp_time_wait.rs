//! TIME-WAIT in a set of sockets: connections that stay with their sockets and connections that
//! have left them.
use crate::iface::socket_set::{
    aligned, holds, replaced, socket_at, Item, Offer, Question, Records, Setup, SocketHandle, SocketSet,
};
use crate::iface::time_wait_table::{
    deadline, found, is_soonest, lemma_rank_injective, sooner, Entry, Key,
};
use crate::phy::PacketMeta;
use crate::socket::tcp::time_wait::TimeWaitState;
use crate::socket::tcp::{Notice, State};
use crate::socket::{tcp, Socket};
use crate::time::Instant;
use crate::wire::ip::{IpEndpoint, IpRepr};
use crate::wire::tcp::TcpRepr;
use vstd::prelude::*;

verus! {

/// The largest number of connections whose protection ends in one go.
pub const EXPIRY_BATCH: usize = 64;

/// What a set of sockets holds.
pub struct Snapshot {
    pub slots: Seq<Option<Item>>,
    pub protected: Map<Key, Entry>,
    pub notified: Seq<Notice>,
    pub records: Records,
    pub setup: Setup,
}

/// The TCP socket in a space, where there is one.
pub open spec fn tcp_at(slots: Seq<Option<Item>>, index: int) -> Option<tcp::Socket> {
    if holds::<tcp::Socket>(slots, index) {
        Some(socket_at::<tcp::Socket>(slots, index))
    } else {
        None
    }
}

/// `index` is the first space with a TCP socket that answers to a description.
pub open spec fn is_first(
    slots: Seq<Option<Item>>,
    wanted: spec_fn(tcp::Socket) -> bool,
    index: int,
) -> bool {
    &&& tcp_at(slots, index) matches Some(socket) && wanted(socket)
    &&& forall|i: int|
        0 <= i < index ==> !(#[trigger] tcp_at(slots, i) matches Some(socket) && wanted(socket))
}

/// The first space with a TCP socket that answers to a description.
pub open spec fn first_tcp(
    slots: Seq<Option<Item>>,
    wanted: spec_fn(tcp::Socket) -> bool,
) -> Option<int> {
    if exists|index: int| is_first(slots, wanted, index) {
        Some(choose|index: int| is_first(slots, wanted, index))
    } else {
        None
    }
}

/// There is at most one first space.
pub proof fn lemma_first(
    slots: Seq<Option<Item>>,
    wanted: spec_fn(tcp::Socket) -> bool,
    index: int,
)
    requires
        is_first(slots, wanted, index),
    ensures
        first_tcp(slots, wanted) == Some(index),
{
    let chosen = choose|index: int| is_first(slots, wanted, index);
    if chosen < index {
        assert(tcp_at(slots, chosen) is Some);
    } else if index < chosen {
        assert(tcp_at(slots, index) is Some);
    }
}

/// Where no socket answers to the description there is no first one.
pub proof fn lemma_no_first(slots: Seq<Option<Item>>, wanted: spec_fn(tcp::Socket) -> bool)
    requires
        forall|i: int|
            0 <= i < slots.len() ==> !(#[trigger] tcp_at(slots, i) matches Some(socket) && wanted(
                socket,
            )),
    ensures
        first_tcp(slots, wanted) is None,
{
    if exists|index: int| is_first(slots, wanted, index) {
        let index = choose|index: int| is_first(slots, wanted, index);
        assert(tcp_at(slots, index) is Some);
    }
}

/// The place of the handle that the item in an occupied space records.
pub open spec fn handle_at(slots: Seq<Option<Item>>, index: int) -> int {
    slots[index]->0.meta.handle.index()
}

/// Where the handle of the first TCP socket that answers to a description leads.
pub open spec fn first_named(
    slots: Seq<Option<Item>>,
    wanted: spec_fn(tcp::Socket) -> bool,
) -> Option<int> {
    match first_tcp(slots, wanted) {
        Some(index) => Some(handle_at(slots, index)),
        None => None,
    }
}

/// In an aligned set the handle of a socket leads back to it.
pub proof fn aligned_handles_lead_back(
    slots: Seq<Option<Item>>,
    wanted: spec_fn(tcp::Socket) -> bool,
)
    requires
        aligned(slots),
    ensures
        first_named(slots, wanted) == first_tcp(slots, wanted),
        first_named(slots, wanted) matches Some(index) ==> is_first(slots, wanted, index) && holds::<
            tcp::Socket,
        >(slots, index),
{
}

/// The first space with a TCP socket that answers to a description depends only on which sockets
/// do.
pub proof fn lemma_same_first(
    first: Seq<Option<Item>>,
    second: Seq<Option<Item>>,
    wanted: spec_fn(tcp::Socket) -> bool,
)
    requires
        first.len() == second.len(),
        forall|i: int|
            #![trigger tcp_at(first, i)]
            #![trigger tcp_at(second, i)]
            (tcp_at(first, i) matches Some(socket) && wanted(socket)) == (tcp_at(
                second,
                i,
            ) matches Some(socket) && wanted(socket)),
        forall|i: int|
            0 <= i < first.len() && #[trigger] holds::<tcp::Socket>(first, i) ==> handle_at(
                first,
                i,
            ) == handle_at(second, i),
    ensures
        first_tcp(first, wanted) == first_tcp(second, wanted),
        first_named(first, wanted) == first_named(second, wanted),
{
    if exists|index: int| is_first(first, wanted, index) {
        let index = choose|index: int| is_first(first, wanted, index);
        assert(tcp_at(first, index) is Some);
        assert(is_first(second, wanted, index));
        lemma_first(second, wanted, index);
    }
    if exists|index: int| is_first(second, wanted, index) {
        let index = choose|index: int| is_first(second, wanted, index);
        assert(tcp_at(second, index) is Some);
        assert(is_first(first, wanted, index));
        lemma_first(first, wanted, index);
    }
}

/// The sockets that take the segment as part of a connection.
pub open spec fn takes(meta: PacketMeta, ip: IpRepr, tcp: TcpRepr<'_>) -> spec_fn(
    tcp::Socket,
) -> bool {
    |socket: tcp::Socket|
        !socket.spec_is_listening() && socket.spec_accepts_ingress(meta) && socket.spec_accepts(
            ip,
            tcp,
        )
}

/// The sockets that listen for the segment.
pub open spec fn listens(meta: PacketMeta, ip: IpRepr, tcp: TcpRepr<'_>) -> spec_fn(
    tcp::Socket,
) -> bool {
    |socket: tcp::Socket|
        socket.spec_is_listening() && socket.spec_accepts_ingress(meta) && socket.spec_accepts(
            ip,
            tcp,
        )
}

/// The sockets that listen for the segment and on which the connection may be opened again.
pub open spec fn reopens(
    state: TimeWaitState,
    meta: PacketMeta,
    ip: IpRepr,
    tcp: TcpRepr<'_>,
) -> spec_fn(tcp::Socket) -> bool {
    |socket: tcp::Socket|
        socket.spec_is_listening() && socket.spec_accepts_ingress(meta) && socket.spec_accepts(
            ip,
            tcp,
        ) && state.spec_can_reopen_on(tcp, socket)
}

impl Snapshot {
    /// With another TCP socket in an occupied space.
    pub open spec fn with_socket(self, index: int, socket: tcp::Socket) -> Snapshot {
        Snapshot { slots: replaced(self.slots, index, Socket::Tcp(socket)), ..self }
    }

    /// The connection of a socket, where one is named, is over.
    pub open spec fn retire_attached(self, attached: Option<int>) -> Snapshot {
        match attached {
            Some(index) => {
                let socket = socket_at::<tcp::Socket>(self.slots, index);
                Snapshot {
                    slots: replaced(self.slots, index, Socket::Tcp(socket.retired())),
                    notified: self.notified + socket.closing_notices(),
                    ..self
                }
            },
            None => self,
        }
    }

    /// The protection of a connection that has left its socket, where one is named, is over.
    pub open spec fn retire_detached(self, detached: Option<Key>) -> Snapshot {
        match detached {
            Some(key) => Snapshot {
                protected: self.protected.remove(key),
                notified: self.notified + self.protected[key].closing_notices(),
                ..self
            },
            None => self,
        }
    }

    /// A segment was offered to the external handler, where there is one.
    pub open spec fn offered(self, meta: PacketMeta, ip: IpRepr, segment: Seq<u8>) -> Snapshot {
        Snapshot {
            records: self.records.with_offer(self.setup, Offer { meta, ip_repr: ip, segment }),
            ..self
        }
    }

    /// The registry was asked about an endpoint, where there is one.
    pub open spec fn asked_for(self, endpoint: IpEndpoint, meta: PacketMeta) -> Snapshot {
        Snapshot {
            records: self.records.with_question(self.setup, Question { endpoint, meta }),
            ..self
        }
    }

    /// The protection of connections whose time is over has ended, of a bounded number of them
    /// and the earliest first.
    pub open spec fn aged(self, now: Instant) -> Snapshot {
        Snapshot {
            protected: expired(self.protected, now, EXPIRY_BATCH as nat),
            notified: self.notified + expiry_notices(self.protected, now, EXPIRY_BATCH as nat),
            ..self
        }
    }

    /// The TIME-WAIT state of a connection is another one: that of a socket, where one is named,
    /// or else that of a connection that has left its socket.
    pub open spec fn with_state(
        self,
        attached: Option<int>,
        detached: Option<Key>,
        state: TimeWaitState,
    ) -> Snapshot {
        match (attached, detached) {
            (Some(index), _) => self.with_socket(
                index,
                tcp::Socket {
                    time_wait: Some(state),
                    ..socket_at::<tcp::Socket>(self.slots, index)
                },
            ),
            (None, Some(key)) => Snapshot {
                protected: self.protected.insert(
                    key,
                    Entry { state, observer: self.protected[key].observer },
                ),
                ..self
            },
            (None, None) => self,
        }
    }
}

/// Some protection has run out.
pub open spec fn is_due(table: Map<Key, Entry>, now: Instant) -> bool {
    exists|key: Key| #[trigger]
        table.contains_key(key) && table[key].state.expires.micros <= now.micros
}

/// The connection whose protection ends first.
pub open spec fn soonest_key(table: Map<Key, Entry>) -> Key {
    choose|key: Key| is_soonest(table, key)
}

/// The connections that stay protected when the first `limit` that have run out are let go.
pub open spec fn expired(table: Map<Key, Entry>, now: Instant, limit: nat) -> Map<Key, Entry>
    decreases limit,
{
    if limit == 0 || !is_due(table, now) {
        table
    } else {
        expired(table.remove(soonest_key(table)), now, (limit - 1) as nat)
    }
}

/// What observers learn when the first `limit` connections that have run out are let go.
pub open spec fn expiry_notices(table: Map<Key, Entry>, now: Instant, limit: nat) -> Seq<Notice>
    decreases limit,
{
    if limit == 0 || !is_due(table, now) {
        Seq::empty()
    } else {
        table[soonest_key(table)].closing_notices() + expiry_notices(
            table.remove(soonest_key(table)),
            now,
            (limit - 1) as nat,
        )
    }
}

/// No two connections end first.
pub proof fn lemma_soonest(table: Map<Key, Entry>, key: Key)
    requires
        is_soonest(table, key),
    ensures
        soonest_key(table) == key,
{
    let chosen = soonest_key(table);
    assert(is_soonest(table, chosen));
    assert(table.contains_key(chosen));
}

/// The TIME-WAIT connection of the socket may be handed over to another one.
pub open spec fn can_detach(before: Snapshot, index: int) -> bool {
    let socket = socket_at::<tcp::Socket>(before.slots, index);
    &&& socket.state == State::TimeWait
    &&& socket.time_wait matches Some(state) && !before.protected.contains_key(Key::spec_of(state))
    &&& !socket.spec_ack_to_transmit()
}

/// The connection of the socket has left it.
pub open spec fn detached(before: Snapshot, index: int) -> Snapshot {
    let socket = socket_at::<tcp::Socket>(before.slots, index);
    let state = socket.time_wait->0;
    Snapshot {
        slots: before.slots.update(index, None),
        protected: before.protected.insert(
            Key::spec_of(state),
            Entry { state, observer: socket.lifecycle_observer },
        ),
        ..before
    }
}

impl<'a> SocketSet<'a> {
    /// What the set holds.
    pub open spec fn snapshot(&self) -> Snapshot {
        Snapshot {
            slots: self@,
            protected: self.protected(),
            notified: self.notified(),
            records: self.records(),
            setup: self.setup(),
        }
    }

    /// Whether some connection in TIME-WAIT has left its socket.
    pub fn has_tcp_time_wait(&self) -> (r: bool)
        ensures
            r == (self.protected() != Map::<Key, Entry>::empty()),
    {
        !self.time_wait().is_empty()
    }

    /// Detach a TIME-WAIT socket after the integration has relinquished every
    /// handle user. Allocation follows SocketSet::add's alloc failure policy.
    /// False means the socket is not yet TIME-WAIT (or still owes a final ACK), or that the same
    /// connection is protected already; nothing has changed then.
    pub fn detach_tcp_time_wait(&mut self, handle: SocketHandle) -> (r: bool)
        requires
            old(self).wf(),
            holds::<tcp::Socket>(old(self)@, handle.index()),
        ensures
            final(self).wf(),
            r == can_detach(old(self).snapshot(), handle.index()),
            final(self).snapshot() == if r {
                detached(old(self).snapshot(), handle.index())
            } else {
                old(self).snapshot()
            },
            old(self).aligned() ==> final(self).aligned(),
    {
        let socket = self.get::<tcp::Socket>(handle);
        if socket.state() != State::TimeWait || socket.ack_to_transmit() {
            return false;
        }
        let state = match &socket.time_wait {
            Some(state) => state.clone(),
            None => {
                return false;
            },
        };
        let key = Key::of(&state);
        if self.time_wait().contains_key(&key) {
            return false;
        }
        let ghost before = self.snapshot();
        // All allocation completes before removing the full socket/observer.
        self.time_wait_mut().insert(key, Entry { state, observer: None });
        let observer = self.get_mut::<tcp::Socket>(handle).lifecycle_observer.take();
        self.time_wait_mut().set_observer(key, observer);
        let _ = self.remove(handle);
        assert(self@ =~= before.slots.update(handle.index(), None));
        assert(self.protected() =~= before.protected.insert(key, Entry { state, observer }));
        true
    }

    /// Ends the protection of connections whose time is over, the earliest first.
    pub fn expire_tcp_time_wait(&mut self, now: Instant)
        requires
            old(self).wf(),
        ensures
            final(self).wf(),
            final(self).snapshot() == old(self).snapshot().aged(now),
            old(self).aligned() ==> final(self).aligned(),
    {
        // Bound work per poll; poll_at keeps returning the oldest deadline.
        let mut left: usize = EXPIRY_BATCH;
        while left > 0
            invariant
                self.wf(),
                left <= EXPIRY_BATCH,
                self@ == old(self)@,
                self.setup() == old(self).setup(),
                self.records() == old(self).records(),
                expired(self.protected(), now, left as nat) == expired(
                    old(self).protected(),
                    now,
                    EXPIRY_BATCH as nat,
                ),
                self.notified() + expiry_notices(self.protected(), now, left as nat) == old(
                    self,
                ).notified() + expiry_notices(old(self).protected(), now, EXPIRY_BATCH as nat),
            ensures
                left == 0 || !is_due(self.protected(), now),
            decreases left,
        {
            let ghost table = self.protected();
            let ghost told = self.notified();
            let (expires, key) = match self.time_wait().soonest() {
                Some(first) => first,
                None => {
                    break;
                },
            };
            if expires.micros > now.micros {
                break;
            }
            proof {
                assert(table.contains_key(key));
                assert(is_due(table, now));
                lemma_soonest(table, key);
            }
            match self.time_wait_mut().remove(key) {
                Some(entry) => {
                    entry.retire(self.log_mut());
                },
                None => {},
            }
            left = left - 1;
            assert(self.notified() + expiry_notices(self.protected(), now, left as nat) =~= told
                + expiry_notices(table, now, (left + 1) as nat));
        }
    }

    /// When the protection of some connection ends next.
    pub fn tcp_time_wait_poll_at(&self) -> (r: Option<Instant>)
        requires
            self.wf(),
        ensures
            match r {
                Some(time) => exists|key: Key| #[trigger]
                    is_soonest(self.protected(), key) && time
                        == self.protected()[key].state.expires,
                None => self.protected() == Map::<Key, Entry>::empty(),
            },
    {
        match self.time_wait().soonest() {
            Some((time, _)) => Some(time),
            None => None,
        }
    }
}

/// Some connection ends first, where there is a finite number of them and at least one.
pub proof fn lemma_some_soonest(table: Map<Key, Entry>)
    requires
        table.dom().finite(),
        table.dom().len() > 0,
    ensures
        is_soonest(table, soonest_key(table)),
    decreases table.dom().len(),
{
    let one = table.dom().choose();
    let rest = table.remove(one);
    assert(table.contains_key(one));
    assert(rest.dom() =~= table.dom().remove(one));
    if rest.dom().len() == 0 {
        assert forall|other: Key| #[trigger] table.contains_key(other) implies other == one by {
            if other != one {
                assert(rest.dom().contains(other));
            }
        }
        assert(is_soonest(table, one));
    } else {
        lemma_some_soonest(rest);
        let best = soonest_key(rest);
        assert(rest.contains_key(best));
        lemma_rank_injective(one, best);
        if sooner(deadline(one, table[one]), deadline(best, table[best])) {
            assert forall|other: Key| #[trigger] table.contains_key(other) implies other == one
                || sooner(deadline(one, table[one]), deadline(other, table[other])) by {
                if other != one {
                    assert(rest.contains_key(other));
                }
            }
            assert(is_soonest(table, one));
        } else {
            assert forall|other: Key| #[trigger] table.contains_key(other) implies other == best
                || sooner(deadline(best, table[best]), deadline(other, table[other])) by {
                if other != one {
                    assert(rest.contains_key(other));
                }
            }
            assert(is_soonest(table, best));
        }
    }
}

/// The connections whose protection has run out.
pub open spec fn due_keys(table: Map<Key, Entry>, now: Instant) -> Set<Key> {
    table.dom().filter(|key: Key| table[key].state.expires.micros <= now.micros)
}

/// Ending the protection of connections takes away only those whose time is over and leaves the
/// others as they were. It takes away as many as it may, or all whose time is over where these are
/// fewer, and what it takes away ends before all that stays.
pub proof fn expiry_is_exact(table: Map<Key, Entry>, now: Instant, limit: nat)
    requires
        table.dom().finite(),
    ensures
        ({
            let after = expired(table, now, limit);
            &&& after.dom().finite()
            &&& forall|key: Key| #[trigger]
                after.contains_key(key) ==> table.contains_key(key) && after[key] == table[key]
            &&& forall|key: Key| #[trigger]
                table.contains_key(key) && !after.contains_key(key)
                    ==> table[key].state.expires.micros <= now.micros
            &&& forall|gone: Key, kept: Key|
                #![trigger table.contains_key(gone), after.contains_key(kept)]
                table.contains_key(gone) && !after.contains_key(gone) && after.contains_key(kept)
                    ==> sooner(deadline(gone, table[gone]), deadline(kept, table[kept]))
            &&& table.dom().len() - after.dom().len() == if due_keys(table, now).len() <= limit {
                due_keys(table, now).len()
            } else {
                limit
            }
        }),
    decreases limit,
{
    let due = due_keys(table, now);
    if limit > 0 && is_due(table, now) {
        let late = choose|key: Key| #[trigger]
            table.contains_key(key) && table[key].state.expires.micros <= now.micros;
        assert(table.dom().contains(late));
        if table.dom().len() == 0 {
            assert(table.dom() =~= Set::<Key>::empty());
        }
        lemma_some_soonest(table);
        let first = soonest_key(table);
        assert(table.contains_key(first));
        let rest = table.remove(first);
        assert(rest.dom() =~= table.dom().remove(first));
        assert(due.contains(first));
        assert(due_keys(rest, now) =~= due.remove(first));
        expiry_is_exact(rest, now, (limit - 1) as nat);
        let after = expired(table, now, limit);
        assert forall|key: Key| #[trigger]
            table.contains_key(key) && !after.contains_key(key) implies table[key].state.expires.micros
            <= now.micros by {
            if key != first {
                assert(rest.contains_key(key));
            }
        }
        assert forall|gone: Key, kept: Key|
            #![trigger table.contains_key(gone), after.contains_key(kept)]
            table.contains_key(gone) && !after.contains_key(gone) && after.contains_key(
                kept,
            ) implies sooner(deadline(gone, table[gone]), deadline(kept, table[kept])) by {
            assert(rest.contains_key(kept));
            assert(table.contains_key(kept));
            if gone != first {
                assert(rest.contains_key(gone));
            }
        }
    } else if !is_due(table, now) {
        assert forall|key: Key| !due.contains(key) by {
            if due.contains(key) {
                assert(table.contains_key(key));
            }
        }
        assert(due =~= Set::<Key>::empty());
    }
}

/// Before the earliest deadline nothing ends, and from then on something does.
pub proof fn polling_at_the_deadline_makes_progress(table: Map<Key, Entry>, first: Key, now: Instant)
    requires
        is_soonest(table, first),
    ensures
        now.micros < table[first].state.expires.micros ==> !is_due(table, now),
        now.micros >= table[first].state.expires.micros ==> is_due(table, now) && !expired(
            table,
            now,
            EXPIRY_BATCH as nat,
        ).contains_key(first),
{
    lemma_soonest(table, first);
    if now.micros >= table[first].state.expires.micros {
        assert(is_due(table, now));
        lemma_expired_shrinks(table.remove(first), now, (EXPIRY_BATCH - 1) as nat, first);
    }
}

/// What is not in the table does not come into it by ending protections.
proof fn lemma_expired_shrinks(table: Map<Key, Entry>, now: Instant, limit: nat, key: Key)
    requires
        !table.contains_key(key),
    ensures
        !expired(table, now, limit).contains_key(key),
    decreases limit,
{
    if limit > 0 && is_due(table, now) {
        lemma_expired_shrinks(table.remove(soonest_key(table)), now, (limit - 1) as nat, key);
    }
}

/// A connection that leaves its socket stays protected: segments between its endpoints, from its
/// device, find it, with the state and the observer that the socket had.
pub proof fn detached_connection_stays_protected(before: Snapshot, index: int)
    requires
        can_detach(before, index),
    ensures
        ({
            let socket = socket_at::<tcp::Socket>(before.slots, index);
            let state = socket.time_wait->0;
            let after = detached(before, index);
            &&& found(
                after.protected,
                state.tuple.local,
                state.tuple.remote,
                state.device,
            ) == Some(Key::spec_of(state))
            &&& after.protected[Key::spec_of(state)] == (Entry {
                state,
                observer: socket.lifecycle_observer,
            })
            &&& forall|key: Key| #[trigger]
                before.protected.contains_key(key) ==> after.protected.contains_key(key)
                    && after.protected[key] == before.protected[key]
        }),
{
}

} // verus!
