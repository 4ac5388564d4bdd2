//! What is read of a set of sockets, and what the end of a connection leaves of it.
use crate::iface::socket_set::Item;
use crate::iface::tcp_time_wait::Snapshot;
use crate::iface::time_wait_table::Key;
use crate::laws::socket::is_ended;
use crate::socket::tcp;
use crate::socket::tcp::{LifecycleObserver, Notice, State};
use crate::socket::Socket;
use crate::wire::ip::IpEndpoint;
use std::sync::Arc;
use vstd::prelude::*;

verus! {

/// The TCP socket in a space of a set, where there is one.
pub open spec fn tcp_in(slots: Seq<Option<Item>>, index: int) -> Option<tcp::Socket> {
    if 0 <= index < slots.len() {
        match slots[index] {
            Some(Item { socket: Socket::Tcp(socket), .. }) => Some(socket),
            _ => None,
        }
    } else {
        None
    }
}

/// Where the handle leads that the item in a space records.
pub open spec fn names(slots: Seq<Option<Item>>, index: int) -> int {
    (slots[index]->0).meta.handle.index()
}

/// The spaces of a set, with another TCP socket in an occupied one.
pub open spec fn with_tcp(
    slots: Seq<Option<Item>>,
    index: int,
    socket: tcp::Socket,
) -> Seq<Option<Item>> {
    slots.update(index, Some(Item { meta: (slots[index]->0).meta, socket: Socket::Tcp(socket) }))
}

/// The identity is one of the observer, and none where there is none.
pub open spec fn identifies(
    observer: Option<Arc<dyn LifecycleObserver>>,
    identity: Option<u64>,
) -> bool {
    &&& identity is Some <==> observer is Some
    &&& observer is Some ==> (observer->0).may_identify(identity->0)
}

/// The notices grew by what an observer, where there is one, is told of the end of a connection.
pub open spec fn is_told(
    before: Seq<Notice>,
    after: Seq<Notice>,
    observer: Option<Arc<dyn LifecycleObserver>>,
    local: Option<IpEndpoint>,
    remote: Option<IpEndpoint>,
    device: u32,
) -> bool {
    if observer is Some {
        after == before.push(
            Notice { observer, state: State::Closed, local, remote, device },
        )
    } else {
        after == before
    }
}

/// What the end of a connection leaves of a set. With its socket: that is closed. Beside the sockets: it
/// is protected no longer. Whoever watches is told, of the socket first; all else is as it was.
pub open spec fn is_over(
    before: Snapshot,
    after: Snapshot,
    attached: Option<int>,
    detached: Option<Key>,
) -> bool {
    &&& after.slots.len() == before.slots.len()
    &&& forall|i: int|
        0 <= i < before.slots.len() && Some(i) != attached ==> #[trigger] after.slots[i]
            == before.slots[i]
    &&& attached matches Some(index) ==> {
        &&& tcp_in(after.slots, index) is Some
        &&& is_ended(tcp_in(before.slots, index)->0, tcp_in(after.slots, index)->0)
        &&& names(after.slots, index) == names(before.slots, index)
    }
    &&& forall|key: Key| #[trigger]
        after.protected.contains_key(key) <==> before.protected.contains_key(key) && Some(key)
            != detached
    &&& forall|key: Key| #[trigger]
        after.protected.contains_key(key) ==> after.protected[key] == before.protected[key]
    &&& exists|notified: Seq<Notice>|
        {
            &&& #[trigger] ends_attached(before, notified, attached)
            &&& match detached {
                Some(key) => is_told(
                    notified,
                    after.notified,
                    before.protected[key].observer,
                    Some(before.protected[key].state.tuple.local),
                    Some(before.protected[key].state.tuple.remote),
                    before.protected[key].state.device,
                ),
                None => after.notified == notified,
            }
        }
    &&& after.records == before.records
    &&& after.setup == before.setup
}

/// The observer of a socket whose connection ends, where there is one, is told.
pub open spec fn ends_attached(
    before: Snapshot,
    notified: Seq<Notice>,
    attached: Option<int>,
) -> bool {
    match attached {
        Some(index) => {
            let old = tcp_in(before.slots, index)->0;
            let local = if old.tuple is Some {
                Some((old.tuple->0).local)
            } else {
                None
            };
            let remote = if old.tuple is Some {
                Some((old.tuple->0).remote)
            } else {
                None
            };
            is_told(
                before.notified,
                notified,
                old.lifecycle_observer,
                local,
                remote,
                old.connection_bound_device,
            )
        },
        None => notified == before.notified,
    }
}

/// Ending a connection leaves of the set what is described.
pub proof fn lemma_over(before: Snapshot, attached: Option<int>, detached: Option<Key>)
    requires
        attached matches Some(index) ==> tcp_in(before.slots, index) is Some,
        detached matches Some(key) ==> before.protected.contains_key(key),
    ensures
        is_over(
            before,
            before.retire_attached(attached).retire_detached(detached),
            attached,
            detached,
        ),
{
    let middle = before.retire_attached(attached);
    let after = middle.retire_detached(detached);
    assert(ends_attached(before, middle.notified, attached)) by {
        if attached is Some {
            let old = tcp_in(before.slots, attached->0)->0;
            assert(middle.notified =~= before.notified + old.closing_notices());
            if old.lifecycle_observer is Some {
                assert(middle.notified =~= before.notified.push(old.closing_notices()[0]));
            } else {
                assert(middle.notified =~= before.notified);
            }
        }
    }
    if detached is Some {
        let entry = before.protected[detached->0];
        if entry.observer is Some {
            assert(after.notified =~= middle.notified.push(entry.closing_notices()[0]));
        } else {
            assert(after.notified =~= middle.notified);
        }
    }
}

} // verus!
