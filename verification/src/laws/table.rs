//! Laws of the connections that have left their sockets.
use crate::iface::time_wait_table::{
    deadline, endpoint_rank, is_soonest, lemma_endpoint_rank, lemma_rank_injective, sooner, Entry,
    Key, TimeWaitTable,
};
use crate::socket::tcp::time_wait::TimeWaitState;
use crate::socket::tcp::LifecycleObserver;
use crate::time::Instant;
use crate::wire::ip::{IpAddress, IpEndpoint};
use std::sync::Arc;
use vstd::prelude::*;

verus! {

/// One address comes before another: IPv4 before IPv6, and each by its number.
pub open spec fn addr_precedes(a: IpAddress, b: IpAddress) -> bool {
    match (a, b) {
        (IpAddress::Ipv4(a), IpAddress::Ipv4(b)) => a.bits < b.bits,
        (IpAddress::Ipv6(a), IpAddress::Ipv6(b)) => a.bits < b.bits,
        (IpAddress::Ipv4(_), IpAddress::Ipv6(_)) => true,
        (IpAddress::Ipv6(_), IpAddress::Ipv4(_)) => false,
    }
}

/// One endpoint comes before another: by address, then by port.
pub open spec fn endpoint_precedes(a: IpEndpoint, b: IpEndpoint) -> bool {
    addr_precedes(a.addr, b.addr) || (a.addr == b.addr && a.port < b.port)
}

/// One key comes before another: by local endpoint, then by remote endpoint, then by device.
pub open spec fn precedes(a: Key, b: Key) -> bool {
    ||| endpoint_precedes(a.local, b.local)
    ||| a.local == b.local && endpoint_precedes(a.remote, b.remote)
    ||| a.local == b.local && a.remote == b.remote && a.device < b.device
}

/// One connection ends before another: by time, then by key.
pub open spec fn ends_before(table: Map<Key, Entry>, a: Key, b: Key) -> bool {
    ||| table[a].state.expires.micros < table[b].state.expires.micros
    ||| table[a].state.expires.micros == table[b].state.expires.micros && precedes(a, b)
}

/// The places of keys in their order are those of the order described.
pub proof fn keys_stand_in_order(a: Key, b: Key)
    ensures
        a.rank() < b.rank() <==> precedes(a, b),
        a == b || precedes(a, b) || precedes(b, a),
{
    lemma_endpoint_rank(a.local, b.local);
    lemma_endpoint_rank(b.local, a.local);
    lemma_endpoint_rank(a.remote, b.remote);
    lemma_endpoint_rank(b.remote, a.remote);
    lemma_rank_injective(a, b);
    let (la, lb) = (endpoint_rank(a.local), endpoint_rank(b.local));
    let (ra, rb) = (endpoint_rank(a.remote), endpoint_rank(b.remote));
    assert(la < lb <==> endpoint_precedes(a.local, b.local));
    assert(ra < rb <==> endpoint_precedes(a.remote, b.remote));
    assert(lb < la <==> endpoint_precedes(b.local, a.local));
    assert(rb < ra <==> endpoint_precedes(b.remote, a.remote));
    let width = 0x2_0000_0000_0000_0000_0000_0000_0000_0000_0000int;
    let first = la * width + ra;
    let second = lb * width + rb;
    assert(la < lb ==> first < second);
    assert(lb < la ==> second < first);
    assert(la == lb ==> (first < second <==> ra < rb));
}

/// A connection ends before another in the order of deadlines as described.
pub proof fn lemma_ends_before(table: Map<Key, Entry>, a: Key, b: Key)
    ensures
        sooner(deadline(a, table[a]), deadline(b, table[b])) <==> ends_before(table, a, b),
{
    keys_stand_in_order(a, b);
}

/// The key of a connection is made of its endpoints and its device.
pub proof fn keys_are_endpoints_and_device(state: &TimeWaitState, r: Key)
    requires
        call_ensures(Key::of, (state,), r),
    ensures
        r.local == state.tuple.local,
        r.remote == state.tuple.remote,
        r.device == state.device,
{
}

/// What was put in a table under a key is found under it, and nowhere else anything changes.
pub proof fn tables_keep_what_is_put_in(key: Key, entry: Entry)
    ensures
        forall|table: &mut TimeWaitTable| #[trigger]
            call_ensures(TimeWaitTable::insert, (table, key, entry), ()) ==> {
                &&& final(table)@.contains_key(key)
                &&& final(table)@[key] == entry
                &&& forall|other: Key|
                    other != key ==> (#[trigger] final(table)@.contains_key(other)
                        <==> table@.contains_key(other))
                &&& forall|other: Key|
                    other != key && table@.contains_key(other) ==> #[trigger] final(table)@[other]
                        == table@[other]
            },
{
}

/// What is taken out of a table is what was under the key, and it is there no longer.
pub proof fn tables_give_back_what_is_taken_out(key: Key, r: Option<Entry>)
    ensures
        forall|table: &mut TimeWaitTable| #[trigger]
            call_ensures(TimeWaitTable::remove, (table, key), r) ==> {
                &&& r is Some <==> table@.contains_key(key)
                &&& r is Some ==> r->0 == table@[key]
                &&& !final(table)@.contains_key(key)
                &&& forall|other: Key|
                    other != key ==> (#[trigger] final(table)@.contains_key(other)
                        <==> table@.contains_key(other))
                &&& forall|other: Key|
                    other != key && table@.contains_key(other) ==> #[trigger] final(table)@[other]
                        == table@[other]
            },
{
}

/// Another state, or another observer, changes that of the one connection only.
pub proof fn one_connection_is_changed(
    key: Key,
    state: TimeWaitState,
    observer: Option<Arc<dyn LifecycleObserver>>,
)
    ensures
        forall|table: &mut TimeWaitTable| #[trigger]
            call_ensures(TimeWaitTable::refresh, (table, key, state), ()) ==> {
                &&& final(table)@.contains_key(key)
                &&& final(table)@[key].state == state
                &&& final(table)@[key].observer == table@[key].observer
                &&& forall|other: Key|
                    other != key ==> (#[trigger] final(table)@.contains_key(other)
                        <==> table@.contains_key(other))
                &&& forall|other: Key|
                    other != key && table@.contains_key(other) ==> #[trigger] final(table)@[other]
                        == table@[other]
            },
        forall|table: &mut TimeWaitTable| #[trigger]
            call_ensures(TimeWaitTable::set_observer, (table, key, observer), ()) ==> {
                &&& final(table)@.contains_key(key)
                &&& final(table)@[key].state == table@[key].state
                &&& final(table)@[key].observer == observer
                &&& forall|other: Key|
                    other != key ==> (#[trigger] final(table)@.contains_key(other)
                        <==> table@.contains_key(other))
                &&& forall|other: Key|
                    other != key && table@.contains_key(other) ==> #[trigger] final(table)@[other]
                        == table@[other]
            },
{
}

/// A table tells what is under a key and whether it holds anything.
pub proof fn tables_are_read(
    table: &TimeWaitTable,
    key: &Key,
    entry: Option<&Entry>,
    there: bool,
    empty: bool,
)
    requires
        call_ensures(TimeWaitTable::get, (table, key), entry),
        call_ensures(TimeWaitTable::contains_key, (table, key), there),
        call_ensures(TimeWaitTable::is_empty, (table,), empty),
    ensures
        there <==> table@.contains_key(*key),
        entry is Some <==> there,
        entry is Some ==> *(entry->0) == table@[*key],
        empty <==> forall|any: Key| !#[trigger] table@.contains_key(any),
{
    if empty {
        assert(table@ == Map::<Key, Entry>::empty());
    } else if forall|any: Key| !#[trigger] table@.contains_key(any) {
        assert(table@ =~= Map::<Key, Entry>::empty());
    }
}

/// A segment finds the connection of the device that it came from before that of no device.
pub proof fn own_device_comes_first(
    table: &TimeWaitTable,
    local: IpEndpoint,
    remote: IpEndpoint,
    device: u32,
    r: Option<Key>,
)
    requires
        call_ensures(TimeWaitTable::find, (table, local, remote, device), r),
    ensures
        r is Some ==> table@.contains_key(r->0) && (r->0).local == local && (r->0).remote == remote,
        r is Some ==> (r->0).device == device || ((r->0).device == 0 && !table@.contains_key(
            Key { local, remote, device },
        )),
        r is None ==> !table@.contains_key(Key { local, remote, device }) && !table@.contains_key(
            Key { local, remote, device: 0 },
        ),
{
}

/// A connection between two endpoints on any device is found where there is one, and it is said whether
/// there are two.
pub proof fn any_device_is_found(
    table: &TimeWaitTable,
    local: IpEndpoint,
    remote: IpEndpoint,
    r: (Option<Key>, bool),
)
    requires
        call_ensures(TimeWaitTable::find_any, (table, local, remote), r),
    ensures
        r.0 is Some ==> table@.contains_key(r.0->0) && (r.0->0).local == local && (r.0->0).remote
            == remote,
        r.0 is None <==> forall|device: u32| !#[trigger]
            table@.contains_key(Key { local, remote, device }),
        !r.1 <==> forall|a: u32, b: u32|
            #[trigger] table@.contains_key(Key { local, remote, device: a })
                && #[trigger] table@.contains_key(Key { local, remote, device: b }) ==> a == b,
{
    assert forall|key: Key|
        key.local == local && key.remote == remote implies #[trigger] table@.contains_key(key)
        == table@.contains_key(Key { local, remote, device: key.device }) by {
        assert(key == Key { local, remote, device: key.device });
    }
    if r.0 is Some {
        let key = r.0->0;
        assert(table@.contains_key(Key { local, remote, device: key.device }));
    } else {
        assert forall|device: u32| !#[trigger]
            table@.contains_key(Key { local, remote, device }) by {}
    }
    if r.1 {
        let (first, second) = choose|first: Key, second: Key|
            #![trigger table@.contains_key(first), table@.contains_key(second)]
            {
                &&& table@.contains_key(first)
                &&& table@.contains_key(second)
                &&& first != second
                &&& first.same_endpoints(local, remote)
                &&& second.same_endpoints(local, remote)
            };
        assert(table@.contains_key(Key { local, remote, device: first.device }));
        assert(table@.contains_key(Key { local, remote, device: second.device }));
    }
}

/// The connection that ends first is told, with its time, where there is one.
pub proof fn first_to_end_is_told(table: &TimeWaitTable, r: Option<(Instant, Key)>)
    requires
        call_ensures(TimeWaitTable::soonest, (table,), r),
    ensures
        r is None <==> forall|key: Key| !#[trigger] table@.contains_key(key),
        r is Some ==> {
            let (expires, key) = r->0;
            &&& table@.contains_key(key)
            &&& expires == table@[key].state.expires
            &&& forall|other: Key| #[trigger]
                table@.contains_key(other) && other != key ==> ends_before(table@, key, other)
        },
{
    if r is Some {
        let key = (r->0).1;
        assert(is_soonest(table@, key));
        assert forall|other: Key| #[trigger]
            table@.contains_key(other) && other != key implies ends_before(table@, key, other) by {
            lemma_ends_before(table@, key, other);
        }
    }
}

} // verus!
