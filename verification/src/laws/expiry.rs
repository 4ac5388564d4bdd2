//! Laws of how TIME-WAIT leaves sockets and comes to its end.
use crate::iface::socket_set::{SocketHandle, SocketSet};
use crate::iface::tcp_time_wait::{
    expired, expiry_notices, is_due, lemma_some_soonest, soonest_key, Snapshot,
};
use crate::iface::time_wait_table::{is_soonest, Entry, Key};
use crate::laws::numbers::steps;
use crate::laws::sets::tcp_in;
use crate::laws::table::{ends_before, lemma_ends_before};
use crate::socket::tcp::{Notice, State};
use crate::time::Instant;
use vstd::prelude::*;

verus! {

/// Some connection has left its socket, or none has.
pub proof fn protection_is_told(set: &SocketSet<'_>, r: bool)
    requires
        call_ensures(SocketSet::has_tcp_time_wait, (set,), r),
    ensures
        r <==> exists|key: Key| #[trigger] set.protected().contains_key(key),
{
    if !r {
        assert(set.protected() == Map::<Key, Entry>::empty());
    } else if forall|key: Key| !#[trigger] set.protected().contains_key(key) {
        assert(set.protected() =~= Map::<Key, Entry>::empty());
    }
}

/// A connection leaves its socket where it is in TIME-WAIT with its state recorded, owes no
/// acknowledgement, and is not protected already. Its socket is gone then, and the connection is
/// protected with the state and the observer that the socket had. Otherwise nothing changes.
pub proof fn connections_leave_their_sockets(handle: SocketHandle, r: bool)
    ensures
        forall|set: &mut SocketSet<'_>| #[trigger]
            call_ensures(SocketSet::detach_tcp_time_wait, (set, handle), r) && tcp_in(
                set@,
                handle.index(),
            ) is Some ==> {
                let socket = tcp_in(set@, handle.index())->0;
                let state = socket.time_wait->0;
                let key = Key {
                    local: state.tuple.local,
                    remote: state.tuple.remote,
                    device: state.device,
                };
                let owes = socket.remote_last_ack is Some && steps(
                    socket.remote_seq_no.0 + socket.rx_buffer@.len(),
                    (socket.remote_last_ack->0).0 as int,
                ) >= 0x8000_0000;
                &&& r <==> socket.state == State::TimeWait && socket.time_wait is Some && !owes
                    && !set.protected().contains_key(key)
                &&& !r ==> final(set).snapshot() == set.snapshot()
                &&& r ==> {
                    &&& final(set)@.len() == set@.len()
                    &&& final(set)@[handle.index()] is None
                    &&& forall|i: int|
                        0 <= i < set@.len() && i != handle.index() ==> #[trigger] final(set)@[i]
                            == set@[i]
                    &&& final(set).protected().contains_key(key)
                    &&& final(set).protected()[key].state == state
                    &&& final(set).protected()[key].observer == socket.lifecycle_observer
                    &&& forall|other: Key|
                        other != key ==> (#[trigger] final(set).protected().contains_key(other)
                            <==> set.protected().contains_key(other))
                    &&& forall|other: Key|
                        other != key && set.protected().contains_key(other)
                            ==> #[trigger] final(set).protected()[other] == set.protected()[other]
                    &&& final(set).notified() == set.notified()
                    &&& final(set).records() == set.records()
                    &&& final(set).setup() == set.setup()
                }
            },
{
}

/// The next deadline is the earliest one, and there is none where nothing is protected.
pub proof fn next_deadline_is_the_earliest(set: &SocketSet<'_>, r: Option<Instant>)
    requires
        call_ensures(SocketSet::tcp_time_wait_poll_at, (set,), r),
    ensures
        r is None <==> forall|key: Key| !#[trigger] set.protected().contains_key(key),
        r is Some ==> {
            &&& exists|key: Key| #[trigger]
                set.protected().contains_key(key) && set.protected()[key].state.expires == r->0
            &&& forall|key: Key| #[trigger]
                set.protected().contains_key(key) ==> (r->0).micros
                    <= set.protected()[key].state.expires.micros
        },
{
    if r is Some {
        let first = choose|key: Key| #[trigger]
            is_soonest(set.protected(), key) && r->0 == set.protected()[key].state.expires;
        assert(set.protected().contains_key(first));
    }
}

/// What the observers of connections, where there are any, are told when these end in order.
pub open spec fn farewells(table: Map<Key, Entry>, keys: Seq<Key>) -> Seq<Notice>
    decreases keys.len(),
{
    if keys.len() == 0 {
        Seq::empty()
    } else {
        let rest = farewells(table, keys.drop_last());
        let entry = table[keys.last()];
        if entry.observer is Some {
            rest.push(
                Notice {
                    observer: entry.observer,
                    state: State::Closed,
                    local: Some(entry.state.tuple.local),
                    remote: Some(entry.state.tuple.remote),
                    device: entry.state.device,
                },
            )
        } else {
            rest
        }
    }
}

/// The connections end one after the other.
pub open spec fn in_order(table: Map<Key, Entry>, keys: Seq<Key>) -> bool {
    forall|i: int, j: int|
        0 <= i < j < keys.len() ==> ends_before(table, #[trigger] keys[i], #[trigger] keys[j])
}

/// What the passing of time leaves of a set: at most 64 connections have ended, those that end first of
/// all whose time is over, and all of these where they are fewer. Their observers are told, in that
/// order. All else is as it was.
pub open spec fn is_aged(before: Snapshot, now: Instant, after: Snapshot) -> bool {
    &&& after.slots == before.slots
    &&& after.records == before.records
    &&& after.setup == before.setup
    &&& exists|gone: Seq<Key>|
        {
            &&& #[trigger] in_order(before.protected, gone)
            &&& gone.len() <= 64
            &&& forall|key: Key| #[trigger]
                gone.contains(key) ==> before.protected.contains_key(key)
                    && before.protected[key].state.expires.micros <= now.micros
            &&& forall|key: Key| #[trigger]
                after.protected.contains_key(key) <==> before.protected.contains_key(key)
                    && !gone.contains(key)
            &&& forall|key: Key| #[trigger]
                after.protected.contains_key(key) ==> {
                    &&& after.protected[key] == before.protected[key]
                    &&& after.protected[key].state.expires.micros <= now.micros ==> gone.len() == 64
                    &&& forall|i: int|
                        0 <= i < gone.len() ==> ends_before(
                            before.protected,
                            #[trigger] gone[i],
                            key,
                        )
                }
            &&& after.notified == before.notified + farewells(before.protected, gone)
        }
}

proof fn lemma_farewells(
    table: Map<Key, Entry>,
    first: Key,
    rest: Map<Key, Entry>,
    keys: Seq<Key>,
)
    requires
        rest == table.remove(first),
        forall|i: int| 0 <= i < keys.len() ==> rest.contains_key(#[trigger] keys[i]),
    ensures
        farewells(table, seq![first] + keys) == farewells(table, seq![first]) + farewells(
            rest,
            keys,
        ),
    decreases keys.len(),
{
    let all = seq![first] + keys;
    if keys.len() == 0 {
        assert(all =~= seq![first]);
        assert(farewells(table, seq![first]) + farewells(rest, keys) =~= farewells(
            table,
            seq![first],
        ));
    } else {
        assert(all.drop_last() =~= seq![first] + keys.drop_last());
        assert forall|i: int| 0 <= i < keys.drop_last().len() implies rest.contains_key(
            #[trigger] keys.drop_last()[i],
        ) by {
            assert(rest.contains_key(keys[i]));
        }
        lemma_farewells(table, first, rest, keys.drop_last());
        assert(rest.contains_key(keys[keys.len() - 1]));
        assert(all.last() == keys.last());
        assert(table[keys.last()] == rest[keys.last()]);
        assert(farewells(table, all) =~= farewells(table, seq![first]) + farewells(rest, keys));
    }
}

/// Which connections end, up to a limit, and in which order.
proof fn lemma_expired(table: Map<Key, Entry>, now: Instant, limit: nat) -> (gone: Seq<Key>)
    requires
        table.dom().finite(),
    ensures
        in_order(table, gone),
        gone.len() <= limit,
        forall|key: Key| #[trigger]
            gone.contains(key) ==> table.contains_key(key) && table[key].state.expires.micros
                <= now.micros,
        forall|key: Key| #[trigger]
            expired(table, now, limit).contains_key(key) <==> table.contains_key(key)
                && !gone.contains(key),
        forall|key: Key| #[trigger]
            expired(table, now, limit).contains_key(key) ==> {
                &&& expired(table, now, limit)[key] == table[key]
                &&& table[key].state.expires.micros <= now.micros ==> gone.len() == limit
                &&& forall|i: int|
                    0 <= i < gone.len() ==> ends_before(table, #[trigger] gone[i], key)
            },
        expiry_notices(table, now, limit) == farewells(table, gone),
    decreases limit,
{
    if limit == 0 || !is_due(table, now) {
        Seq::empty()
    } else {
        let late = choose|key: Key| #[trigger]
            table.contains_key(key) && table[key].state.expires.micros <= now.micros;
        assert(table.dom().contains(late));
        if table.dom().len() == 0 {
            assert(table.dom() =~= Set::<Key>::empty());
        }
        lemma_some_soonest(table);
        let first = soonest_key(table);
        let rest = table.remove(first);
        assert(table.contains_key(first) && table.contains_key(late));
        assert(table[first].state.expires.micros <= now.micros);
        let others = lemma_expired(rest, now, (limit - 1) as nat);
        let gone = seq![first] + others;
        let after = expired(table, now, limit);
        assert(after == expired(rest, now, (limit - 1) as nat));
        assert forall|i: int| 0 <= i < others.len() implies #[trigger] rest.contains_key(
            others[i],
        ) by {
            assert(others.contains(others[i]));
        }
        lemma_farewells(table, first, rest, others);
        assert(expiry_notices(table, now, limit) =~= farewells(table, gone)) by {
            let only = seq![first];
            assert(only.drop_last() =~= Seq::<Key>::empty());
            assert(farewells(table, only.drop_last()) =~= Seq::<Notice>::empty());
            assert(farewells(table, only) =~= table[first].closing_notices());
        }
        assert forall|i: int, j: int| 0 <= i < j < gone.len() implies ends_before(
            table,
            #[trigger] gone[i],
            #[trigger] gone[j],
        ) by {
            assert(rest.contains_key(others[j - 1]));
            assert(table.contains_key(others[j - 1]));
            if i == 0 {
                lemma_ends_before(table, first, others[j - 1]);
            } else {
                assert(rest.contains_key(others[i - 1]));
                assert(ends_before(rest, others[i - 1], others[j - 1]));
            }
        }
        assert forall|key: Key| #[trigger] gone.contains(key) <==> key == first || others.contains(key) by {
            if key == first {
                assert(gone[0] == first);
            }
            if others.contains(key) {
                let i = others.index_of(key);
                assert(gone[i + 1] == key);
            }
            if gone.contains(key) && key != first {
                let i = gone.index_of(key);
                assert(others[i - 1] == key);
            }
        }
        assert forall|key: Key| #[trigger] after.contains_key(key) implies {
            &&& after[key] == table[key]
            &&& table[key].state.expires.micros <= now.micros ==> gone.len() == limit
            &&& forall|i: int| 0 <= i < gone.len() ==> ends_before(table, #[trigger] gone[i], key)
        } by {
            assert(rest.contains_key(key));
            assert(table.contains_key(key));
            assert forall|i: int| 0 <= i < gone.len() implies ends_before(
                table,
                #[trigger] gone[i],
                key,
            ) by {
                if i == 0 {
                    lemma_ends_before(table, first, key);
                } else {
                    assert(rest.contains_key(others[i - 1]));
                    assert(ends_before(rest, others[i - 1], key));
                }
            }
        }
        gone
    }
}

/// The passing of time leaves of a set what is described.
pub proof fn lemma_aged(before: Snapshot, now: Instant)
    requires
        before.protected.dom().finite(),
    ensures
        is_aged(before, now, before.aged(now)),
{
    let gone = lemma_expired(before.protected, now, 64);
    assert(in_order(before.protected, gone));
}

/// Time ends the protection of connections as described.
pub proof fn time_ends_protections(now: Instant)
    ensures
        forall|set: &mut SocketSet<'_>| #[trigger]
            call_ensures(SocketSet::expire_tcp_time_wait, (set, now), ()) && set.wf() ==> is_aged(
                set.snapshot(),
                now,
                final(set).snapshot(),
            ),
{
    assert forall|set: &mut SocketSet<'_>| #[trigger]
        call_ensures(SocketSet::expire_tcp_time_wait, (set, now), ()) && set.wf() implies is_aged(
        set.snapshot(),
        now,
        final(set).snapshot(),
    ) by {
        set.protected_connections_are_finite();
        lemma_aged(set.snapshot(), now);
    }
}

} // verus!
