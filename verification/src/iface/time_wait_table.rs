//! Connections in TIME-WAIT that have left their sockets.
use crate::socket::tcp::time_wait::TimeWaitState;
use crate::socket::tcp::{all_heard, announce, notices, LifecycleObserver, Notice, State};
use crate::time::Instant;
use crate::wire::ip::{IpAddress, IpEndpoint};
use std::sync::Arc;
use vstd::prelude::*;

verus! {

/// What tells protected connections apart: the endpoints and the device.
#[derive(Debug, Clone, Copy, PartialEq, Eq, Structural)]
pub struct Key {
    pub local: IpEndpoint,
    pub remote: IpEndpoint,
    pub device: u32,
}

/// The place of an address in the order of addresses: IPv4 before IPv6, and each by its number.
pub open spec fn addr_rank(addr: IpAddress) -> int {
    match addr {
        IpAddress::Ipv4(addr) => addr.bits as int,
        IpAddress::Ipv6(addr) => 0x1_0000_0000 + addr.bits,
    }
}

/// The place of an endpoint in the order of endpoints: by address, then by port.
pub open spec fn endpoint_rank(endpoint: IpEndpoint) -> int {
    addr_rank(endpoint.addr) * 0x1_0000 + endpoint.port
}

/// Whether `a` comes before `b` in the order of addresses.
fn addr_before(a: IpAddress, b: IpAddress) -> (r: bool)
    ensures
        r == (addr_rank(a) < addr_rank(b)),
        a == b <==> addr_rank(a) == addr_rank(b),
{
    match (a, b) {
        (IpAddress::Ipv4(a), IpAddress::Ipv4(b)) => a.bits < b.bits,
        (IpAddress::Ipv4(_), IpAddress::Ipv6(_)) => true,
        (IpAddress::Ipv6(_), IpAddress::Ipv4(_)) => false,
        (IpAddress::Ipv6(a), IpAddress::Ipv6(b)) => a.bits < b.bits,
    }
}

/// Whether `a` comes before `b` in the order of endpoints.
fn endpoint_before(a: IpEndpoint, b: IpEndpoint) -> (r: bool)
    ensures
        r == (endpoint_rank(a) < endpoint_rank(b)),
        a == b <==> endpoint_rank(a) == endpoint_rank(b),
{
    let before = addr_before(a.addr, b.addr);
    before || (a.addr == b.addr && a.port < b.port)
}

impl Key {
    /// The place of a key in the order of keys: by local endpoint, then by remote endpoint, then by
    /// device.
    pub open spec fn rank(self) -> int {
        (endpoint_rank(self.local) * 0x2_0000_0000_0000_0000_0000_0000_0000_0000_0000int
            + endpoint_rank(self.remote)) * 0x1_0000_0000 + self.device
    }

    /// Whether this key comes before `other`.
    fn before(&self, other: &Key) -> (r: bool)
        ensures
            r == (self.rank() < other.rank()),
            *self == *other <==> self.rank() == other.rank(),
    {
        let local = endpoint_before(self.local, other.local);
        let remote = endpoint_before(self.remote, other.remote);
        local || (self.local == other.local && (remote || (self.remote == other.remote
            && self.device < other.device)))
    }

    pub open spec fn spec_of(state: TimeWaitState) -> Key {
        Key { local: state.tuple.local, remote: state.tuple.remote, device: state.device }
    }

    /// The key of a connection.
    pub fn of(state: &TimeWaitState) -> (r: Key)
        ensures
            r == Key::spec_of(*state),
    {
        Key { local: state.tuple.local, remote: state.tuple.remote, device: state.device }
    }

    /// Both keys have the same endpoints.
    pub open spec fn same_endpoints(self, local: IpEndpoint, remote: IpEndpoint) -> bool {
        self.local == local && self.remote == remote
    }
}

/// No two endpoints share their place in the order, whose places are bounded.
pub proof fn lemma_endpoint_rank(a: IpEndpoint, b: IpEndpoint)
    ensures
        a == b <==> endpoint_rank(a) == endpoint_rank(b),
        0 <= endpoint_rank(a) < 0x2_0000_0000_0000_0000_0000_0000_0000_0000_0000int,
{
    assert(addr_rank(a.addr) == addr_rank(b.addr) ==> a.addr == b.addr);
}

/// No two keys share their place in the order.
pub proof fn lemma_rank_injective(a: Key, b: Key)
    ensures
        a == b <==> a.rank() == b.rank(),
{
    lemma_endpoint_rank(a.local, b.local);
    lemma_endpoint_rank(a.remote, b.remote);
    lemma_endpoint_rank(b.remote, a.remote);
    let width = 0x2_0000_0000_0000_0000_0000_0000_0000_0000_0000int;
    let first = endpoint_rank(a.local) * width + endpoint_rank(a.remote);
    let second = endpoint_rank(b.local) * width + endpoint_rank(b.remote);
    if a.rank() == b.rank() {
        assert(first == second);
        assert(endpoint_rank(a.local) == endpoint_rank(b.local));
    }
}

/// A protected connection and who watches it.
pub struct Entry {
    pub state: TimeWaitState,
    pub observer: Option<Arc<dyn LifecycleObserver>>,
}

impl Entry {
    /// What the observer learns of the end of the protection.
    pub open spec fn closing_notices(self) -> Seq<Notice> {
        notices(
            self.observer,
            State::Closed,
            Some(self.state.tuple.local),
            Some(self.state.tuple.remote),
            self.state.device,
        )
    }

    /// Tells the observer that the connection is over.
    pub(crate) fn retire(self, log: &mut Ghost<Seq<Notice>>)
        ensures
            final(log)@ == old(log)@ + self.closing_notices(),
            all_heard(self.closing_notices()),
    {
        announce(
            &self.observer,
            State::Closed,
            Some(self.state.tuple.local),
            Some(self.state.tuple.remote),
            self.state.device,
            log,
        );
    }
}

/// A protected connection under its key.
struct Record {
    key: Key,
    entry: Entry,
}

/// The entries stand in the order of their keys, each key once.
spec fn sorted(entries: Seq<Record>) -> bool {
    forall|i: int, j: int|
        0 <= i < j < entries.len() ==> (#[trigger] entries[i]).key.rank() < (
        #[trigger] entries[j]).key.rank()
}

/// Some entry has the key.
spec fn lists(entries: Seq<Record>, key: Key) -> bool {
    exists|i: int| 0 <= i < entries.len() && (#[trigger] entries[i]).key == key
}

/// Where the entry with the key stands.
spec fn place(entries: Seq<Record>, key: Key) -> int {
    choose|i: int| 0 <= i < entries.len() && (#[trigger] entries[i]).key == key
}

/// The entries by their keys.
spec fn by_key(entries: Seq<Record>) -> Map<Key, Entry> {
    Map::new(|key: Key| lists(entries, key), |key: Key| entries[place(entries, key)].entry)
}

/// One deadline comes before another: by time, then by key.
pub open spec fn sooner(a: (Instant, Key), b: (Instant, Key)) -> bool {
    a.0.micros < b.0.micros || (a.0.micros == b.0.micros && a.1.rank() < b.1.rank())
}

/// Whether one deadline comes before another.
fn is_sooner(a: (Instant, Key), b: (Instant, Key)) -> (r: bool)
    ensures
        r == sooner(a, b),
        a == b <==> (a.0.micros == b.0.micros && a.1.rank() == b.1.rank()),
{
    let before = a.1.before(&b.1);
    a.0.micros < b.0.micros || (a.0.micros == b.0.micros && before)
}

/// The deadlines stand in order, each once.
spec fn in_time(deadlines: Seq<(Instant, Key)>) -> bool {
    forall|i: int, j: int|
        0 <= i < j < deadlines.len() ==> sooner(#[trigger] deadlines[i], #[trigger] deadlines[j])
}

/// The deadline of the entry with a key.
pub open spec fn deadline(key: Key, entry: Entry) -> (Instant, Key) {
    (entry.state.expires, key)
}

/// The deadline of a record.
spec fn end_of(record: Record) -> (Instant, Key) {
    deadline(record.key, record.entry)
}

/// The deadlines are those of the entries.
spec fn consistent(entries: Seq<Record>, deadlines: Seq<(Instant, Key)>) -> bool {
    &&& forall|i: int|
        0 <= i < entries.len() ==> deadlines.contains(end_of(#[trigger] entries[i]))
    &&& forall|j: int|
        0 <= j < deadlines.len() ==> ends_at(entries, #[trigger] deadlines[j])
}

/// Some entry has the deadline.
spec fn ends_at(entries: Seq<Record>, wanted: (Instant, Key)) -> bool {
    exists|i: int| 0 <= i < entries.len() && end_of(#[trigger] entries[i]) == wanted
}

/// Connections in TIME-WAIT, found by their keys and by their deadlines.
pub struct TimeWaitTable {
    entries: Vec<Record>,
    deadlines: Vec<(Instant, Key)>,
}

/// Every connection stands under the key of its own endpoints and device.
pub open spec fn own_keys(table: Map<Key, Entry>) -> bool {
    forall|key: Key| #[trigger]
        table.contains_key(key) ==> Key::spec_of(table[key].state) == key
}

/// `key` is in the table, and no entry ends before its entry.
pub open spec fn is_soonest(table: Map<Key, Entry>, key: Key) -> bool {
    &&& table.contains_key(key)
    &&& forall|other: Key| #[trigger]
        table.contains_key(other) ==> other == key || sooner(
            deadline(key, table[key]),
            deadline(other, table[other]),
        )
}

/// The key under which a segment between two endpoints finds its connection: that with the device
/// it came from, or else that of a connection that is bound to no device.
pub open spec fn found(
    table: Map<Key, Entry>,
    local: IpEndpoint,
    remote: IpEndpoint,
    device: u32,
) -> Option<Key> {
    let exact = Key { local, remote, device };
    let any = Key { local, remote, device: 0 };
    if table.contains_key(exact) {
        Some(exact)
    } else if table.contains_key(any) {
        Some(any)
    } else {
        None
    }
}

/// The table holds a connection between the two endpoints on some device.
pub open spec fn holds_endpoints(
    table: Map<Key, Entry>,
    local: IpEndpoint,
    remote: IpEndpoint,
) -> bool {
    exists|key: Key| #[trigger] table.contains_key(key) && key.same_endpoints(local, remote)
}

/// The table holds connections between the two endpoints on two devices.
pub open spec fn holds_endpoints_twice(
    table: Map<Key, Entry>,
    local: IpEndpoint,
    remote: IpEndpoint,
) -> bool {
    exists|first: Key, second: Key|
        #![trigger table.contains_key(first), table.contains_key(second)]
        {
            &&& table.contains_key(first)
            &&& table.contains_key(second)
            &&& first != second
            &&& first.same_endpoints(local, remote)
            &&& second.same_endpoints(local, remote)
        }
}

proof fn lemma_by_key(entries: Seq<Record>, index: int)
    requires
        sorted(entries),
        0 <= index < entries.len(),
    ensures
        by_key(entries).contains_key(entries[index].key),
        by_key(entries)[entries[index].key] == entries[index].entry,
{
    let key = entries[index].key;
    assert(lists(entries, key));
    let at = place(entries, key);
    assert(0 <= at < entries.len() && entries[at].key == key);
    if at < index {
        assert(entries[at].key.rank() < entries[index].key.rank());
    } else if index < at {
        assert(entries[index].key.rank() < entries[at].key.rank());
    }
}

proof fn lemma_by_key_insert(entries: Seq<Record>, index: int, entry: Record)
    requires
        sorted(entries),
        sorted(entries.insert(index, entry)),
        0 <= index <= entries.len(),
    ensures
        by_key(entries.insert(index, entry)) == by_key(entries).insert(entry.key, entry.entry),
{
    let after = entries.insert(index, entry);
    assert forall|key: Key| lists(after, key) <==> lists(entries, key) || key == entry.key by {
        if lists(after, key) {
            let i = place(after, key);
            if i < index {
                assert(after[i] == entries[i]);
            } else if i > index {
                assert(after[i] == entries[i - 1]);
            }
        }
        if lists(entries, key) {
            let i = place(entries, key);
            if i < index {
                assert(after[i] == entries[i]);
            } else {
                assert(after[i + 1] == entries[i]);
            }
        }
        assert(after[index] == entry);
    }
    assert forall|key: Key| lists(after, key) implies by_key(after)[key] == by_key(entries).insert(
        entry.key,
        entry.entry,
    )[key] by {
        let i = place(after, key);
        lemma_by_key(after, i);
        if i < index {
            assert(after[i] == entries[i]);
            lemma_by_key(entries, i);
            assert(after[i].key.rank() < after[index].key.rank());
        } else if i > index {
            assert(after[i] == entries[i - 1]);
            lemma_by_key(entries, i - 1);
            assert(after[index].key.rank() < after[i].key.rank());
        }
    }
    assert(by_key(after) =~= by_key(entries).insert(entry.key, entry.entry));
}

proof fn lemma_by_key_remove(entries: Seq<Record>, index: int)
    requires
        sorted(entries),
        0 <= index < entries.len(),
    ensures
        sorted(entries.remove(index)),
        by_key(entries.remove(index)) == by_key(entries).remove(entries[index].key),
        by_key(entries).contains_key(entries[index].key),
{
    let after = entries.remove(index);
    assert(after.insert(index, entries[index]) =~= entries);
    lemma_by_key_insert(after, index, entries[index]);
    lemma_by_key(entries, index);
    assert(!lists(after, entries[index].key)) by {
        if lists(after, entries[index].key) {
            let i = place(after, entries[index].key);
            if i < index {
                assert(entries[i].key.rank() < entries[index].key.rank());
            } else {
                assert(after[i] == entries[i + 1]);
                assert(entries[index].key.rank() < entries[i + 1].key.rank());
            }
        }
    }
    assert(by_key(after) =~= by_key(entries).remove(entries[index].key));
}

impl TimeWaitTable {
    /// The protected connections by their keys.
    pub closed spec fn view(&self) -> Map<Key, Entry> {
        by_key(self.entries@)
    }

    /// The entries and the deadlines stand in order and belong together.
    pub closed spec fn wf(&self) -> bool {
        &&& sorted(self.entries@)
        &&& in_time(self.deadlines@)
        &&& consistent(self.entries@, self.deadlines@)
    }

    /// There is a finite number of connections.
    pub proof fn lemma_finite(&self)
        requires
            self.wf(),
        ensures
            self@.dom().finite(),
    {
        let keys = Seq::new(self.entries@.len(), |i: int| self.entries@[i].key);
        assert forall|key: Key| self@.dom().contains(key) implies keys.to_set().contains(key) by {
            assert(lists(self.entries@, key));
            let i = place(self.entries@, key);
            assert(keys[i] == key);
        }
        vstd::seq_lib::seq_to_set_is_finite(keys);
        vstd::set_lib::lemma_len_subset(self@.dom(), keys.to_set());
    }

    /// The deadlines that are filed.
    pub closed spec fn deadlines(&self) -> Set<(Instant, Key)> {
        self.deadlines@.to_set()
    }

    /// Exactly the deadlines of the connections are filed, one for each: no stale one is left, and
    /// none is missing.
    pub proof fn deadlines_are_in_step(&self)
        requires
            self.wf(),
        ensures
            forall|expires: Instant, key: Key| #[trigger]
                self.deadlines().contains((expires, key)) <==> self@.contains_key(key)
                    && self@[key].state.expires == expires,
    {
        assert forall|expires: Instant, key: Key| #[trigger]
            self.deadlines().contains((expires, key)) <==> self@.contains_key(key)
                && self@[key].state.expires == expires by {
            if self.deadlines@.contains((expires, key)) {
                let j = self.deadlines@.index_of((expires, key));
                assert(ends_at(self.entries@, self.deadlines@[j]));
                let i = choose|i: int|
                    0 <= i < self.entries@.len() && end_of(#[trigger] self.entries@[i])
                        == self.deadlines@[j];
                lemma_by_key(self.entries@, i);
            }
            if self@.contains_key(key) && self@[key].state.expires == expires {
                assert(lists(self.entries@, key));
                let i = place(self.entries@, key);
                lemma_by_key(self.entries@, i);
                assert(self.deadlines@.contains(end_of(self.entries@[i])));
            }
        }
    }

    /// A table without connections.
    pub fn new() -> (r: TimeWaitTable)
        ensures
            r.wf(),
            r@ == Map::<Key, Entry>::empty(),
    {
        let table = TimeWaitTable { entries: Vec::new(), deadlines: Vec::new() };
        assert(table@ =~= Map::<Key, Entry>::empty());
        table
    }

    /// Whether the table holds no connection.
    pub fn is_empty(&self) -> (r: bool)
        ensures
            r == (self@ == Map::<Key, Entry>::empty()),
    {
        let empty = self.entries.len() == 0;
        proof {
            if empty {
                assert(self@ =~= Map::<Key, Entry>::empty());
            } else {
                assert(lists(self.entries@, self.entries@[0].key));
                assert(self@.contains_key(self.entries@[0].key));
            }
        }
        empty
    }

    /// Where the entry with the key stands, or would stand.
    fn search(&self, key: &Key) -> (r: (bool, usize))
        requires
            sorted(self.entries@),
        ensures
            r.0 == self@.contains_key(*key),
            r.0 ==> r.1 < self.entries@.len() && self.entries@[r.1 as int].key == *key
                && self@[*key] == self.entries@[r.1 as int].entry,
            r.1 <= self.entries@.len(),
            forall|i: int|
                0 <= i < r.1 ==> (#[trigger] self.entries@[i]).key.rank() < key.rank(),
            forall|i: int|
                r.1 <= i < self.entries@.len() ==> key.rank() <= (
                #[trigger] self.entries@[i]).key.rank(),
    {
        let mut low: usize = 0;
        let mut high: usize = self.entries.len();
        while low < high
            invariant
                sorted(self.entries@),
                low <= high <= self.entries@.len(),
                forall|i: int|
                    0 <= i < low ==> (#[trigger] self.entries@[i]).key.rank() < key.rank(),
                forall|i: int|
                    high <= i < self.entries@.len() ==> key.rank() <= (
                    #[trigger] self.entries@[i]).key.rank(),
            decreases high - low,
        {
            let middle: usize = low + (high - low) / 2;
            if self.entries[middle].key.before(key) {
                low = middle + 1;
            } else {
                high = middle;
            }
        }
        let there = low < self.entries.len() && self.entries[low].key == *key;
        proof {
            if there {
                lemma_by_key(self.entries@, low as int);
            } else if lists(self.entries@, *key) {
                let i = place(self.entries@, *key);
                assert(self.entries@[i].key == *key);
                if i > low {
                    assert(self.entries@[low as int].key.rank() < self.entries@[i].key.rank());
                    assert(key.rank() <= self.entries@[low as int].key.rank());
                }
            }
        }
        (there, low)
    }

    /// Where the deadline stands, or would stand.
    fn search_deadline(&self, wanted: (Instant, Key)) -> (r: (bool, usize))
        requires
            in_time(self.deadlines@),
        ensures
            r.0 == self.deadlines@.contains(wanted),
            r.0 ==> r.1 < self.deadlines@.len() && self.deadlines@[r.1 as int] == wanted,
            r.1 <= self.deadlines@.len(),
            forall|i: int| 0 <= i < r.1 ==> sooner(#[trigger] self.deadlines@[i], wanted),
            forall|i: int|
                r.1 <= i < self.deadlines@.len() ==> !sooner(#[trigger] self.deadlines@[i], wanted),
    {
        let mut low: usize = 0;
        let mut high: usize = self.deadlines.len();
        while low < high
            invariant
                in_time(self.deadlines@),
                low <= high <= self.deadlines@.len(),
                forall|i: int| 0 <= i < low ==> sooner(#[trigger] self.deadlines@[i], wanted),
                forall|i: int|
                    high <= i < self.deadlines@.len() ==> !sooner(
                        #[trigger] self.deadlines@[i],
                        wanted,
                    ),
            decreases high - low,
        {
            let middle: usize = low + (high - low) / 2;
            if is_sooner(self.deadlines[middle], wanted) {
                low = middle + 1;
            } else {
                high = middle;
            }
        }
        let there = low < self.deadlines.len() && self.deadlines[low].0.micros == wanted.0.micros
            && self.deadlines[low].1 == wanted.1;
        proof {
            if there {
                assert(self.deadlines@[low as int] == wanted);
            } else if self.deadlines@.contains(wanted) {
                let i = self.deadlines@.index_of(wanted);
                if i > low {
                    assert(sooner(self.deadlines@[low as int], self.deadlines@[i]));
                }
            }
        }
        (there, low)
    }

    /// The protected connection with the key.
    pub fn get(&self, key: &Key) -> (r: Option<&Entry>)
        requires
            self.wf(),
        ensures
            match r {
                Some(entry) => self@.contains_key(*key) && *entry == self@[*key],
                None => !self@.contains_key(*key),
            },
    {
        let (there, index) = self.search(key);
        if there {
            Some(&self.entries[index].entry)
        } else {
            None
        }
    }

    /// Whether the table holds the key.
    pub fn contains_key(&self, key: &Key) -> (r: bool)
        requires
            self.wf(),
        ensures
            r == self@.contains_key(*key),
    {
        self.search(key).0
    }

    /// Protects a connection under a key.
    pub fn insert(&mut self, key: Key, entry: Entry)
        requires
            old(self).wf(),
            !old(self)@.contains_key(key),
        ensures
            final(self).wf(),
            final(self)@ == old(self)@.insert(key, entry),
    {
        let expires = entry.state.expires;
        let record = Record { key, entry };
        let ghost entries = self.entries@;
        let ghost deadlines = self.deadlines@;
        let (_, index) = self.search(&key);
        let (known, at) = self.search_deadline((expires, key));
        proof {
            if known {
                let j = deadlines.index_of((expires, key));
                assert(ends_at(entries, deadlines[j]));
                let i = choose|i: int|
                    0 <= i < entries.len() && end_of(#[trigger] entries[i]) == deadlines[j];
                lemma_by_key(entries, i);
            }
            lemma_insert_sorted(entries, index as int, record);
            lemma_by_key_insert(entries, index as int, record);
            lemma_insert_in_time(deadlines, at as int, (expires, key));
            lemma_insert_consistent(entries, index as int, deadlines, at as int, record);
        }
        self.deadlines.insert(at, (expires, key));
        self.entries.insert(index, record);
    }

    /// Ends the protection of a connection.
    pub fn remove(&mut self, key: Key) -> (r: Option<Entry>)
        requires
            old(self).wf(),
        ensures
            final(self).wf(),
            final(self)@ == old(self)@.remove(key),
            match r {
                Some(entry) => old(self)@.contains_key(key) && entry == old(self)@[key],
                None => !old(self)@.contains_key(key),
            },
    {
        let ghost entries = self.entries@;
        let ghost deadlines = self.deadlines@;
        let (there, index) = self.search(&key);
        if !there {
            assert(self@.remove(key) =~= self@);
            return None;
        }
        let expires = self.entries[index].entry.state.expires;
        let (known, at) = self.search_deadline((expires, key));
        proof {
            assert(end_of(entries[index as int]) == (expires, key));
            assert(known);
            lemma_by_key_remove(entries, index as int);
            lemma_remove_in_time(deadlines, at as int);
            lemma_remove_consistent(entries, index as int, deadlines, at as int);
        }
        let _ = self.deadlines.remove(at);
        Some(self.entries.remove(index).entry)
    }

    /// Puts another state in the place of that of a protected connection.
    pub fn refresh(&mut self, key: Key, state: TimeWaitState)
        requires
            old(self).wf(),
            old(self)@.contains_key(key),
        ensures
            final(self).wf(),
            final(self)@ == old(self)@.insert(
                key,
                Entry { state, observer: old(self)@[key].observer },
            ),
            forall|expires: Instant, other: Key| #[trigger]
                final(self).deadlines().contains((expires, other)) <==> final(self)@.contains_key(
                    other,
                ) && final(self)@[other].state.expires == expires,
    {
        let ghost before = self@;
        match self.remove(key) {
            Some(entry) => {
                self.insert(key, Entry { state, observer: entry.observer });
                assert(self@ =~= before.insert(
                    key,
                    Entry { state, observer: before[key].observer },
                ));
            },
            None => {},
        }
        proof {
            self.deadlines_are_in_step();
        }
    }

    /// Has another observer watch a protected connection.
    pub fn set_observer(&mut self, key: Key, observer: Option<Arc<dyn LifecycleObserver>>)
        requires
            old(self).wf(),
            old(self)@.contains_key(key),
        ensures
            final(self).wf(),
            final(self)@ == old(self)@.insert(
                key,
                Entry { state: old(self)@[key].state, observer },
            ),
    {
        let ghost entries = self.entries@;
        let ghost deadlines = self.deadlines@;
        let (_, index) = self.search(&key);
        self.entries[index].entry.observer = observer;
        proof {
            let record = Record {
                key,
                entry: Entry { state: entries[index as int].entry.state, observer },
            };
            assert(self.entries@ =~= entries.update(index as int, record));
            lemma_update(entries, index as int, deadlines, record);
        }
    }

    /// The key under which a segment between two endpoints finds its connection.
    pub fn find(&self, local: IpEndpoint, remote: IpEndpoint, device: u32) -> (r: Option<Key>)
        requires
            self.wf(),
        ensures
            r == found(self@, local, remote, device),
    {
        let exact = Key { local, remote, device };
        if self.contains_key(&exact) {
            return Some(exact);
        }
        let any = Key { local, remote, device: 0 };
        if self.contains_key(&any) {
            Some(any)
        } else {
            None
        }
    }

    /// A connection between two endpoints on any device, and whether there is another one.
    pub fn find_any(&self, local: IpEndpoint, remote: IpEndpoint) -> (r: (Option<Key>, bool))
        requires
            self.wf(),
        ensures
            match r.0 {
                Some(key) => self@.contains_key(key) && key.same_endpoints(local, remote),
                None => !holds_endpoints(self@, local, remote),
            },
            r.1 == holds_endpoints_twice(self@, local, remote),
    {
        let lowest = Key { local, remote, device: 0 };
        let (_, index) = self.search(&lowest);
        let count: usize = self.entries.len();
        let first = if index < count {
            let key = self.entries[index].key;
            if key.local == local && key.remote == remote {
                Some(key)
            } else {
                None
            }
        } else {
            None
        };
        let second = if index < count && index + 1 < count {
            let key = self.entries[index + 1].key;
            key.local == local && key.remote == remote
        } else {
            false
        };
        proof {
            lemma_range(self.entries@, local, remote, index as int);
        }
        (first, second)
    }

    /// The earliest deadline, and the key of the connection that ends then.
    pub fn soonest(&self) -> (r: Option<(Instant, Key)>)
        requires
            self.wf(),
        ensures
            match r {
                Some((expires, key)) => {
                    &&& is_soonest(self@, key)
                    &&& self@[key].state.expires == expires
                },
                None => self@ == Map::<Key, Entry>::empty(),
            },
    {
        if self.deadlines.len() == 0 {
            proof {
                if self.entries@.len() > 0 {
                    assert(self.deadlines@.contains(end_of(self.entries@[0])));
                }
                assert(self@ =~= Map::<Key, Entry>::empty());
            }
            return None;
        }
        let first = self.deadlines[0];
        proof {
            let i = choose|i: int|
                0 <= i < self.entries@.len() && end_of(#[trigger] self.entries@[i])
                    == self.deadlines@[0];
            lemma_by_key(self.entries@, i);
            assert forall|other: Key| #[trigger] self@.contains_key(other) implies other == first.1
                || sooner(
                    deadline(first.1, self@[first.1]),
                    deadline(other, self@[other]),
                ) by {
                let j = place(self.entries@, other);
                lemma_by_key(self.entries@, j);
                assert(self.deadlines@.contains(end_of(self.entries@[j])));
                let k = self.deadlines@.index_of(end_of(self.entries@[j]));
                if k > 0 {
                    assert(sooner(self.deadlines@[0], self.deadlines@[k]));
                }
            }
        }
        Some(first)
    }
}

proof fn lemma_insert_sorted(entries: Seq<Record>, index: int, entry: Record)
    requires
        sorted(entries),
        0 <= index <= entries.len(),
        !by_key(entries).contains_key(entry.key),
        forall|i: int|
            0 <= i < index ==> (#[trigger] entries[i]).key.rank() < entry.key.rank(),
        forall|i: int|
            index <= i < entries.len() ==> entry.key.rank() <= (
            #[trigger] entries[i]).key.rank(),
    ensures
        sorted(entries.insert(index, entry)),
{
    let after = entries.insert(index, entry);
    assert forall|i: int, j: int| 0 <= i < j < after.len() implies (
    #[trigger] after[i]).key.rank() < (#[trigger] after[j]).key.rank() by {
        if j < index {
            assert(after[i] == entries[i] && after[j] == entries[j]);
        } else if j == index {
            assert(after[i] == entries[i]);
        } else {
            assert(after[j] == entries[j - 1]);
            if i < index {
                assert(after[i] == entries[i]);
            } else if i == index {
                lemma_rank_injective(entry.key, entries[j - 1].key);
                assert(lists(entries, entries[j - 1].key));
            } else {
                assert(after[i] == entries[i - 1]);
            }
        }
    }
}

proof fn lemma_insert_in_time(deadlines: Seq<(Instant, Key)>, at: int, new: (Instant, Key))
    requires
        in_time(deadlines),
        0 <= at <= deadlines.len(),
        !deadlines.contains(new),
        forall|i: int| 0 <= i < at ==> sooner(#[trigger] deadlines[i], new),
        forall|i: int| at <= i < deadlines.len() ==> !sooner(#[trigger] deadlines[i], new),
    ensures
        in_time(deadlines.insert(at, new)),
{
    let after = deadlines.insert(at, new);
    assert forall|i: int, j: int| 0 <= i < j < after.len() implies sooner(
        #[trigger] after[i],
        #[trigger] after[j],
    ) by {
        if j < at {
            assert(after[i] == deadlines[i] && after[j] == deadlines[j]);
        } else if j == at {
            assert(after[i] == deadlines[i]);
        } else {
            assert(after[j] == deadlines[j - 1]);
            if i < at {
                assert(after[i] == deadlines[i]);
            } else if i == at {
                lemma_rank_injective(new.1, deadlines[j - 1].1);
                assert(deadlines[j - 1] != new);
            } else {
                assert(after[i] == deadlines[i - 1]);
            }
        }
    }
}

proof fn lemma_insert_consistent(
    entries: Seq<Record>,
    index: int,
    deadlines: Seq<(Instant, Key)>,
    at: int,
    entry: Record,
)
    requires
        consistent(entries, deadlines),
        0 <= index <= entries.len(),
        0 <= at <= deadlines.len(),
    ensures
        consistent(entries.insert(index, entry), deadlines.insert(at, end_of(entry))),
{
    let after = entries.insert(index, entry);
    let times = deadlines.insert(at, end_of(entry));
    assert forall|i: int| 0 <= i < after.len() implies times.contains(
        end_of(#[trigger] after[i]),
    ) by {
        if i == index {
            assert(times[at] == end_of(entry));
        } else {
            let e = if i < index {
                entries[i]
            } else {
                entries[i - 1]
            };
            assert(after[i] == e);
            assert(deadlines.contains(end_of(e)));
            let j = deadlines.index_of(end_of(e));
            if j < at {
                assert(times[j] == deadlines[j]);
            } else {
                assert(times[j + 1] == deadlines[j]);
            }
        }
    }
    assert forall|j: int| 0 <= j < times.len() implies ends_at(
        after,
        #[trigger] times[j],
    ) by {
        if j == at {
            assert(after[index] == entry);
        } else {
            let old_j = if j < at {
                j
            } else {
                j - 1
            };
            assert(times[j] == deadlines[old_j]);
            assert(ends_at(entries, deadlines[old_j]));
            let i = choose|i: int|
                0 <= i < entries.len() && end_of(#[trigger] entries[i]) == deadlines[old_j];
            if i < index {
                assert(after[i] == entries[i]);
            } else {
                assert(after[i + 1] == entries[i]);
            }
        }
    }
}

proof fn lemma_remove_in_time(deadlines: Seq<(Instant, Key)>, at: int)
    requires
        in_time(deadlines),
        0 <= at < deadlines.len(),
    ensures
        in_time(deadlines.remove(at)),
{
    let after = deadlines.remove(at);
    assert forall|i: int, j: int| 0 <= i < j < after.len() implies sooner(
        #[trigger] after[i],
        #[trigger] after[j],
    ) by {
        let old_i = if i < at {
            i
        } else {
            i + 1
        };
        let old_j = if j < at {
            j
        } else {
            j + 1
        };
        assert(sooner(deadlines[old_i], deadlines[old_j]));
    }
}

proof fn lemma_remove_consistent(
    entries: Seq<Record>,
    index: int,
    deadlines: Seq<(Instant, Key)>,
    at: int,
)
    requires
        sorted(entries),
        in_time(deadlines),
        consistent(entries, deadlines),
        0 <= index < entries.len(),
        0 <= at < deadlines.len(),
        deadlines[at] == end_of(entries[index]),
    ensures
        consistent(entries.remove(index), deadlines.remove(at)),
{
    let after = entries.remove(index);
    let times = deadlines.remove(at);
    assert forall|i: int| 0 <= i < after.len() implies times.contains(
        end_of(#[trigger] after[i]),
    ) by {
        let old_i = if i < index {
            i
        } else {
            i + 1
        };
        assert(after[i] == entries[old_i]);
        assert(deadlines.contains(end_of(entries[old_i])));
        let j = deadlines.index_of(end_of(entries[old_i]));
        if old_i < index {
            assert(entries[old_i].key.rank() < entries[index].key.rank());
        } else {
            assert(entries[index].key.rank() < entries[old_i].key.rank());
        }
        assert(j != at);
        if j < at {
            assert(times[j] == deadlines[j]);
        } else {
            assert(times[j - 1] == deadlines[j]);
        }
    }
    assert forall|j: int| 0 <= j < times.len() implies ends_at(
        after,
        #[trigger] times[j],
    ) by {
        let old_j = if j < at {
            j
        } else {
            j + 1
        };
        assert(times[j] == deadlines[old_j]);
        assert(ends_at(entries, deadlines[old_j]));
        let i = choose|i: int|
            0 <= i < entries.len() && end_of(#[trigger] entries[i]) == deadlines[old_j];
        if i == index {
            if old_j < at {
                assert(sooner(deadlines[old_j], deadlines[at]));
            } else {
                assert(sooner(deadlines[at], deadlines[old_j]));
            }
        } else if i < index {
            assert(after[i] == entries[i]);
        } else {
            assert(after[i - 1] == entries[i]);
        }
    }
}

/// An entry can be replaced by another with the same key and the same deadline.
proof fn lemma_update(
    entries: Seq<Record>,
    index: int,
    deadlines: Seq<(Instant, Key)>,
    record: Record,
)
    requires
        sorted(entries),
        consistent(entries, deadlines),
        0 <= index < entries.len(),
        end_of(record) == end_of(entries[index]),
    ensures
        sorted(entries.update(index, record)),
        consistent(entries.update(index, record), deadlines),
        by_key(entries.update(index, record)) == by_key(entries).insert(record.key, record.entry),
{
    let after = entries.update(index, record);
    assert forall|i: int, j: int| 0 <= i < j < after.len() implies (
    #[trigger] after[i]).key.rank() < (#[trigger] after[j]).key.rank() by {
        assert(entries[i].key.rank() < entries[j].key.rank());
    }
    assert forall|i: int| 0 <= i < after.len() implies deadlines.contains(
        end_of(#[trigger] after[i]),
    ) by {
        assert(deadlines.contains(end_of(entries[i])));
    }
    assert forall|j: int| 0 <= j < deadlines.len() implies ends_at(
        after,
        #[trigger] deadlines[j],
    ) by {
        assert(ends_at(entries, deadlines[j]));
        let i = choose|i: int|
            0 <= i < entries.len() && end_of(#[trigger] entries[i]) == deadlines[j];
        assert(end_of(after[i]) == deadlines[j]);
    }
    lemma_by_key_remove(entries, index);
    lemma_by_key_remove(after, index);
    lemma_by_key(after, index);
    assert(after.remove(index) =~= entries.remove(index));
    assert(by_key(after).remove(record.key) =~= by_key(entries).remove(record.key));
    assert(by_key(after) =~= by_key(entries).insert(record.key, record.entry)) by {
        assert forall|key: Key| by_key(after).contains_key(key) <==> by_key(entries).insert(
            record.key,
            record.entry,
        ).contains_key(key) by {
            assert(by_key(after).remove(record.key).contains_key(key) == by_key(entries).remove(
                record.key,
            ).contains_key(key));
        }
        assert forall|key: Key| by_key(after).contains_key(key) implies by_key(after)[key]
            == by_key(entries).insert(record.key, record.entry)[key] by {
            if key != record.key {
                assert(by_key(after).remove(record.key)[key] == by_key(entries).remove(
                    record.key,
                )[key]);
            }
        }
    }
}

/// Connections between the same endpoints stand side by side, the lowest device first.
proof fn lemma_range(entries: Seq<Record>, local: IpEndpoint, remote: IpEndpoint, index: int)
    requires
        sorted(entries),
        0 <= index <= entries.len(),
        forall|i: int|
            0 <= i < index ==> (#[trigger] entries[i]).key.rank() < (Key {
                local,
                remote,
                device: 0,
            }).rank(),
        forall|i: int|
            index <= i < entries.len() ==> (Key { local, remote, device: 0 }).rank() <= (
            #[trigger] entries[i]).key.rank(),
    ensures
        index < entries.len() && entries[index].key.same_endpoints(local, remote) ==> by_key(
            entries,
        ).contains_key(entries[index].key),
        !(index < entries.len() && entries[index].key.same_endpoints(local, remote))
            ==> !holds_endpoints(by_key(entries), local, remote),
        holds_endpoints_twice(by_key(entries), local, remote) <==> index + 1 < entries.len()
            && entries[index + 1].key.same_endpoints(local, remote),
{
    let lowest = Key { local, remote, device: 0 };
    assert forall|i: int|
        0 <= i < entries.len() && (#[trigger] entries[i]).key.same_endpoints(
            local,
            remote,
        ) implies i >= index by {
        if i < index {
            assert(entries[i].key.rank() < lowest.rank());
        }
    }
    assert forall|i: int, j: int|
        index <= i < j < entries.len() && (#[trigger] entries[j]).key.same_endpoints(
            local,
            remote,
        ) implies (#[trigger] entries[i]).key.same_endpoints(local, remote) by {
        lemma_between(lowest, entries[i].key, entries[j].key);
    }
    if index < entries.len() {
        lemma_by_key(entries, index);
    }
    if index + 1 < entries.len() {
        lemma_by_key(entries, index + 1);
    }
    if holds_endpoints(by_key(entries), local, remote) {
        let key = choose|key: Key| #[trigger]
            by_key(entries).contains_key(key) && key.same_endpoints(local, remote);
        let i = place(entries, key);
        assert(entries[i].key == key);
        assert(entries[index].key.same_endpoints(local, remote));
    }
    if holds_endpoints_twice(by_key(entries), local, remote) {
        let (first, second) = choose|first: Key, second: Key|
            #![trigger by_key(entries).contains_key(first), by_key(entries).contains_key(second)]
            {
                &&& by_key(entries).contains_key(first)
                &&& by_key(entries).contains_key(second)
                &&& first != second
                &&& first.same_endpoints(local, remote)
                &&& second.same_endpoints(local, remote)
            };
        let i = place(entries, first);
        let j = place(entries, second);
        assert(entries[i].key == first);
        assert(entries[j].key == second);
        assert(i != j);
        assert(index + 1 < entries.len());
        assert(entries[index + 1].key.same_endpoints(local, remote));
    }
    if index + 1 < entries.len() && entries[index + 1].key.same_endpoints(local, remote) {
        assert(entries[index].key.rank() < entries[index + 1].key.rank());
        assert(entries[index].key.same_endpoints(local, remote));
        let first = entries[index].key;
        let second = entries[index + 1].key;
        assert(by_key(entries).contains_key(first) && by_key(entries).contains_key(second));
    }
}

/// A key between two keys with the same endpoints has these endpoints too.
proof fn lemma_between(low: Key, key: Key, high: Key)
    requires
        low.local == high.local,
        low.remote == high.remote,
        low.rank() <= key.rank() < high.rank(),
    ensures
        key.local == high.local,
        key.remote == high.remote,
{
    lemma_endpoint_rank(key.local, high.local);
    lemma_endpoint_rank(key.remote, high.remote);
    lemma_endpoint_rank(high.remote, key.remote);
    let width = 0x2_0000_0000_0000_0000_0000_0000_0000_0000_0000int;
    let first = endpoint_rank(high.local) * width + endpoint_rank(high.remote);
    let second = endpoint_rank(key.local) * width + endpoint_rank(key.remote);
    assert(first == second);
    assert(endpoint_rank(high.local) == endpoint_rank(key.local));
}

/// A segment finds a connection of the device that it came from or one of no device, never one
/// of another device.
pub proof fn devices_are_isolated(
    table: Map<Key, Entry>,
    local: IpEndpoint,
    remote: IpEndpoint,
    device: u32,
)
    ensures
        match found(table, local, remote, device) {
            Some(key) => {
                &&& table.contains_key(key)
                &&& key.same_endpoints(local, remote)
                &&& key.device == device || key.device == 0
            },
            None => {
                &&& !table.contains_key(Key { local, remote, device })
                &&& !table.contains_key(Key { local, remote, device: 0 })
            },
        },
{
}

} // verus!
