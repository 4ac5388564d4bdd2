//! Routes and the choice between them.
use crate::config::IFACE_MAX_ROUTE_COUNT;
use crate::time::Instant;
use crate::wire::ip::{
    IpAddress, IpCidr, IpVersion, Ipv4Address, Ipv4Cidr, Ipv6Address, Ipv6Cidr,
};
use vstd::prelude::*;

verus! {

/// The route table has no room for another route.
#[derive(Debug, Clone, Copy, PartialEq, Eq, Structural)]
pub struct RouteTableFull;

impl RouteTableFull {
    /// The error in words.
    pub fn to_text(&self) -> (r: &'static str)
        ensures
            r@ == "Route table full"@,
    {
        "Route table full"
    }
}

/// Storage that grows as routes are added.
pub type RouteStorage = Vec<Route>;

/// Storage for at most [`IFACE_MAX_ROUTE_COUNT`] routes.
pub type FixedRouteStorage = heapless::Vec<Route, IFACE_MAX_ROUTE_COUNT>;

/// The fixed-capacity vector of `heapless`.
#[verifier::external_type_specification]
#[verifier::external_body]
#[verifier::reject_recursive_types(T)]
pub struct ExFixedVec<T, const N: usize>(heapless::Vec<T, N>);

/// The routes in fixed storage, in order.
pub uninterp spec fn fixed_routes(storage: FixedRouteStorage) -> Seq<Route>;

/// `heapless::Vec::new`: fixed storage starts without routes.
#[verifier::external_body]
fn fixed_new() -> (r: FixedRouteStorage)
    ensures
        fixed_routes(r) == Seq::<Route>::empty(),
{
    heapless::Vec::new()
}

/// `heapless::Vec::as_slice`: the routes in order, never more than the capacity.
#[verifier::external_body]
fn fixed_as_slice(storage: &FixedRouteStorage) -> (r: &[Route])
    ensures
        r@ == fixed_routes(*storage),
        r@.len() <= IFACE_MAX_ROUTE_COUNT,
{
    storage.as_slice()
}

/// `heapless::Vec::push`: appends where the length is below the capacity, and otherwise gives the
/// route back and leaves the storage alone.
#[verifier::external_body]
fn fixed_push(storage: &mut FixedRouteStorage, route: Route) -> (r: Result<(), Route>)
    ensures
        match r {
            Ok(()) => {
                &&& fixed_routes(*old(storage)).len() < IFACE_MAX_ROUTE_COUNT
                &&& fixed_routes(*final(storage)) == fixed_routes(*old(storage)).push(route)
            },
            Err(back) => {
                &&& fixed_routes(*old(storage)).len() >= IFACE_MAX_ROUTE_COUNT
                &&& fixed_routes(*final(storage)) == fixed_routes(*old(storage))
                &&& back == route
            },
        },
{
    storage.push(route)
}

/// `heapless::Vec::remove`: takes out the route at `index` and moves the later ones up; panics
/// where there is none.
#[verifier::external_body]
fn fixed_remove(storage: &mut FixedRouteStorage, index: usize) -> (r: Route)
    requires
        index < fixed_routes(*old(storage)).len(),
    ensures
        r == fixed_routes(*old(storage))[index as int],
        fixed_routes(*final(storage)) == fixed_routes(*old(storage)).remove(index as int),
{
    storage.remove(index)
}

/// What a route table asks of the storage of its routes.
pub trait RouteStore: Sized {
    /// The routes in order.
    spec fn routes(&self) -> Seq<Route>;

    /// The largest number of routes, where there is one.
    spec fn limit() -> Option<nat>;

    /// Storage without routes.
    fn empty() -> (r: Self)
        ensures
            r.routes() == Seq::<Route>::empty(),
    ;

    /// The routes in order.
    fn as_routes(&self) -> (r: &[Route])
        ensures
            r@ == self.routes(),
            Self::limit() matches Some(limit) ==> r@.len() <= limit,
    ;

    /// Appends a route, where there is room.
    fn push_route(&mut self, route: Route) -> (r: Result<(), RouteTableFull>)
        ensures
            match r {
                Ok(()) => {
                    &&& has_room(Self::limit(), old(self).routes().len())
                    &&& final(self).routes() == old(self).routes().push(route)
                },
                Err(_) => {
                    &&& !has_room(Self::limit(), old(self).routes().len())
                    &&& final(self).routes() == old(self).routes()
                },
            },
    ;

    /// Takes out the route at `index`.
    fn remove_route(&mut self, index: usize) -> (r: Route)
        requires
            index < old(self).routes().len(),
        ensures
            r == old(self).routes()[index as int],
            final(self).routes() == old(self).routes().remove(index as int),
    ;
}

/// Another route fits beside `len` routes.
pub open spec fn has_room(limit: Option<nat>, len: nat) -> bool {
    match limit {
        Some(limit) => len < limit,
        None => true,
    }
}

impl RouteStore for RouteStorage {
    open spec fn routes(&self) -> Seq<Route> {
        self@
    }

    open spec fn limit() -> Option<nat> {
        None
    }

    fn empty() -> (r: Self) {
        Vec::new()
    }

    fn as_routes(&self) -> (r: &[Route]) {
        self.as_slice()
    }

    fn push_route(&mut self, route: Route) -> (r: Result<(), RouteTableFull>) {
        self.push(route);
        Ok(())
    }

    fn remove_route(&mut self, index: usize) -> (r: Route) {
        self.remove(index)
    }
}

impl RouteStore for FixedRouteStorage {
    open spec fn routes(&self) -> Seq<Route> {
        fixed_routes(*self)
    }

    open spec fn limit() -> Option<nat> {
        Some(IFACE_MAX_ROUTE_COUNT as nat)
    }

    fn empty() -> (r: Self) {
        fixed_new()
    }

    fn as_routes(&self) -> (r: &[Route]) {
        fixed_as_slice(self)
    }

    fn push_route(&mut self, route: Route) -> (r: Result<(), RouteTableFull>) {
        match fixed_push(self, route) {
            Ok(()) => Ok(()),
            Err(_) => Err(RouteTableFull),
        }
    }

    fn remove_route(&mut self, index: usize) -> (r: Route) {
        fixed_remove(self, index)
    }
}

/// A prefix of addresses that should be routed either via a router or directly on-link.
#[derive(Debug, Clone, Copy)]
pub struct Route {
    pub cidr: IpCidr,
    /// `Some(router)` means route via a next-hop router. `None` means the
    /// destination is on-link and should be resolved directly.
    pub via_router: Option<IpAddress>,
    /// `None` means "forever".
    pub preferred_until: Option<Instant>,
    /// `None` means "forever".
    pub expires_at: Option<Instant>,
}

/// The block of all addresses of one version.
pub open spec fn is_default_cidr(cidr: IpCidr, version: IpVersion) -> bool {
    match (cidr, version) {
        (IpCidr::Ipv4(cidr), IpVersion::Ipv4) => {
            &&& cidr.spec_address().bits == 0
            &&& cidr.spec_prefix_len() == 0
        },
        (IpCidr::Ipv6(cidr), IpVersion::Ipv6) => {
            &&& cidr.spec_address().bits == 0
            &&& cidr.spec_prefix_len() == 0
        },
        _ => false,
    }
}

impl Route {
    /// A default route through `gateway` that never expires.
    pub open spec fn is_gateway(self, gateway: IpAddress) -> bool {
        &&& is_default_cidr(self.cidr, gateway.spec_version())
        &&& self.via_router == Some(gateway)
        &&& self.preferred_until is None
        &&& self.expires_at is None
    }

    /// Returns a route to 0.0.0.0/0 via the `gateway`, with no expiry.
    pub fn new_ipv4_gateway(gateway: Ipv4Address) -> (r: Route)
        ensures
            r.is_gateway(IpAddress::Ipv4(gateway)),
    {
        Route {
            cidr: IpCidr::Ipv4(Ipv4Cidr::new(Ipv4Address::new(0, 0, 0, 0), 0)),
            via_router: Some(IpAddress::Ipv4(gateway)),
            preferred_until: None,
            expires_at: None,
        }
    }

    /// Returns a route to ::/0 via the `gateway`, with no expiry.
    pub fn new_ipv6_gateway(gateway: Ipv6Address) -> (r: Route)
        ensures
            r.is_gateway(IpAddress::Ipv6(gateway)),
    {
        Route {
            cidr: IpCidr::Ipv6(Ipv6Cidr::new(Ipv6Address::new(0, 0, 0, 0, 0, 0, 0, 0), 0)),
            via_router: Some(IpAddress::Ipv6(gateway)),
            preferred_until: None,
            expires_at: None,
        }
    }

    /// Whether the route leads to every address of one version.
    fn is_default(&self, version: IpVersion) -> (r: bool)
        ensures
            r == is_default_cidr(self.cidr, version),
    {
        match (self.cidr, version) {
            (IpCidr::Ipv4(cidr), IpVersion::Ipv4) => cidr.address().bits == 0 && cidr.prefix_len()
                == 0,
            (IpCidr::Ipv6(cidr), IpVersion::Ipv6) => cidr.address().bits == 0 && cidr.prefix_len()
                == 0,
            _ => false,
        }
    }

    /// The route has not expired and leads to `addr`.
    pub open spec fn spec_applies(self, addr: IpAddress, timestamp: Instant) -> bool {
        &&& self.expires_at matches Some(expires_at) ==> timestamp.micros <= expires_at.micros
        &&& self.cidr.spec_contains(addr)
    }

    /// Whether the route has not expired and leads to `addr`.
    fn applies(&self, addr: &IpAddress, timestamp: Instant) -> (r: bool)
        ensures
            r == self.spec_applies(*addr, timestamp),
    {
        if let Some(expires_at) = self.expires_at {
            if timestamp.micros > expires_at.micros {
                return false;
            }
        }
        self.cidr.contains_addr(addr)
    }

    /// The neighbour that the route hands a packet for `addr` to.
    pub open spec fn next_hop(self, addr: IpAddress) -> IpAddress {
        match self.via_router {
            Some(router) => router,
            None => addr,
        }
    }
}

/// `index` is the first default route of a version.
pub open spec fn default_at(routes: Seq<Route>, version: IpVersion, index: int) -> bool {
    &&& 0 <= index < routes.len()
    &&& is_default_cidr(routes[index].cidr, version)
    &&& forall|i: int| 0 <= i < index ==> !is_default_cidr(#[trigger] routes[i].cidr, version)
}

/// Where the first default route of a version stands, if there is one.
pub open spec fn default_index(routes: Seq<Route>, version: IpVersion) -> Option<int> {
    if exists|index: int| default_at(routes, version, index) {
        Some(choose|index: int| default_at(routes, version, index))
    } else {
        None
    }
}

/// The first default route of a version, if there is one.
pub open spec fn default_route(routes: Seq<Route>, version: IpVersion) -> Option<Route> {
    match default_index(routes, version) {
        Some(index) => Some(routes[index]),
        None => None,
    }
}

/// The routes without the first default route of a version.
pub open spec fn without_default(routes: Seq<Route>, version: IpVersion) -> Seq<Route> {
    match default_index(routes, version) {
        Some(index) => routes.remove(index),
        None => routes,
    }
}

/// `index` is the last of the applicable routes with the longest prefix.
pub open spec fn best_at(
    routes: Seq<Route>,
    addr: IpAddress,
    timestamp: Instant,
    index: int,
) -> bool {
    &&& 0 <= index < routes.len()
    &&& routes[index].spec_applies(addr, timestamp)
    &&& forall|i: int|
        0 <= i < routes.len() && #[trigger] routes[i].spec_applies(addr, timestamp) ==> {
            ||| routes[i].cidr.spec_prefix_len() < routes[index].cidr.spec_prefix_len()
            ||| routes[i].cidr.spec_prefix_len() == routes[index].cidr.spec_prefix_len() && i
                <= index
        }
}

/// No route leads to `addr`.
pub open spec fn unreachable_at(routes: Seq<Route>, addr: IpAddress, timestamp: Instant) -> bool {
    forall|i: int|
        0 <= i < routes.len() ==> !#[trigger] routes[i].spec_applies(addr, timestamp)
}

/// What adding the default route through `gateway` does to a table, and what it returns.
pub open spec fn default_added(
    before: Seq<Route>,
    after: Seq<Route>,
    limit: Option<nat>,
    gateway: IpAddress,
    result: Result<Option<Route>, RouteTableFull>,
) -> bool {
    let version = gateway.spec_version();
    match result {
        Ok(previous) => {
            &&& default_route(before, version) is Some || has_room(limit, before.len())
            &&& previous == default_route(before, version)
            &&& after.len() > 0
            &&& after.last().is_gateway(gateway)
            &&& after.drop_last() == without_default(before, version)
        },
        Err(_) => {
            &&& default_route(before, version) is None
            &&& !has_room(limit, before.len())
            &&& after == before
        },
    }
}

/// A routing table.
#[derive(Debug)]
pub struct Routes<S: RouteStore = RouteStorage> {
    storage: S,
}

impl Routes<RouteStorage> {
    /// Creates a new empty routing table.
    pub fn new() -> (r: Self)
        ensures
            r@ == Seq::<Route>::empty(),
    {
        Routes { storage: RouteStorage::empty() }
    }
}

impl Routes<FixedRouteStorage> {
    /// Creates a new empty routing table for at most [`IFACE_MAX_ROUTE_COUNT`] routes.
    pub fn new_fixed() -> (r: Self)
        ensures
            r@ == Seq::<Route>::empty(),
    {
        Routes { storage: FixedRouteStorage::empty() }
    }
}

impl<S: RouteStore> Routes<S> {
    /// The storage of the routes.
    pub closed spec fn spec_storage(&self) -> S {
        self.storage
    }

    /// The routes in order.
    pub open spec fn view(&self) -> Seq<Route> {
        self.spec_storage().routes()
    }

    /// Update the routes of this node.
    pub fn update<F: FnOnce(&mut S)>(&mut self, f: F)
        requires
            forall|storage: &mut S|
                *storage == old(self).spec_storage() ==> #[trigger] call_requires(f, (storage,)),
        ensures
            exists|storage: &mut S|
                {
                    &&& *storage == old(self).spec_storage()
                    &&& *final(storage) == final(self).spec_storage()
                    &&& #[trigger] call_ensures(f, (storage,), ())
                },
    {
        f(&mut self.storage);
    }

    /// Add a default ipv4 gateway (ie. "ip route add 0.0.0.0/0 via `gateway`").
    ///
    /// On success, returns the previous default route, if any. A full table without a default
    /// route is left alone.
    pub fn add_default_ipv4_route(
        &mut self,
        gateway: Ipv4Address,
    ) -> (r: Result<Option<Route>, RouteTableFull>)
        ensures
            default_added(old(self)@, final(self)@, S::limit(), IpAddress::Ipv4(gateway), r),
    {
        let old = self.remove_default(IpVersion::Ipv4);
        let ghost kept = self@;
        match self.storage.push_route(Route::new_ipv4_gateway(gateway)) {
            Ok(()) => {
                assert(self@.drop_last() =~= kept);
                Ok(old)
            },
            Err(err) => Err(err),
        }
    }

    /// Add a default ipv6 gateway (ie. "ip -6 route add ::/0 via `gateway`").
    ///
    /// On success, returns the previous default route, if any. A full table without a default
    /// route is left alone.
    pub fn add_default_ipv6_route(
        &mut self,
        gateway: Ipv6Address,
    ) -> (r: Result<Option<Route>, RouteTableFull>)
        ensures
            default_added(old(self)@, final(self)@, S::limit(), IpAddress::Ipv6(gateway), r),
    {
        let old = self.remove_default(IpVersion::Ipv6);
        let ghost kept = self@;
        match self.storage.push_route(Route::new_ipv6_gateway(gateway)) {
            Ok(()) => {
                assert(self@.drop_last() =~= kept);
                Ok(old)
            },
            Err(err) => Err(err),
        }
    }

    /// Remove the default ipv4 gateway
    ///
    /// On success, returns the previous default route, if any.
    pub fn remove_default_ipv4_route(&mut self) -> (r: Option<Route>)
        ensures
            r == default_route(old(self)@, IpVersion::Ipv4),
            final(self)@ == without_default(old(self)@, IpVersion::Ipv4),
    {
        self.remove_default(IpVersion::Ipv4)
    }

    /// Remove the default ipv6 gateway
    ///
    /// On success, returns the previous default route, if any.
    pub fn remove_default_ipv6_route(&mut self) -> (r: Option<Route>)
        ensures
            r == default_route(old(self)@, IpVersion::Ipv6),
            final(self)@ == without_default(old(self)@, IpVersion::Ipv6),
    {
        self.remove_default(IpVersion::Ipv6)
    }

    /// Takes out the first default route of a version. The storage was within its limit.
    fn remove_default(&mut self, version: IpVersion) -> (r: Option<Route>)
        ensures
            r == default_route(old(self)@, version),
            final(self)@ == without_default(old(self)@, version),
            S::limit() matches Some(limit) ==> old(self)@.len() <= limit,
    {
        let count: usize = self.storage.as_routes().len();
        let mut index: usize = 0;
        while index < count
            invariant
                *self == *old(self),
                count == self@.len(),
                index <= count,
                S::limit() matches Some(limit) ==> self@.len() <= limit,
                forall|i: int|
                    0 <= i < index ==> !is_default_cidr(#[trigger] self@[i].cidr, version),
            decreases count - index,
        {
            if self.storage.as_routes()[index].is_default(version) {
                proof {
                    lemma_default_index(self@, version, index as int);
                }
                return Some(self.storage.remove_route(index));
            }
            index = index + 1;
        }
        None
    }

    /// The next hop for `addr` at `timestamp`: that of the most specific route that leads there
    /// and has not expired, the latest such route where several are equally specific. A route
    /// without a router leads to `addr` itself.
    pub fn lookup(&self, addr: &IpAddress, timestamp: Instant) -> (r: Option<IpAddress>)
        requires
            addr.spec_is_unicast(),
        ensures
            match r {
                Some(hop) => exists|index: int| #[trigger]
                    best_at(self@, *addr, timestamp, index) && hop == self@[index].next_hop(*addr),
                None => unreachable_at(self@, *addr, timestamp),
            },
    {
        let routes = self.storage.as_routes();
        let mut best: Option<usize> = None;
        let mut index: usize = 0;
        while index < routes.len()
            invariant
                routes@ == self@,
                index <= routes.len(),
                match best {
                    Some(best) => best < index && best_at(
                        routes@.take(index as int),
                        *addr,
                        timestamp,
                        best as int,
                    ),
                    None => unreachable_at(routes@.take(index as int), *addr, timestamp),
                },
            decreases routes.len() - index,
        {
            let ghost seen = routes@.take(index as int);
            let ghost next = routes@.take(index + 1);
            assert(forall|i: int| 0 <= i < index ==> next[i] == seen[i]);
            assert(next[index as int] == routes[index as int]);
            if routes[index].applies(addr, timestamp) {
                let better = match best {
                    Some(best) => routes[best].cidr.prefix_len() <= routes[index].cidr.prefix_len(),
                    None => true,
                };
                if better {
                    best = Some(index);
                }
            }
            index = index + 1;
        }
        assert(routes@.take(index as int) =~= routes@);
        match best {
            Some(best) => match routes[best].via_router {
                Some(router) => Some(router),
                None => Some(*addr),
            },
            None => None,
        }
    }
}

/// There is at most one first default route.
proof fn lemma_default_index(routes: Seq<Route>, version: IpVersion, index: int)
    requires
        default_at(routes, version, index),
    ensures
        default_index(routes, version) == Some(index),
{
    let chosen = choose|index: int| default_at(routes, version, index);
    if chosen < index {
        assert(!is_default_cidr(routes[chosen].cidr, version));
    } else if index < chosen {
        assert(!is_default_cidr(routes[index].cidr, version));
    }
}

/// The choice between routes is determined: two routes that both are best are the same one.
pub proof fn best_route_is_unique(
    routes: Seq<Route>,
    addr: IpAddress,
    timestamp: Instant,
    first: int,
    second: int,
)
    requires
        best_at(routes, addr, timestamp, first),
        best_at(routes, addr, timestamp, second),
    ensures
        first == second,
{
    assert(routes[first].spec_applies(addr, timestamp));
    assert(routes[second].spec_applies(addr, timestamp));
}

/// A default route leads to every address of its version, and to no other address.
pub proof fn default_route_leads_everywhere(route: Route, version: IpVersion, addr: IpAddress)
    requires
        is_default_cidr(route.cidr, version),
    ensures
        route.cidr.spec_contains(addr) <==> addr.spec_version() == version,
{
    vstd::arithmetic::power2::lemma2_to64();
    match addr {
        IpAddress::Ipv4(addr) => {
            vstd::arithmetic::div_mod::lemma_basic_div(
                addr.bits as int,
                vstd::arithmetic::power2::pow2(32) as int,
            );
        },
        IpAddress::Ipv6(addr) => {
            crate::wire::ip::lemma_pow2_128();
            vstd::arithmetic::div_mod::lemma_basic_div(
                addr.bits as int,
                vstd::arithmetic::power2::pow2(128) as int,
            );
        },
    }
}

/// A packet that no other route leads to goes to the gateway that was added last.
pub proof fn added_gateway_is_the_last_resort(
    before: Seq<Route>,
    after: Seq<Route>,
    limit: Option<nat>,
    gateway: IpAddress,
    previous: Option<Route>,
    addr: IpAddress,
    timestamp: Instant,
)
    requires
        default_added(before, after, limit, gateway, Ok(previous)),
        addr.spec_version() == gateway.spec_version(),
        unreachable_at(without_default(before, gateway.spec_version()), addr, timestamp),
    ensures
        best_at(after, addr, timestamp, after.len() - 1),
        after.last().next_hop(addr) == gateway,
{
    default_route_leads_everywhere(after.last(), gateway.spec_version(), addr);
    let kept = without_default(before, gateway.spec_version());
    assert forall|i: int|
        0 <= i < after.len() && #[trigger] after[i].spec_applies(addr, timestamp) implies i
        == after.len() - 1 by {
        if i < after.len() - 1 {
            assert(after.drop_last()[i] == after[i]);
            assert(kept[i].spec_applies(addr, timestamp));
        }
    }
}

/// Adding a default route and removing it leaves the table without the default route that was
/// there before, where there was no second one.
pub proof fn removing_undoes_adding(
    before: Seq<Route>,
    after: Seq<Route>,
    limit: Option<nat>,
    gateway: IpAddress,
    previous: Option<Route>,
)
    requires
        default_added(before, after, limit, gateway, Ok(previous)),
        default_index(without_default(before, gateway.spec_version()), gateway.spec_version())
            is None,
    ensures
        default_route(after, gateway.spec_version()) == Some(after.last()),
        without_default(after, gateway.spec_version()) == without_default(
            before,
            gateway.spec_version(),
        ),
{
    let version = gateway.spec_version();
    let kept = without_default(before, version);
    assert forall|i: int| 0 <= i < kept.len() implies !is_default_cidr(
        #[trigger] kept[i].cidr,
        version,
    ) by {
        lemma_no_default(kept, version, i);
    }
    assert(after.drop_last() == kept);
    assert forall|i: int| 0 <= i < after.len() - 1 implies !is_default_cidr(
        #[trigger] after[i].cidr,
        version,
    ) by {
        assert(after.drop_last()[i] == after[i]);
    }
    lemma_default_index(after, version, after.len() - 1);
    assert(after.remove(after.len() - 1) =~= after.drop_last());
}

/// A table whose storage grows takes every default route.
pub proof fn growing_table_is_never_full(
    before: Seq<Route>,
    after: Seq<Route>,
    gateway: IpAddress,
    result: Result<Option<Route>, RouteTableFull>,
)
    requires
        default_added(before, after, <RouteStorage as RouteStore>::limit(), gateway, result),
    ensures
        result is Ok,
{
}

/// Where there is no first default route there is none at all.
pub proof fn lemma_no_default(routes: Seq<Route>, version: IpVersion, index: int)
    requires
        default_index(routes, version) is None,
        0 <= index < routes.len(),
    ensures
        !is_default_cidr(routes[index].cidr, version),
    decreases index,
{
    if is_default_cidr(routes[index].cidr, version) {
        assert forall|i: int| 0 <= i < index implies !is_default_cidr(
            #[trigger] routes[i].cidr,
            version,
        ) by {
            lemma_no_default(routes, version, i);
        }
        assert(default_at(routes, version, index));
    }
}

} // verus!
