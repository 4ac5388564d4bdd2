//! Laws of the routing table.
use crate::config::IFACE_MAX_ROUTE_COUNT;
use crate::iface::route::{
    best_at, default_at, default_index, default_route, is_default_cidr, unreachable_at,
    without_default, FixedRouteStorage, Route, RouteStorage, RouteStore, RouteTableFull, Routes,
};
use crate::laws::ip::{lemma_spans, spans};
use crate::time::Instant;
use crate::wire::ip::{IpAddress, IpCidr, IpVersion, Ipv4Address, Ipv6Address};
use vstd::prelude::*;

verus! {

/// The route leads to an address at a time: its block holds the address, and it does not expire or
/// its expiry does not lie before that time.
pub open spec fn leads(route: Route, addr: IpAddress, now: Instant) -> bool {
    &&& spans(route.cidr, addr)
    &&& route.expires_at is None || now.micros <= route.expires_at->0.micros
}

/// The number of leading bits that a block fixes.
pub open spec fn fixed_bits(cidr: IpCidr) -> int {
    match cidr {
        IpCidr::Ipv4(cidr) => cidr.spec_prefix_len() as int,
        IpCidr::Ipv6(cidr) => cidr.spec_prefix_len() as int,
    }
}

/// The neighbour that a route hands a packet to: its router, or the destination itself where it has
/// none.
pub open spec fn neighbour(route: Route, addr: IpAddress) -> IpAddress {
    if route.via_router is Some {
        route.via_router->0
    } else {
        addr
    }
}

proof fn lemma_leads(route: Route, addr: IpAddress, now: Instant)
    ensures
        route.spec_applies(addr, now) <==> leads(route, addr, now),
        route.cidr.spec_prefix_len() == fixed_bits(route.cidr),
        route.next_hop(addr) == neighbour(route, addr),
{
    lemma_spans(route.cidr, addr);
}

/// A hop is found exactly where some route leads to the address. It is the neighbour of a route that
/// leads there, such that no other route that leads there fixes more bits, and no later one fixes as
/// many.
pub proof fn lookup_finds_the_most_specific_route<S: RouteStore>(
    routes: &Routes<S>,
    addr: &IpAddress,
    now: Instant,
    r: Option<IpAddress>,
)
    requires
        call_ensures(Routes::<S>::lookup, (routes, addr, now), r),
    ensures
        r is Some <==> exists|i: int|
            0 <= i < routes@.len() && leads(#[trigger] routes@[i], *addr, now),
        r matches Some(hop) ==> exists|i: int|
            {
                &&& 0 <= i < routes@.len()
                &&& leads(#[trigger] routes@[i], *addr, now)
                &&& hop == neighbour(routes@[i], *addr)
                &&& forall|j: int|
                    0 <= j < routes@.len() && leads(#[trigger] routes@[j], *addr, now)
                        ==> fixed_bits(routes@[j].cidr) <= fixed_bits(routes@[i].cidr) && (
                    fixed_bits(routes@[j].cidr) == fixed_bits(routes@[i].cidr) ==> j <= i)
            },
{
    let table = routes@;
    assert forall|i: int| 0 <= i < table.len() implies (#[trigger] table[i]).spec_applies(
        *addr,
        now,
    ) == leads(table[i], *addr, now) && table[i].cidr.spec_prefix_len() == fixed_bits(
        table[i].cidr,
    ) && table[i].next_hop(*addr) == neighbour(table[i], *addr) by {
        lemma_leads(table[i], *addr, now);
    }
    if r is Some {
        let i = choose|i: int| #[trigger]
            best_at(table, *addr, now, i) && r->0 == table[i].next_hop(*addr);
        assert(leads(table[i], *addr, now));
    } else {
        assert(unreachable_at(table, *addr, now));
    }
}

/// Until when a route is preferred has no part in where it leads: two tables that differ in that
/// alone give the same hop.
pub proof fn preference_has_no_part_in_lookup<S: RouteStore>(
    first: &Routes<S>,
    second: &Routes<S>,
    addr: &IpAddress,
    now: Instant,
    r1: Option<IpAddress>,
    r2: Option<IpAddress>,
)
    requires
        call_ensures(Routes::<S>::lookup, (first, addr, now), r1),
        call_ensures(Routes::<S>::lookup, (second, addr, now), r2),
        first@.len() == second@.len(),
        forall|i: int|
            0 <= i < first@.len() ==> {
                &&& (#[trigger] first@[i]).cidr == second@[i].cidr
                &&& first@[i].via_router == second@[i].via_router
                &&& first@[i].expires_at == second@[i].expires_at
            },
    ensures
        r1 == r2,
{
    lookup_finds_the_most_specific_route(first, addr, now, r1);
    lookup_finds_the_most_specific_route(second, addr, now, r2);
    let a = first@;
    let b = second@;
    assert forall|i: int| 0 <= i < a.len() implies leads(#[trigger] a[i], *addr, now) == leads(
        b[i],
        *addr,
        now,
    ) by {}
    if r1 is Some {
        let i = choose|i: int| 0 <= i < a.len() && leads(#[trigger] a[i], *addr, now);
        assert(leads(b[i], *addr, now));
    }
    if r2 is Some {
        let i = choose|i: int| 0 <= i < b.len() && leads(#[trigger] b[i], *addr, now);
        assert(leads(a[i], *addr, now));
    }
    if r1 is Some && r2 is Some {
        let i = choose|i: int| #[trigger]
            best_at(a, *addr, now, i) && r1->0 == a[i].next_hop(*addr);
        let j = choose|j: int| #[trigger]
            best_at(b, *addr, now, j) && r2->0 == b[j].next_hop(*addr);
        lemma_leads(a[i], *addr, now);
        lemma_leads(b[i], *addr, now);
        lemma_leads(a[j], *addr, now);
        lemma_leads(b[j], *addr, now);
        assert(a[i].spec_applies(*addr, now));
        assert(b[i].spec_applies(*addr, now));
        assert(a[j].spec_applies(*addr, now));
        assert(b[j].spec_applies(*addr, now));
        assert(i == j);
    }
}

/// The block of all addresses of a version: its prefix fixes no bits and its address is zero.
pub open spec fn is_everything(cidr: IpCidr, version: IpVersion) -> bool {
    match cidr {
        IpCidr::Ipv4(cidr) => version == IpVersion::Ipv4 && cidr.spec_prefix_len() == 0
            && cidr.spec_address().bits == 0,
        IpCidr::Ipv6(cidr) => version == IpVersion::Ipv6 && cidr.spec_prefix_len() == 0
            && cidr.spec_address().bits == 0,
    }
}

/// A default route through a gateway leads to all addresses of the version of the gateway, never
/// expires and is preferred for ever.
pub open spec fn is_default_through(route: Route, gateway: IpAddress) -> bool {
    &&& is_everything(
        route.cidr,
        if gateway is Ipv4 {
            IpVersion::Ipv4
        } else {
            IpVersion::Ipv6
        },
    )
    &&& route.via_router == Some(gateway)
    &&& route.preferred_until is None
    &&& route.expires_at is None
}

/// The routes that lead through a gateway are default routes through it.
pub proof fn gateway_routes_are_default_routes(
    gateway4: Ipv4Address,
    gateway6: Ipv6Address,
    r4: Route,
    r6: Route,
)
    requires
        call_ensures(Route::new_ipv4_gateway, (gateway4,), r4),
        call_ensures(Route::new_ipv6_gateway, (gateway6,), r6),
    ensures
        is_default_through(r4, IpAddress::Ipv4(gateway4)),
        is_default_through(r6, IpAddress::Ipv6(gateway6)),
{
}

/// The first default route of a version was taken out of a table and is `taken`; or there was none,
/// and the table is as it was.
pub open spec fn first_default_taken(
    before: Seq<Route>,
    after: Seq<Route>,
    version: IpVersion,
    taken: Option<Route>,
) -> bool {
    match taken {
        Some(route) => exists|i: int|
            {
                &&& 0 <= i < before.len()
                &&& is_everything((#[trigger] before[i]).cidr, version)
                &&& route == before[i]
                &&& after == before.take(i) + before.skip(i + 1)
                &&& forall|j: int| 0 <= j < i ==> !is_everything((#[trigger] before[j]).cidr, version)
            },
        None => {
            &&& after == before
            &&& forall|j: int|
                0 <= j < before.len() ==> !is_everything((#[trigger] before[j]).cidr, version)
        },
    }
}

proof fn lemma_first_default_taken(before: Seq<Route>, version: IpVersion)
    ensures
        first_default_taken(
            before,
            without_default(before, version),
            version,
            default_route(before, version),
        ),
{
    match default_index(before, version) {
        Some(i) => {
            assert(default_at(before, version, i));
            assert(before.remove(i) =~= before.take(i) + before.skip(i + 1));
            assert(is_everything(before[i].cidr, version));
            assert forall|j: int| 0 <= j < i implies !is_everything(
                (#[trigger] before[j]).cidr,
                version,
            ) by {
                assert(!is_default_cidr(before[j].cidr, version));
            }
        },
        None => {
            assert forall|j: int| 0 <= j < before.len() implies !is_everything(
                (#[trigger] before[j]).cidr,
                version,
            ) by {
                crate::iface::route::lemma_no_default(before, version, j);
            }
        },
    }
}

/// Removing a default route takes out the first one of its version, and no other route.
pub proof fn removing_takes_the_first_default_route<S: RouteStore>()
    ensures
        forall|routes: &mut Routes<S>, r: Option<Route>| #[trigger]
            call_ensures(Routes::<S>::remove_default_ipv4_route, (routes,), r)
                ==> first_default_taken(routes@, final(routes)@, IpVersion::Ipv4, r),
        forall|routes: &mut Routes<S>, r: Option<Route>| #[trigger]
            call_ensures(Routes::<S>::remove_default_ipv6_route, (routes,), r)
                ==> first_default_taken(routes@, final(routes)@, IpVersion::Ipv6, r),
{
    assert forall|routes: &mut Routes<S>, r: Option<Route>| #[trigger]
        call_ensures(
            Routes::<S>::remove_default_ipv4_route,
            (routes,),
            r,
        ) implies first_default_taken(routes@, final(routes)@, IpVersion::Ipv4, r) by {
        lemma_first_default_taken(routes@, IpVersion::Ipv4);
    }
    assert forall|routes: &mut Routes<S>, r: Option<Route>| #[trigger]
        call_ensures(
            Routes::<S>::remove_default_ipv6_route,
            (routes,),
            r,
        ) implies first_default_taken(routes@, final(routes)@, IpVersion::Ipv6, r) by {
        lemma_first_default_taken(routes@, IpVersion::Ipv6);
    }
}

/// The default route through a gateway was put at the end of a table in place of the first default
/// route of its version, which is `Ok`; or there was none and the table was full, and it is as it
/// was.
pub open spec fn default_put(
    before: Seq<Route>,
    after: Seq<Route>,
    limit: Option<nat>,
    gateway: IpAddress,
    r: Result<Option<Route>, RouteTableFull>,
) -> bool {
    let version = if gateway is Ipv4 {
        IpVersion::Ipv4
    } else {
        IpVersion::Ipv6
    };
    match r {
        Ok(previous) => exists|kept: Seq<Route>, added: Route|
            {
                &&& #[trigger] kept.push(added) == after
                &&& is_default_through(added, gateway)
                &&& first_default_taken(before, kept, version, previous)
            },
        Err(_) => {
            &&& after == before
            &&& limit matches Some(limit) && before.len() >= limit
            &&& forall|j: int|
                0 <= j < before.len() ==> !is_everything((#[trigger] before[j]).cidr, version)
        },
    }
}

proof fn lemma_default_put(
    before: Seq<Route>,
    after: Seq<Route>,
    limit: Option<nat>,
    gateway: IpAddress,
    r: Result<Option<Route>, RouteTableFull>,
)
    requires
        crate::iface::route::default_added(before, after, limit, gateway, r),
    ensures
        default_put(before, after, limit, gateway, r),
{
    let version = gateway.spec_version();
    lemma_first_default_taken(before, version);
    if r is Ok {
        assert(after.drop_last().push(after.last()) =~= after);
    }
}

/// Adding a default route puts it at the end in place of the first one of its version. It fails
/// exactly where the table is full and holds none, and changes nothing then.
pub proof fn adding_replaces_the_first_default_route<S: RouteStore>()
    ensures
        forall|
            routes: &mut Routes<S>,
            gateway: Ipv4Address,
            r: Result<Option<Route>, RouteTableFull>,
        |
            #[trigger] call_ensures(
                Routes::<S>::add_default_ipv4_route,
                (routes, gateway),
                r,
            ) ==> default_put(
                routes@,
                final(routes)@,
                S::limit(),
                IpAddress::Ipv4(gateway),
                r,
            ),
        forall|
            routes: &mut Routes<S>,
            gateway: Ipv6Address,
            r: Result<Option<Route>, RouteTableFull>,
        |
            #[trigger] call_ensures(
                Routes::<S>::add_default_ipv6_route,
                (routes, gateway),
                r,
            ) ==> default_put(
                routes@,
                final(routes)@,
                S::limit(),
                IpAddress::Ipv6(gateway),
                r,
            ),
{
    assert forall|
        routes: &mut Routes<S>,
        gateway: Ipv4Address,
        r: Result<Option<Route>, RouteTableFull>,
    |
        #[trigger] call_ensures(
            Routes::<S>::add_default_ipv4_route,
            (routes, gateway),
            r,
        ) implies default_put(
        routes@,
        final(routes)@,
        S::limit(),
        IpAddress::Ipv4(gateway),
        r,
    ) by {
        lemma_default_put(
            routes@,
            final(routes)@,
            S::limit(),
            IpAddress::Ipv4(gateway),
            r,
        );
    }
    assert forall|
        routes: &mut Routes<S>,
        gateway: Ipv6Address,
        r: Result<Option<Route>, RouteTableFull>,
    |
        #[trigger] call_ensures(
            Routes::<S>::add_default_ipv6_route,
            (routes, gateway),
            r,
        ) implies default_put(
        routes@,
        final(routes)@,
        S::limit(),
        IpAddress::Ipv6(gateway),
        r,
    ) by {
        lemma_default_put(
            routes@,
            final(routes)@,
            S::limit(),
            IpAddress::Ipv6(gateway),
            r,
        );
    }
}

/// Growing storage has no limit, and fixed storage holds as many routes as it was built for, which are two.
pub proof fn only_fixed_storage_is_limited()
    ensures
        <RouteStorage as RouteStore>::limit() is None,
        <FixedRouteStorage as RouteStore>::limit() == Some(IFACE_MAX_ROUTE_COUNT as nat),
        IFACE_MAX_ROUTE_COUNT == 2,
{
}

/// New tables hold no routes.
pub proof fn new_tables_are_empty(growing: Routes<RouteStorage>, fixed: Routes<FixedRouteStorage>)
    requires
        call_ensures(Routes::<RouteStorage>::new, (), growing),
        call_ensures(Routes::<FixedRouteStorage>::new_fixed, (), fixed),
    ensures
        growing@.len() == 0,
        fixed@.len() == 0,
{
}

/// Updating a table hands its routes to the given function, and keeps what that makes of them.
pub proof fn update_keeps_what_the_function_makes<S: RouteStore, F: FnOnce(&mut S)>(f: F)
    ensures
        forall|routes: &mut Routes<S>| #[trigger]
            call_ensures(Routes::<S>::update::<F>, (routes, f), ()) ==> exists|storage: &mut S|
                {
                    &&& #[trigger] call_ensures(f, (storage,), ())
                    &&& storage.routes() == routes@
                    &&& final(storage).routes() == final(routes)@
                },
{
}

} // verus!
