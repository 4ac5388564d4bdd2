use smoltcp::config::IFACE_MAX_ROUTE_COUNT;
use smoltcp::iface::route::{Route, RouteStore, RouteTableFull, Routes};
use smoltcp::time::Instant;
use smoltcp::wire::ip::{IpAddress, IpCidr, Ipv4Address, Ipv4Cidr, Ipv6Address, Ipv6Cidr};

fn addr_1a() -> IpAddress {
    Ipv6Address::new(0xfe80, 0, 0, 2, 0, 0, 0, 1).into()
}

fn addr_1b() -> IpAddress {
    Ipv6Address::new(0xfe80, 0, 0, 2, 0, 0, 0, 13).into()
}

fn addr_1c() -> IpAddress {
    Ipv6Address::new(0xfe80, 0, 0, 2, 0, 0, 0, 42).into()
}

fn cidr_1() -> Ipv6Cidr {
    Ipv6Cidr::new(Ipv6Address::new(0xfe80, 0, 0, 2, 0, 0, 0, 0), 64)
}

fn addr_2a() -> IpAddress {
    Ipv6Address::new(0xfe80, 0, 0, 0x3364, 0, 0, 0, 1).into()
}

fn addr_2b() -> IpAddress {
    Ipv6Address::new(0xfe80, 0, 0, 0x3364, 0, 0, 0, 21).into()
}

fn cidr_2() -> Ipv6Cidr {
    Ipv6Cidr::new(Ipv6Address::new(0xfe80, 0, 0, 0x3364, 0, 0, 0, 0), 64)
}

#[test]
fn test_fill() {
    let mut routes = Routes::new();

    assert_eq!(routes.lookup(&addr_1a(), Instant::from_millis(0)), None);
    assert_eq!(routes.lookup(&addr_1b(), Instant::from_millis(0)), None);
    assert_eq!(routes.lookup(&addr_1c(), Instant::from_millis(0)), None);
    assert_eq!(routes.lookup(&addr_2a(), Instant::from_millis(0)), None);
    assert_eq!(routes.lookup(&addr_2b(), Instant::from_millis(0)), None);

    let route = Route {
        cidr: cidr_1().into(),
        via_router: Some(addr_1a()),
        preferred_until: None,
        expires_at: None,
    };
    routes.update(|storage| {
        storage.push(route);
    });

    assert_eq!(
        routes.lookup(&addr_1a(), Instant::from_millis(0)),
        Some(addr_1a())
    );
    assert_eq!(
        routes.lookup(&addr_1b(), Instant::from_millis(0)),
        Some(addr_1a())
    );
    assert_eq!(
        routes.lookup(&addr_1c(), Instant::from_millis(0)),
        Some(addr_1a())
    );
    assert_eq!(routes.lookup(&addr_2a(), Instant::from_millis(0)), None);
    assert_eq!(routes.lookup(&addr_2b(), Instant::from_millis(0)), None);

    let route2 = Route {
        cidr: cidr_2().into(),
        via_router: Some(addr_2a()),
        preferred_until: Some(Instant::from_millis(10)),
        expires_at: Some(Instant::from_millis(10)),
    };
    routes.update(|storage| {
        storage.push(route2);
    });

    assert_eq!(
        routes.lookup(&addr_1a(), Instant::from_millis(0)),
        Some(addr_1a())
    );
    assert_eq!(
        routes.lookup(&addr_1b(), Instant::from_millis(0)),
        Some(addr_1a())
    );
    assert_eq!(
        routes.lookup(&addr_1c(), Instant::from_millis(0)),
        Some(addr_1a())
    );
    assert_eq!(
        routes.lookup(&addr_2a(), Instant::from_millis(0)),
        Some(addr_2a())
    );
    assert_eq!(
        routes.lookup(&addr_2b(), Instant::from_millis(0)),
        Some(addr_2a())
    );

    assert_eq!(
        routes.lookup(&addr_1a(), Instant::from_millis(10)),
        Some(addr_1a())
    );
    assert_eq!(
        routes.lookup(&addr_1b(), Instant::from_millis(10)),
        Some(addr_1a())
    );
    assert_eq!(
        routes.lookup(&addr_1c(), Instant::from_millis(10)),
        Some(addr_1a())
    );
    assert_eq!(
        routes.lookup(&addr_2a(), Instant::from_millis(10)),
        Some(addr_2a())
    );
    assert_eq!(
        routes.lookup(&addr_2b(), Instant::from_millis(10)),
        Some(addr_2a())
    );
}

#[test]
fn test_on_link_route_returns_destination() {
    let mut routes = Routes::new();
    routes.update(|storage| {
        storage.push(Route {
            cidr: cidr_1().into(),
            via_router: None,
            preferred_until: None,
            expires_at: None,
        });
    });

    assert_eq!(
        routes.lookup(&addr_1b(), Instant::from_millis(0)),
        Some(addr_1b())
    );
}

#[test]
fn alloc_route_storage_is_not_limited_by_iface_max_route_count() {
    let mut routes = Routes::new();
    routes.update(|storage| {
        for third_octet in 0..=IFACE_MAX_ROUTE_COUNT {
            storage.push(Route {
                cidr: Ipv4Cidr::new(Ipv4Address::new(198, 18, third_octet as u8, 0), 24).into(),
                via_router: None,
                preferred_until: None,
                expires_at: None,
            });
        }
    });

    assert_eq!(
        routes.lookup(
            &Ipv4Address::new(198, 18, IFACE_MAX_ROUTE_COUNT as u8, 1).into(),
            Instant::from_millis(0)
        ),
        Some(Ipv4Address::new(198, 18, IFACE_MAX_ROUTE_COUNT as u8, 1).into())
    );
}

fn v4(d: u8) -> Ipv4Address {
    Ipv4Address::new(10, 0, 0, d)
}

fn on_link(third: u8, prefix_len: u8, router: u8) -> Route {
    Route {
        cidr: Ipv4Cidr::new(Ipv4Address::new(192, 168, third, 0), prefix_len).into(),
        via_router: Some(v4(router).into()),
        preferred_until: None,
        expires_at: None,
    }
}

#[test]
fn expired_route_is_not_used() {
    let mut routes = Routes::new();
    let mut route = on_link(1, 24, 1);
    route.expires_at = Some(Instant::from_millis(10));
    routes.update(|storage| storage.push(route));
    let target = IpAddress::v4(192, 168, 1, 7);
    assert_eq!(
        routes.lookup(&target, Instant::from_millis(10)),
        Some(v4(1).into())
    );
    assert_eq!(routes.lookup(&target, Instant::from_millis(11)), None);
}

#[test]
fn most_specific_route_wins_and_the_latest_of_equals() {
    let mut routes = Routes::new();
    routes.update(|storage| {
        storage.push(on_link(1, 24, 1));
        storage.push(on_link(0, 16, 2));
        storage.push(on_link(1, 24, 3));
        storage.push(on_link(2, 24, 4));
    });
    let now = Instant::from_millis(0);
    assert_eq!(
        routes.lookup(&IpAddress::v4(192, 168, 1, 7), now),
        Some(v4(3).into())
    );
    assert_eq!(
        routes.lookup(&IpAddress::v4(192, 168, 2, 7), now),
        Some(v4(4).into())
    );
    assert_eq!(
        routes.lookup(&IpAddress::v4(192, 168, 3, 7), now),
        Some(v4(2).into())
    );
    assert_eq!(routes.lookup(&IpAddress::v4(192, 169, 3, 7), now), None);
    assert_eq!(routes.lookup(&addr_1a(), now), None);
}

#[test]
fn default_route_is_replaced_and_removed() {
    let mut routes = Routes::new();
    let now = Instant::from_millis(0);
    let target = IpAddress::v4(1, 2, 3, 4);
    assert!(routes.add_default_ipv4_route(v4(1)).unwrap().is_none());
    assert_eq!(routes.lookup(&target, now), Some(v4(1).into()));
    let previous = routes.add_default_ipv4_route(v4(2)).unwrap().unwrap();
    assert_eq!(previous.via_router, Some(v4(1).into()));
    assert_eq!(
        previous.cidr,
        IpCidr::Ipv4(Ipv4Cidr::new(Ipv4Address::new(0, 0, 0, 0), 0))
    );
    assert_eq!(previous.preferred_until, None);
    assert_eq!(previous.expires_at, None);
    assert_eq!(routes.lookup(&target, now), Some(v4(2).into()));
    assert!(routes.remove_default_ipv6_route().is_none());
    let removed = routes.remove_default_ipv4_route().unwrap();
    assert_eq!(removed.via_router, Some(v4(2).into()));
    assert!(routes.remove_default_ipv4_route().is_none());
    assert_eq!(routes.lookup(&target, now), None);
}

#[test]
fn default_ipv6_route_leads_to_ipv6_addresses_only() {
    let mut routes = Routes::new();
    let now = Instant::from_millis(0);
    let gateway = Ipv6Address::new(0xfe80, 0, 0, 0, 0, 0, 0, 9);
    assert!(routes.add_default_ipv6_route(gateway).unwrap().is_none());
    assert_eq!(routes.lookup(&addr_2b(), now), Some(gateway.into()));
    assert_eq!(routes.lookup(&IpAddress::v4(1, 2, 3, 4), now), None);
    assert_eq!(
        routes
            .remove_default_ipv6_route()
            .unwrap()
            .via_router
            .unwrap(),
        gateway.into()
    );
}

#[test]
fn fixed_table_is_full_without_a_default_route() {
    let mut routes = Routes::new_fixed();
    let now = Instant::from_millis(0);
    routes.update(|storage| {
        assert_eq!(storage.push_route(on_link(1, 24, 1)), Ok(()));
        assert_eq!(storage.push_route(on_link(2, 24, 2)), Ok(()));
        assert_eq!(storage.push_route(on_link(3, 24, 3)), Err(RouteTableFull));
    });
    let refused = routes.add_default_ipv4_route(v4(9));
    assert!(matches!(refused, Err(RouteTableFull)));
    assert_eq!(RouteTableFull.to_text(), "Route table full");
    assert_eq!(
        routes.lookup(&IpAddress::v4(192, 168, 1, 7), now),
        Some(v4(1).into())
    );
    assert_eq!(
        routes.lookup(&IpAddress::v4(192, 168, 2, 7), now),
        Some(v4(2).into())
    );
    assert_eq!(routes.lookup(&IpAddress::v4(192, 168, 3, 7), now), None);
}

#[test]
fn fixed_table_replaces_its_default_route_though_full() {
    let mut routes = Routes::new_fixed();
    let now = Instant::from_millis(0);
    assert!(routes.add_default_ipv4_route(v4(1)).unwrap().is_none());
    routes.update(|storage| {
        assert_eq!(storage.push_route(on_link(2, 24, 2)), Ok(()));
    });
    let previous = routes.add_default_ipv4_route(v4(3)).unwrap().unwrap();
    assert_eq!(previous.via_router, Some(v4(1).into()));
    assert_eq!(
        routes.lookup(&IpAddress::v4(192, 168, 2, 7), now),
        Some(v4(2).into())
    );
    assert_eq!(
        routes.lookup(&IpAddress::v4(8, 8, 8, 8), now),
        Some(v4(3).into())
    );
}

#[test]
fn cidr_contains_its_addresses() {
    let cidr = Ipv4Cidr::new(Ipv4Address::new(192, 168, 4, 0), 22);
    assert!(cidr.contains_addr(&Ipv4Address::new(192, 168, 7, 255)));
    assert!(!cidr.contains_addr(&Ipv4Address::new(192, 168, 8, 0)));
    assert!(Ipv4Cidr::new(v4(1), 32).contains_addr(&v4(1)));
    assert!(!Ipv4Cidr::new(v4(1), 32).contains_addr(&v4(2)));
    assert!(Ipv4Cidr::new(v4(1), 0).contains_addr(&Ipv4Address::new(255, 1, 2, 3)));
    assert!(cidr_1().contains_addr(&Ipv6Address::new(0xfe80, 0, 0, 2, 9, 9, 9, 9)));
    assert!(!cidr_1().contains_addr(&Ipv6Address::new(0xfe80, 0, 0, 3, 0, 0, 0, 1)));
    assert!(!IpCidr::from(cidr).contains_addr(&addr_1a()));
    assert_eq!(IpCidr::from(cidr_1()).prefix_len(), 64);
}

#[test]
fn unicast_addresses() {
    assert!(IpAddress::v4(10, 0, 0, 1).is_unicast());
    assert!(!IpAddress::v4(0, 0, 0, 0).is_unicast());
    assert!(!IpAddress::v4(224, 0, 0, 1).is_unicast());
    assert!(!IpAddress::v4(239, 255, 255, 255).is_unicast());
    assert!(!IpAddress::v4(255, 255, 255, 255).is_unicast());
    assert!(addr_1a().is_unicast());
    assert!(!IpAddress::from(Ipv6Address::new(0xff02, 0, 0, 0, 0, 0, 0, 1)).is_unicast());
    assert!(!IpAddress::from(Ipv6Address::new(0, 0, 0, 0, 0, 0, 0, 0)).is_unicast());
}
