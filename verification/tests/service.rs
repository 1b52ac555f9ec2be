use std::sync::Arc;

use rustybgp::addr::{IpAddr, IpNet, SocketAddr};
use rustybgp::api;
use rustybgp::api::{AnyNlri, IpAddressPrefix, PeerConf, Timers, TimersConfig, Transport};
use rustybgp::bgp::{Attribute, Capability, Family, Nlri, Segment, State};
use rustybgp::event::{Proto, SrvEvent};
use rustybgp::listing::{can_list_path, list_path, try_list_path, ListPathRequest, TableType};
use rustybgp::native::ReadAttribute;
use rustybgp::path::{PathAttr, Source, TableUpdate};
use rustybgp::peer::{Global, Peer};
use rustybgp::roa::Roa;
use rustybgp::rtr::RtrSession;
use rustybgp::service::{
    add_bmp, add_dynamic_neighbor, add_path, add_path_at, add_paths, add_peer, add_peer_group, add_rpki,
    can_list_peer, can_list_rpki, delete_path, delete_peer, get_bgp, get_table, list_peer, list_rpki, start_bgp, Code,
    DynamicNeighbor, PathRequest, PeerGroupConf, ServiceError, StartRequest,
};
use rustybgp::table::{BgpSession, PeerEvent, Table};
use rustybgp::time::Timestamp;

const NOW: Timestamp = Timestamp { secs: 100, nanos: 0 };

fn addr(last: u8) -> IpAddr {
    IpAddr::V4(0x0a00_0000 + last as u32)
}

#[test]
fn start_request() {
    let ok = StartRequest { as_number: 65000, router_id: Some(7), listen_port: 0 };
    let mut g = Global::new(0, 0);
    assert_eq!(Err(ServiceError::EmptyConfiguration), start_bgp(&mut g, None));
    assert_eq!(
        Err(ServiceError::InvalidAsNumber),
        start_bgp(&mut g, Some(StartRequest { as_number: 0, ..ok }))
    );
    assert_eq!(
        Err(ServiceError::InvalidRouterId),
        start_bgp(&mut g, Some(StartRequest { router_id: None, ..ok }))
    );
    assert_eq!((0, 0, 179), (g.as_number, g.id, g.listen_port));
    assert_eq!(Ok(()), start_bgp(&mut g, Some(ok)));
    assert_eq!((65000, 7, 179), (g.as_number, g.id, g.listen_port));
    assert_eq!(Err(ServiceError::AlreadyStarted), start_bgp(&mut g, Some(ok)));
    assert_eq!(
        api::Global { as_number: 65000, router_id: 7, listen_port: 179 },
        get_bgp(&g)
    );
    let mut g = Global::new(0, 0);
    let port = StartRequest { listen_port: 10179, ..ok };
    assert_eq!(Ok(()), start_bgp(&mut g, Some(port)));
    assert_eq!(10179, g.listen_port);
}

#[test]
fn answers() {
    for (e, code, message) in vec![
        (ServiceError::AlreadyStarted, Code::InvalidArgument, "already started"),
        (ServiceError::InvalidAsNumber, Code::InvalidArgument, "invalid as number"),
        (ServiceError::InvalidRouterId, Code::InvalidArgument, "invalid router id"),
        (ServiceError::EmptyConfiguration, Code::InvalidArgument, "empty configuration"),
        (ServiceError::PeerExists, Code::AlreadyExists, "peer address already exists"),
        (ServiceError::InvalidParameters, Code::InvalidArgument, "invalid parameters"),
        (ServiceError::PeerUnknown, Code::AlreadyExists, "peer address doesn't exists"),
        (ServiceError::InvalidPeerAddress, Code::InvalidArgument, "invalid peer address"),
        (ServiceError::PeerGroupExists, Code::AlreadyExists, "peer group name already exists"),
        (ServiceError::EmptyPeerGroup, Code::InvalidArgument, "peer group conf is empty"),
        (ServiceError::EmptyNeighbor, Code::InvalidArgument, "conf is empty"),
        (ServiceError::InvalidPrefix, Code::InvalidArgument, "prefix is invalid"),
        (ServiceError::PeerGroupUnknown, Code::NotFound, "peer group isn't found"),
        (ServiceError::PrefixExists, Code::AlreadyExists, "prefix already exists"),
        (ServiceError::EmptyPath, Code::InvalidArgument, "empty path"),
        (ServiceError::EmptyFamily, Code::InvalidArgument, "empty family"),
        (ServiceError::EmptyNlri, Code::InvalidArgument, "empty nlri"),
        (ServiceError::UnknownNlri, Code::InvalidArgument, "unknown nlri"),
        (ServiceError::InvalidNeighborName, Code::InvalidArgument, "invalid neighbor name"),
        (ServiceError::InvalidTableType, Code::InvalidArgument, "invalid table type"),
        (ServiceError::NotImplemented, Code::Unimplemented, "Not yet implemented"),
    ] {
        assert_eq!((code, message), (e.code(), e.message()));
    }
}

fn conf(last: u8) -> api::Peer {
    api::Peer {
        conf: Some(PeerConf { neighbor_address: Some(addr(last)), local_as: 0, peer_as: 2 }),
        timers: None,
        transport: None,
        afi_safis: Vec::new(),
        state: None,
    }
}

fn is_error<T>(r: Result<T, ServiceError>, e: ServiceError) -> bool {
    match r {
        Ok(_) => false,
        Err(x) => x == e,
    }
}

#[test]
fn peers_are_added() {
    let mut g = Global::new(65000, 7);
    assert!(is_error(add_peer(&mut g, None), ServiceError::InvalidParameters));
    let unreadable = api::Peer {
        conf: Some(PeerConf { neighbor_address: None, local_as: 0, peer_as: 2 }),
        ..conf(1)
    };
    assert!(is_error(add_peer(&mut g, Some(unreadable)), ServiceError::InvalidParameters));
    let none = api::Peer { conf: None, ..conf(1) };
    assert!(is_error(add_peer(&mut g, Some(none)), ServiceError::InvalidParameters));

    match add_peer(&mut g, Some(conf(1))) {
        Ok(Some(SrvEvent::EnableActive { proto, sockaddr })) => {
            assert_eq!(Proto::Bgp, proto);
            assert_eq!(SocketAddr { ip: addr(1), port: 179 }, sockaddr);
        }
        _ => panic!("not connected"),
    }
    assert!(is_error(add_peer(&mut g, Some(conf(1))), ServiceError::PeerExists));
    let p = g.peers.get(&addr(1)).unwrap();
    assert_eq!((65000, 2, 179), (p.local_as, p.remote_as, p.remote_port));
    assert_eq!((180, 3), (p.hold_time, p.connect_retry_time));
    assert_eq!(State::Idle, p.state);
    assert_eq!(
        vec![
            Capability::RouteRefresh,
            Capability::FourOctetAsNumber { as_number: 65000 },
            Capability::MultiProtocol { family: Family::Ipv4Uc },
        ],
        p.local_cap
    );

    // a peer that is waited for, with all the settings
    let passive = api::Peer {
        conf: Some(PeerConf { neighbor_address: Some(addr(2)), local_as: 5, peer_as: 6 }),
        timers: Some(Timers {
            config: Some(TimersConfig { connect_retry: 8, hold_time: 9 }),
            state: None,
        }),
        transport: Some(Transport { passive_mode: true, remote_port: 7 }),
        ..conf(2)
    };
    assert!(matches!(add_peer(&mut g, Some(passive)), Ok(None)));
    let p = g.peers.get(&addr(2)).unwrap();
    assert_eq!((5, 6, 7), (p.local_as, p.remote_as, p.remote_port));
    assert_eq!((9, 8), (p.hold_time, p.connect_retry_time));
    assert!(p.passive && !p.delete_on_disconnected);
}

#[test]
fn peers_are_deleted() {
    let mut g = Global::new(65000, 7);
    assert!(is_error(delete_peer(&g, None), ServiceError::InvalidPeerAddress));
    assert!(is_error(delete_peer(&g, Some(addr(1))), ServiceError::PeerUnknown));
    assert!(add_peer(&mut g, Some(conf(1))).is_ok());
    assert!(matches!(delete_peer(&g, Some(addr(1))), Ok(SrvEvent::Deconfigured(a)) if a == addr(1)));
}

fn source(last: u8, ibgp: bool) -> Arc<Source> {
    Arc::new(Source {
        address: addr(last),
        ibgp,
        local_as: 65000,
        local_addr: addr(254),
        state: State::Established,
    })
}

fn connect(t: &mut Table, last: u8, ibgp: bool) {
    let mut s = BgpSession::new(source(last, ibgp));
    s.families.push(Family::Ipv4Uc);
    t.bgp_sessions.insert(addr(last), s);
}

#[test]
fn peers_are_listed() {
    let mut g = Global::new(65000, 7);
    let mut t = Table::new();
    assert!(add_peer(&mut g, Some(conf(1))).is_ok());
    assert!(add_peer(&mut g, Some(conf(2))).is_ok());
    connect(&mut t, 1, false);
    t.bgp_sessions.get_mut(&addr(1)).unwrap().update_accepted(Family::Ipv4Uc, 3);

    let all = list_peer(&mut g, &t, None);
    assert_eq!(2, all.len());
    let state = all[0].state.as_ref().unwrap();
    assert_eq!(addr(1), state.neighbor_address);
    assert_eq!(2, state.peer_as);
    assert_eq!(State::Idle, state.session_state);
    assert_eq!(3, state.local_cap.len());
    assert_eq!(1, all[0].afi_safis.len());
    let f = all[0].afi_safis[0].state.unwrap();
    assert_eq!(Some(api::Family { afi: 1, safi: 1 }), f.family);
    assert_eq!((true, 3, 3), (f.enabled, f.received, f.accepted));
    // the session has never been up
    let timers = all[0].timers.unwrap();
    assert_eq!(None, timers.state.unwrap().uptime);
    assert!(all[1].afi_safis.is_empty());
    assert_eq!(Some(&3), g.peers.get(&addr(1)).unwrap().accepted.get(&Family::Ipv4Uc));

    let one = list_peer(&mut g, &t, Some(addr(2)));
    assert_eq!(1, one.len());
    assert_eq!(addr(2), one[0].state.as_ref().unwrap().neighbor_address);
    assert!(list_peer(&mut g, &t, Some(addr(3))).is_empty());
}

#[test]
fn times_of_a_session_are_shown() {
    let mut p = Peer::new(addr(1), 1);
    p.uptime = Timestamp { secs: 5, nanos: 6 };
    let ts = p.to_api().timers.unwrap().state.unwrap();
    assert_eq!(Some(api::Timestamp { seconds: 5, nanos: 6 }), ts.uptime);
    assert_eq!(None, ts.downtime);
    p.reset_at(Timestamp { secs: 7, nanos: 8 });
    let ts = p.to_api().timers.unwrap().state.unwrap();
    assert_eq!(Some(api::Timestamp { seconds: 7, nanos: 8 }), ts.downtime);
    p.uptime = Timestamp { secs: 0, nanos: 0 };
    let ts = p.to_api().timers.unwrap().state.unwrap();
    assert_eq!(None, ts.downtime);
    p.reset();
    assert!(p.downtime.secs > 1_500_000_000);
}

#[test]
fn peer_groups() {
    let mut g = Global::new(65000, 7);
    let name = |n: &str| Some(PeerGroupConf { peer_group_name: n.to_string(), peer_as: 3 });
    assert_eq!(Err(ServiceError::EmptyPeerGroup), add_peer_group(&mut g, None));
    assert_eq!(Ok(()), add_peer_group(&mut g, name("a")));
    assert_eq!(Err(ServiceError::PeerGroupExists), add_peer_group(&mut g, name("a")));
    assert_eq!(Ok(()), add_peer_group(&mut g, name("b")));
    assert_eq!(3, g.peer_group.get(&"a".to_string()).unwrap().as_number);

    let net = |n: u32| Some(IpNet { addr: IpAddr::V4(n), mask: 24 });
    let neighbor = |prefix, n: &str| Some(DynamicNeighbor { prefix, peer_group: n.to_string() });
    let mut add = |r| add_dynamic_neighbor(&mut g, r);
    assert_eq!(Err(ServiceError::EmptyNeighbor), add(None));
    assert_eq!(Err(ServiceError::InvalidPrefix), add(neighbor(None, "a")));
    assert_eq!(Err(ServiceError::PeerGroupUnknown), add(neighbor(net(1), "c")));
    assert_eq!(Ok(()), add(neighbor(net(1), "a")));
    assert_eq!(Err(ServiceError::PrefixExists), add(neighbor(net(1), "a")));
    assert_eq!(Ok(()), add(neighbor(net(2), "a")));
    assert_eq!(Ok(()), add(neighbor(net(1), "b")));
    assert_eq!(2, g.peer_group.get(&"a".to_string()).unwrap().dynamic_peers.len());
}

fn request(third: u8) -> PathRequest {
    PathRequest {
        family: Some(api::Family { afi: 1, safi: 1 }),
        nlri: Some(AnyNlri {
            type_url: "type.googleapis.com/gobgpapi.IPAddressPrefix".to_string(),
            value: Some(IpAddressPrefix { prefix: net(third).addr, prefix_len: 24 }),
        }),
    }
}

fn net(third: u8) -> IpNet {
    IpNet { addr: IpAddr::V4(0xc0a8_0000 + ((third as u32) << 8)), mask: 24 }
}

fn nlri(third: u8) -> Nlri {
    Nlri::Ip(net(third))
}

#[test]
fn own_routes() {
    let mut t = Table::new();
    connect(&mut t, 1, false);
    connect(&mut t, 2, true);
    let attrs = vec![
        ReadAttribute::Origin { origin: 0 },
        ReadAttribute::NextHop { next_hop: Some(addr(9)) },
    ];
    let mut r = request(1);
    assert!(is_error(add_path(&mut t, None, &attrs), ServiceError::EmptyPath));
    r.family = None;
    assert!(is_error(add_path(&mut t, Some(&r), &attrs), ServiceError::EmptyFamily));
    assert!(is_error(delete_path(&mut t, Some(&r)), ServiceError::EmptyFamily));
    r = request(1);
    r.nlri = None;
    assert!(is_error(add_path(&mut t, Some(&r), &attrs), ServiceError::EmptyNlri));
    r = request(1);
    r.nlri.as_mut().unwrap().value = None;
    assert!(is_error(add_path(&mut t, Some(&r), &attrs), ServiceError::UnknownNlri));
    assert!(is_error(delete_path(&mut t, None), ServiceError::EmptyPath));

    r = request(1);
    let told = add_path_at(&mut t, Some(&r), &attrs, NOW).ok().unwrap();
    assert_eq!(vec![addr(1), addr(2)], told.iter().map(|e| e.0).collect::<Vec<_>>());
    match &told[0].1 {
        PeerEvent::Broadcast(TableUpdate::NewBest(n, nexthop, attrs, s)) => {
            assert_eq!((nlri(1), addr(9), IpAddr::V4(0)), (*n, *nexthop, s.address));
            assert_eq!(vec![Attribute::Origin { origin: 0 }], attrs.entry);
        }
        _ => panic!("not announced"),
    }
    assert_eq!(2, add_path(&mut t, Some(&request(2)), &attrs).ok().unwrap().len());
    let size = get_table(&t, &None);
    assert_eq!((2, 2, 0), (size.num_destination, size.num_path, size.num_accepted));
    assert_eq!(0, get_table(&t, &Some(api::Family { afi: 2, safi: 1 })).num_destination);

    assert_eq!(2, delete_path(&mut t, Some(&r)).ok().unwrap().len());
    assert_eq!(0, delete_path(&mut t, Some(&r)).ok().unwrap().len());
    assert_eq!(1, get_table(&t, &None).num_destination);
}

fn seq(number: Vec<u32>) -> Attribute {
    Attribute::AsPath { segments: vec![Segment { segment_type: 2, number }] }
}

fn put(t: &mut Table, third: u8, s: u8, attrs: Vec<Attribute>) {
    t.insert_at(
        Family::Ipv4Uc,
        nlri(third),
        source(s, false),
        addr(s),
        Arc::new(PathAttr { entry: attrs }),
        NOW,
    );
}

fn list(table_type: Option<TableType>, name: Option<IpAddr>) -> ListPathRequest {
    ListPathRequest { table_type, name, family: None, prefixes: Vec::new() }
}

#[test]
fn listings_that_are_turned_down() {
    let t = Table::new();
    for (r, e) in vec![
        (list(None, None), ServiceError::InvalidTableType),
        (list(Some(TableType::Local), None), ServiceError::NotImplemented),
        (list(Some(TableType::Vrf), None), ServiceError::NotImplemented),
        (list(Some(TableType::AdjIn), None), ServiceError::InvalidNeighborName),
        (list(Some(TableType::AdjOut), None), ServiceError::InvalidNeighborName),
    ] {
        assert!(can_list_path(&t, &r));
        assert!(is_error(list_path(&t, &r), e));
    }
}

fn nexthop(p: &api::Path) -> IpAddr {
    match p.pattrs.last() {
        Some(api::PathAttribute::NextHop { next_hop }) => *next_hop,
        _ => panic!("no next hop"),
    }
}

#[test]
fn routes_are_listed() {
    let mut t = Table::new();
    connect(&mut t, 1, false);
    connect(&mut t, 4, true);
    put(&mut t, 1, 1, vec![seq(vec![1])]);
    put(&mut t, 1, 2, vec![seq(vec![1, 2])]);
    put(&mut t, 2, 2, vec![seq(vec![2])]);

    let all = list_path(&t, &list(Some(TableType::Global), None)).ok().unwrap();
    assert_eq!(2, all.len());
    assert_eq!(nlri(1), all[0].prefix);
    assert_eq!(vec![true, false], all[0].paths.iter().map(|p| p.best).collect::<Vec<_>>());
    assert_eq!(addr(1), nexthop(&all[0].paths[0]));
    assert!(all[0].paths[0].validation.is_none());

    let mut some = list(Some(TableType::Global), None);
    some.prefixes = vec![None, Some(net(2))];
    let l = list_path(&t, &some).ok().unwrap();
    assert_eq!(vec![nlri(2)], l.iter().map(|d| d.prefix).collect::<Vec<_>>());
    // no prefix can be read: all are shown
    some.prefixes = vec![None];
    assert_eq!(2, list_path(&t, &some).ok().unwrap().len());
    some.family = Some(api::Family { afi: 2, safi: 1 });
    assert!(list_path(&t, &some).ok().unwrap().is_empty());

    // the routes that others than the peer have announced
    let l = list_path(&t, &list(Some(TableType::AdjIn), Some(addr(2)))).ok().unwrap();
    assert_eq!(vec![nlri(1)], l.iter().map(|d| d.prefix).collect::<Vec<_>>());
    assert_eq!(1, l[0].paths.len());
    assert!(l[0].paths[0].best);

    // what goes out: not back to where the best route came from
    let l = list_path(&t, &list(Some(TableType::AdjOut), Some(addr(1)))).ok().unwrap();
    assert_eq!(vec![nlri(2)], l.iter().map(|d| d.prefix).collect::<Vec<_>>());
    assert_eq!(addr(254), nexthop(&l[0].paths[0]));
    assert_eq!(
        api::PathAttribute::AsPath {
            segments: vec![api::AsSegment { segment_type: 2, numbers: vec![65000, 2] }],
        },
        l[0].paths[0].pattrs[0]
    );
    let l = list_path(&t, &list(Some(TableType::AdjOut), Some(addr(4)))).ok().unwrap();
    assert_eq!(2, l.len());
    assert_eq!(1, l[0].paths.len());
    assert_eq!(addr(1), nexthop(&l[0].paths[0]));
    // a peer without a session is told nothing
    let l = list_path(&t, &list(Some(TableType::AdjOut), Some(addr(9)))).ok().unwrap();
    assert!(l.is_empty());
}

#[test]
fn routes_are_validated_in_listings() {
    let mut t = Table::new();
    put(&mut t, 1, 1, vec![seq(vec![1])]);
    let cache = source(8, false);
    t.roa.insert(net(1), Roa { max_length: 24, as_number: 1, source: cache });
    let r = list(Some(TableType::Global), None);
    assert!(can_list_path(&t, &r));
    let l = list_path(&t, &r).ok().unwrap();
    assert_eq!(
        api::ValidationState::Valid,
        l[0].paths[0].validation.as_ref().unwrap().state
    );
    // an AS path without segments has no origin
    put(&mut t, 2, 1, vec![Attribute::AsPath { segments: Vec::new() }]);
    assert!(!can_list_path(&t, &r));
    assert!(try_list_path(&t, &r).is_none());
    let mut one = list(Some(TableType::Global), None);
    one.prefixes = vec![Some(net(1))];
    assert!(can_list_path(&t, &one));
    assert_eq!(1, try_list_path(&t, &one).unwrap().ok().unwrap().len());
}

#[test]
fn caches_and_stations() {
    let mut t = Table::new();
    assert!(is_error(add_rpki(&mut t, None, 323), ServiceError::InvalidParameters));
    let at = SocketAddr { ip: addr(1), port: 323 };
    assert!(matches!(
        add_rpki(&mut t, Some(addr(1)), 0x1_0000 + 323),
        Ok(SrvEvent::EnableActive { proto: Proto::Rtr, sockaddr }) if sockaddr == at
    ));
    assert!(is_error(add_rpki(&mut t, Some(addr(1)), 323), ServiceError::InvalidParameters));
    t.roa.insert(net(1), Roa { max_length: 24, as_number: 1, source: source(1, false) });
    t.roa.insert(net(1), Roa { max_length: 24, as_number: 2, source: source(1, false) });
    let l = list_rpki(&t);
    assert_eq!(1, l.len());
    assert_eq!(api::RpkiConf { address: addr(1), remote_port: 323 }, l[0].conf);
    assert_eq!((1, 2), (l[0].state.record_ipv4, l[0].state.prefix_ipv4));
    assert_eq!((0, 0), (l[0].state.record_ipv6, l[0].state.prefix_ipv6));
    assert!(!l[0].state.up);

    assert!(is_error(add_bmp(None, 1, 2), ServiceError::InvalidParameters));
    for (port, expected) in vec![(0, 11019), (0x1_0000, 11019), (5, 5)] {
        assert!(matches!(
            add_bmp(Some(addr(1)), port, 11019),
            Ok(SrvEvent::EnableActive { proto: Proto::Bmp, sockaddr })
                if sockaddr == SocketAddr { ip: addr(1), port: expected }
        ));
    }
}

#[test]
fn own_routes_are_added_until_one_is_turned_down() {
    let mut t = Table::new();
    connect(&mut t, 1, false);
    let hop = || vec![ReadAttribute::NextHop { next_hop: Some(addr(9)) }];
    let mut bad = request(3);
    bad.nlri = None;
    let routes = vec![(request(1), hop()), (request(2), hop()), (bad, hop()), (request(4), hop())];
    let (told, result) = add_paths(&mut t, &routes);
    assert_eq!(Err(ServiceError::EmptyNlri), result);
    let named: Vec<Nlri> = told
        .iter()
        .map(|e| match &e.1 {
            PeerEvent::Broadcast(TableUpdate::NewBest(n, _, _, _)) => *n,
            _ => panic!("not announced"),
        })
        .collect();
    assert_eq!(vec![nlri(1), nlri(2)], named);
    assert_eq!(2, get_table(&t, &None).num_destination);
    assert!(t.has_route(Family::Ipv4Uc, &nlri(2), &IpAddr::V4(0)));
    assert!(!t.has_route(Family::Ipv4Uc, &nlri(4), &IpAddr::V4(0)));

    let (told, result) = add_paths(&mut t, &vec![(request(4), hop())]);
    assert_eq!((1, Ok(())), (told.len(), result));
    let (told, result) = add_paths(&mut t, &Vec::new());
    assert_eq!((0, Ok(())), (told.len(), result));
    assert_eq!(3, get_table(&t, &None).num_destination);
}

#[test]
fn times_before_the_epoch_are_kept_and_not_shown() {
    let early = Timestamp { secs: -1, nanos: 5 };
    let mut g = Global::new(65000, 7);
    let mut p = Peer::new(addr(1), 65000);
    p.downtime = early;
    g.peers.insert(addr(1), p);
    g.peers.insert(addr(2), Peer::new(addr(2), 65000));
    let mut t = Table::new();
    // a peer that was never up shows no times
    assert!(can_list_peer(&g, None));
    assert_eq!(2, list_peer(&mut g, &t, None).len());
    g.peers.get_mut(&addr(1)).unwrap().uptime = NOW;
    assert!(!can_list_peer(&g, None));
    assert!(!can_list_peer(&g, Some(addr(1))));
    assert!(can_list_peer(&g, Some(addr(2))));
    let p = g.peers.get_mut(&addr(1)).unwrap();
    p.reset_at(NOW);
    assert!(p.can_show());
    p.uptime = early;
    assert!(!p.can_show());
    assert_eq!(early, p.to_bmp_ph().timestamp);

    put(&mut t, 1, 1, vec![seq(vec![1])]);
    let all = list(Some(TableType::Global), None);
    assert!(can_list_path(&t, &all));
    t.insert_at(
        Family::Ipv4Uc,
        nlri(2),
        source(1, false),
        addr(1),
        Arc::new(PathAttr { entry: Vec::new() }),
        early,
    );
    assert!(!can_list_path(&t, &all));
    assert!(try_list_path(&t, &all).is_none());
    // the route itself is not listed
    let others = list(Some(TableType::AdjIn), Some(addr(1)));
    assert!(try_list_path(&t, &others).is_some());

    let at = SocketAddr { ip: addr(3), port: 323 };
    t.rtr_sessions.insert(at, RtrSession::new());
    assert!(can_list_rpki(&t));
    assert_eq!(1, list_rpki(&t).len());
    t.rtr_sessions.get_mut(&at).unwrap().uptime = early;
    assert!(!can_list_rpki(&t));
}
