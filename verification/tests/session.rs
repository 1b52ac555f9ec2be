use std::sync::Arc;

use rustybgp::addr::{IpAddr, IpNet, SocketAddr};
use rustybgp::bgp::{
    Attribute, Capability, Family, Message, Nlri, NotificationCode, OpenMessage, OpenParam, State,
    UpdateMessage,
};
use rustybgp::bmp;
use rustybgp::cache::CacheSession;
use rustybgp::change::{apply_change_at, handle_table_update};
use rustybgp::event::{DisconnectedProto, Proto, SrvEvent, TableChange};
use rustybgp::path::{PathAttr, Source, TableUpdate};
use rustybgp::peer::{Global, Peer};
use rustybgp::roa::entries_under;
use rustybgp::rtr;
use rustybgp::rtr::{Prefix, RtrSession};
use rustybgp::server::{
    accept_any, is_dynamic_peer, is_wanted, knows_everyone, on_cache_down, on_cache_up_at,
    on_deconfigured, on_peer_connected, on_peer_down_at, on_station_connected, on_station_down,
    RETRY_SECS,
};
use rustybgp::session::{Session, Step};
use rustybgp::table::{PeerEvent, Table};
use rustybgp::time::Timestamp;

const NOW: Timestamp = Timestamp { secs: 100, nanos: 0 };

fn addr(last: u8) -> IpAddr {
    IpAddr::V4(0x0a00_0000 + last as u32)
}

fn nlri(third: u8) -> Nlri {
    Nlri::Ip(IpNet { addr: IpAddr::V4(0xc0a8_0000 + ((third as u32) << 8)), mask: 24 })
}

fn nlri6() -> Nlri {
    Nlri::Ip(IpNet { addr: IpAddr::V6(0x2001_0db8u128 << 96), mask: 32 })
}

/// A speaker with a peer at 10.0.0.1, which has just connected.
fn connected() -> (Global, Table) {
    let mut g = Global::new(65000, 7);
    let mut t = Table::new();
    let p = Peer::new(addr(1), 65000).families(vec![Family::Ipv4Uc, Family::Ipv6Uc]);
    g.peers.insert(addr(1), p);
    assert!(on_peer_connected(&mut t, &mut g, addr(1), addr(254)));
    (g, t)
}

fn open(as_number: u32, holdtime: u16, families: Vec<Family>) -> Message {
    let mut params = vec![OpenParam::UnknownParam];
    for family in families {
        params.push(OpenParam::CapabilityParam(Capability::MultiProtocol { family }));
    }
    params.push(OpenParam::CapabilityParam(Capability::RouteRefresh));
    Message::Open(OpenMessage { id: 9, as_number, holdtime, params })
}

fn establish(g: &mut Global, t: &mut Table, s: &mut Session, as_number: u32) -> Step {
    let msg = open(as_number, 90, vec![Family::Ipv6Uc, Family::Ipv4Uc, Family::Ipv4Uc]);
    assert!(matches!(s.on_message_at(g, t, msg, NOW), Step::SendKeepalive));
    s.on_message_at(g, t, Message::Keepalive, NOW)
}

#[test]
fn session_starts_with_an_open_message() {
    let (mut g, t) = connected();
    let (s, pdu) = Session::start(&mut g, &t, addr(1), addr(254), 180);
    assert_eq!(State::OpenSent, s.state);
    assert_eq!(60, s.keepalive_interval);
    assert_eq!(addr(1), s.source.address);
    assert_eq!(7, pdu.router_id);
    assert_eq!(4, pdu.capabilities.len());
    assert_eq!(1, g.peers.get(&addr(1)).unwrap().counter_tx.open);
    assert_eq!(1, g.peers.get(&addr(1)).unwrap().counter_tx.total);
}

#[test]
fn session_is_opened() {
    let (mut g, mut t) = connected();
    let (mut s, _) = Session::start(&mut g, &t, addr(1), addr(254), 180);
    let msg = open(3, 90, vec![Family::Ipv6Uc, Family::Unknown(5), Family::Ipv6Uc]);
    assert!(Session::can_take(&g, &addr(1), &msg));
    assert!(matches!(s.on_message(&mut g, &mut t, msg), Step::SendKeepalive));
    assert_eq!(State::OpenConfirm, s.state);
    assert_eq!(30, s.keepalive_interval);
    let p = g.peers.get(&addr(1)).unwrap();
    assert_eq!((3, 9, State::OpenConfirm), (p.remote_as, p.router_id, p.state));
    assert_eq!(4, p.remote_cap.len());
    assert_eq!((1, 1), (p.counter_rx.open, p.counter_tx.keepalive));
    assert_eq!(vec![Family::Ipv6Uc], t.bgp_sessions.get(&addr(1)).unwrap().families);
    // a longer hold time does not make the interval longer
    let msg = open(3, 600, Vec::new());
    assert!(matches!(s.on_message(&mut g, &mut t, msg), Step::SendKeepalive));
    assert_eq!(30, s.keepalive_interval);
    assert!(t.bgp_sessions.get(&addr(1)).unwrap().families.is_empty());
}

#[test]
fn session_with_the_wrong_as_is_refused() {
    let (mut g, mut t) = connected();
    g.peers.get_mut(&addr(1)).unwrap().remote_as = 4;
    let (mut s, _) = Session::start(&mut g, &t, addr(1), addr(254), 180);
    let step = s.on_message(&mut g, &mut t, open(3, 90, vec![Family::Ipv4Uc]));
    assert!(matches!(step, Step::Refuse(NotificationCode::OpenMessageBadPeerAs)));
    let p = g.peers.get(&addr(1)).unwrap();
    assert_eq!((4, 9, State::Idle), (p.remote_as, p.router_id, p.state));
    assert!(p.remote_cap.is_empty());
    assert_eq!(0, p.counter_tx.keepalive);
}

#[test]
fn session_comes_up() {
    let (mut g, mut t) = connected();
    let other = Arc::new(Source {
        address: addr(2),
        ibgp: false,
        local_as: 0,
        local_addr: addr(254),
        state: State::Established,
    });
    let attrs = Arc::new(PathAttr { entry: vec![Attribute::Origin { origin: 0 }] });
    t.insert_at(Family::Ipv4Uc, nlri(1), other, addr(2), attrs, NOW);
    t.bmp_sessions.insert(SocketAddr { ip: addr(99), port: 1 }, ());
    let (mut s, _) = Session::start(&mut g, &t, addr(1), addr(254), 180);
    assert!(!s.on_timer(&mut g));
    match establish(&mut g, &mut t, &mut s, 65000) {
        Step::Established(Some(bmp::Message::PeerUpNotification(m)), updates) => {
            assert_eq!(addr(1), m.local_address);
            assert_eq!((7, 9), (m.sent_open.router_id, m.received_open.router_id));
            assert_eq!((addr(1), 65000), (m.peer_header.address, m.peer_header.as_number));
            assert_eq!(NOW, m.peer_header.timestamp);
            assert_eq!(1, updates.len());
            match &updates[0] {
                TableUpdate::NewBest(n, nexthop, _, from) => {
                    assert_eq!((nlri(1), addr(2)), (*n, *nexthop));
                    assert_eq!(addr(1), from.address);
                }
                _ => panic!("withdrawn"),
            }
        }
        _ => panic!("not up"),
    }
    assert_eq!(State::Established, s.state);
    let expected = Source {
        address: addr(1),
        ibgp: true,
        local_as: 65000,
        local_addr: addr(254),
        state: State::Established,
    };
    assert_eq!(expected, *s.source);
    assert_eq!(expected, *t.bgp_sessions.get(&addr(1)).unwrap().source);
    let p = g.peers.get(&addr(1)).unwrap();
    assert_eq!((State::Established, NOW), (p.state, p.uptime));
    // the next one is only counted
    assert!(matches!(s.on_message(&mut g, &mut t, Message::Keepalive), Step::Continue));
    assert!(s.on_timer(&mut g));
    let p = g.peers.get(&addr(1)).unwrap();
    assert_eq!((2, 2), (p.counter_rx.keepalive, p.counter_tx.keepalive));
}

#[test]
fn nothing_is_sent_first_where_routes_are_collected() {
    let (mut g, mut t) = connected();
    t.disable_best_path_selection = true;
    let attrs = Arc::new(PathAttr { entry: Vec::new() });
    let local = t.local_source.clone();
    t.insert_at(Family::Ipv4Uc, nlri(1), local, addr(2), attrs, NOW);
    let (mut s, _) = Session::start(&mut g, &t, addr(1), addr(254), 180);
    match establish(&mut g, &mut t, &mut s, 1) {
        Step::Established(None, updates) => assert!(updates.is_empty()),
        _ => panic!("not up"),
    }
    assert!(!s.source.ibgp);
}

#[test]
fn update_messages_ask_for_changes() {
    let (mut g, mut t) = connected();
    let (mut s, _) = Session::start(&mut g, &t, addr(1), addr(254), 180);
    establish(&mut g, &mut t, &mut s, 1);
    let update = |attrs: Vec<Attribute>| {
        Message::Update(UpdateMessage {
            attrs,
            routes: vec![nlri(1), nlri(2)],
            withdrawns: vec![nlri(3), nlri6()],
            mp_routes: vec![(vec![nlri6()], IpAddr::V6(5))],
            nexthop: addr(3),
        })
    };
    let attrs = vec![Attribute::LocalPref { preference: 1 }, Attribute::Origin { origin: 0 }];
    let changes = match s.on_message(&mut g, &mut t, update(attrs)) {
        Step::Change(v) => v,
        _ => panic!("no changes"),
    };
    let what: Vec<(Family, Nlri, IpAddr, usize)> = changes
        .iter()
        .map(|c| (c.family, c.net, c.nexthop, c.attrs.entry.len()))
        .collect();
    assert_eq!(
        vec![
            (Family::Ipv4Uc, nlri(1), addr(3), 2),
            (Family::Ipv4Uc, nlri(2), addr(3), 2),
            (Family::Ipv6Uc, nlri6(), IpAddr::V6(5), 2),
            (Family::Ipv4Uc, nlri(3), IpAddr::V4(0), 0),
            (Family::Ipv6Uc, nlri6(), IpAddr::V4(0), 0),
        ],
        what
    );
    assert_eq!(Attribute::Origin { origin: 0 }, changes[0].attrs.entry[0]);
    assert!(changes.iter().all(|c| c.source.address == addr(1)));
    // without attributes nothing is announced
    match s.on_message(&mut g, &mut t, update(Vec::new())) {
        Step::Change(v) => assert_eq!(2, v.len()),
        _ => panic!("no changes"),
    }
    let p = g.peers.get(&addr(1)).unwrap();
    assert_eq!((2, 4), (p.counter_rx.update, p.counter_rx.withdraw_prefix));
}

#[test]
fn other_messages() {
    let (mut g, mut t) = connected();
    let (mut s, _) = Session::start(&mut g, &t, addr(1), addr(254), 180);
    let n = NotificationCode::Other(6, 2);
    assert!(matches!(s.on_message(&mut g, &mut t, Message::RouteRefresh(Family::Ipv4Uc)), Step::Continue));
    let unknown = Message::Unknown { length: 19, code: 9 };
    assert!(matches!(s.on_message(&mut g, &mut t, unknown), Step::Continue));
    assert!(matches!(s.on_message(&mut g, &mut t, Message::Notification(n)), Step::Close));
    s.on_notification(&mut g, NotificationCode::PeerDeconfigured);
    let p = g.peers.get(&addr(1)).unwrap();
    assert_eq!((3, 1, 1, 1), (p.counter_rx.total, p.counter_rx.refresh, p.counter_rx.discarded, p.counter_rx.notification));
    assert_eq!(1, p.counter_tx.notification);

    let (pdu, n) = s.on_broadcast(&TableUpdate::Withdrawn(nlri(1), s.source.clone()));
    assert_eq!(vec![nlri(1)], pdu.withdrawns);
    assert_eq!((1, 1), n);
    s.sent_updates(&mut g, 1, n);
    let attrs = Arc::new(PathAttr { entry: Vec::new() });
    let best = TableUpdate::NewBest(nlri(1), addr(2), attrs, s.source.clone());
    let (pdu, n) = s.on_broadcast(&best);
    assert_eq!(vec![nlri(1)], pdu.routes);
    assert_eq!((0, 0), n);
    s.sent_updates(&mut g, 1, n);
    let p = g.peers.get(&addr(1)).unwrap();
    assert_eq!((2, 1, 1), (p.counter_tx.update, p.counter_tx.withdraw_update, p.counter_tx.withdraw_prefix));
    assert!(matches!(
        s.end(),
        SrvEvent::Disconnected(DisconnectedProto::Bgp(x)) if x.address == addr(1)
    ));
}

fn change(source: &Arc<Source>, third: u8, attrs: Vec<Attribute>) -> TableChange {
    TableChange {
        family: Family::Ipv4Uc,
        net: nlri(third),
        source: source.clone(),
        nexthop: addr(3),
        attrs: Arc::new(PathAttr { entry: attrs }),
    }
}

#[test]
fn changes_are_made_and_counted() {
    let (mut g, mut t) = connected();
    let (mut s, _) = Session::start(&mut g, &t, addr(1), addr(254), 180);
    establish(&mut g, &mut t, &mut s, 1);
    g.peers.insert(addr(2), Peer::new(addr(2), 65000).families(vec![Family::Ipv4Uc]));
    assert!(on_peer_connected(&mut t, &mut g, addr(2), addr(254)));
    let (mut s2, _) = Session::start(&mut g, &t, addr(2), addr(254), 180);
    establish(&mut g, &mut t, &mut s2, 2);

    let origin = || vec![Attribute::Origin { origin: 0 }];
    let count = |t: &Table| {
        t.bgp_sessions.get(&addr(1)).unwrap().accepted.get(&Family::Ipv4Uc).cloned()
    };
    let (events, message) =
        apply_change_at(&mut t, &g, &change(&s.source, 1, origin()), NOW);
    assert_eq!(vec![addr(2)], events.iter().map(|e| e.0).collect::<Vec<_>>());
    assert!(message.is_none());
    assert_eq!(Some(1), count(&t));
    // announced again: not counted again
    handle_table_update(&mut t, &g, &change(&s.source, 1, origin()));
    assert_eq!(Some(1), count(&t));
    handle_table_update(&mut t, &g, &change(&s.source, 2, origin()));
    assert_eq!(Some(2), count(&t));

    t.bmp_sessions.insert(SocketAddr { ip: addr(99), port: 1 }, ());
    let c = change(&s.source, 1, Vec::new());
    assert!(t.can_apply(&c));
    let (events, message) = handle_table_update(&mut t, &g, &c);
    assert!(matches!(
        &events[0].1,
        PeerEvent::Broadcast(TableUpdate::Withdrawn(n, _)) if *n == nlri(1)
    ));
    match message {
        Some(bmp::Message::RouteMonitoring(m)) => {
            assert_eq!(addr(1), m.peer_header.address);
            assert_eq!(vec![nlri(1)], m.payload.withdrawns);
        }
        _ => panic!("not monitored"),
    }
    assert_eq!(Some(1), count(&t));
    // withdrawn again: not counted again
    let (events, _) = handle_table_update(&mut t, &g, &change(&s.source, 1, Vec::new()));
    assert!(events.is_empty());
    assert_eq!(Some(1), count(&t));
    let (_, message) = handle_table_update(&mut t, &g, &change(&s.source, 2, origin()));
    match message {
        Some(bmp::Message::RouteMonitoring(m)) => {
            assert_eq!(vec![nlri(2)], m.payload.routes);
            assert_eq!(Some(&Attribute::Nexthop { nexthop: addr(3) }), m.payload.attrs.last());
        }
        _ => panic!("not monitored"),
    }
}

#[test]
fn cache_session() {
    let at = SocketAddr { ip: addr(1), port: 323 };
    let mut t = Table::new();
    t.rtr_sessions.insert(at, RtrSession::new());
    let (mut s, first) = CacheSession::start(at);
    assert_eq!(rtr::Message::ResetQuery, first);
    let prefix = |third: u8, as_number: u32| {
        let Nlri::Ip(net) = nlri(third);
        rtr::Message::Ipv4Prefix(Prefix { net, max_length: 24, as_number })
    };
    let Nlri::Ip(net6) = nlri6();
    s.on_message(&mut t, &rtr::Message::CacheResponse);
    s.on_message(&mut t, &prefix(1, 1));
    s.on_message(&mut t, &prefix(1, 1));
    s.on_message(&mut t, &prefix(2, 1));
    s.on_message(&mut t, &rtr::Message::Ipv6Prefix(Prefix { net: net6, max_length: 48, as_number: 1 }));
    // nothing is known before the end of data
    assert_eq!(0, t.roa.v4.len());
    s.on_message(&mut t, &rtr::Message::EndOfData);
    assert_eq!((2, 1), (t.roa.v4.len(), t.roa.v6.len()));
    // what is not announced again is gone
    s.on_message(&mut t, &prefix(3, 1));
    s.on_message(&mut t, &rtr::Message::EndOfData);
    assert_eq!((1, 0), (t.roa.v4.len(), t.roa.v6.len()));
    let c = t.rtr_sessions.get(&at).unwrap();
    assert_eq!(4, c.rx_counter(rtr::IPV4_PREFIX));
    assert_eq!(1, c.rx_counter(rtr::IPV6_PREFIX));
    assert_eq!(2, c.rx_counter(rtr::END_OF_DATA));
    assert_eq!(1, c.rx_counter(rtr::CACHE_RESPONSE));
    assert_eq!(0, c.rx_counter(rtr::SERIAL_NOTIFY));
    let shown = c.to_api(&at, 1, 2, 3, 4);
    assert_eq!((1, 2, 3, 4), (shown.state.record_ipv4, shown.state.record_ipv6, shown.state.prefix_ipv4, shown.state.prefix_ipv6));
    assert_eq!((4, 1, 2), (shown.state.received_ipv4, shown.state.cache_response, shown.state.end_of_data));
    assert!(matches!(s.end(), SrvEvent::Disconnected(DisconnectedProto::Rtr(a)) if a == at));
}

#[test]
fn caches_keep_to_their_own() {
    let mut t = Table::new();
    let a = SocketAddr { ip: addr(1), port: 323 };
    let b = SocketAddr { ip: addr(2), port: 323 };
    t.rtr_sessions.insert(a, RtrSession::new());
    t.rtr_sessions.insert(b, RtrSession::new());
    let (mut s, _) = CacheSession::start(a);
    let (mut u, _) = CacheSession::start(b);
    let Nlri::Ip(net) = nlri(1);
    let msg = rtr::Message::Ipv4Prefix(Prefix { net, max_length: 24, as_number: 1 });
    for x in vec![&mut s, &mut u] {
        x.on_message(&mut t, &msg);
        x.on_message(&mut t, &rtr::Message::EndOfData);
    }
    s.on_message(&mut t, &rtr::Message::EndOfData);
    assert_eq!(1, t.roa.v4.len());
    u.on_message(&mut t, &rtr::Message::EndOfData);
    assert_eq!(0, t.roa.v4.len());
}

#[test]
fn connections_of_peers() {
    let mut g = Global::new(65000, 7);
    let mut t = Table::new();
    assert!(!on_peer_connected(&mut t, &mut g, addr(1), addr(254)));
    assert!(t.bgp_sessions.get(&addr(1)).is_none());
    accept_any(&mut g);
    assert!(is_dynamic_peer(&g, addr(1)));
    assert!(!is_dynamic_peer(&g, IpAddr::V6(1)));
    assert!(on_peer_connected(&mut t, &mut g, addr(1), addr(254)));
    let p = g.peers.get(&addr(1)).unwrap();
    assert_eq!((State::Active, 65000, true), (p.state, p.local_as, p.delete_on_disconnected));
    assert_eq!(Some(&Capability::MultiProtocol { family: Family::Ipv4Uc }), p.local_cap.last());
    let s = t.bgp_sessions.get(&addr(1)).unwrap();
    assert_eq!((addr(1), addr(254), State::Active), (s.source.address, s.source.local_addr, s.source.state));
    let at = SocketAddr { ip: addr(1), port: 179 };
    assert!(!is_wanted(&t, Proto::Bgp, &at));
    assert!(is_wanted(&t, Proto::Rtr, &at));
    assert!(is_wanted(&t, Proto::Bgp, &SocketAddr { ip: addr(2), port: 179 }));
    // a mapped address is looked up as it stands
    let mapped = IpAddr::V6(0xffff_0a00_0001);
    assert!(is_wanted(&t, Proto::Bgp, &SocketAddr { ip: mapped, port: 179 }));
    assert_eq!(addr(1), SocketAddr { ip: mapped, port: 179 }.to_ipaddr());
    assert_eq!(5, RETRY_SECS);
}

#[test]
fn end_of_a_session() {
    let (mut g, mut t) = connected();
    let (mut s, _) = Session::start(&mut g, &t, addr(1), addr(254), 180);
    establish(&mut g, &mut t, &mut s, 1);
    g.peers.get_mut(&addr(1)).unwrap().remote_port = 179;
    g.peers.insert(addr(2), Peer::new(addr(2), 65000).families(vec![Family::Ipv4Uc]));
    assert!(on_peer_connected(&mut t, &mut g, addr(2), addr(254)));
    let (mut s2, _) = Session::start(&mut g, &t, addr(2), addr(254), 180);
    establish(&mut g, &mut t, &mut s2, 2);
    let c = change(&s.source, 1, vec![Attribute::Origin { origin: 0 }]);
    handle_table_update(&mut t, &g, &c);
    t.bmp_sessions.insert(SocketAddr { ip: addr(99), port: 1 }, ());

    let down = on_peer_down_at(&mut t, &mut g, s.source.clone(), 4, NOW);
    assert_eq!(Some(SocketAddr { ip: addr(1), port: 179 }), down.retry);
    assert_eq!(vec![addr(2)], down.events.iter().map(|e| e.0).collect::<Vec<_>>());
    match down.message {
        Some(bmp::Message::PeerDownNotification(m)) => {
            assert_eq!((addr(1), 4), (m.peer_header.address, m.reason));
            assert!(m.payload.is_empty() && m.data.is_empty());
        }
        _ => panic!("not monitored"),
    }
    assert!(t.bgp_sessions.get(&addr(1)).is_none());
    assert!(t.adjin(addr(1), &Family::Ipv4Uc).is_empty());
    let p = g.peers.get(&addr(1)).unwrap();
    assert_eq!((State::Idle, NOW), (p.state, p.downtime));
    assert!(p.remote_cap.is_empty());

    // a peer that is to be forgotten
    assert!(matches!(
        on_deconfigured(&t, &mut g, addr(2)),
        Some((a, PeerEvent::Notification(NotificationCode::PeerDeconfigured))) if a == addr(2)
    ));
    let down = on_peer_down_at(&mut t, &mut g, s2.source.clone(), 4, NOW);
    assert!(down.retry.is_none());
    assert!(g.peers.get(&addr(2)).is_none());
    // one without a session is forgotten at once
    assert!(on_deconfigured(&t, &mut g, addr(1)).is_none());
    assert!(g.peers.get(&addr(1)).is_none());
    assert!(on_deconfigured(&t, &mut g, addr(1)).is_none());
}

#[test]
fn passive_peers_are_not_connected_again() {
    let (mut g, mut t) = connected();
    g.peers.get_mut(&addr(1)).unwrap().passive = true;
    let source = t.bgp_sessions.get(&addr(1)).unwrap().source.clone();
    let down = on_peer_down_at(&mut t, &mut g, source, 4, NOW);
    assert!(down.retry.is_none() && down.message.is_none() && down.events.is_empty());
    assert!(g.peers.get(&addr(1)).is_some());
}

#[test]
fn stations_are_told_what_there_is() {
    let (mut g, mut t) = connected();
    let (mut s, _) = Session::start(&mut g, &t, addr(1), addr(254), 180);
    establish(&mut g, &mut t, &mut s, 1);
    let c = change(&s.source, 1, vec![Attribute::Origin { origin: 0 }]);
    handle_table_update(&mut t, &g, &c);
    let local = t.local_source.clone();
    handle_table_update(&mut t, &g, &change(&local, 1, vec![Attribute::Origin { origin: 0 }]));
    let at = SocketAddr { ip: addr(99), port: 1 };
    assert!(knows_everyone(&t, &g));
    let m = on_station_connected(&mut t, &g, at).unwrap();
    assert_eq!(3, m.len());
    assert_eq!(bmp::Message::Initiation, m[0]);
    assert!(matches!(&m[1], bmp::Message::PeerUpNotification(u) if u.peer_header.address == addr(1)));
    assert!(matches!(&m[2], bmp::Message::RouteMonitoring(r) if r.payload.routes == vec![nlri(1)]));
    assert!(on_station_connected(&mut t, &g, at).is_none());
    assert_eq!(at, on_station_down(&mut t, at));
    assert!(on_station_connected(&mut t, &g, at).is_some());
    assert_eq!(("RusytBGP", "master"), (bmp::SYS_NAME, bmp::SYS_DESCR));
    g.peers.remove(&addr(1));
    assert!(!knows_everyone(&t, &g));
}

#[test]
fn connections_of_caches() {
    let mut t = Table::new();
    let at = SocketAddr { ip: addr(1), port: 323 };
    let near = SocketAddr { ip: addr(254), port: 40000 };
    assert!(on_cache_down(&t, at).is_none());
    t.rtr_sessions.insert(at, RtrSession::new());
    on_cache_up_at(&mut t, at, near, NOW);
    let s = t.rtr_sessions.get(&at).unwrap();
    assert_eq!((Some(near), NOW), (s.local_address, s.uptime));
    assert!(s.to_api(&at, 0, 0, 0, 0).state.up);
    assert_eq!(Some(at), on_cache_down(&t, at));
}

#[test]
fn changes_of_one_peer_leave_the_counts_of_others() {
    let (mut g, mut t) = connected();
    let (mut s, _) = Session::start(&mut g, &t, addr(1), addr(254), 180);
    establish(&mut g, &mut t, &mut s, 1);
    g.peers.insert(addr(2), Peer::new(addr(2), 65000).families(vec![Family::Ipv4Uc]));
    assert!(on_peer_connected(&mut t, &mut g, addr(2), addr(254)));
    let (mut s2, _) = Session::start(&mut g, &t, addr(2), addr(254), 180);
    establish(&mut g, &mut t, &mut s2, 2);
    let origin = || vec![Attribute::Origin { origin: 0 }];
    let counts = |t: &Table| -> Vec<u64> {
        vec![addr(1), addr(2)]
            .iter()
            .map(|a| *t.bgp_sessions.get(a).unwrap().accepted.get(&Family::Ipv4Uc).unwrap_or(&0))
            .collect()
    };
    handle_table_update(&mut t, &g, &change(&s.source, 1, origin()));
    handle_table_update(&mut t, &g, &change(&s2.source, 1, origin()));
    handle_table_update(&mut t, &g, &change(&s2.source, 2, origin()));
    assert_eq!(vec![1, 2], counts(&t));
    // a route that the peer has not announced, though another has
    handle_table_update(&mut t, &g, &change(&s.source, 2, Vec::new()));
    assert_eq!(vec![1, 2], counts(&t));
    handle_table_update(&mut t, &g, &change(&s.source, 1, Vec::new()));
    assert_eq!(vec![0, 2], counts(&t));
    handle_table_update(&mut t, &g, &change(&s2.source, 1, origin()));
    assert_eq!(vec![0, 2], counts(&t));
}

#[test]
fn messages_of_other_types_are_only_counted() {
    let at = SocketAddr { ip: addr(1), port: 323 };
    let mut t = Table::new();
    t.rtr_sessions.insert(at, RtrSession::new());
    let (mut s, _) = CacheSession::start(at);
    let Nlri::Ip(net) = nlri(1);
    s.on_message(&mut t, &rtr::Message::Ipv4Prefix(Prefix { net, max_length: 24, as_number: 1 }));
    s.on_message(&mut t, &rtr::Message::Other(9));
    s.on_message(&mut t, &rtr::Message::SerialQuery);
    assert_eq!((1, 0), (s.pending.len(), t.roa.v4.len()));
    let c = t.rtr_sessions.get(&at).unwrap();
    assert_eq!((1, 1, 1), (c.rx_counter(9), c.rx_counter(rtr::SERIAL_QUERY), c.rx_counter(rtr::IPV4_PREFIX)));
    assert_eq!(0, c.rx_counter(rtr::CACHE_RESET));
}

#[test]
fn what_a_cache_announces_stands_once() {
    let at = SocketAddr { ip: addr(1), port: 323 };
    let mut t = Table::new();
    t.rtr_sessions.insert(at, RtrSession::new());
    let (mut s, _) = CacheSession::start(at);
    let Nlri::Ip(net) = nlri(1);
    let prefix = |as_number: u32| rtr::Message::Ipv4Prefix(Prefix { net, max_length: 24, as_number });
    for as_number in vec![1, 2, 1, 1] {
        s.on_message(&mut t, &prefix(as_number));
    }
    assert!(s.pending.iter().all(|e| e.1.source == s.source));
    s.on_message(&mut t, &rtr::Message::EndOfData);
    let numbers: Vec<u32> =
        entries_under(&t.roa.v4, &Vec::new())[0].1.iter().map(|r| r.as_number).collect();
    assert_eq!(vec![1, 2], numbers);
}
