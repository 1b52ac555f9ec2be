use std::sync::Arc;

use rustybgp::addr::{IpAddr, IpNet};
use rustybgp::bgp::{Attribute, Family, Nlri, Segment, State, SEGMENT_SEQ, SEGMENT_SET};
use rustybgp::path::{Path, PathAttr, Source, TableUpdate};
use rustybgp::table::{BgpSession, PeerEvent, Table};
use rustybgp::time::Timestamp;

const NOW: Timestamp = Timestamp { secs: 100, nanos: 0 };

fn addr(last: u8) -> IpAddr {
    IpAddr::V4(0x0a00_0000 + last as u32)
}

fn source(last: u8) -> Arc<Source> {
    Arc::new(Source {
        address: addr(last),
        ibgp: false,
        local_as: 65000,
        local_addr: addr(254),
        state: State::Established,
    })
}

fn net(third: u8) -> Nlri {
    Nlri::Ip(IpNet { addr: IpAddr::V4(0xc0a8_0000 + ((third as u32) << 8)), mask: 24 })
}

fn pa(attrs: Vec<Attribute>) -> Arc<PathAttr> {
    Arc::new(PathAttr { entry: attrs })
}

fn pref(preference: u32) -> Arc<PathAttr> {
    pa(vec![Attribute::LocalPref { preference }])
}

fn seg(segment_type: u8, number: Vec<u32>) -> Segment {
    Segment { segment_type, number }
}

fn put(t: &mut Table, n: Nlri, s: u8, attrs: Arc<PathAttr>) -> (Option<TableUpdate>, bool) {
    t.insert_at(Family::Ipv4Uc, n, source(s), addr(s), attrs, NOW)
}

fn order(t: &Table, n: Nlri) -> Vec<IpAddr> {
    match t.master_iter(&Family::Ipv4Uc).get(&n) {
        Some(d) => d.entry.iter().map(|p| p.source.address).collect(),
        None => Vec::new(),
    }
}

fn best(u: &Option<TableUpdate>) -> Option<(Nlri, IpAddr, IpAddr)> {
    match u {
        Some(TableUpdate::NewBest(n, nexthop, _, s)) => Some((*n, *nexthop, s.address)),
        _ => None,
    }
}

fn is_withdrawn(u: &Option<TableUpdate>, n: Nlri, a: IpAddr) -> bool {
    match u {
        Some(TableUpdate::Withdrawn(m, s)) => *m == n && s.address == a,
        _ => false,
    }
}

#[test]
fn attributes_of_a_route() {
    let p = Path::at(source(1), addr(1), pa(Vec::new()), NOW);
    assert_eq!(100, p.get_local_preference());
    assert_eq!(0, p.get_as_len());
    assert_eq!(0, p.get_origin());
    assert_eq!(0, p.get_med());
    let p = Path::at(
        source(1),
        addr(1),
        pa(vec![
            Attribute::Origin { origin: 2 },
            Attribute::AsPath {
                segments: vec![
                    seg(SEGMENT_SEQ, vec![1, 2, 3]),
                    seg(SEGMENT_SET, vec![4, 5]),
                    seg(9, vec![6]),
                ],
            },
            Attribute::LocalPref { preference: 7 },
            Attribute::MultiExitDesc { descriptor: 8 },
            Attribute::MultiExitDesc { descriptor: 9 },
        ]),
        NOW,
    );
    assert_eq!(7, p.get_local_preference());
    assert_eq!(4, p.get_as_len());
    assert_eq!(2, p.get_origin());
    assert_eq!(8, p.get_med());
}

#[test]
fn better_routes_go_in_front() {
    let mut t = Table::new();
    let n = net(1);
    let (u, added) = put(&mut t, n, 1, pref(100));
    assert_eq!(Some((n, addr(1), addr(1))), best(&u));
    assert!(added);
    // no better in any respect: goes to the end, and is not told about
    let (u, added) = put(&mut t, n, 2, pref(100));
    assert!(u.is_none());
    assert!(added);
    assert_eq!(vec![addr(1), addr(2)], order(&t, n));
    let (u, _) = put(&mut t, n, 3, pref(200));
    assert_eq!(Some((n, addr(3), addr(3))), best(&u));
    assert_eq!(vec![addr(3), addr(1), addr(2)], order(&t, n));
    // a route from the same source takes the place of the one before
    let (u, added) = put(&mut t, n, 3, pref(50));
    assert!(!added);
    assert_eq!(vec![addr(1), addr(2), addr(3)], order(&t, n));
    // the best route has changed: the update names its source, with the next hop of the new route
    assert_eq!(Some((n, addr(3), addr(1))), best(&u));
}

#[test]
fn every_respect_decides() {
    let path = |len: usize| Attribute::AsPath { segments: vec![seg(SEGMENT_SEQ, vec![1; len])] };
    for (worse, better) in vec![
        (vec![Attribute::LocalPref { preference: 99 }], vec![]),
        (vec![path(3)], vec![path(2)]),
        (vec![Attribute::Origin { origin: 1 }], vec![Attribute::Origin { origin: 0 }]),
        (vec![Attribute::MultiExitDesc { descriptor: 1 }], vec![]),
    ] {
        let mut t = Table::new();
        put(&mut t, net(1), 1, pa(worse));
        put(&mut t, net(1), 2, pa(better));
        assert_eq!(vec![addr(2), addr(1)], order(&t, net(1)));
    }
}

#[test]
fn collected_routes_go_in_front_unannounced() {
    let mut t = Table::new();
    t.disable_best_path_selection = true;
    let n = net(1);
    let (u, added) = put(&mut t, n, 1, pref(200));
    assert!(u.is_none() && added);
    let (u, added) = put(&mut t, n, 2, pref(100));
    assert!(u.is_none() && added);
    assert_eq!(vec![addr(2), addr(1)], order(&t, n));
}

#[test]
fn a_route_that_comes_again_changes_nothing() {
    let mut t = Table::new();
    let n = net(1);
    put(&mut t, n, 1, pref(100));
    put(&mut t, n, 2, pref(200));
    put(&mut t, n, 3, pref(50));
    let before = order(&t, n);
    assert_eq!(vec![addr(2), addr(1), addr(3)], before);
    // in the middle: nobody is told
    let (u, added) = put(&mut t, n, 1, pref(100));
    assert!(u.is_none() && !added);
    assert_eq!(before, order(&t, n));
    // in front: the best route has to be looked at again
    let (u, added) = put(&mut t, n, 2, pref(200));
    assert_eq!(Some((n, addr(2), addr(2))), best(&u));
    assert!(!added);
    assert_eq!(before, order(&t, n));
}

#[test]
fn insert_then_remove() {
    let mut t = Table::new();
    let n = net(1);
    put(&mut t, n, 1, pref(100));
    put(&mut t, n, 2, pref(50));
    let before = order(&t, n);
    put(&mut t, n, 3, pref(200));
    let (u, deleted) = t.remove(Family::Ipv4Uc, n, source(3));
    assert!(deleted);
    assert_eq!(Some((n, addr(1), addr(1))), best(&u));
    assert_eq!(before, order(&t, n));
    // a route that is not the best one goes without a word
    let (u, deleted) = t.remove(Family::Ipv4Uc, n, source(2));
    assert!(deleted && u.is_none());
    let (u, deleted) = t.remove(Family::Ipv4Uc, n, source(2));
    assert!(!deleted && u.is_none());
    let (u, deleted) = t.remove(Family::Ipv4Uc, n, source(1));
    assert!(deleted);
    assert!(is_withdrawn(&u, n, addr(1)));
    assert!(order(&t, n).is_empty());
    let (u, deleted) = t.remove(Family::Ipv6Uc, n, source(1));
    assert!(!deleted && u.is_none());
}

#[test]
fn clear_takes_out_all_routes_of_a_source() {
    let mut t = Table::new();
    // alone, in front, behind, and not at all
    put(&mut t, net(1), 1, pref(100));
    put(&mut t, net(2), 1, pref(200));
    put(&mut t, net(2), 2, pref(100));
    put(&mut t, net(3), 2, pref(200));
    put(&mut t, net(3), 1, pref(100));
    put(&mut t, net(4), 2, pref(100));
    let updates = t.clear(source(1));
    assert_eq!(2, updates.len());
    assert_eq!(Family::Ipv4Uc, updates[0].0);
    let mut updates: Vec<Option<TableUpdate>> = updates.into_iter().map(|u| Some(u.1)).collect();
    assert!(is_withdrawn(&updates.remove(0), net(1), addr(1)));
    // the update names the source that is gone, with the route that is left
    assert_eq!(Some((net(2), addr(2), addr(1))), best(&updates[0]));
    assert!(order(&t, net(1)).is_empty());
    for n in 2..5 {
        assert_eq!(vec![addr(2)], order(&t, net(n)));
    }
    assert!(t.clear(source(1)).is_empty());
}

#[test]
fn routes_of_a_peer() {
    let mut t = Table::new();
    put(&mut t, net(1), 1, pref(100));
    put(&mut t, net(1), 2, pref(100));
    put(&mut t, net(2), 2, pref(100));
    let l = t.adjin(addr(1), &Family::Ipv4Uc);
    assert_eq!(1, l.len());
    assert_eq!(net(1), l[0].0);
    assert_eq!(1, l[0].1.len());
    assert_eq!(addr(1), l[0].1[0].source.address);
    assert_eq!(2, t.adjin(addr(2), &Family::Ipv4Uc).len());
    assert!(t.adjin(addr(3), &Family::Ipv4Uc).is_empty());
    // a family without a table has no routes
    assert!(t.adjin(addr(1), &Family::Ipv6Uc).is_empty());
}

fn session(last: u8, ibgp: bool, state: State, families: Vec<Family>) -> BgpSession {
    let mut s = BgpSession::new(Arc::new(Source { ibgp, state, ..*source(last) }));
    s.families = families;
    s
}

#[test]
fn updates_go_to_the_other_peers() {
    let mut t = Table::new();
    let v4 = vec![Family::Ipv4Uc];
    for s in vec![
        session(1, false, State::Established, v4.clone()),
        session(2, true, State::Established, v4.clone()),
        session(3, false, State::OpenConfirm, v4.clone()),
        session(4, false, State::Established, vec![Family::Ipv6Uc]),
        session(5, false, State::Established, vec![Family::Ipv6Uc, Family::Ipv4Uc]),
    ] {
        t.bgp_sessions.insert(s.source.address, s);
    }
    let told = |from: Source| -> Vec<IpAddr> {
        let u = TableUpdate::Withdrawn(net(1), Arc::new(from));
        let r = t.broadcast(&from, Family::Ipv4Uc, &u);
        for e in &r {
            assert!(matches!(&e.1, PeerEvent::Broadcast(TableUpdate::Withdrawn(n, _)) if *n == net(1)));
        }
        r.iter().map(|e| e.0).collect()
    };
    assert_eq!(vec![addr(1), addr(2), addr(5)], told(*source(9)));
    assert_eq!(vec![addr(2), addr(5)], told(*source(1)));
    assert_eq!(vec![addr(1), addr(5)], told(Source { ibgp: true, ..*source(9) }));
    assert!(t.pass_on(&source(9), Family::Ipv4Uc, &None).is_empty());
}

#[test]
fn accepted_routes_are_counted() {
    let mut s = session(1, false, State::Established, Vec::new());
    s.update_accepted(Family::Ipv4Uc, -1);
    assert!(s.accepted.get(&Family::Ipv4Uc).is_none());
    s.update_accepted(Family::Ipv4Uc, 1);
    s.update_accepted(Family::Ipv4Uc, 1);
    s.update_accepted(Family::Ipv6Uc, 1);
    s.update_accepted(Family::Ipv4Uc, -1);
    assert_eq!(Some(&1), s.accepted.get(&Family::Ipv4Uc));
    assert_eq!(Some(&1), s.accepted.get(&Family::Ipv6Uc));
}

#[test]
fn routes_carry_the_time() {
    let mut t = Table::new();
    t.insert(Family::Ipv4Uc, net(1), source(1), addr(1), pref(100));
    let d = t.master_iter(&Family::Ipv4Uc).get(&net(1)).unwrap();
    // the clock has been read
    assert!(d.entry[0].timestamp.secs > 1_500_000_000);
    assert_eq!(0, d.entry[0].as_number);
    let p = Path::new(source(1), addr(1), pref(1));
    assert!(p.timestamp.secs >= d.entry[0].timestamp.secs);
}

#[test]
fn tables_are_copied() {
    let mut t = Table::new();
    put(&mut t, net(1), 1, pref(100));
    put(&mut t, net(1), 2, pref(200));
    put(&mut t, net(2), 2, pref(100));
    let mut s = session(1, true, State::Established, vec![Family::Ipv4Uc]);
    s.update_accepted(Family::Ipv4Uc, 1);
    t.bgp_sessions.insert(addr(1), s);
    let copy = t.clone();
    t.clear(source(2));
    t.bgp_sessions.get_mut(&addr(1)).unwrap().update_accepted(Family::Ipv4Uc, 1);
    assert_eq!((vec![addr(1)], vec![]), (order(&t, net(1)), order(&t, net(2))));
    assert_eq!(vec![addr(2), addr(1)], order(&copy, net(1)));
    assert_eq!(vec![addr(2)], order(&copy, net(2)));
    let s = copy.bgp_sessions.get(&addr(1)).unwrap();
    assert_eq!((Some(&1), vec![Family::Ipv4Uc]), (s.accepted.get(&Family::Ipv4Uc), s.families.clone()));
    assert_eq!(t.local_source.address, copy.local_source.address);
}
