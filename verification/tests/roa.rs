use std::sync::Arc;

use rustybgp::addr::{IpAddr, IpNet};
use rustybgp::api;
use rustybgp::api::{ValidationReason, ValidationState};
use rustybgp::bgp::{Attribute, Family, Nlri, Segment, State, SEGMENT_SEQ, SEGMENT_SET};
use rustybgp::path::{Path, PathAttr, Source};
use rustybgp::roa::{entries_under, key_of, no_entries, to_net, Roa, RoaTable};
use rustybgp::service::{list_rpki, list_rpki_table};
use rustybgp::table::Table;
use rustybgp::time::Timestamp;

fn v4(a: u8, b: u8, c: u8, d: u8) -> IpAddr {
    IpAddr::V4(u32::from_be_bytes([a, b, c, d]))
}

fn net(s: &str) -> IpNet {
    let (addr, mask) = s.split_once('/').unwrap();
    let o: Vec<u8> = addr.split('.').map(|x| x.parse().unwrap()).collect();
    IpNet { addr: v4(o[0], o[1], o[2], o[3]), mask: mask.parse().unwrap() }
}

fn source(last: u8) -> Arc<Source> {
    Arc::new(Source {
        address: v4(1, 0, 0, last),
        ibgp: false,
        local_as: 0,
        local_addr: v4(1, 0, 0, last),
        state: State::Idle,
    })
}

fn roa(max_length: u8, as_number: u32, s: &Arc<Source>) -> Roa {
    Roa { max_length, as_number, source: s.clone() }
}

#[test]
fn roa_clear() {
    let mut rt = RoaTable::new();

    let s1 = source(1);
    let s2 = source(2);

    let net1 = net("1.1.1.0/24");
    rt.insert(net1, roa(24, 1, &s1));
    rt.insert(net1, roa(24, 1, &s2));
    rt.insert(net("1.1.2.0/24"), roa(24, 1, &s1));

    assert_eq!(2, rt.v4.len());
    rt.clear(s1.clone());
    assert_eq!(1, rt.v4.len());
}

#[test]
fn roa_announced_twice_is_kept_once() {
    let mut rt = RoaTable::new();
    let s1 = source(1);
    let n = net("10.0.0.0/8");
    rt.insert(n, roa(16, 7, &s1));
    rt.insert(n, roa(16, 7, &s1));
    let all = Vec::new();
    assert_eq!(1, entries_under(&rt.v4, &all)[0].1.len());
    // another length, another AS and another source each make another authorization
    rt.insert(n, roa(17, 7, &s1));
    rt.insert(n, roa(16, 8, &s1));
    rt.insert(n, roa(16, 7, &source(2)));
    let entries = entries_under(&rt.v4, &all);
    assert_eq!(1, entries.len());
    let list: Vec<(u8, u32)> = entries[0].1.iter().map(|r| (r.max_length, r.as_number)).collect();
    assert_eq!(vec![(16, 7), (17, 7), (16, 8), (16, 7)], list);
}

#[test]
fn roa_clear_keeps_the_order_of_the_others() {
    let mut rt = RoaTable::new();
    let s1 = source(1);
    let s2 = source(2);
    let n = net("10.0.0.0/8");
    rt.insert(n, roa(16, 1, &s2));
    rt.insert(n, roa(16, 2, &s1));
    rt.insert(n, roa(16, 3, &s2));
    rt.insert(n, roa(16, 4, &s1));
    rt.clear(s1.clone());
    rt.clear(s1);
    let all = Vec::new();
    let numbers: Vec<u32> =
        entries_under(&rt.v4, &all)[0].1.iter().map(|r| r.as_number).collect();
    assert_eq!(vec![1, 3], numbers);
    rt.clear(s2);
    assert!(no_entries(&rt.v4));
}

#[test]
fn roa_families_are_kept_apart() {
    let mut rt = RoaTable::new();
    let s1 = source(1);
    let v6 = IpNet { addr: IpAddr::V6(0x2001_0db8u128 << 96), mask: 32 };
    rt.insert(v6, roa(48, 1, &s1));
    assert!(no_entries(rt.t(Family::Ipv4Uc)));
    assert!(!no_entries(rt.t(Family::Ipv6Uc)));
    // every other family has the authorizations of IPv6 prefixes
    assert!(!no_entries(rt.t(Family::Unknown(9))));
    rt.clear(s1);
    assert!(no_entries(&rt.v6));
}

#[test]
fn roa_keys_stand_for_their_prefixes() {
    let n = net("192.0.2.0/24");
    assert_eq!(vec![192, 0, 2, 0, 24], key_of(&n));
    assert_eq!(n, to_net(&key_of(&n)));
    let m = IpNet { addr: IpAddr::V6(0x2001_0db8_0000_0000_0000_0000_0000_0001), mask: 128 };
    assert_eq!(17, key_of(&m).len());
    assert_eq!(m, to_net(&key_of(&m)));
}

#[test]
fn roa_entries_come_in_the_order_of_their_keys() {
    let mut rt = RoaTable::new();
    let s1 = source(1);
    for n in &["10.2.0.0/16", "9.0.0.0/8", "10.1.0.0/16", "10.1.0.0/24"] {
        rt.insert(net(n), roa(32, 1, &s1));
    }
    let all = Vec::new();
    let nets: Vec<IpNet> = entries_under(&rt.v4, &all).iter().map(|e| to_net(&e.0)).collect();
    assert_eq!(
        vec![net("9.0.0.0/8"), net("10.1.0.0/16"), net("10.1.0.0/24"), net("10.2.0.0/16")],
        nets
    );
    let ten = vec![10, 1];
    assert_eq!(2, entries_under(&rt.v4, &ten).len());
}

fn path(attrs: Vec<Attribute>) -> Path {
    let s = Arc::new(Source {
        address: v4(192, 168, 0, 1),
        ibgp: false,
        local_as: 65000,
        local_addr: v4(192, 168, 0, 2),
        state: State::Established,
    });
    Path::at(
        s,
        v4(192, 168, 0, 1),
        Arc::new(PathAttr { entry: attrs }),
        Timestamp { secs: 11, nanos: 22 },
    )
}

fn as_path(segments: Vec<(u8, Vec<u32>)>) -> Attribute {
    Attribute::AsPath {
        segments: segments
            .into_iter()
            .map(|(segment_type, number)| Segment { segment_type, number })
            .collect(),
    }
}

#[test]
fn validation_states() {
    let mut rt = RoaTable::new();
    let cache = source(1);
    rt.insert(net("10.1.0.0/16"), roa(24, 65001, &cache));
    rt.insert(net("10.1.0.0/16"), roa(24, 65002, &cache));
    rt.insert(net("10.1.0.0/16"), roa(16, 65001, &cache));
    let p = path(Vec::new());
    let a = as_path(vec![(SEGMENT_SEQ, vec![1, 65001])]);

    let v = p.to_validate_api(net("10.1.0.0/16"), &rt.v4, Some(&a));
    assert_eq!(ValidationState::Valid, v.state);
    assert_eq!(ValidationReason::NoReason, v.reason);
    assert_eq!(2, v.matched.len());
    assert_eq!(1, v.unmatched_as.len());
    assert_eq!(0, v.unmatched_length.len());
    assert_eq!(
        api::Roa {
            as_number: 65001,
            prefixlen: 16,
            maxlen: 24,
            prefix: v4(10, 1, 0, 0),
            conf: api::RpkiConf { address: v4(1, 0, 0, 1), remote_port: 0 },
        },
        v.matched[0]
    );

    // nobody else may announce it
    let b = as_path(vec![(SEGMENT_SEQ, vec![65001, 3])]);
    let v = p.to_validate_api(net("10.1.0.0/16"), &rt.v4, Some(&b));
    assert_eq!(ValidationState::Invalid, v.state);
    assert_eq!(ValidationReason::As, v.reason);
    assert_eq!(3, v.unmatched_as.len());

    // a prefix is held against those that start with the octets it reaches into
    let v = p.to_validate_api(net("10.1.0.0/15"), &rt.v4, Some(&a));
    assert_eq!(ValidationState::Valid, v.state);
    let v = p.to_validate_api(net("10.1.1.0/24"), &rt.v4, Some(&a));
    assert_eq!(ValidationState::NotFound, v.state);

    // a prefix that is too long
    let mut long = RoaTable::new();
    long.insert(net("10.2.1.0/24"), roa(22, 65001, &cache));
    let v = p.to_validate_api(net("10.2.1.0/24"), &long.v4, Some(&a));
    assert_eq!(ValidationState::Invalid, v.state);
    assert_eq!(ValidationReason::Length, v.reason);
    assert_eq!(1, v.unmatched_length.len());

    // nothing is known about it
    let v = p.to_validate_api(net("11.0.0.0/8"), &rt.v4, Some(&a));
    assert_eq!(ValidationState::NotFound, v.state);
    assert_eq!(ValidationReason::NoReason, v.reason);
}

#[test]
fn validation_origin() {
    let mut rt = RoaTable::new();
    let cache = source(1);
    // the own AS number of the session stands for routes whose path does not end in a sequence
    rt.insert(net("10.0.0.0/8"), roa(8, 65000, &cache));
    let p = path(Vec::new());
    let n = net("10.0.0.0/8");
    for a in vec![
        as_path(vec![(SEGMENT_SEQ, vec![])]),
        as_path(vec![(SEGMENT_SEQ, vec![9]), (SEGMENT_SET, vec![9])]),
        Attribute::AtomicAggregate,
    ] {
        assert_eq!(ValidationState::Valid, p.to_validate_api(n, &rt.v4, Some(&a)).state);
    }
    assert_eq!(ValidationState::Valid, p.to_validate_api(n, &rt.v4, None).state);
    let a = as_path(vec![(SEGMENT_SET, vec![9]), (SEGMENT_SEQ, vec![9])]);
    assert_eq!(ValidationState::Invalid, p.to_validate_api(n, &rt.v4, Some(&a)).state);
}

#[test]
fn validation_zero_as_matches_nothing() {
    let mut rt = RoaTable::new();
    rt.insert(net("10.0.0.0/8"), roa(8, 0, &source(1)));
    let p = path(Vec::new());
    let a = as_path(vec![(SEGMENT_SEQ, vec![0])]);
    let v = p.to_validate_api(net("10.0.0.0/8"), &rt.v4, Some(&a));
    assert_eq!(ValidationState::Invalid, v.state);
    assert_eq!(1, v.unmatched_as.len());
}

#[test]
fn path_is_shown() {
    let rt = RoaTable::new();
    let p = path(Vec::new());
    let attrs = vec![
        Attribute::Origin { origin: 2 },
        as_path(vec![(SEGMENT_SEQ, vec![1, 2])]),
        Attribute::Nexthop { nexthop: v4(9, 9, 9, 9) },
        Attribute::MultiExitDesc { descriptor: 5 },
        Attribute::LocalPref { preference: 6 },
        Attribute::AtomicAggregate,
        Attribute::Aggregator { four_byte: true, number: 7, address: v4(7, 7, 7, 7) },
        Attribute::Community { communities: vec![8, 9] },
        Attribute::OriginatorId { address: v4(1, 1, 1, 1) },
        Attribute::ClusterList { addresses: vec![v4(2, 2, 2, 2)] },
        Attribute::Other { flags: 64, code: 99, value: vec![1] },
    ];
    let n = Nlri::Ip(net("10.0.0.0/8"));
    let shown = p.to_api(&n, v4(3, 3, 3, 3), attrs.iter().collect(), &rt.v4);
    assert_eq!(
        api::Path {
            nlri: api::IpAddressPrefix { prefix: v4(10, 0, 0, 0), prefix_len: 8 },
            family: api::Family { afi: 1, safi: 1 },
            age: api::Timestamp { seconds: 11, nanos: 22 },
            pattrs: vec![
                api::PathAttribute::Origin { origin: 2 },
                api::PathAttribute::AsPath {
                    segments: vec![api::AsSegment { segment_type: 2, numbers: vec![1, 2] }],
                },
                api::PathAttribute::MultiExitDisc { med: 5 },
                api::PathAttribute::LocalPref { local_pref: 6 },
                api::PathAttribute::AtomicAggregate,
                api::PathAttribute::Aggregator { as_number: 7, address: v4(7, 7, 7, 7) },
                api::PathAttribute::Communities { communities: vec![8, 9] },
                api::PathAttribute::OriginatorId { id: v4(1, 1, 1, 1) },
                api::PathAttribute::ClusterList { ids: vec![v4(2, 2, 2, 2)] },
                api::PathAttribute::NextHop { next_hop: v4(3, 3, 3, 3) },
            ],
            validation: None,
            best: false,
        },
        shown
    );
}

#[test]
fn path_is_held_against_the_last_as_path() {
    let mut rt = RoaTable::new();
    rt.insert(net("10.0.0.0/8"), roa(8, 2, &source(1)));
    let p = path(Vec::new());
    let n = Nlri::Ip(net("10.0.0.0/8"));
    let attrs =
        vec![as_path(vec![(SEGMENT_SEQ, vec![1])]), as_path(vec![(SEGMENT_SEQ, vec![2])])];
    let shown = p.to_api(&n, v4(3, 3, 3, 3), attrs.iter().collect(), &rt.v4);
    assert_eq!(ValidationState::Valid, shown.validation.unwrap().state);
}

#[test]
fn authorizations_are_listed() {
    let mut t = Table::new();
    let s1 = source(1);
    let v6 = IpNet { addr: IpAddr::V6(0x2001_0db8u128 << 96), mask: 32 };
    t.roa.insert(net("10.1.0.0/16"), roa(24, 1, &s1));
    t.roa.insert(net("10.1.0.0/16"), roa(24, 2, &s1));
    t.roa.insert(net("9.0.0.0/8"), roa(8, 3, &s1));
    t.roa.insert(v6, roa(48, 4, &s1));

    let numbers = |f: Option<api::Family>| -> Vec<(u32, u32)> {
        list_rpki_table(&t, &f).iter().map(|r| (r.as_number, r.prefixlen)).collect()
    };
    assert_eq!(vec![(3, 8), (1, 16), (2, 16), (4, 32)], numbers(None));
    assert_eq!(
        vec![(3, 8), (1, 16), (2, 16)],
        numbers(Some(api::Family { afi: 1, safi: 1 }))
    );
    assert_eq!(vec![(4, 32)], numbers(Some(api::Family { afi: 2, safi: 1 })));
    assert!(numbers(Some(api::Family { afi: 3, safi: 1 })).is_empty());
    assert_eq!(v6.addr, list_rpki_table(&t, &None)[3].prefix);
    // no cache is configured
    assert!(list_rpki(&t).is_empty());
}

#[test]
fn each_authorization_is_listed_once() {
    let mut t = Table::new();
    let v6 = IpNet { addr: IpAddr::V6(0x2001_0db8u128 << 96), mask: 32 };
    let all = vec![
        (v6, 48, 1, source(2)),
        (net("10.1.0.0/16"), 24, 1, source(1)),
        (net("10.1.0.0/16"), 24, 1, source(2)),
        (v6, 48, 1, source(1)),
        (net("10.1.0.0/16"), 20, 1, source(1)),
        (net("10.1.0.0/24"), 24, 1, source(1)),
        (net("9.0.0.0/8"), 24, 2, source(1)),
    ];
    for (n, max_length, as_number, s) in &all {
        t.roa.insert(*n, roa(*max_length, *as_number, s));
    }
    let row = |i: usize| {
        let (n, max_length, as_number, s) = &all[i];
        api::Roa {
            as_number: *as_number,
            prefixlen: n.mask as u32,
            maxlen: *max_length as u32,
            prefix: n.addr,
            conf: api::RpkiConf { address: s.address, remote_port: 0 },
        }
    };
    let v4_rows = vec![row(6), row(1), row(2), row(4), row(5)];
    let v6_rows = vec![row(0), row(3)];
    assert_eq!(v4_rows, list_rpki_table(&t, &Some(api::Family { afi: 1, safi: 1 })));
    assert_eq!(v6_rows, list_rpki_table(&t, &Some(api::Family { afi: 2, safi: 1 })));
    let both: Vec<api::Roa> = v4_rows.iter().chain(v6_rows.iter()).cloned().collect();
    assert_eq!(both, list_rpki_table(&t, &None));
}

#[test]
fn roa_clear_undoes_announcements() {
    let mut t = Table::new();
    t.roa.insert(net("10.0.0.0/8"), roa(16, 1, &source(2)));
    t.roa.insert(net("11.0.0.0/8"), roa(16, 2, &source(2)));
    let before = list_rpki_table(&t, &None);
    t.roa.insert(net("10.0.0.0/8"), roa(16, 3, &source(1)));
    t.roa.insert(net("12.0.0.0/8"), roa(16, 4, &source(1)));
    assert_eq!(4, list_rpki_table(&t, &None).len());
    t.roa.clear(source(1));
    assert_eq!(before, list_rpki_table(&t, &None));
}

#[test]
fn roa_tables_are_copied() {
    let mut t = Table::new();
    let v6 = IpNet { addr: IpAddr::V6(0x2001_0db8u128 << 96), mask: 32 };
    t.roa.insert(net("10.0.0.0/8"), roa(16, 1, &source(1)));
    t.roa.insert(v6, roa(48, 2, &source(1)));
    let copy = t.roa.clone();
    assert_eq!((1, 1), (copy.v4.len(), copy.v6.len()));
    assert_eq!(1, entries_under(&copy.v4, &Vec::new())[0].1[0].as_number);
    t.roa.clear(source(1));
    assert_eq!((0, 0), (t.roa.v4.len(), t.roa.v6.len()));
    assert_eq!((1, 1), (copy.v4.len(), copy.v6.len()));
}
