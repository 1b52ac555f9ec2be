use std::sync::Arc;

use rustybgp::addr::{IpAddr, IpNet};
use rustybgp::bgp::{Attribute, Family, Nlri, Segment, State, UpdatePdu, SEGMENT_SEQ, SEGMENT_SET};
use rustybgp::path::{Path, PathAttr, Source, TableUpdate};
use rustybgp::time::Timestamp;
use rustybgp::update::{need_to_advertise, outgoing_attrs, send_update, sort_attrs, update_attrs};

const A: IpAddr = IpAddr::V4(1);
const B: IpAddr = IpAddr::V4(2);

fn net4() -> Nlri {
    Nlri::Ip(IpNet { addr: IpAddr::V4(0x0a00_0000), mask: 8 })
}

fn net6() -> Nlri {
    Nlri::Ip(IpNet { addr: IpAddr::V6(0x2001_0db8u128 << 96), mask: 32 })
}

fn seq(number: Vec<u32>) -> Segment {
    Segment { segment_type: SEGMENT_SEQ, number }
}

fn set(number: Vec<u32>) -> Segment {
    Segment { segment_type: SEGMENT_SET, number }
}

fn as_path(segments: Vec<Segment>) -> Attribute {
    Attribute::AsPath { segments }
}

#[test]
fn routes_are_not_sent_back() {
    assert!(need_to_advertise(A, false, B, false));
    assert!(need_to_advertise(A, true, B, false));
    assert!(need_to_advertise(A, false, B, true));
    assert!(!need_to_advertise(A, true, B, true));
    assert!(!need_to_advertise(A, false, A, false));
}

#[test]
fn attributes_within_the_as() {
    let attrs = vec![
        Attribute::Origin { origin: 0 },
        as_path(vec![seq(vec![7])]),
        Attribute::MultiExitDesc { descriptor: 3 },
        Attribute::LocalPref { preference: 50 },
    ];
    let (kept, made) = update_attrs(true, false, 65000, net4(), A, B, attrs.iter().collect());
    assert_eq!(vec![&attrs[0], &attrs[1], &attrs[3]], kept);
    assert_eq!(vec![Attribute::Nexthop { nexthop: A }], made);

    // what is missing is made up
    let (kept, made) = update_attrs(true, true, 65000, net6(), A, B, Vec::new());
    assert!(kept.is_empty());
    assert_eq!(
        vec![
            Attribute::MpReach { family: Family::Ipv6Uc, nexthop: A, nlri: vec![net6()] },
            as_path(Vec::new()),
            Attribute::LocalPref { preference: 100 },
        ],
        made
    );
}

#[test]
fn attributes_to_another_as() {
    let attrs = vec![
        Attribute::Origin { origin: 0 },
        as_path(vec![seq(vec![7])]),
        Attribute::MultiExitDesc { descriptor: 3 },
        Attribute::Other { flags: 0x40, code: 40, value: vec![1] },
        Attribute::Other { flags: 0x80, code: 41, value: vec![2] },
    ];
    let (kept, made) = update_attrs(false, false, 65000, net4(), A, B, attrs.iter().collect());
    assert_eq!(vec![&attrs[0], &attrs[3]], kept);
    assert_eq!(
        vec![as_path(vec![seq(vec![65000, 7])]), Attribute::Nexthop { nexthop: B }],
        made
    );
    let (_, made) = update_attrs(false, false, 65000, net4(), A, B, Vec::new());
    assert_eq!(
        vec![Attribute::Nexthop { nexthop: B }, as_path(vec![seq(vec![65000])])],
        made
    );
}

#[test]
fn own_as_is_put_in_front() {
    let out = |segments: Vec<Segment>| -> Attribute {
        let attrs = vec![as_path(segments)];
        let (_, mut made) = update_attrs(false, false, 9, net4(), A, B, attrs.iter().collect());
        made.remove(0)
    };
    assert_eq!(as_path(vec![seq(vec![9])]), out(Vec::new()));
    assert_eq!(as_path(vec![seq(vec![9, 1, 2])]), out(vec![seq(vec![1, 2])]));
    assert_eq!(as_path(vec![seq(vec![9]), set(vec![1])]), out(vec![set(vec![1])]));
    // a full segment is left alone
    assert_eq!(as_path(vec![seq(vec![9]), seq(vec![1; 255])]), out(vec![seq(vec![1; 255])]));
    assert_eq!(as_path(vec![seq([vec![9], vec![1; 254]].concat())]), out(vec![seq(vec![1; 254])]));
    // the segments come out the other way round
    assert_eq!(
        as_path(vec![seq(vec![9, 2]), set(vec![1])]),
        out(vec![set(vec![1]), seq(vec![2])])
    );
}

#[test]
fn attributes_are_sorted_by_code() {
    let mut v = vec![
        Attribute::LocalPref { preference: 1 },
        Attribute::Other { flags: 0, code: 5, value: vec![1] },
        Attribute::Origin { origin: 1 },
        Attribute::Other { flags: 0, code: 0, value: vec![2] },
        Attribute::Origin { origin: 0 },
    ];
    sort_attrs(&mut v);
    assert_eq!(
        vec![
            Attribute::Other { flags: 0, code: 0, value: vec![2] },
            Attribute::Origin { origin: 1 },
            Attribute::Origin { origin: 0 },
            Attribute::LocalPref { preference: 1 },
            Attribute::Other { flags: 0, code: 5, value: vec![1] },
        ],
        v
    );
    let out = outgoing_attrs(
        false,
        9,
        net4(),
        A,
        B,
        &vec![Attribute::LocalPref { preference: 1 }, Attribute::Origin { origin: 0 }],
    );
    assert_eq!(
        vec![
            Attribute::Origin { origin: 0 },
            as_path(vec![seq(vec![9])]),
            Attribute::Nexthop { nexthop: B },
            Attribute::LocalPref { preference: 1 },
        ],
        out
    );
}

fn peer(ibgp: bool) -> Source {
    Source { address: A, ibgp, local_as: 9, local_addr: B, state: State::Established }
}

#[test]
fn updates_become_messages() {
    let s = Arc::new(peer(false));
    let attrs = Arc::new(PathAttr { entry: vec![Attribute::Origin { origin: 0 }] });
    let updates = vec![
        TableUpdate::NewBest(net4(), A, attrs.clone(), s.clone()),
        TableUpdate::Withdrawn(net4(), s.clone()),
        TableUpdate::NewBest(net6(), A, attrs, s.clone()),
        TableUpdate::Withdrawn(net6(), s),
    ];
    let (pdus, counts) = send_update(&peer(true), &updates);
    assert_eq!((2, 2), counts);
    assert_eq!(4, pdus.len());
    assert_eq!(vec![net4()], pdus[0].routes);
    assert_eq!(Attribute::Nexthop { nexthop: A }, pdus[0].attrs[2]);
    assert_eq!(
        UpdatePdu { routes: vec![], withdrawns: vec![net4()], attrs: vec![] },
        pdus[1]
    );
    assert!(pdus[2].routes.is_empty());
    assert_eq!(
        Some(&Attribute::MpReach { family: Family::Ipv6Uc, nexthop: A, nlri: vec![net6()] }),
        pdus[2].attrs.last()
    );
}

#[test]
fn routes_are_shown_as_they_came() {
    let attrs = vec![Attribute::MultiExitDesc { descriptor: 1 }, Attribute::Origin { origin: 2 }];
    let p = Path::at(
        Arc::new(peer(false)),
        A,
        Arc::new(PathAttr { entry: attrs }),
        Timestamp { secs: 0, nanos: 0 },
    );
    assert_eq!(
        UpdatePdu {
            routes: vec![net4()],
            withdrawns: vec![],
            attrs: vec![
                Attribute::MultiExitDesc { descriptor: 1 },
                Attribute::Origin { origin: 2 },
                Attribute::Nexthop { nexthop: A },
            ],
        },
        p.to_payload(net4())
    );
    let pdu = p.to_payload(net6());
    assert!(pdu.routes.is_empty());
    assert_eq!(
        Attribute::MpReach { family: Family::Ipv6Uc, nexthop: A, nlri: vec![net6()] },
        pdu.attrs[2]
    );
}
