use std::sync::Arc;

use rustybgp::addr::{IpAddr, IpNet};
use rustybgp::api;
use rustybgp::api::{
    AfiSafi, AfiSafiConfig, AnyNlri, IpAddressPrefix, PeerConf, Timers, TimersConfig, Transport,
};
use rustybgp::bgp::{Attribute, Capability, Family, Nlri, Segment, State};
use rustybgp::native::{attribute_kind, to_native_attrs, AttributeKind, ReadAttribute};
use rustybgp::path::{Path, PathAttr, Source};
use rustybgp::roa::RoaTable;
use rustybgp::time::Timestamp;

const A: IpAddr = IpAddr::V4(1);

#[test]
fn families() {
    assert_eq!(api::Family { afi: 1, safi: 1 }, Family::Ipv4Uc.to_api());
    assert_eq!(api::Family { afi: 2, safi: 1 }, Family::Ipv6Uc.to_api());
    assert_eq!(api::Family { afi: 0, safi: 0 }, Family::Reserved.to_api());
    assert_eq!(api::Family { afi: 25, safi: 70 }, Family::Unknown(0x0019_0046).to_api());
    assert_eq!(api::Family { afi: 25, safi: 70 }, Family::Unknown(0x0019_ab46).to_api());
    assert_eq!(Family::Ipv4Uc, api::Family { afi: 1, safi: 1 }.to_proto());
    assert_eq!(Family::Ipv6Uc, api::Family { afi: 2, safi: 1 }.to_proto());
    assert_eq!(Family::Unknown(0x0001_0002), api::Family { afi: 1, safi: 2 }.to_proto());
    assert_eq!(Family::Unknown(0xffff_ffff), api::Family { afi: -1, safi: -1 }.to_proto());
    for v in vec![0x0001_0001, 0x0002_0001, 0x0019_0046, 0] {
        let f = Family::from(v);
        assert_eq!(f, f.to_api().to_proto());
    }
}

#[test]
fn times() {
    assert_eq!(
        api::Timestamp { seconds: 3, nanos: 4 },
        Timestamp { secs: 3, nanos: 4 }.to_api()
    );
}

fn any(url: &str, value: Option<IpAddressPrefix>) -> AnyNlri {
    AnyNlri { type_url: url.to_string(), value }
}

#[test]
fn destinations() {
    let url = "type.googleapis.com/gobgpapi.IPAddressPrefix";
    let p = IpAddressPrefix { prefix: A, prefix_len: 24 };
    assert_eq!(url, api::type_url(IpAddressPrefix::name()));
    assert_eq!(Some(Nlri::Ip(IpNet { addr: A, mask: 24 })), any(url, Some(p)).to_proto());
    let long = IpAddressPrefix { prefix: A, prefix_len: 256 + 8 };
    assert_eq!(Some(Nlri::Ip(IpNet { addr: A, mask: 8 })), any(url, Some(long)).to_proto());
    assert_eq!(None, any(url, None).to_proto());
    assert_eq!(None, any("type.googleapis.com/gobgpapi.Other", Some(p)).to_proto());
}

fn peer() -> api::Peer {
    api::Peer { conf: None, timers: None, transport: None, afi_safis: Vec::new(), state: None }
}

fn family(afi: i32, safi: i32) -> AfiSafi {
    AfiSafi {
        config: Some(AfiSafiConfig { family: Some(api::Family { afi, safi }) }),
        state: None,
    }
}

#[test]
fn peer_without_configuration() {
    let p = peer();
    assert!(!p.get_passive_mode());
    assert_eq!(179, p.get_remote_port());
    assert_eq!(0, p.get_local_as());
    assert_eq!(0, p.get_remote_as());
    assert_eq!(0, p.get_connect_retry_time());
    assert_eq!(0, p.get_hold_time());
    assert!(p.get_families().is_empty());
    let p = api::Peer {
        transport: Some(Transport { passive_mode: false, remote_port: 0 }),
        timers: Some(Timers { config: None, state: None }),
        conf: Some(PeerConf { neighbor_address: None, local_as: 0, peer_as: 0 }),
        ..peer()
    };
    assert_eq!(179, p.get_remote_port());
    assert_eq!(0, p.get_hold_time());
    assert!(p.get_families().is_empty());
}

#[test]
fn peer_with_configuration() {
    let p = api::Peer {
        conf: Some(PeerConf { neighbor_address: Some(A), local_as: 1, peer_as: 2 }),
        timers: Some(Timers {
            config: Some(TimersConfig { connect_retry: 3, hold_time: 4 }),
            state: None,
        }),
        transport: Some(Transport { passive_mode: true, remote_port: 0x1_0005 }),
        ..peer()
    };
    assert!(p.get_passive_mode());
    assert_eq!(5, p.get_remote_port());
    assert_eq!(1, p.get_local_as());
    assert_eq!(2, p.get_remote_as());
    assert_eq!(3, p.get_connect_retry_time());
    assert_eq!(4, p.get_hold_time());
    assert_eq!(vec![Family::Ipv4Uc], p.get_families());
    let v6 = PeerConf { neighbor_address: Some(IpAddr::V6(1)), local_as: 0, peer_as: 0 };
    let p = api::Peer { conf: Some(v6), ..peer() };
    assert_eq!(vec![Family::Ipv6Uc], p.get_families());
    // families that cannot be carried are left out
    let afi_safis = vec![
        family(3, 1),
        family(2, 1),
        AfiSafi { config: None, state: None },
        family(1, 0x101),
        AfiSafi { config: Some(AfiSafiConfig { family: None }), state: None },
    ];
    let p = api::Peer { conf: Some(v6), afi_safis, ..peer() };
    assert_eq!(vec![Family::Ipv6Uc, Family::Ipv4Uc], p.get_families());
}

#[test]
fn capabilities() {
    let f = Family::Ipv4Uc;
    let a = api::Family { afi: 1, safi: 1 };
    for (c, shown, name) in vec![
        (
            Capability::MultiProtocol { family: f },
            api::Capability::MultiProtocol { family: a },
            "MultiProtocolCapability",
        ),
        (
            Capability::RouteRefresh,
            api::Capability::RouteRefresh,
            "RouteRefreshCapability",
        ),
        (
            Capability::CarryingLabelInfo,
            api::Capability::CarryingLabelInfo,
            "CarryingLabelInfoCapability",
        ),
        (
            Capability::ExtendedNexthop { values: vec![(f, Family::Ipv6Uc)] },
            api::Capability::ExtendedNexthop {
                tuples: vec![(a, api::Family { afi: 2, safi: 1 })],
            },
            "ExtendedNexthopCapability",
        ),
        (
            Capability::GracefulRestart { flags: 1, time: 2, values: vec![(f, 3)] },
            api::Capability::GracefulRestart { flags: 1, time: 2, tuples: vec![(a, 3)] },
            "GracefulRestartCapability",
        ),
        (
            Capability::FourOctetAsNumber { as_number: 65536 },
            api::Capability::FourOctetAsNumber { as_number: 65536 },
            "FourOctetASNumberCapability",
        ),
        (
            Capability::AddPath { values: vec![(f, 3)] },
            api::Capability::AddPath { tuples: vec![(a, 3)] },
            "AddPathCapability",
        ),
        (
            Capability::EnhanshedRouteRefresh,
            api::Capability::EnhancedRouteRefresh,
            "EnhancedRouteRefreshCapability",
        ),
        (
            Capability::LongLivedGracefulRestart { values: vec![(f, 3, 4)] },
            api::Capability::LongLivedGracefulRestart { tuples: vec![(a, 3, 4)] },
            "LongLivedGracefulRestartCapability",
        ),
        (
            Capability::RouteRefreshCisco,
            api::Capability::RouteRefreshCisco,
            "RouteRefreshCiscoCapability",
        ),
    ] {
        assert_eq!(shown, c.to_api());
        assert_eq!(Some(name), shown.name());
    }
    let unknown = Capability::Unknown { code: 99, value: vec![1] };
    assert_eq!(api::Capability::Empty, unknown.to_api());
    assert_eq!(None, api::Capability::Empty.name());
}

fn kind(name: &str) -> AttributeKind {
    attribute_kind(&api::type_url(name))
}

#[test]
fn kinds_of_attributes() {
    assert_eq!(AttributeKind::Origin, kind("OriginAttribute"));
    assert_eq!(AttributeKind::AsPath, kind("AsPathAttribute"));
    assert_eq!(AttributeKind::NextHop, kind("NextHopAttribute"));
    assert_eq!(AttributeKind::MultiExitDisc, kind("MultiExitDiscAttribute"));
    assert_eq!(AttributeKind::LocalPref, kind("LocalPrefAttribute"));
    assert_eq!(AttributeKind::AtomicAggregate, kind("AtomicAggregateAttribute"));
    assert_eq!(AttributeKind::Aggregator, kind("AggregateAttribute"));
    assert_eq!(AttributeKind::Communities, kind("CommunitiesAttribute"));
    assert_eq!(AttributeKind::OriginatorId, kind("OriginatorIdAttribute"));
    assert_eq!(AttributeKind::Ignored, kind("ClusterListAttribute"));
    assert_eq!(AttributeKind::ClusterList, kind("AggregatorAttribute"));
    assert_eq!(AttributeKind::ClusterList, attribute_kind(&"OriginAttribute".to_string()));
}

#[test]
fn attributes_that_are_shown_can_be_read() {
    for (a, k) in vec![
        (api::PathAttribute::Origin { origin: 0 }, AttributeKind::Origin),
        (api::PathAttribute::AsPath { segments: vec![] }, AttributeKind::AsPath),
        (api::PathAttribute::NextHop { next_hop: A }, AttributeKind::NextHop),
        (api::PathAttribute::MultiExitDisc { med: 0 }, AttributeKind::MultiExitDisc),
        (api::PathAttribute::LocalPref { local_pref: 0 }, AttributeKind::LocalPref),
        (api::PathAttribute::AtomicAggregate, AttributeKind::AtomicAggregate),
        (api::PathAttribute::Communities { communities: vec![] }, AttributeKind::Communities),
        (api::PathAttribute::OriginatorId { id: A }, AttributeKind::OriginatorId),
    ] {
        assert_eq!(k, kind(a.name()));
    }
}

#[test]
fn attributes_that_are_handed_in() {
    let b = IpAddr::V4(2);
    let read = vec![
        ReadAttribute::Origin { origin: 257 },
        ReadAttribute::AsPath {
            segments: vec![api::AsSegment { segment_type: 2, numbers: vec![1, 2] }],
        },
        ReadAttribute::NextHop { next_hop: Some(A) },
        ReadAttribute::MultiExitDisc { med: 3 },
        ReadAttribute::LocalPref { local_pref: 4 },
        ReadAttribute::AtomicAggregate,
        ReadAttribute::Aggregator { as_number: 5, address: Some(A) },
        ReadAttribute::Aggregator { as_number: 5, address: None },
        ReadAttribute::Communities { communities: vec![6] },
        ReadAttribute::OriginatorId { id: Some(A) },
        ReadAttribute::OriginatorId { id: None },
        ReadAttribute::ClusterList { ids: vec![Some(A), None, Some(b)] },
        ReadAttribute::Ignored,
        ReadAttribute::NextHop { next_hop: Some(b) },
        ReadAttribute::NextHop { next_hop: None },
    ];
    let (attrs, nexthop) = to_native_attrs(&read);
    assert_eq!(b, nexthop);
    assert_eq!(
        vec![
            Attribute::Origin { origin: 1 },
            Attribute::AsPath { segments: vec![Segment { segment_type: 2, number: vec![1, 2] }] },
            Attribute::MultiExitDesc { descriptor: 3 },
            Attribute::LocalPref { preference: 4 },
            Attribute::AtomicAggregate,
            Attribute::Aggregator { four_byte: true, number: 5, address: A },
            Attribute::Community { communities: vec![6] },
            Attribute::OriginatorId { address: A },
            Attribute::ClusterList { addresses: vec![A, b] },
        ],
        attrs
    );
    let (attrs, nexthop) = to_native_attrs(&Vec::new());
    assert!(attrs.is_empty());
    assert_eq!(IpAddr::V4(0), nexthop);
}

#[test]
fn routes_that_are_shown_are_read_back() {
    let source = Arc::new(Source {
        address: A,
        ibgp: false,
        local_as: 1,
        local_addr: A,
        state: State::Established,
    });
    let attrs = vec![
        Attribute::Origin { origin: 2 },
        Attribute::AsPath { segments: vec![Segment { segment_type: 2, number: vec![1, 2] }] },
        Attribute::Nexthop { nexthop: IpAddr::V4(9) },
        Attribute::ClusterList { addresses: vec![A] },
        Attribute::OriginatorId { address: A },
    ];
    let nexthop = IpAddr::V4(7);
    let entry = Arc::new(PathAttr { entry: Vec::new() });
    let p = Path::at(source, nexthop, entry, Timestamp { secs: 1, nanos: 2 });
    let n = Nlri::Ip(IpNet { addr: IpAddr::V4(0x0a00_0000), mask: 8 });
    let shown = p.to_api(&n, nexthop, attrs.iter().collect(), &RoaTable::new().v4);
    let read: Vec<ReadAttribute> = shown
        .pattrs
        .iter()
        .map(|a| match (kind(a.name()), a) {
            (AttributeKind::Origin, api::PathAttribute::Origin { origin }) => {
                ReadAttribute::Origin { origin: *origin }
            }
            (AttributeKind::AsPath, api::PathAttribute::AsPath { segments }) => {
                ReadAttribute::AsPath {
                    segments: segments
                        .iter()
                        .map(|s| api::AsSegment {
                            segment_type: s.segment_type,
                            numbers: s.numbers.clone(),
                        })
                        .collect(),
                }
            }
            (AttributeKind::NextHop, api::PathAttribute::NextHop { next_hop }) => {
                ReadAttribute::NextHop { next_hop: Some(*next_hop) }
            }
            (AttributeKind::OriginatorId, api::PathAttribute::OriginatorId { id }) => {
                ReadAttribute::OriginatorId { id: Some(*id) }
            }
            _ => ReadAttribute::Ignored,
        })
        .collect();
    let (back, hop) = to_native_attrs(&read);
    assert_eq!(nexthop, hop);
    assert_eq!(vec![&attrs[0], &attrs[1], &attrs[4]], back.iter().collect::<Vec<_>>());
}
