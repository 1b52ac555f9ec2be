//! The values that the management interface takes and shows.
use vstd::prelude::*;
use vstd::string::*;
use crate::addr::{IpAddr, IpNet, Ipv4Addr};
use crate::bgp;
use crate::bgp::State;
use crate::lists;
use crate::time;

verus! {

/// What the name of a message type is put behind in its type URL.
pub const TYPE_URL_PREFIX: &'static str = "type.googleapis.com/gobgpapi.";

/// The type URL of the message type `name`.
pub open spec fn spec_type_url(name: Seq<char>) -> Seq<char> {
    TYPE_URL_PREFIX@ + name
}

/// The type URL of the message type `name`.
pub fn type_url(name: &str) -> (r: String)
    ensures
        r@ == spec_type_url(name@),
{
    let mut url: String = TYPE_URL_PREFIX.to_owned();
    url.append(name);
    url
}

/// A point in time.
#[derive(Clone, Copy, PartialEq, Eq, Structural, Debug)]
pub struct Timestamp {
    pub seconds: i64,
    pub nanos: i32,
}

impl time::Timestamp {
    /// How the interface shows the point in time.
    pub open spec fn spec_to_api(self) -> Timestamp {
        Timestamp { seconds: self.secs as i64, nanos: self.nanos as i32 }
    }

    /// How the interface shows the point in time. Only points from the Unix epoch on can be shown.
    pub fn to_api(&self) -> (r: Timestamp)
        requires
            !self.spec_is_before_epoch(),
        ensures
            r == self.spec_to_api(),
    {
        Timestamp { seconds: self.secs as i64, nanos: self.nanos as i32 }
    }
}

/// The number of the IPv4 address family.
pub const AFI_IP: i32 = 1;

/// The number of the IPv6 address family.
pub const AFI_IP6: i32 = 2;

/// The number of the unicast subsequent address family.
pub const SAFI_UNICAST: i32 = 1;

/// A kind of routes.
#[derive(Clone, Copy, PartialEq, Eq, Structural, Debug)]
pub struct Family {
    pub afi: i32,
    pub safi: i32,
}

impl bgp::Family {
    /// How the interface shows the family.
    pub open spec fn spec_to_api(self) -> Family {
        match self {
            bgp::Family::Ipv4Uc => Family { afi: AFI_IP, safi: SAFI_UNICAST },
            bgp::Family::Ipv6Uc => Family { afi: AFI_IP6, safi: SAFI_UNICAST },
            bgp::Family::Unknown(v) => Family { afi: (v / 0x1_0000) as i32, safi: (v % 0x100) as i32 },
            bgp::Family::Reserved => Family { afi: 0, safi: 0 },
        }
    }

    /// How the interface shows the family.
    pub fn to_api(&self) -> (r: Family)
        ensures
            r == self.spec_to_api(),
    {
        match self {
            bgp::Family::Ipv4Uc => Family { afi: AFI_IP, safi: SAFI_UNICAST },
            bgp::Family::Ipv6Uc => Family { afi: AFI_IP6, safi: SAFI_UNICAST },
            bgp::Family::Unknown(v) => {
                let v: u32 = *v;
                assert(v >> 16 == v / 0x1_0000) by (bit_vector);
                assert(v & 0xff == v % 0x100) by (bit_vector);
                Family { afi: (v >> 16) as i32, safi: (v & 0xff) as i32 }
            },
            bgp::Family::Reserved => Family { afi: 0, safi: 0 },
        }
    }
}

/// The number that two family numbers make, the address family in its upper half.
pub open spec fn family_number(afi: i32, safi: i32) -> u32 {
    ((afi as u32) << 16) | (safi as u32)
}

impl Family {
    /// The family that the numbers stand for.
    pub open spec fn spec_to_proto(self) -> bgp::Family {
        if self.safi == SAFI_UNICAST && self.afi == AFI_IP {
            bgp::Family::Ipv4Uc
        } else if self.safi == SAFI_UNICAST && self.afi == AFI_IP6 {
            bgp::Family::Ipv6Uc
        } else {
            bgp::Family::Unknown(family_number(self.afi, self.safi))
        }
    }

    /// The family that the numbers stand for.
    pub fn to_proto(&self) -> (r: bgp::Family)
        ensures
            r == self.spec_to_proto(),
    {
        if self.safi == SAFI_UNICAST {
            if self.afi == AFI_IP {
                return bgp::Family::Ipv4Uc;
            } else if self.afi == AFI_IP6 {
                return bgp::Family::Ipv6Uc;
            }
        }
        bgp::Family::Unknown(((self.afi as u32) << 16) | (self.safi as u32))
    }
}

/// A family whose number has nothing between the two parts is read back as it was shown.
pub proof fn law_family_is_read_back(v: u32)
    requires
        v / 0x100 % 0x100 == 0,
    ensures
        bgp::family_of(v).spec_to_api().spec_to_proto() == bgp::family_of(v),
{
    if v != bgp::IPV4_UC && v != bgp::IPV6_UC {
        let afi = (v / 0x1_0000) as i32;
        let safi = (v % 0x100) as i32;
        let a = v / 0x1_0000;
        let s = v % 0x100;
        assert(afi == a && safi == s);
        assert(afi as u32 == a && safi as u32 == s);
        assert(((a << 16) | s) == v) by (bit_vector)
            requires
                v / 0x100 % 0x100 == 0,
                a == v / 0x1_0000,
                s == v % 0x100,
        ;
        assert(v == a * 0x1_0000 + s) by (bit_vector)
            requires
                v / 0x100 % 0x100 == 0,
                a == v / 0x1_0000,
                s == v % 0x100,
        ;
    }
}

/// A prefix that routes lead to.
#[derive(Clone, Copy, PartialEq, Eq, Structural, Debug)]
pub struct IpAddressPrefix {
    pub prefix: IpAddr,
    pub prefix_len: u32,
}

impl IpAddressPrefix {
    /// The type name under which a prefix travels.
    pub open spec fn spec_name() -> Seq<char> {
        "IPAddressPrefix"@
    }

    /// The type name under which a prefix travels.
    pub fn name() -> (r: &'static str)
        ensures
            r@ == IpAddressPrefix::spec_name(),
    {
        "IPAddressPrefix"
    }
}

/// A destination as it travels: a message with the type URL that tells what kind it is of.
#[derive(PartialEq, Eq, Debug)]
pub struct AnyNlri {
    pub type_url: String,
    /// The prefix that the message holds, if it can be read as one and names an address.
    pub value: Option<IpAddressPrefix>,
}

impl AnyNlri {
    /// The destination that the message names, if it is a prefix message.
    pub open spec fn spec_to_proto(self) -> Option<bgp::Nlri> {
        if self.type_url@ == spec_type_url(IpAddressPrefix::spec_name()) {
            match self.value {
                Some(p) => Some(bgp::Nlri::Ip(IpNet { addr: p.prefix, mask: p.prefix_len as u8 })),
                None => None,
            }
        } else {
            None
        }
    }

    /// The destination that the message names, if it is a prefix message.
    pub fn to_proto(&self) -> (r: Option<bgp::Nlri>)
        ensures
            r == self.spec_to_proto(),
    {
        if self.type_url == type_url(IpAddressPrefix::name()) {
            match &self.value {
                Some(p) => Some(
                    bgp::Nlri::Ip(IpNet { addr: p.prefix, mask: p.prefix_len as u8 }),
                ),
                None => None,
            }
        } else {
            None
        }
    }
}

/// The configuration of a session with a cache.
#[derive(Clone, Copy, PartialEq, Eq, Structural, Debug)]
pub struct RpkiConf {
    pub address: IpAddr,
    pub remote_port: u32,
}

/// An authorization.
#[derive(Clone, Copy, PartialEq, Eq, Structural, Debug)]
pub struct Roa {
    pub as_number: u32,
    pub prefixlen: u32,
    pub maxlen: u32,
    pub prefix: IpAddr,
    pub conf: RpkiConf,
}

/// The state of a session with a cache.
#[derive(Clone, Copy, PartialEq, Eq, Structural, Debug)]
pub struct RpkiState {
    pub uptime: Timestamp,
    pub downtime: Timestamp,
    pub up: bool,
    pub record_ipv4: u32,
    pub record_ipv6: u32,
    pub prefix_ipv4: u32,
    pub prefix_ipv6: u32,
    pub serial: u32,
    pub serial_notify: i64,
    pub serial_query: i64,
    pub reset_query: i64,
    pub cache_response: i64,
    pub received_ipv4: i64,
    pub received_ipv6: i64,
    pub end_of_data: i64,
    pub cache_reset: i64,
    pub error: i64,
}

/// A session with a cache.
#[derive(Clone, Copy, PartialEq, Eq, Structural, Debug)]
pub struct Rpki {
    pub conf: RpkiConf,
    pub state: RpkiState,
}

/// Whether a route is authorized.
#[derive(Clone, Copy, PartialEq, Eq, Structural, Debug)]
pub enum ValidationState {
    NotFound,
    Valid,
    Invalid,
}

/// Why a route is not authorized.
#[derive(Clone, Copy, PartialEq, Eq, Structural, Debug)]
pub enum ValidationReason {
    NoReason,
    As,
    Length,
}

/// How a route stands to the authorizations.
#[derive(PartialEq, Eq, Debug)]
pub struct Validation {
    pub state: ValidationState,
    pub reason: ValidationReason,
    pub matched: Vec<Roa>,
    pub unmatched_as: Vec<Roa>,
    pub unmatched_length: Vec<Roa>,
}

/// What a `Validation` holds.
#[verifier::ext_equal]
pub struct ValidationView {
    pub state: ValidationState,
    pub reason: ValidationReason,
    pub matched: Seq<Roa>,
    pub unmatched_as: Seq<Roa>,
    pub unmatched_length: Seq<Roa>,
}

impl View for Validation {
    type V = ValidationView;

    open spec fn view(&self) -> ValidationView {
        ValidationView {
            state: self.state,
            reason: self.reason,
            matched: self.matched@,
            unmatched_as: self.unmatched_as@,
            unmatched_length: self.unmatched_length@,
        }
    }
}

/// A run of AS numbers.
#[derive(PartialEq, Eq, Debug)]
pub struct AsSegment {
    pub segment_type: u32,
    pub numbers: Vec<u32>,
}

/// What an `AsSegment` holds.
#[verifier::ext_equal]
pub struct AsSegmentView {
    pub segment_type: u32,
    pub numbers: Seq<u32>,
}

impl View for AsSegment {
    type V = AsSegmentView;

    open spec fn view(&self) -> AsSegmentView {
        AsSegmentView { segment_type: self.segment_type, numbers: self.numbers@ }
    }
}

/// What the segments in `v` hold.
pub open spec fn as_segment_views(v: Seq<AsSegment>) -> Seq<AsSegmentView> {
    v.map_values(|s: AsSegment| s@)
}

/// A property of a route.
#[derive(PartialEq, Eq, Debug)]
pub enum PathAttribute {
    Origin { origin: u32 },
    AsPath { segments: Vec<AsSegment> },
    NextHop { next_hop: IpAddr },
    MultiExitDisc { med: u32 },
    LocalPref { local_pref: u32 },
    AtomicAggregate,
    Aggregator { as_number: u32, address: IpAddr },
    Communities { communities: Vec<u32> },
    OriginatorId { id: IpAddr },
    ClusterList { ids: Vec<IpAddr> },
}

/// What a `PathAttribute` holds.
#[verifier::ext_equal]
pub enum PathAttributeView {
    Origin { origin: u32 },
    AsPath { segments: Seq<AsSegmentView> },
    NextHop { next_hop: IpAddr },
    MultiExitDisc { med: u32 },
    LocalPref { local_pref: u32 },
    AtomicAggregate,
    Aggregator { as_number: u32, address: IpAddr },
    Communities { communities: Seq<u32> },
    OriginatorId { id: IpAddr },
    ClusterList { ids: Seq<IpAddr> },
}

impl View for PathAttribute {
    type V = PathAttributeView;

    open spec fn view(&self) -> PathAttributeView {
        match *self {
            PathAttribute::Origin { origin } => PathAttributeView::Origin { origin },
            PathAttribute::AsPath { segments } => PathAttributeView::AsPath {
                segments: as_segment_views(segments@),
            },
            PathAttribute::NextHop { next_hop } => PathAttributeView::NextHop { next_hop },
            PathAttribute::MultiExitDisc { med } => PathAttributeView::MultiExitDisc { med },
            PathAttribute::LocalPref { local_pref } => PathAttributeView::LocalPref { local_pref },
            PathAttribute::AtomicAggregate => PathAttributeView::AtomicAggregate,
            PathAttribute::Aggregator { as_number, address } => PathAttributeView::Aggregator {
                as_number,
                address,
            },
            PathAttribute::Communities { communities } => PathAttributeView::Communities {
                communities: communities@,
            },
            PathAttribute::OriginatorId { id } => PathAttributeView::OriginatorId { id },
            PathAttribute::ClusterList { ids } => PathAttributeView::ClusterList { ids: ids@ },
        }
    }
}

impl PathAttributeView {
    /// The type name under which the attribute travels.
    pub open spec fn name(self) -> Seq<char> {
        match self {
            PathAttributeView::Origin { .. } => "OriginAttribute"@,
            PathAttributeView::AsPath { .. } => "AsPathAttribute"@,
            PathAttributeView::NextHop { .. } => "NextHopAttribute"@,
            PathAttributeView::MultiExitDisc { .. } => "MultiExitDiscAttribute"@,
            PathAttributeView::LocalPref { .. } => "LocalPrefAttribute"@,
            PathAttributeView::AtomicAggregate => "AtomicAggregateAttribute"@,
            PathAttributeView::Aggregator { .. } => "AggregatorAttribute"@,
            PathAttributeView::Communities { .. } => "CommunitiesAttribute"@,
            PathAttributeView::OriginatorId { .. } => "OriginatorIdAttribute"@,
            PathAttributeView::ClusterList { .. } => "ClusterListAttribute"@,
        }
    }
}

impl PathAttribute {
    /// The type name under which the attribute travels.
    pub fn name(&self) -> (r: &'static str)
        ensures
            r@ == self@.name(),
    {
        match self {
            PathAttribute::Origin { .. } => "OriginAttribute",
            PathAttribute::AsPath { .. } => "AsPathAttribute",
            PathAttribute::NextHop { .. } => "NextHopAttribute",
            PathAttribute::MultiExitDisc { .. } => "MultiExitDiscAttribute",
            PathAttribute::LocalPref { .. } => "LocalPrefAttribute",
            PathAttribute::AtomicAggregate => "AtomicAggregateAttribute",
            PathAttribute::Aggregator { .. } => "AggregatorAttribute",
            PathAttribute::Communities { .. } => "CommunitiesAttribute",
            PathAttribute::OriginatorId { .. } => "OriginatorIdAttribute",
            PathAttribute::ClusterList { .. } => "ClusterListAttribute",
        }
    }
}

/// What the attributes in `v` hold.
pub open spec fn path_attribute_views(v: Seq<PathAttribute>) -> Seq<PathAttributeView> {
    v.map_values(|a: PathAttribute| a@)
}

/// A route.
#[derive(PartialEq, Eq, Debug)]
pub struct Path {
    pub nlri: IpAddressPrefix,
    pub family: Family,
    pub age: Timestamp,
    pub pattrs: Vec<PathAttribute>,
    pub validation: Option<Validation>,
    pub best: bool,
}

/// What a `Path` holds.
#[verifier::ext_equal]
pub struct PathView {
    pub nlri: IpAddressPrefix,
    pub family: Family,
    pub age: Timestamp,
    pub pattrs: Seq<PathAttributeView>,
    pub validation: Option<ValidationView>,
    pub best: bool,
}

impl View for Path {
    type V = PathView;

    open spec fn view(&self) -> PathView {
        PathView {
            nlri: self.nlri,
            family: self.family,
            age: self.age,
            pattrs: path_attribute_views(self.pattrs@),
            validation: match self.validation {
                Some(v) => Some(v@),
                None => None,
            },
            best: self.best,
        }
    }
}

/// What the routes in `v` hold.
pub open spec fn path_views(v: Seq<Path>) -> Seq<PathView> {
    v.map_values(|p: Path| p@)
}

/// A destination and the routes to it.
#[derive(PartialEq, Eq, Debug)]
pub struct Destination {
    pub prefix: bgp::Nlri,
    pub paths: Vec<Path>,
}

/// What a `Destination` holds.
#[verifier::ext_equal]
pub struct DestinationView {
    pub prefix: bgp::Nlri,
    pub paths: Seq<PathView>,
}

impl View for Destination {
    type V = DestinationView;

    open spec fn view(&self) -> DestinationView {
        DestinationView { prefix: self.prefix, paths: path_views(self.paths@) }
    }
}

/// What the destinations in `v` hold.
pub open spec fn destination_views(v: Seq<Destination>) -> Seq<DestinationView> {
    v.map_values(|d: Destination| d@)
}

/// Something that a BGP speaker can do.
#[allow(inconsistent_fields)]
#[derive(PartialEq, Eq, Debug)]
pub enum Capability {
    MultiProtocol { family: Family },
    RouteRefresh,
    CarryingLabelInfo,
    ExtendedNexthop { tuples: Vec<(Family, Family)> },
    GracefulRestart { flags: u32, time: u32, tuples: Vec<(Family, u32)> },
    FourOctetAsNumber { as_number: u32 },
    AddPath { tuples: Vec<(Family, i32)> },
    EnhancedRouteRefresh,
    LongLivedGracefulRestart { tuples: Vec<(Family, u32, u32)> },
    RouteRefreshCisco,
    /// A capability that is not shown.
    Empty,
}

/// What a `Capability` holds.
#[allow(inconsistent_fields)]
#[verifier::ext_equal]
pub enum CapabilityView {
    MultiProtocol { family: Family },
    RouteRefresh,
    CarryingLabelInfo,
    ExtendedNexthop { tuples: Seq<(Family, Family)> },
    GracefulRestart { flags: u32, time: u32, tuples: Seq<(Family, u32)> },
    FourOctetAsNumber { as_number: u32 },
    AddPath { tuples: Seq<(Family, i32)> },
    EnhancedRouteRefresh,
    LongLivedGracefulRestart { tuples: Seq<(Family, u32, u32)> },
    RouteRefreshCisco,
    Empty,
}

impl View for Capability {
    type V = CapabilityView;

    open spec fn view(&self) -> CapabilityView {
        match *self {
            Capability::MultiProtocol { family } => CapabilityView::MultiProtocol { family },
            Capability::RouteRefresh => CapabilityView::RouteRefresh,
            Capability::CarryingLabelInfo => CapabilityView::CarryingLabelInfo,
            Capability::ExtendedNexthop { tuples } => CapabilityView::ExtendedNexthop {
                tuples: tuples@,
            },
            Capability::GracefulRestart { flags, time, tuples } => CapabilityView::GracefulRestart {
                flags,
                time,
                tuples: tuples@,
            },
            Capability::FourOctetAsNumber { as_number } => CapabilityView::FourOctetAsNumber {
                as_number,
            },
            Capability::AddPath { tuples } => CapabilityView::AddPath { tuples: tuples@ },
            Capability::EnhancedRouteRefresh => CapabilityView::EnhancedRouteRefresh,
            Capability::LongLivedGracefulRestart { tuples } =>
                CapabilityView::LongLivedGracefulRestart { tuples: tuples@ },
            Capability::RouteRefreshCisco => CapabilityView::RouteRefreshCisco,
            Capability::Empty => CapabilityView::Empty,
        }
    }
}

impl CapabilityView {
    /// The type name under which the capability travels, none for one that is not shown.
    pub open spec fn name(self) -> Option<Seq<char>> {
        match self {
            CapabilityView::MultiProtocol { .. } => Some("MultiProtocolCapability"@),
            CapabilityView::RouteRefresh => Some("RouteRefreshCapability"@),
            CapabilityView::CarryingLabelInfo => Some("CarryingLabelInfoCapability"@),
            CapabilityView::ExtendedNexthop { .. } => Some("ExtendedNexthopCapability"@),
            CapabilityView::GracefulRestart { .. } => Some("GracefulRestartCapability"@),
            CapabilityView::FourOctetAsNumber { .. } => Some("FourOctetASNumberCapability"@),
            CapabilityView::AddPath { .. } => Some("AddPathCapability"@),
            CapabilityView::EnhancedRouteRefresh => Some("EnhancedRouteRefreshCapability"@),
            CapabilityView::LongLivedGracefulRestart { .. } => Some(
                "LongLivedGracefulRestartCapability"@,
            ),
            CapabilityView::RouteRefreshCisco => Some("RouteRefreshCiscoCapability"@),
            CapabilityView::Empty => None,
        }
    }
}

impl Capability {
    /// The type name under which the capability travels, none for one that is not shown.
    pub fn name(&self) -> (r: Option<&'static str>)
        ensures
            match r {
                Some(n) => self@.name() == Some(n@),
                None => self@.name() is None,
            },
    {
        match self {
            Capability::MultiProtocol { .. } => Some("MultiProtocolCapability"),
            Capability::RouteRefresh => Some("RouteRefreshCapability"),
            Capability::CarryingLabelInfo => Some("CarryingLabelInfoCapability"),
            Capability::ExtendedNexthop { .. } => Some("ExtendedNexthopCapability"),
            Capability::GracefulRestart { .. } => Some("GracefulRestartCapability"),
            Capability::FourOctetAsNumber { .. } => Some("FourOctetASNumberCapability"),
            Capability::AddPath { .. } => Some("AddPathCapability"),
            Capability::EnhancedRouteRefresh => Some("EnhancedRouteRefreshCapability"),
            Capability::LongLivedGracefulRestart { .. } => Some(
                "LongLivedGracefulRestartCapability",
            ),
            Capability::RouteRefreshCisco => Some("RouteRefreshCiscoCapability"),
            Capability::Empty => None,
        }
    }
}

/// What the capabilities in `v` hold.
pub open spec fn capability_views(v: Seq<Capability>) -> Seq<CapabilityView> {
    v.map_values(|c: Capability| c@)
}

/// Counters of the BGP messages that went over a session in one direction.
#[derive(Clone, Copy, PartialEq, Eq, Structural, Debug)]
pub struct Message {
    pub open: u64,
    pub update: u64,
    pub notification: u64,
    pub keepalive: u64,
    pub refresh: u64,
    pub discarded: u64,
    pub total: u64,
    pub withdraw_update: u64,
    pub withdraw_prefix: u64,
}

/// The speaker.
#[derive(Clone, Copy, PartialEq, Eq, Structural, Debug)]
pub struct Global {
    pub as_number: u32,
    pub router_id: Ipv4Addr,
    pub listen_port: i32,
}

/// The configuration of a peer.
#[derive(Clone, Copy, PartialEq, Eq, Structural, Debug)]
pub struct PeerConf {
    /// The address of the peer, if its text is an address.
    pub neighbor_address: Option<IpAddr>,
    pub local_as: u32,
    pub peer_as: u32,
}

/// The configured times of a peer, in seconds.
#[derive(Clone, Copy, PartialEq, Eq, Structural, Debug)]
pub struct TimersConfig {
    pub connect_retry: u64,
    pub hold_time: u64,
}

/// When a session came up and went down.
#[derive(Clone, Copy, PartialEq, Eq, Structural, Debug)]
pub struct TimersState {
    pub uptime: Option<Timestamp>,
    pub downtime: Option<Timestamp>,
}

/// The times of a peer.
#[derive(Clone, Copy, PartialEq, Eq, Structural, Debug)]
pub struct Timers {
    pub config: Option<TimersConfig>,
    pub state: Option<TimersState>,
}

/// How a peer is connected.
#[derive(Clone, Copy, PartialEq, Eq, Structural, Debug)]
pub struct Transport {
    pub passive_mode: bool,
    pub remote_port: u32,
}

/// The configuration of a family.
#[derive(Clone, Copy, PartialEq, Eq, Structural, Debug)]
pub struct AfiSafiConfig {
    pub family: Option<Family>,
}

/// The state of a family.
#[derive(Clone, Copy, PartialEq, Eq, Structural, Debug)]
pub struct AfiSafiState {
    pub family: Option<Family>,
    pub enabled: bool,
    pub received: u64,
    pub accepted: u64,
}

/// A family of a peer.
#[derive(Clone, Copy, PartialEq, Eq, Structural, Debug)]
pub struct AfiSafi {
    pub config: Option<AfiSafiConfig>,
    pub state: Option<AfiSafiState>,
}

/// The counters of both directions.
#[derive(Clone, Copy, PartialEq, Eq, Structural, Debug)]
pub struct Messages {
    pub received: Message,
    pub sent: Message,
}

/// The state of a peer.
#[derive(PartialEq, Eq, Debug)]
pub struct PeerState {
    pub neighbor_address: IpAddr,
    pub peer_as: u32,
    pub router_id: Ipv4Addr,
    pub messages: Messages,
    pub remote_cap: Vec<Capability>,
    pub local_cap: Vec<Capability>,
    pub session_state: State,
}

/// What a `PeerState` holds.
#[verifier::ext_equal]
pub struct PeerStateView {
    pub neighbor_address: IpAddr,
    pub peer_as: u32,
    pub router_id: Ipv4Addr,
    pub messages: Messages,
    pub remote_cap: Seq<CapabilityView>,
    pub local_cap: Seq<CapabilityView>,
    pub session_state: State,
}

impl View for PeerState {
    type V = PeerStateView;

    open spec fn view(&self) -> PeerStateView {
        PeerStateView {
            neighbor_address: self.neighbor_address,
            peer_as: self.peer_as,
            router_id: self.router_id,
            messages: self.messages,
            remote_cap: capability_views(self.remote_cap@),
            local_cap: capability_views(self.local_cap@),
            session_state: self.session_state,
        }
    }
}

/// A peer.
#[derive(PartialEq, Eq, Debug)]
pub struct Peer {
    pub conf: Option<PeerConf>,
    pub timers: Option<Timers>,
    pub transport: Option<Transport>,
    pub afi_safis: Vec<AfiSafi>,
    pub state: Option<PeerState>,
}

/// What a `Peer` holds.
#[verifier::ext_equal]
pub struct PeerView {
    pub conf: Option<PeerConf>,
    pub timers: Option<Timers>,
    pub transport: Option<Transport>,
    pub afi_safis: Seq<AfiSafi>,
    pub state: Option<PeerStateView>,
}

impl View for Peer {
    type V = PeerView;

    open spec fn view(&self) -> PeerView {
        PeerView {
            conf: self.conf,
            timers: self.timers,
            transport: self.transport,
            afi_safis: self.afi_safis@,
            state: match self.state {
                Some(s) => Some(s@),
                None => None,
            },
        }
    }
}

/// What the peers in `v` hold.
pub open spec fn peer_views(v: Seq<Peer>) -> Seq<PeerView> {
    v.map_values(|p: Peer| p@)
}

/// The family that is configured in an entry, if routes of it can be carried.
pub open spec fn configured_family() -> spec_fn(AfiSafi) -> Option<bgp::Family> {
    |a: AfiSafi|
        match a.config {
            Some(AfiSafiConfig { family: Some(f) }) => {
                let family = bgp::family_of(((f.afi as u32) << 16) | (f.safi as u32 & 0xff));
                if family is Ipv4Uc || family is Ipv6Uc {
                    Some(family)
                } else {
                    None
                }
            },
            _ => None,
        }
}

impl PeerView {
    /// The families that are configured for the peer. Where none is, it is the one of the peer's
    /// address.
    pub open spec fn families(self) -> Seq<bgp::Family> {
        let v = self.afi_safis.filter_map(configured_family());
        if v.len() == 0 {
            match self.conf {
                Some(PeerConf { neighbor_address: Some(addr), .. }) => seq![
                    bgp::unicast_family(addr),
                ],
                _ => v,
            }
        } else {
            v
        }
    }

    /// The port that the peer listens on.
    pub open spec fn remote_port(self) -> u16 {
        match self.transport {
            Some(t) => if t.remote_port != 0 {
                t.remote_port as u16
            } else {
                bgp::BGP_PORT
            },
            None => bgp::BGP_PORT,
        }
    }

    /// Whether the peer is waited for.
    pub open spec fn passive_mode(self) -> bool {
        self.transport matches Some(t) && t.passive_mode
    }

    /// The configured own AS number, or zero.
    pub open spec fn local_as(self) -> u32 {
        match self.conf {
            Some(conf) => conf.local_as,
            None => 0,
        }
    }

    /// The configured AS number of the peer, or zero.
    pub open spec fn remote_as(self) -> u32 {
        match self.conf {
            Some(conf) => conf.peer_as,
            None => 0,
        }
    }

    /// The configured times, or zeros.
    pub open spec fn times(self) -> TimersConfig {
        match self.timers {
            Some(Timers { config: Some(conf), .. }) => conf,
            _ => TimersConfig { connect_retry: 0, hold_time: 0 },
        }
    }
}

impl Peer {
    /// Whether the peer is waited for.
    pub fn get_passive_mode(&self) -> (r: bool)
        ensures
            r == self@.passive_mode(),
    {
        if let Some(transport) = &self.transport {
            return transport.passive_mode;
        }
        false
    }

    /// The port that the peer listens on.
    pub fn get_remote_port(&self) -> (r: u16)
        ensures
            r == self@.remote_port(),
    {
        if let Some(transport) = &self.transport {
            if transport.remote_port != 0 {
                return transport.remote_port as u16;
            }
        }
        bgp::BGP_PORT
    }

    /// The configured own AS number, or zero.
    pub fn get_local_as(&self) -> (r: u32)
        ensures
            r == self@.local_as(),
    {
        if let Some(conf) = &self.conf {
            return conf.local_as;
        }
        0
    }

    /// The configured AS number of the peer, or zero.
    pub fn get_remote_as(&self) -> (r: u32)
        ensures
            r == self@.remote_as(),
    {
        if let Some(conf) = &self.conf {
            return conf.peer_as;
        }
        0
    }

    /// The configured time between attempts to connect, or zero.
    pub fn get_connect_retry_time(&self) -> (r: u64)
        ensures
            r == self@.times().connect_retry,
    {
        if let Some(timers) = &self.timers {
            if let Some(conf) = &timers.config {
                return conf.connect_retry;
            }
        }
        0
    }

    /// The configured hold time, or zero.
    pub fn get_hold_time(&self) -> (r: u64)
        ensures
            r == self@.times().hold_time,
    {
        if let Some(timers) = &self.timers {
            if let Some(conf) = &timers.config {
                return conf.hold_time;
            }
        }
        0
    }

    /// The families that are configured for the peer.
    pub fn get_families(&self) -> (r: Vec<bgp::Family>)
        ensures
            r@ == self@.families(),
    {
        let mut v: Vec<bgp::Family> = Vec::new();
        let mut i: usize = 0;
        let ghost all = self.afi_safis@;
        proof {
            lists::lemma_filter_map_empty(all.take(0), configured_family());
        }
        while i < self.afi_safis.len()
            invariant
                i <= self.afi_safis@.len(),
                all == self.afi_safis@,
                v@ == all.take(i as int).filter_map(configured_family()),
            decreases self.afi_safis@.len() - i,
        {
            proof {
                lists::lemma_filter_map_take(all, configured_family(), i as int);
            }
            if let Some(conf) = &self.afi_safis[i].config {
                if let Some(family) = &conf.family {
                    let f = bgp::Family::from(
                        ((family.afi as u32) << 16) | (family.safi as u32 & 0xff),
                    );
                    match f {
                        bgp::Family::Ipv4Uc | bgp::Family::Ipv6Uc => {
                            v.push(f);
                        },
                        _ => {},
                    }
                }
            }
            i += 1;
        }
        assert(all.take(i as int) =~= all);
        if v.len() == 0 {
            if let Some(conf) = &self.conf {
                if let Some(addr) = &conf.neighbor_address {
                    v.push(bgp::family_of_addr(addr));
                    assert(v@ =~= seq![bgp::unicast_family(*addr)]);
                }
            }
        }
        v
    }
}

/// A point in time is shown with the seconds and the nanoseconds that it has.
pub proof fn law_shown_time(t: time::Timestamp)
    requires
        i64::MIN <= t.secs <= i64::MAX,
        t.nanos < 1_000_000_000,
    ensures
        t.spec_to_api().seconds == t.secs,
        t.spec_to_api().nanos == t.nanos,
{
}

/// Unicast families are shown with the numbers that they have on the wire, and are read from these
/// numbers alone.
pub proof fn law_family_numbers(f: Family)
    ensures
        bgp::Family::Ipv4Uc.spec_to_api() == (Family { afi: 1, safi: 1 }),
        bgp::Family::Ipv6Uc.spec_to_api() == (Family { afi: 2, safi: 1 }),
        bgp::Family::Reserved.spec_to_api() == (Family { afi: 0, safi: 0 }),
        f.spec_to_proto() == bgp::Family::Ipv4Uc <==> f.afi == 1 && f.safi == 1,
        f.spec_to_proto() == bgp::Family::Ipv6Uc <==> f.afi == 2 && f.safi == 1,
        f.spec_to_proto() != bgp::Family::Reserved,
{
}

/// An entry configures a family exactly when its numbers, the second cut to eight bits, are those
/// of IPv4 or IPv6 unicast.
pub proof fn law_configured_family(a: AfiSafi, f: Family)
    requires
        a.config == Some(AfiSafiConfig { family: Some(f) }),
        0 <= f.afi <= 0xffff,
        0 <= f.safi <= 0xff,
    ensures
        configured_family()(a) == if f.afi == 1 && f.safi == 1 {
            Some(bgp::Family::Ipv4Uc)
        } else if f.afi == 2 && f.safi == 1 {
            Some(bgp::Family::Ipv6Uc)
        } else {
            None
        },
{
    let afi = f.afi as u32;
    let safi = f.safi as u32;
    assert(((afi << 16) | (safi & 0xff)) == 0x0001_0001 <==> afi == 1 && safi == 1) by (bit_vector)
        requires
            afi <= 0xffff,
            safi <= 0xff,
    ;
    assert(((afi << 16) | (safi & 0xff)) == 0x0002_0001 <==> afi == 2 && safi == 1) by (bit_vector)
        requires
            afi <= 0xffff,
            safi <= 0xff,
    ;
    bgp::law_families(IpAddr::V4(0), (afi << 16) | (safi & 0xff));
}

/// A peer carries the families that are configured for it, in the order they have. One for which
/// none is configured carries that of its address.
pub proof fn law_families_of_a_peer(p: PeerView, x: AfiSafi)
    ensures
        ({
            let more = PeerView { afi_safis: p.afi_safis.push(x), ..p };
            let none = PeerView { afi_safis: Seq::empty(), ..p };
            let known = exists|i: int|
                0 <= i < p.afi_safis.len() && configured_family()(#[trigger] p.afi_safis[i]) is Some;
            &&& configured_family()(x) is None ==> more.families() == p.families()
            &&& configured_family()(x) is Some && known ==> more.families() == p.families().push(
                configured_family()(x)->0,
            )
            &&& configured_family()(x) is Some && !known ==> more.families() == seq![
                configured_family()(x)->0,
            ]
            &&& p.conf is Some && p.conf->0.neighbor_address is Some
                && p.conf->0.neighbor_address->0 is V4 ==> none.families() == seq![
                bgp::Family::Ipv4Uc,
            ]
            &&& p.conf is Some && p.conf->0.neighbor_address is Some
                && p.conf->0.neighbor_address->0 is V6 ==> none.families() == seq![
                bgp::Family::Ipv6Uc,
            ]
        }),
{
    let v = p.afi_safis.filter_map(configured_family());
    lists::lemma_filter_map_push(p.afi_safis, configured_family(), x);
    lists::lemma_filter_map_empty(Seq::<AfiSafi>::empty(), configured_family());
    if v.len() > 0 {
        assert(v.contains(v[0]));
        lists::lemma_filter_map_contains(p.afi_safis, configured_family(), v[0]);
    }
    if exists|i: int|
        0 <= i < p.afi_safis.len() && configured_family()(#[trigger] p.afi_safis[i]) is Some {
        let i = choose|i: int|
            0 <= i < p.afi_safis.len() && configured_family()(#[trigger] p.afi_safis[i]) is Some;
        let b = configured_family()(p.afi_safis[i])->0;
        lists::lemma_filter_map_contains(p.afi_safis, configured_family(), b);
    } else {
        assert(v =~= Seq::<bgp::Family>::empty());
    }
}

/// What is not configured for a peer has its usual value: the port of the protocol, a connection
/// that is not waited for, and zeros for numbers and times.
pub proof fn law_configuration_of_a_peer(p: PeerView)
    ensures
        p.transport matches Some(t) ==> p.passive_mode() == t.passive_mode && (0 < t.remote_port
            <= 0xffff ==> p.remote_port() == t.remote_port) && (t.remote_port == 0
            ==> p.remote_port() == 179),
        p.transport is None ==> !p.passive_mode() && p.remote_port() == 179,
        p.conf matches Some(c) ==> p.local_as() == c.local_as && p.remote_as() == c.peer_as,
        p.conf is None ==> p.local_as() == 0 && p.remote_as() == 0,
        p.timers is Some && p.timers->0.config is Some ==> p.times() == p.timers->0.config->0,
        p.timers is None || p.timers->0.config is None ==> p.times().connect_retry == 0
            && p.times().hold_time == 0,
{
}

/// A message names a destination exactly when it says that it is a prefix and its value could be
/// read, and then the prefix that is its value.
pub proof fn law_named_destination(n: AnyNlri)
    ensures
        n.spec_to_proto() is Some <==> n.type_url@ == TYPE_URL_PREFIX@ + "IPAddressPrefix"@
            && n.value is Some,
        n.spec_to_proto() matches Some(bgp::Nlri::Ip(net)) ==> net.addr == n.value->0.prefix && (
        n.value->0.prefix_len <= 0xff ==> net.mask == n.value->0.prefix_len),
{
}

/// What is said of the routes, attributes, capabilities and peers in a list is said of each of
/// them, in the order they have.
pub proof fn law_views(
    a: Seq<PathAttribute>,
    p: Seq<Path>,
    d: Seq<Destination>,
    c: Seq<Capability>,
    n: Seq<Peer>,
    i: int,
)
    ensures
        path_attribute_views(a).len() == a.len(),
        0 <= i < a.len() ==> path_attribute_views(a)[i] == a[i]@,
        path_views(p).len() == p.len(),
        0 <= i < p.len() ==> path_views(p)[i].best == p[i].best && path_views(p)[i].nlri
            == p[i].nlri && path_views(p)[i].family == p[i].family && path_views(p)[i].age
            == p[i].age && path_views(p)[i].pattrs == path_attribute_views(p[i].pattrs@),
        destination_views(d).len() == d.len(),
        0 <= i < d.len() ==> destination_views(d)[i].prefix == d[i].prefix && destination_views(
            d,
        )[i].paths == path_views(d[i].paths@),
        capability_views(c).len() == c.len(),
        0 <= i < c.len() ==> capability_views(c)[i] == c[i]@,
        peer_views(n).len() == n.len(),
        0 <= i < n.len() ==> peer_views(n)[i].conf == n[i].conf && peer_views(n)[i].timers
            == n[i].timers && peer_views(n)[i].transport == n[i].transport && peer_views(
            n,
        )[i].afi_safis == n[i].afi_safis@ && (peer_views(n)[i].state is Some) == (n[i].state is Some),
{
}

/// The type URL of a message is its name behind the domain and the package that the interface has.
pub proof fn law_type_url(name: Seq<char>)
    ensures
        spec_type_url(name) == "type.googleapis.com/gobgpapi."@ + name,
        IpAddressPrefix::spec_name() == "IPAddressPrefix"@,
{
}

} // verus!
