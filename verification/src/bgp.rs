//! The values that BGP messages carry.
use vstd::prelude::*;
use crate::addr::{IpAddr, IpNet, Ipv4Addr};
use crate::vecmap::Key;

verus! {

/// The port that BGP speakers listen on.
pub const BGP_PORT: u16 = 179;

/// The address family and subsequent address family of IPv4 unicast routes, in one number.
pub const IPV4_UC: u32 = 0x0001_0001;

/// The address family and subsequent address family of IPv6 unicast routes, in one number.
pub const IPV6_UC: u32 = 0x0002_0001;

/// A kind of routes.
#[derive(Clone, Copy, PartialEq, Eq, Structural, Hash, Debug)]
pub enum Family {
    Reserved,
    Ipv4Uc,
    Ipv6Uc,
    Unknown(u32),
}

/// What a route leads to.
#[derive(Clone, Copy, PartialEq, Eq, Structural, Hash, Debug)]
pub enum Nlri {
    Ip(IpNet),
}

/// The state of a session with a peer.
#[derive(Clone, Copy, PartialEq, Eq, Structural, Hash, Debug)]
pub enum State {
    Idle,
    Active,
    Connect,
    OpenSent,
    OpenConfirm,
    Established,
}

/// Why a session is brought down.
#[derive(Clone, Copy, PartialEq, Eq, Structural, Hash, Debug)]
pub enum NotificationCode {
    OpenMessageBadPeerAs,
    PeerDeconfigured,
    Other(u8, u8),
}

impl Key for Family {
    type Id = Family;

    open spec fn id(self) -> Family {
        self
    }

    fn same(&self, other: &Self) -> (r: bool) {
        *self == *other
    }
}

impl Key for Nlri {
    type Id = Nlri;

    open spec fn id(self) -> Nlri {
        self
    }

    fn same(&self, other: &Self) -> (r: bool) {
        *self == *other
    }
}

/// The family that the number `v` stands for.
pub open spec fn family_of(v: u32) -> Family {
    if v == IPV4_UC {
        Family::Ipv4Uc
    } else if v == IPV6_UC {
        Family::Ipv6Uc
    } else {
        Family::Unknown(v)
    }
}

impl Family {
    /// The family that the number `v` stands for.
    pub fn from(v: u32) -> (r: Family)
        ensures
            r == family_of(v),
    {
        if v == IPV4_UC {
            Family::Ipv4Uc
        } else if v == IPV6_UC {
            Family::Ipv6Uc
        } else {
            Family::Unknown(v)
        }
    }
}

/// The family of the unicast routes that lead to addresses of the kind of `a`.
pub open spec fn unicast_family(a: IpAddr) -> Family {
    match a {
        IpAddr::V4(_) => Family::Ipv4Uc,
        IpAddr::V6(_) => Family::Ipv6Uc,
    }
}

/// The family of the unicast routes that lead to addresses of the kind of `a`.
pub fn family_of_addr(a: &IpAddr) -> (r: Family)
    ensures
        r == unicast_family(*a),
{
    match a {
        IpAddr::V4(_) => Family::Ipv4Uc,
        IpAddr::V6(_) => Family::Ipv6Uc,
    }
}

impl Nlri {
    /// The prefix that the route leads to.
    pub open spec fn net(self) -> IpNet {
        match self {
            Nlri::Ip(net) => net,
        }
    }

    /// Whether the route is carried in the multiprotocol attribute.
    pub fn is_mp(&self) -> (r: bool)
        ensures
            r == self.net().spec_is_v6(),
    {
        match self {
            Nlri::Ip(net) => net.is_v6(),
        }
    }
}

/// A copy of a list of plain values.
pub fn copied<T: Copy>(v: &Vec<T>) -> (r: Vec<T>)
    ensures
        r@ == v@,
{
    let mut r: Vec<T> = Vec::new();
    let mut i: usize = 0;
    while i < v.len()
        invariant
            i <= v@.len(),
            r@ == v@.take(i as int),
        decreases v@.len() - i,
    {
        r.push(v[i]);
        assert(v@.take(i + 1) =~= v@.take(i as int).push(v@[i as int]));
        i += 1;
    }
    assert(v@.take(i as int) =~= v@);
    r
}

/// A run of AS numbers on the way to a destination.
#[derive(PartialEq, Eq, Debug)]
pub struct Segment {
    pub segment_type: u8,
    pub number: Vec<u32>,
}

/// What a `Segment` holds.
#[verifier::ext_equal]
pub struct SegmentView {
    pub segment_type: u8,
    pub number: Seq<u32>,
}

/// The type of a segment whose AS numbers are a set.
pub const SEGMENT_SET: u8 = 1;

/// The type of a segment whose AS numbers are in the order of the way.
pub const SEGMENT_SEQ: u8 = 2;

impl View for Segment {
    type V = SegmentView;

    open spec fn view(&self) -> SegmentView {
        SegmentView { segment_type: self.segment_type, number: self.number@ }
    }
}

impl Clone for Segment {
    fn clone(&self) -> (r: Self)
        ensures
            r@ == self@,
    {
        Segment { segment_type: self.segment_type, number: copied(&self.number) }
    }
}

impl SegmentView {
    /// What the segment adds to the length of an AS path: each number of a sequence counts, a set
    /// counts as one, and other segments do not count.
    pub open spec fn as_len(self) -> nat {
        if self.segment_type == SEGMENT_SEQ {
            self.number.len()
        } else if self.segment_type == SEGMENT_SET {
            1
        } else {
            0
        }
    }
}

impl Segment {
    /// What the segment adds to the length of an AS path.
    pub fn as_len(&self) -> (r: usize)
        ensures
            r == self@.as_len(),
    {
        if self.segment_type == SEGMENT_SEQ {
            self.number.len()
        } else if self.segment_type == SEGMENT_SET {
            1
        } else {
            0
        }
    }
}

/// What the segments in `v` hold.
pub open spec fn segment_views(v: Seq<Segment>) -> Seq<SegmentView> {
    v.map_values(|s: Segment| s@)
}

/// A copy of a list of segments.
pub fn clone_segments(v: &Vec<Segment>) -> (r: Vec<Segment>)
    ensures
        segment_views(r@) == segment_views(v@),
{
    let mut r: Vec<Segment> = Vec::new();
    let mut i: usize = 0;
    while i < v.len()
        invariant
            i <= v@.len(),
            segment_views(r@) == segment_views(v@).take(i as int),
        decreases v@.len() - i,
    {
        let ghost before = r@;
        r.push(v[i].clone());
        proof {
            assert(segment_views(r@) =~= segment_views(before).push(v@[i as int]@));
            assert(segment_views(v@).take(i + 1) =~= segment_views(v@).take(i as int).push(
                v@[i as int]@,
            ));
        }
        i += 1;
    }
    assert(segment_views(v@).take(i as int) =~= segment_views(v@));
    r
}

/// A property of a route.
#[derive(PartialEq, Eq, Debug)]
pub enum Attribute {
    Origin { origin: u8 },
    AsPath { segments: Vec<Segment> },
    Nexthop { nexthop: IpAddr },
    MultiExitDesc { descriptor: u32 },
    LocalPref { preference: u32 },
    AtomicAggregate,
    Aggregator { four_byte: bool, number: u32, address: IpAddr },
    Community { communities: Vec<u32> },
    OriginatorId { address: IpAddr },
    ClusterList { addresses: Vec<IpAddr> },
    MpReach { family: Family, nexthop: IpAddr, nlri: Vec<Nlri> },
    /// An attribute that is passed on as it came.
    Other { flags: u8, code: u8, value: Vec<u8> },
}

/// What an `Attribute` holds.
#[verifier::ext_equal]
pub enum AttributeView {
    Origin { origin: u8 },
    AsPath { segments: Seq<SegmentView> },
    Nexthop { nexthop: IpAddr },
    MultiExitDesc { descriptor: u32 },
    LocalPref { preference: u32 },
    AtomicAggregate,
    Aggregator { four_byte: bool, number: u32, address: IpAddr },
    Community { communities: Seq<u32> },
    OriginatorId { address: IpAddr },
    ClusterList { addresses: Seq<IpAddr> },
    MpReach { family: Family, nexthop: IpAddr, nlri: Seq<Nlri> },
    Other { flags: u8, code: u8, value: Seq<u8> },
}

impl View for Attribute {
    type V = AttributeView;

    open spec fn view(&self) -> AttributeView {
        match *self {
            Attribute::Origin { origin } => AttributeView::Origin { origin },
            Attribute::AsPath { segments } => AttributeView::AsPath {
                segments: segment_views(segments@),
            },
            Attribute::Nexthop { nexthop } => AttributeView::Nexthop { nexthop },
            Attribute::MultiExitDesc { descriptor } => AttributeView::MultiExitDesc { descriptor },
            Attribute::LocalPref { preference } => AttributeView::LocalPref { preference },
            Attribute::AtomicAggregate => AttributeView::AtomicAggregate,
            Attribute::Aggregator { four_byte, number, address } => AttributeView::Aggregator {
                four_byte,
                number,
                address,
            },
            Attribute::Community { communities } => AttributeView::Community {
                communities: communities@,
            },
            Attribute::OriginatorId { address } => AttributeView::OriginatorId { address },
            Attribute::ClusterList { addresses } => AttributeView::ClusterList {
                addresses: addresses@,
            },
            Attribute::MpReach { family, nexthop, nlri } => AttributeView::MpReach {
                family,
                nexthop,
                nlri: nlri@,
            },
            Attribute::Other { flags, code, value } => AttributeView::Other {
                flags,
                code,
                value: value@,
            },
        }
    }
}

impl Clone for Attribute {
    fn clone(&self) -> (r: Self)
        ensures
            r@ == self@,
    {
        match self {
            Attribute::Origin { origin } => Attribute::Origin { origin: *origin },
            Attribute::AsPath { segments } => Attribute::AsPath {
                segments: clone_segments(segments),
            },
            Attribute::Nexthop { nexthop } => Attribute::Nexthop { nexthop: *nexthop },
            Attribute::MultiExitDesc { descriptor } => Attribute::MultiExitDesc {
                descriptor: *descriptor,
            },
            Attribute::LocalPref { preference } => Attribute::LocalPref { preference: *preference },
            Attribute::AtomicAggregate => Attribute::AtomicAggregate,
            Attribute::Aggregator { four_byte, number, address } => Attribute::Aggregator {
                four_byte: *four_byte,
                number: *number,
                address: *address,
            },
            Attribute::Community { communities } => Attribute::Community {
                communities: copied(communities),
            },
            Attribute::OriginatorId { address } => Attribute::OriginatorId { address: *address },
            Attribute::ClusterList { addresses } => Attribute::ClusterList {
                addresses: copied(addresses),
            },
            Attribute::MpReach { family, nexthop, nlri } => Attribute::MpReach {
                family: *family,
                nexthop: *nexthop,
                nlri: copied(nlri),
            },
            Attribute::Other { flags, code, value } => Attribute::Other {
                flags: *flags,
                code: *code,
                value: copied(value),
            },
        }
    }
}

pub const ORIGIN: u8 = 1;

pub const AS_PATH: u8 = 2;

pub const NEXTHOP: u8 = 3;

pub const MULTI_EXIT_DESC: u8 = 4;

pub const LOCAL_PREF: u8 = 5;

pub const ATOMIC_AGGREGATE: u8 = 6;

pub const AGGREGATOR: u8 = 7;

pub const COMMUNITY: u8 = 8;

pub const ORIGINATOR_ID: u8 = 9;

pub const CLUSTER_LIST: u8 = 10;

pub const MP_REACH: u8 = 14;

/// The bit of the attribute flags that marks an attribute to be passed on.
pub const FLAG_TRANSITIVE: u8 = 64;

/// The preference of a route that carries none.
pub const DEFAULT_LOCAL_PREF: u32 = 100;

impl AttributeView {
    /// The type code of the attribute.
    pub open spec fn code(self) -> u8 {
        match self {
            AttributeView::Origin { .. } => ORIGIN,
            AttributeView::AsPath { .. } => AS_PATH,
            AttributeView::Nexthop { .. } => NEXTHOP,
            AttributeView::MultiExitDesc { .. } => MULTI_EXIT_DESC,
            AttributeView::LocalPref { .. } => LOCAL_PREF,
            AttributeView::AtomicAggregate => ATOMIC_AGGREGATE,
            AttributeView::Aggregator { .. } => AGGREGATOR,
            AttributeView::Community { .. } => COMMUNITY,
            AttributeView::OriginatorId { .. } => ORIGINATOR_ID,
            AttributeView::ClusterList { .. } => CLUSTER_LIST,
            AttributeView::MpReach { .. } => MP_REACH,
            AttributeView::Other { code, .. } => code,
        }
    }

    /// Whether the attribute is of a kind of its own wherever there is one for its code.
    pub open spec fn wf(self) -> bool {
        match self {
            AttributeView::Other { code, .. } => !(ORIGIN <= code <= CLUSTER_LIST) && code
                != MP_REACH,
            _ => true,
        }
    }

    /// Whether the attribute is passed on from one AS to the next.
    pub open spec fn transitive(self) -> bool {
        match self {
            AttributeView::MultiExitDesc { .. } => false,
            AttributeView::OriginatorId { .. } => false,
            AttributeView::ClusterList { .. } => false,
            AttributeView::MpReach { .. } => false,
            AttributeView::Other { flags, .. } => flags & FLAG_TRANSITIVE != 0,
            _ => true,
        }
    }
}

impl Attribute {
    /// The type code of the attribute.
    pub fn attr(&self) -> (r: u8)
        ensures
            r == self@.code(),
    {
        match self {
            Attribute::Origin { .. } => ORIGIN,
            Attribute::AsPath { .. } => AS_PATH,
            Attribute::Nexthop { .. } => NEXTHOP,
            Attribute::MultiExitDesc { .. } => MULTI_EXIT_DESC,
            Attribute::LocalPref { .. } => LOCAL_PREF,
            Attribute::AtomicAggregate => ATOMIC_AGGREGATE,
            Attribute::Aggregator { .. } => AGGREGATOR,
            Attribute::Community { .. } => COMMUNITY,
            Attribute::OriginatorId { .. } => ORIGINATOR_ID,
            Attribute::ClusterList { .. } => CLUSTER_LIST,
            Attribute::MpReach { .. } => MP_REACH,
            Attribute::Other { code, .. } => *code,
        }
    }

    /// Whether the attribute is passed on from one AS to the next.
    pub fn is_transitive(&self) -> (r: bool)
        ensures
            r == self@.transitive(),
    {
        match self {
            Attribute::MultiExitDesc { .. } => false,
            Attribute::OriginatorId { .. } => false,
            Attribute::ClusterList { .. } => false,
            Attribute::MpReach { .. } => false,
            Attribute::Other { flags, .. } => *flags & FLAG_TRANSITIVE != 0,
            _ => true,
        }
    }
}

/// What the attributes in `v` hold.
pub open spec fn attr_views(v: Seq<Attribute>) -> Seq<AttributeView> {
    v.map_values(|a: Attribute| a@)
}

/// What the attributes that `v` refers to hold.
pub open spec fn attr_ref_views(v: Seq<&Attribute>) -> Seq<AttributeView> {
    v.map_values(|a: &Attribute| a@)
}

/// A copy of a list of attributes.
pub fn clone_attrs(v: &Vec<Attribute>) -> (r: Vec<Attribute>)
    ensures
        attr_views(r@) == attr_views(v@),
{
    let mut r: Vec<Attribute> = Vec::new();
    let mut i: usize = 0;
    while i < v.len()
        invariant
            i <= v@.len(),
            attr_views(r@) == attr_views(v@).take(i as int),
        decreases v@.len() - i,
    {
        let ghost before = r@;
        r.push(v[i].clone());
        proof {
            assert(attr_views(r@) =~= attr_views(before).push(v@[i as int]@));
            assert(attr_views(v@).take(i + 1) =~= attr_views(v@).take(i as int).push(
                v@[i as int]@,
            ));
        }
        i += 1;
    }
    assert(attr_views(v@).take(i as int) =~= attr_views(v@));
    r
}

/// Something that a BGP speaker can do.
#[allow(inconsistent_fields)]
#[derive(PartialEq, Eq, Debug)]
pub enum Capability {
    MultiProtocol { family: Family },
    RouteRefresh,
    CarryingLabelInfo,
    ExtendedNexthop { values: Vec<(Family, Family)> },
    GracefulRestart { flags: u8, time: u16, values: Vec<(Family, u8)> },
    FourOctetAsNumber { as_number: u32 },
    AddPath { values: Vec<(Family, u8)> },
    EnhanshedRouteRefresh,
    LongLivedGracefulRestart { values: Vec<(Family, u8, u32)> },
    RouteRefreshCisco,
    Unknown { code: u8, value: Vec<u8> },
}

/// What a `Capability` holds.
#[allow(inconsistent_fields)]
#[verifier::ext_equal]
pub enum CapabilityView {
    MultiProtocol { family: Family },
    RouteRefresh,
    CarryingLabelInfo,
    ExtendedNexthop { values: Seq<(Family, Family)> },
    GracefulRestart { flags: u8, time: u16, values: Seq<(Family, u8)> },
    FourOctetAsNumber { as_number: u32 },
    AddPath { values: Seq<(Family, u8)> },
    EnhanshedRouteRefresh,
    LongLivedGracefulRestart { values: Seq<(Family, u8, u32)> },
    RouteRefreshCisco,
    Unknown { code: u8, value: Seq<u8> },
}

impl View for Capability {
    type V = CapabilityView;

    open spec fn view(&self) -> CapabilityView {
        match *self {
            Capability::MultiProtocol { family } => CapabilityView::MultiProtocol { family },
            Capability::RouteRefresh => CapabilityView::RouteRefresh,
            Capability::CarryingLabelInfo => CapabilityView::CarryingLabelInfo,
            Capability::ExtendedNexthop { values } => CapabilityView::ExtendedNexthop {
                values: values@,
            },
            Capability::GracefulRestart { flags, time, values } => CapabilityView::GracefulRestart {
                flags,
                time,
                values: values@,
            },
            Capability::FourOctetAsNumber { as_number } => CapabilityView::FourOctetAsNumber {
                as_number,
            },
            Capability::AddPath { values } => CapabilityView::AddPath { values: values@ },
            Capability::EnhanshedRouteRefresh => CapabilityView::EnhanshedRouteRefresh,
            Capability::LongLivedGracefulRestart { values } =>
                CapabilityView::LongLivedGracefulRestart { values: values@ },
            Capability::RouteRefreshCisco => CapabilityView::RouteRefreshCisco,
            Capability::Unknown { code, value } => CapabilityView::Unknown { code, value: value@ },
        }
    }
}

impl Clone for Capability {
    fn clone(&self) -> (r: Self)
        ensures
            r@ == self@,
    {
        match self {
            Capability::MultiProtocol { family } => Capability::MultiProtocol { family: *family },
            Capability::RouteRefresh => Capability::RouteRefresh,
            Capability::CarryingLabelInfo => Capability::CarryingLabelInfo,
            Capability::ExtendedNexthop { values } => Capability::ExtendedNexthop {
                values: copied(values),
            },
            Capability::GracefulRestart { flags, time, values } => Capability::GracefulRestart {
                flags: *flags,
                time: *time,
                values: copied(values),
            },
            Capability::FourOctetAsNumber { as_number } => Capability::FourOctetAsNumber {
                as_number: *as_number,
            },
            Capability::AddPath { values } => Capability::AddPath { values: copied(values) },
            Capability::EnhanshedRouteRefresh => Capability::EnhanshedRouteRefresh,
            Capability::LongLivedGracefulRestart { values } =>
                Capability::LongLivedGracefulRestart { values: copied(values) },
            Capability::RouteRefreshCisco => Capability::RouteRefreshCisco,
            Capability::Unknown { code, value } => Capability::Unknown {
                code: *code,
                value: copied(value),
            },
        }
    }
}

/// What the capabilities in `v` hold.
pub open spec fn cap_views(v: Seq<Capability>) -> Seq<CapabilityView> {
    v.map_values(|c: Capability| c@)
}

/// A copy of a list of capabilities.
pub fn clone_capabilities(v: &Vec<Capability>) -> (r: Vec<Capability>)
    ensures
        cap_views(r@) == cap_views(v@),
{
    let mut r: Vec<Capability> = Vec::new();
    let mut i: usize = 0;
    while i < v.len()
        invariant
            i <= v@.len(),
            cap_views(r@) == cap_views(v@).take(i as int),
        decreases v@.len() - i,
    {
        let ghost before = r@;
        r.push(v[i].clone());
        proof {
            assert(cap_views(r@) =~= cap_views(before).push(v@[i as int]@));
            assert(cap_views(v@).take(i + 1) =~= cap_views(v@).take(i as int).push(v@[i as int]@));
        }
        i += 1;
    }
    assert(cap_views(v@).take(i as int) =~= cap_views(v@));
    r
}

/// A parameter of an OPEN message.
#[derive(PartialEq, Eq, Debug)]
pub enum OpenParam {
    CapabilityParam(Capability),
    UnknownParam,
}

/// An OPEN message.
#[derive(PartialEq, Eq, Debug)]
pub struct OpenMessage {
    pub id: Ipv4Addr,
    /// The AS number of the sender, in four octets where the sender has announced it so.
    pub as_number: u32,
    pub holdtime: u16,
    pub params: Vec<OpenParam>,
}

/// An UPDATE message.
#[derive(PartialEq, Eq, Debug)]
pub struct UpdateMessage {
    pub attrs: Vec<Attribute>,
    pub routes: Vec<Nlri>,
    pub withdrawns: Vec<Nlri>,
    /// The routes of the multiprotocol attribute, each list with its next hop.
    pub mp_routes: Vec<(Vec<Nlri>, IpAddr)>,
    /// The next hop of `routes`.
    pub nexthop: IpAddr,
}

/// A message between BGP speakers.
#[derive(PartialEq, Eq, Debug)]
pub enum Message {
    Open(OpenMessage),
    Update(UpdateMessage),
    Notification(NotificationCode),
    Keepalive,
    RouteRefresh(Family),
    Unknown { length: usize, code: u8 },
}

/// The routes and attributes that one UPDATE message is to carry.
#[derive(PartialEq, Eq, Debug)]
pub struct UpdatePdu {
    pub routes: Vec<Nlri>,
    pub withdrawns: Vec<Nlri>,
    pub attrs: Vec<Attribute>,
}

/// What an `UpdatePdu` holds.
#[verifier::ext_equal]
pub struct UpdatePduView {
    pub routes: Seq<Nlri>,
    pub withdrawns: Seq<Nlri>,
    pub attrs: Seq<AttributeView>,
}

impl View for UpdatePdu {
    type V = UpdatePduView;

    open spec fn view(&self) -> UpdatePduView {
        UpdatePduView {
            routes: self.routes@,
            withdrawns: self.withdrawns@,
            attrs: attr_views(self.attrs@),
        }
    }
}

/// Routes to IPv4 addresses are of one family and routes to IPv6 addresses of the other. The
/// numbers of the two are told apart from all others.
pub proof fn law_families(a: IpAddr, v: u32)
    ensures
        unicast_family(a) == (match a {
            IpAddr::V4(_) => Family::Ipv4Uc,
            IpAddr::V6(_) => Family::Ipv6Uc,
        }),
        (family_of(v) == Family::Ipv4Uc) == (v == 0x0001_0001),
        (family_of(v) == Family::Ipv6Uc) == (v == 0x0002_0001),
        v != 0x0001_0001 && v != 0x0002_0001 ==> family_of(v) == Family::Unknown(v),
{
}

/// Each kind of attribute has a code of its own.
pub proof fn law_codes(a: AttributeView)
    ensures
        match a {
            AttributeView::Origin { .. } => a.code() == 1,
            AttributeView::AsPath { .. } => a.code() == 2,
            AttributeView::Nexthop { .. } => a.code() == 3,
            AttributeView::MultiExitDesc { .. } => a.code() == 4,
            AttributeView::LocalPref { .. } => a.code() == 5,
            AttributeView::AtomicAggregate => a.code() == 6,
            AttributeView::Aggregator { .. } => a.code() == 7,
            AttributeView::Community { .. } => a.code() == 8,
            AttributeView::OriginatorId { .. } => a.code() == 9,
            AttributeView::ClusterList { .. } => a.code() == 10,
            AttributeView::MpReach { .. } => a.code() == 14,
            AttributeView::Other { code, .. } => a.code() == code,
        },
{
}

/// What is said of a list of attributes, segments or capabilities is said of each of them, in the
/// order they have.
pub proof fn law_views(a: Seq<Attribute>, s: Seq<Segment>, c: Seq<Capability>, i: int)
    ensures
        attr_views(a).len() == a.len(),
        0 <= i < a.len() ==> attr_views(a)[i] == a[i]@,
        segment_views(s).len() == s.len(),
        0 <= i < s.len() ==> segment_views(s)[i].segment_type == s[i].segment_type
            && segment_views(s)[i].number == s[i].number@,
        cap_views(c).len() == c.len(),
        0 <= i < c.len() ==> cap_views(c)[i] == c[i]@,
{
}

/// What an attribute holds is what is said of it: the kind is the same, and so are all values.
pub proof fn law_attribute_view(a: Attribute)
    ensures
        match a {
            Attribute::Origin { origin } => a@ is Origin && a@->origin == origin,
            Attribute::AsPath { segments } => a@ is AsPath && a@->segments == segment_views(
                segments@,
            ),
            Attribute::Nexthop { nexthop } => a@ is Nexthop && a@->Nexthop_nexthop == nexthop,
            Attribute::MultiExitDesc { descriptor } => a@ is MultiExitDesc && a@->descriptor
                == descriptor,
            Attribute::LocalPref { preference } => a@ is LocalPref && a@->preference == preference,
            Attribute::AtomicAggregate => a@ is AtomicAggregate,
            Attribute::Aggregator { four_byte, number, address } => a@ is Aggregator
                && a@->four_byte == four_byte && a@->number == number && a@->Aggregator_address
                == address,
            Attribute::Community { communities } => a@ is Community && a@->communities
                == communities@,
            Attribute::OriginatorId { address } => a@ is OriginatorId
                && a@->OriginatorId_address == address,
            Attribute::ClusterList { addresses } => a@ is ClusterList && a@->addresses
                == addresses@,
            Attribute::MpReach { family, nexthop, nlri } => a@ is MpReach && a@->family == family
                && a@->MpReach_nexthop == nexthop && a@->nlri == nlri@,
            Attribute::Other { flags, code, value } => a@ is Other && a@->flags == flags
                && a@->code == code && a@->value == value@,
        },
{
}

} // verus!
