//! The attributes of routes that the management interface hands in.
use vstd::prelude::*;
use crate::addr::IpAddr;
use crate::api;
use crate::api::AsSegment;
use crate::bgp;
use crate::bgp::{Attribute, AttributeView, Nlri, Segment, SegmentView};
use crate::lists;
use crate::path::Path;
use crate::roa::Roa;
use crate::show;

verus! {

/// What the value of an attribute message is to be read as.
#[derive(Clone, Copy, PartialEq, Eq, Structural, Debug)]
pub enum AttributeKind {
    Origin,
    AsPath,
    NextHop,
    MultiExitDisc,
    LocalPref,
    AtomicAggregate,
    Aggregator,
    Communities,
    OriginatorId,
    ClusterList,
    /// Not to be read at all.
    Ignored,
}

/// What the value of a message with the type URL `url` is to be read as. Messages of unknown types
/// are read as lists of clusters, and those that say that they are such lists are ignored.
pub open spec fn kind_of_url(url: Seq<char>) -> AttributeKind {
    if url == api::spec_type_url("OriginAttribute"@) {
        AttributeKind::Origin
    } else if url == api::spec_type_url("AsPathAttribute"@) {
        AttributeKind::AsPath
    } else if url == api::spec_type_url("NextHopAttribute"@) {
        AttributeKind::NextHop
    } else if url == api::spec_type_url("MultiExitDiscAttribute"@) {
        AttributeKind::MultiExitDisc
    } else if url == api::spec_type_url("LocalPrefAttribute"@) {
        AttributeKind::LocalPref
    } else if url == api::spec_type_url("AtomicAggregateAttribute"@) {
        AttributeKind::AtomicAggregate
    } else if url == api::spec_type_url("AggregateAttribute"@) {
        AttributeKind::Aggregator
    } else if url == api::spec_type_url("CommunitiesAttribute"@) {
        AttributeKind::Communities
    } else if url == api::spec_type_url("OriginatorIdAttribute"@) {
        AttributeKind::OriginatorId
    } else if url == api::spec_type_url("ClusterListAttribute"@) {
        AttributeKind::Ignored
    } else {
        AttributeKind::ClusterList
    }
}

/// What the value of a message with the type URL `url` is to be read as.
pub fn attribute_kind(url: &String) -> (r: AttributeKind)
    ensures
        r == kind_of_url(url@),
{
    if *url == api::type_url("OriginAttribute") {
        AttributeKind::Origin
    } else if *url == api::type_url("AsPathAttribute") {
        AttributeKind::AsPath
    } else if *url == api::type_url("NextHopAttribute") {
        AttributeKind::NextHop
    } else if *url == api::type_url("MultiExitDiscAttribute") {
        AttributeKind::MultiExitDisc
    } else if *url == api::type_url("LocalPrefAttribute") {
        AttributeKind::LocalPref
    } else if *url == api::type_url("AtomicAggregateAttribute") {
        AttributeKind::AtomicAggregate
    } else if *url == api::type_url("AggregateAttribute") {
        AttributeKind::Aggregator
    } else if *url == api::type_url("CommunitiesAttribute") {
        AttributeKind::Communities
    } else if *url == api::type_url("OriginatorIdAttribute") {
        AttributeKind::OriginatorId
    } else if *url == api::type_url("ClusterListAttribute") {
        AttributeKind::Ignored
    } else {
        AttributeKind::ClusterList
    }
}

/// An attribute as it was read. An address is missing where its text is not an address.
#[derive(PartialEq, Eq, Debug)]
pub enum ReadAttribute {
    Origin { origin: u32 },
    AsPath { segments: Vec<AsSegment> },
    NextHop { next_hop: Option<IpAddr> },
    MultiExitDisc { med: u32 },
    LocalPref { local_pref: u32 },
    AtomicAggregate,
    Aggregator { as_number: u32, address: Option<IpAddr> },
    Communities { communities: Vec<u32> },
    OriginatorId { id: Option<IpAddr> },
    ClusterList { ids: Vec<Option<IpAddr>> },
    Ignored,
}

/// What a `ReadAttribute` holds.
#[verifier::ext_equal]
pub enum ReadAttributeView {
    Origin { origin: u32 },
    AsPath { segments: Seq<api::AsSegmentView> },
    NextHop { next_hop: Option<IpAddr> },
    MultiExitDisc { med: u32 },
    LocalPref { local_pref: u32 },
    AtomicAggregate,
    Aggregator { as_number: u32, address: Option<IpAddr> },
    Communities { communities: Seq<u32> },
    OriginatorId { id: Option<IpAddr> },
    ClusterList { ids: Seq<Option<IpAddr>> },
    Ignored,
}

impl View for ReadAttribute {
    type V = ReadAttributeView;

    open spec fn view(&self) -> ReadAttributeView {
        match *self {
            ReadAttribute::Origin { origin } => ReadAttributeView::Origin { origin },
            ReadAttribute::AsPath { segments } => ReadAttributeView::AsPath {
                segments: api::as_segment_views(segments@),
            },
            ReadAttribute::NextHop { next_hop } => ReadAttributeView::NextHop { next_hop },
            ReadAttribute::MultiExitDisc { med } => ReadAttributeView::MultiExitDisc { med },
            ReadAttribute::LocalPref { local_pref } => ReadAttributeView::LocalPref { local_pref },
            ReadAttribute::AtomicAggregate => ReadAttributeView::AtomicAggregate,
            ReadAttribute::Aggregator { as_number, address } => ReadAttributeView::Aggregator {
                as_number,
                address,
            },
            ReadAttribute::Communities { communities } => ReadAttributeView::Communities {
                communities: communities@,
            },
            ReadAttribute::OriginatorId { id } => ReadAttributeView::OriginatorId { id },
            ReadAttribute::ClusterList { ids } => ReadAttributeView::ClusterList { ids: ids@ },
            ReadAttribute::Ignored => ReadAttributeView::Ignored,
        }
    }
}

/// What the attributes in `v` hold.
pub open spec fn read_views(v: Seq<ReadAttribute>) -> Seq<ReadAttributeView> {
    v.map_values(|a: ReadAttribute| a@)
}

/// The address itself, for those that are there.
pub open spec fn present() -> spec_fn(Option<IpAddr>) -> Option<IpAddr> {
    |a: Option<IpAddr>| a
}

/// The segments of an AS path, from those that were read.
pub open spec fn native_segments(s: Seq<api::AsSegmentView>) -> Seq<SegmentView> {
    s.map_values(
        |s: api::AsSegmentView|
            SegmentView { segment_type: s.segment_type as u8, number: s.numbers },
    )
}

/// The attribute of a route that comes of the attribute that was read. A next hop does not become
/// an attribute, and one whose address is missing is left out.
pub open spec fn native_attribute() -> spec_fn(ReadAttributeView) -> Option<AttributeView> {
    |a: ReadAttributeView|
        match a {
            ReadAttributeView::Origin { origin } => Some(
                AttributeView::Origin { origin: origin as u8 },
            ),
            ReadAttributeView::AsPath { segments } => Some(
                AttributeView::AsPath { segments: native_segments(segments) },
            ),
            ReadAttributeView::NextHop { .. } => None,
            ReadAttributeView::MultiExitDisc { med } => Some(
                AttributeView::MultiExitDesc { descriptor: med },
            ),
            ReadAttributeView::LocalPref { local_pref } => Some(
                AttributeView::LocalPref { preference: local_pref },
            ),
            ReadAttributeView::AtomicAggregate => Some(AttributeView::AtomicAggregate),
            ReadAttributeView::Aggregator { as_number, address } => match address {
                Some(address) => Some(
                    AttributeView::Aggregator { four_byte: true, number: as_number, address },
                ),
                None => None,
            },
            ReadAttributeView::Communities { communities } => Some(
                AttributeView::Community { communities },
            ),
            ReadAttributeView::OriginatorId { id } => match id {
                Some(address) => Some(AttributeView::OriginatorId { address }),
                None => None,
            },
            ReadAttributeView::ClusterList { ids } => Some(
                AttributeView::ClusterList { addresses: ids.filter_map(present()) },
            ),
            ReadAttributeView::Ignored => None,
        }
}

/// The last next hop among `s`, or the unspecified IPv4 address.
pub open spec fn native_nexthop(s: Seq<ReadAttributeView>) -> IpAddr
    decreases s.len(),
{
    if s.len() == 0 {
        IpAddr::V4(0)
    } else {
        match s.last() {
            ReadAttributeView::NextHop { next_hop: Some(addr) } => addr,
            _ => native_nexthop(s.drop_last()),
        }
    }
}

fn to_segments(segments: &Vec<AsSegment>) -> (r: Vec<Segment>)
    ensures
        bgp::segment_views(r@) == native_segments(api::as_segment_views(segments@)),
{
    let mut r: Vec<Segment> = Vec::new();
    let mut i: usize = 0;
    let ghost all = native_segments(api::as_segment_views(segments@));
    while i < segments.len()
        invariant
            i <= segments@.len(),
            all == native_segments(api::as_segment_views(segments@)),
            bgp::segment_views(r@) == all.take(i as int),
        decreases segments@.len() - i,
    {
        let ghost before = r@;
        let s = &segments[i];
        r.push(Segment { segment_type: s.segment_type as u8, number: bgp::copied(&s.numbers) });
        proof {
            assert(r@.last()@ =~= all[i as int]);
            assert(bgp::segment_views(r@) =~= bgp::segment_views(before).push(r@.last()@));
            assert(all.take(i + 1) =~= all.take(i as int).push(all[i as int]));
        }
        i += 1;
    }
    assert(all.take(i as int) =~= all);
    r
}

fn to_addresses(ids: &Vec<Option<IpAddr>>) -> (r: Vec<IpAddr>)
    ensures
        r@ == ids@.filter_map(present()),
{
    let mut r: Vec<IpAddr> = Vec::new();
    let mut i: usize = 0;
    proof {
        lists::lemma_filter_map_empty(ids@.take(0), present());
    }
    while i < ids.len()
        invariant
            i <= ids@.len(),
            r@ == ids@.take(i as int).filter_map(present()),
        decreases ids@.len() - i,
    {
        proof {
            lists::lemma_filter_map_take(ids@, present(), i as int);
        }
        match ids[i] {
            Some(addr) => {
                r.push(addr);
            },
            None => {},
        }
        i += 1;
    }
    assert(ids@.take(i as int) =~= ids@);
    r
}

/// The attribute of a route that comes of one attribute that was read.
fn to_native_attr(a: &ReadAttribute) -> (r: Option<Attribute>)
    ensures
        match r {
            Some(x) => native_attribute()(a@) == Some(x@),
            None => native_attribute()(a@) is None,
        },
{
    match a {
        ReadAttribute::Origin { origin } => Some(Attribute::Origin { origin: *origin as u8 }),
        ReadAttribute::AsPath { segments } => Some(
            Attribute::AsPath { segments: to_segments(segments) },
        ),
        ReadAttribute::NextHop { .. } => None,
        ReadAttribute::MultiExitDisc { med } => Some(Attribute::MultiExitDesc { descriptor: *med }),
        ReadAttribute::LocalPref { local_pref } => Some(
            Attribute::LocalPref { preference: *local_pref },
        ),
        ReadAttribute::AtomicAggregate => Some(Attribute::AtomicAggregate),
        ReadAttribute::Aggregator { as_number, address } => match address {
            Some(addr) => Some(
                Attribute::Aggregator { four_byte: true, number: *as_number, address: *addr },
            ),
            None => None,
        },
        ReadAttribute::Communities { communities } => Some(
            Attribute::Community { communities: bgp::copied(communities) },
        ),
        ReadAttribute::OriginatorId { id } => match id {
            Some(addr) => Some(Attribute::OriginatorId { address: *addr }),
            None => None,
        },
        ReadAttribute::ClusterList { ids } => Some(
            Attribute::ClusterList { addresses: to_addresses(ids) },
        ),
        ReadAttribute::Ignored => None,
    }
}

/// The attributes of a route and its next hop, from the attributes that were read.
pub fn to_native_attrs(api_attrs: &Vec<ReadAttribute>) -> (r: (Vec<Attribute>, IpAddr))
    ensures
        bgp::attr_views(r.0@) == read_views(api_attrs@).filter_map(native_attribute()),
        r.1 == native_nexthop(read_views(api_attrs@)),
{
    let mut v: Vec<Attribute> = Vec::new();
    let mut nexthop: IpAddr = IpAddr::V4(0);
    let mut i: usize = 0;
    let ghost all = read_views(api_attrs@);
    proof {
        lists::lemma_filter_map_empty(all.take(0), native_attribute());
        assert(bgp::attr_views(v@) =~= all.take(0).filter_map(native_attribute()));
    }
    while i < api_attrs.len()
        invariant
            i <= api_attrs@.len(),
            all == read_views(api_attrs@),
            bgp::attr_views(v@) == all.take(i as int).filter_map(native_attribute()),
            nexthop == native_nexthop(all.take(i as int)),
        decreases api_attrs@.len() - i,
    {
        let a = &api_attrs[i];
        let ghost before = v@;
        proof {
            lists::lemma_filter_map_take(all, native_attribute(), i as int);
            assert(all.take(i + 1).drop_last() =~= all.take(i as int));
            assert(all.take(i + 1).last() == a@);
        }
        match a {
            ReadAttribute::NextHop { next_hop: Some(addr) } => {
                nexthop = *addr;
            },
            _ => {},
        }
        match to_native_attr(a) {
            Some(x) => {
                v.push(x);
                assert(bgp::attr_views(v@) =~= bgp::attr_views(before).push(x@));
            },
            None => {},
        }
        i += 1;
    }
    assert(all.take(i as int) =~= all);
    (v, nexthop)
}

proof fn lemma_url_injective(a: Seq<char>, b: Seq<char>)
    requires
        api::spec_type_url(a) == api::spec_type_url(b),
    ensures
        a == b,
{
    let p = api::TYPE_URL_PREFIX@;
    assert(a =~= (p + a).skip(p.len() as int));
    assert(b =~= (p + b).skip(p.len() as int));
}

/// What an attribute is read as when the message that shows it comes back unchanged, if its type
/// URL says what it is.
pub open spec fn read_from(a: api::PathAttributeView) -> ReadAttributeView {
    match (kind_of_url(api::spec_type_url(a.name())), a) {
        (AttributeKind::Origin, api::PathAttributeView::Origin { origin }) =>
            ReadAttributeView::Origin { origin },
        (AttributeKind::AsPath, api::PathAttributeView::AsPath { segments }) =>
            ReadAttributeView::AsPath { segments },
        (AttributeKind::NextHop, api::PathAttributeView::NextHop { next_hop }) =>
            ReadAttributeView::NextHop { next_hop: Some(next_hop) },
        (AttributeKind::MultiExitDisc, api::PathAttributeView::MultiExitDisc { med }) =>
            ReadAttributeView::MultiExitDisc { med },
        (AttributeKind::LocalPref, api::PathAttributeView::LocalPref { local_pref }) =>
            ReadAttributeView::LocalPref { local_pref },
        (AttributeKind::AtomicAggregate, api::PathAttributeView::AtomicAggregate) =>
            ReadAttributeView::AtomicAggregate,
        (AttributeKind::Communities, api::PathAttributeView::Communities { communities }) =>
            ReadAttributeView::Communities { communities },
        (AttributeKind::OriginatorId, api::PathAttributeView::OriginatorId { id }) =>
            ReadAttributeView::OriginatorId { id: Some(id) },
        _ => ReadAttributeView::Ignored,
    }
}

/// The type names of the attributes that can be read are all different.
proof fn lemma_names_differ()
    ensures
        "OriginAttribute"@ != "AsPathAttribute"@,
        "OriginAttribute"@.len() == 15,
        "AsPathAttribute"@.len() == 15,
        "NextHopAttribute"@.len() == 16,
        "MultiExitDiscAttribute"@.len() == 22,
        "LocalPrefAttribute"@.len() == 18,
        "AtomicAggregateAttribute"@.len() == 24,
        "AggregateAttribute"@.len() == 18,
        "CommunitiesAttribute"@.len() == 20,
        "OriginatorIdAttribute"@.len() == 21,
        "ClusterListAttribute"@.len() == 20,
{
    reveal_strlit("OriginAttribute");
    reveal_strlit("AsPathAttribute");
    reveal_strlit("NextHopAttribute");
    reveal_strlit("MultiExitDiscAttribute");
    reveal_strlit("LocalPrefAttribute");
    reveal_strlit("AtomicAggregateAttribute");
    reveal_strlit("AggregateAttribute");
    reveal_strlit("CommunitiesAttribute");
    reveal_strlit("OriginatorIdAttribute");
    reveal_strlit("ClusterListAttribute");
    assert("OriginAttribute"@[0] != "AsPathAttribute"@[0]);
}

/// An attribute that is shown is read back as it was, but for aggregators and lists of clusters.
pub proof fn law_attribute_is_read_back(a: AttributeView)
    requires
        show::shown_attribute()(a) is Some,
        !(a is Aggregator),
        !(a is ClusterList),
    ensures
        native_attribute()(read_from(show::shown_attribute()(a)->0)) == Some(a),
{
    let shown = show::shown_attribute()(a)->0;
    let url = api::spec_type_url(shown.name());
    lemma_names_differ();
    assert forall|n: Seq<char>| #[trigger] api::spec_type_url(n) == url implies n
        == shown.name() by {
        lemma_url_injective(n, shown.name());
    }
    match a {
        AttributeView::AsPath { segments } => {
            assert(native_segments(show::shown_segments(segments)) =~= segments);
        },
        _ => {},
    }
}

/// What is read when messages that show attributes come back unchanged.
pub open spec fn reading() -> spec_fn(api::PathAttributeView) -> ReadAttributeView {
    |a: api::PathAttributeView| read_from(a)
}

/// The attributes that are shown, and are not ignored when they come back.
pub open spec fn comes_back() -> spec_fn(AttributeView) -> bool {
    |a: AttributeView| show::shown_attribute()(a) is Some && !(a is ClusterList)
}

proof fn lemma_attributes_are_read_back(s: Seq<AttributeView>)
    requires
        forall|i: int| 0 <= i < s.len() ==> !(#[trigger] s[i] is Aggregator),
    ensures
        s.filter_map(show::shown_attribute()).map_values(reading()).filter_map(native_attribute())
            == s.filter(comes_back()),
    decreases s.len(),
{
    if s.len() == 0 {
        lists::lemma_filter_map_empty(s, show::shown_attribute());
        lists::lemma_filter_empty(s, comes_back());
        let none = s.filter_map(show::shown_attribute()).map_values(reading());
        lists::lemma_filter_map_empty(none, native_attribute());
        assert(none.filter_map(native_attribute()) =~= s.filter(comes_back()));
    } else {
        let t = s.drop_last();
        let x = s.last();
        assert(s =~= t.push(x));
        assert(!(s[s.len() - 1] is Aggregator));
        assert forall|i: int| 0 <= i < t.len() implies !(#[trigger] t[i] is Aggregator) by {
            assert(t[i] == s[i]);
        }
        lemma_attributes_are_read_back(t);
        lists::lemma_filter_push(t, comes_back(), x);
        lists::lemma_filter_map_push(t, show::shown_attribute(), x);
        if let Some(a) = show::shown_attribute()(x) {
            let shown = t.filter_map(show::shown_attribute());
            assert(shown.push(a).map_values(reading()) =~= shown.map_values(reading()).push(
                reading()(a),
            ));
            lists::lemma_filter_map_push(
                shown.map_values(reading()),
                native_attribute(),
                reading()(a),
            );
            if !(x is ClusterList) {
                law_attribute_is_read_back(x);
            }
        }
    }
}

/// When the messages that show a route come back unchanged, its next hop is read back, and so are
/// its attributes that are shown, in the order they had. Lists of clusters are not read back. A
/// route with an aggregator is left out: that attribute is shown under a name that is not read as
/// one.
pub proof fn law_route_is_read_back(
    p: Path,
    net: Nlri,
    nexthop: IpAddr,
    s: Seq<AttributeView>,
    m: Map<Seq<u8>, Seq<Roa>>,
)
    requires
        forall|i: int| 0 <= i < s.len() ==> !(#[trigger] s[i] is Aggregator),
    ensures
        p.spec_to_api(net, nexthop, s, m).pattrs.map_values(reading()).filter_map(
            native_attribute(),
        ) == s.filter(comes_back()),
        native_nexthop(p.spec_to_api(net, nexthop, s, m).pattrs.map_values(reading())) == nexthop,
{
    let shown = s.filter_map(show::shown_attribute());
    let hop = api::PathAttributeView::NextHop { next_hop: nexthop };
    let read = shown.map_values(reading());
    lemma_attributes_are_read_back(s);
    assert(shown.push(hop).map_values(reading()) =~= read.push(reading()(hop)));
    lists::lemma_filter_map_push(read, native_attribute(), reading()(hop));
    lemma_names_differ();
    assert forall|n: Seq<char>| #[trigger] api::spec_type_url(n) == api::spec_type_url(
        hop.name(),
    ) implies n == hop.name() by {
        lemma_url_injective(n, hop.name());
    }
}

/// What is read becomes the attribute of the same kind with the same values. Next hops, attributes
/// that are ignored, and aggregators and originators without an address become none.
pub proof fn law_native_attribute(a: ReadAttributeView)
    ensures
        match a {
            ReadAttributeView::Origin { origin } => origin < 256 ==> (native_attribute()(a) matches Some(
                AttributeView::Origin { origin: o },
            ) && o == origin),
            ReadAttributeView::AsPath { segments } => native_attribute()(a) matches Some(
                AttributeView::AsPath { segments: s },
            ) && s.len() == segments.len() && forall|i: int|
                0 <= i < s.len() ==> (#[trigger] s[i]).number == segments[i].numbers && (
                0 <= segments[i].segment_type < 256 ==> s[i].segment_type
                    == segments[i].segment_type),
            ReadAttributeView::MultiExitDisc { med } => native_attribute()(a) matches Some(
                AttributeView::MultiExitDesc { descriptor },
            ) && descriptor == med,
            ReadAttributeView::LocalPref { local_pref } => native_attribute()(a) matches Some(
                AttributeView::LocalPref { preference },
            ) && preference == local_pref,
            ReadAttributeView::AtomicAggregate => native_attribute()(a) matches Some(
                AttributeView::AtomicAggregate,
            ),
            ReadAttributeView::Aggregator { as_number, address: Some(at) } =>
                native_attribute()(a) matches Some(
                AttributeView::Aggregator { four_byte, number, address },
            ) && four_byte && number == as_number && address == at,
            ReadAttributeView::Communities { communities: c } => native_attribute()(
                a,
            ) matches Some(AttributeView::Community { communities }) && communities == c,
            ReadAttributeView::OriginatorId { id: Some(id) } => native_attribute()(a) matches Some(
                AttributeView::OriginatorId { address },
            ) && address == id,
            ReadAttributeView::ClusterList { ids } => native_attribute()(a) matches Some(
                AttributeView::ClusterList { .. },
            ),
            _ => native_attribute()(a) is None,
        },
{
}

/// The list of clusters holds the addresses that could be read, in the order they had.
pub proof fn law_native_clusters(ids: Seq<Option<IpAddr>>, x: Option<IpAddr>)
    ensures
        ({
            let of = |s: Seq<Option<IpAddr>>|
                native_attribute()(ReadAttributeView::ClusterList { ids: s })->0->addresses;
            &&& of(Seq::empty()) == Seq::<IpAddr>::empty()
            &&& x is Some ==> of(ids.push(x)) == of(ids).push(x->0)
            &&& x is None ==> of(ids.push(x)) == of(ids)
        }),
{
    lists::lemma_filter_map_empty(Seq::<Option<IpAddr>>::empty(), present());
    lists::lemma_filter_map_push(ids, present(), x);
}

/// The next hop of a route is the last that was read and is an address. Without any it is the
/// unspecified IPv4 address.
pub proof fn law_native_nexthop(s: Seq<ReadAttributeView>, i: int)
    ensures
        0 <= i < s.len() && s[i] is NextHop && s[i]->next_hop is Some && (forall|j: int|
            i < j < s.len() ==> !(#[trigger] s[j] is NextHop && s[j]->next_hop is Some))
            ==> native_nexthop(s) == s[i]->next_hop->0,
        (forall|j: int|
            0 <= j < s.len() ==> !(#[trigger] s[j] is NextHop && s[j]->next_hop is Some))
            ==> native_nexthop(s) == IpAddr::V4(0),
    decreases s.len(),
{
    if s.len() > 0 {
        let t = s.drop_last();
        assert forall|j: int| 0 <= j < t.len() implies t[j] == #[trigger] s[j] by {}
        law_native_nexthop(t, i);
        if !(s.last() is NextHop && s.last()->next_hop is Some) {
            if forall|j: int|
                0 <= j < s.len() ==> !(#[trigger] s[j] is NextHop && s[j]->next_hop is Some) {
                assert forall|j: int| 0 <= j < t.len() implies !(#[trigger] t[j] is NextHop
                    && t[j]->next_hop is Some) by {
                    assert(t[j] == s[j]);
                }
            }
            if 0 <= i < s.len() && s[i] is NextHop && s[i]->next_hop is Some && (forall|j: int|
                i < j < s.len() ==> !(#[trigger] s[j] is NextHop && s[j]->next_hop is Some)) {
                assert(t[i] == s[i]);
                assert forall|j: int| i < j < t.len() implies !(#[trigger] t[j] is NextHop
                    && t[j]->next_hop is Some) by {
                    assert(t[j] == s[j]);
                }
            }
        } else {
            assert(s[s.len() - 1] is NextHop);
        }
    }
}

/// What was read holds what is said of it, in the order it has.
pub proof fn law_read_views(v: Seq<ReadAttribute>, i: int)
    requires
        0 <= i < v.len(),
    ensures
        read_views(v).len() == v.len(),
        match v[i] {
            ReadAttribute::Origin { origin } => read_views(v)[i] matches ReadAttributeView::Origin {
                origin: o,
            } && o == origin,
            ReadAttribute::AsPath { segments } => read_views(
                v,
            )[i] matches ReadAttributeView::AsPath { segments: s } && s.len() == segments@.len()
                && forall|j: int|
                0 <= j < s.len() ==> (#[trigger] s[j]).segment_type == segments@[j].segment_type
                    && s[j].numbers == segments@[j].numbers@,
            ReadAttribute::NextHop { next_hop } => read_views(
                v,
            )[i] matches ReadAttributeView::NextHop { next_hop: n } && n == next_hop,
            ReadAttribute::MultiExitDisc { med } => read_views(
                v,
            )[i] matches ReadAttributeView::MultiExitDisc { med: m } && m == med,
            ReadAttribute::LocalPref { local_pref } => read_views(
                v,
            )[i] matches ReadAttributeView::LocalPref { local_pref: p } && p == local_pref,
            ReadAttribute::AtomicAggregate => read_views(v)[i] is AtomicAggregate,
            ReadAttribute::Aggregator { as_number, address } => read_views(
                v,
            )[i] matches ReadAttributeView::Aggregator { as_number: n, address: a } && n
                == as_number && a == address,
            ReadAttribute::Communities { communities } => read_views(
                v,
            )[i] matches ReadAttributeView::Communities { communities: c } && c == communities@,
            ReadAttribute::OriginatorId { id } => read_views(
                v,
            )[i] matches ReadAttributeView::OriginatorId { id: d } && d == id,
            ReadAttribute::ClusterList { ids } => read_views(
                v,
            )[i] matches ReadAttributeView::ClusterList { ids: d } && d == ids@,
            ReadAttribute::Ignored => read_views(v)[i] is Ignored,
        },
{
}

/// A type name tells what the message is to be read as, whatever else is there. Lists of clusters
/// are not read by their own name, and every name that is not known is read as one.
pub proof fn law_kinds(url: Seq<char>)
    ensures
        kind_of_url(api::TYPE_URL_PREFIX@ + "OriginAttribute"@) == AttributeKind::Origin,
        kind_of_url(api::TYPE_URL_PREFIX@ + "AsPathAttribute"@) == AttributeKind::AsPath,
        kind_of_url(api::TYPE_URL_PREFIX@ + "NextHopAttribute"@) == AttributeKind::NextHop,
        kind_of_url(api::TYPE_URL_PREFIX@ + "MultiExitDiscAttribute"@)
            == AttributeKind::MultiExitDisc,
        kind_of_url(api::TYPE_URL_PREFIX@ + "LocalPrefAttribute"@) == AttributeKind::LocalPref,
        kind_of_url(api::TYPE_URL_PREFIX@ + "AtomicAggregateAttribute"@)
            == AttributeKind::AtomicAggregate,
        kind_of_url(api::TYPE_URL_PREFIX@ + "AggregateAttribute"@) == AttributeKind::Aggregator,
        kind_of_url(api::TYPE_URL_PREFIX@ + "CommunitiesAttribute"@) == AttributeKind::Communities,
        kind_of_url(api::TYPE_URL_PREFIX@ + "OriginatorIdAttribute"@)
            == AttributeKind::OriginatorId,
        kind_of_url(api::TYPE_URL_PREFIX@ + "ClusterListAttribute"@) == AttributeKind::Ignored,
        !api::TYPE_URL_PREFIX@.is_prefix_of(url) ==> kind_of_url(url)
            == AttributeKind::ClusterList,
{
    let p = api::TYPE_URL_PREFIX@;
    lemma_names_differ();
    reveal_strlit("LocalPrefAttribute");
    reveal_strlit("AggregateAttribute");
    reveal_strlit("CommunitiesAttribute");
    reveal_strlit("ClusterListAttribute");
    assert("LocalPrefAttribute"@[0] != "AggregateAttribute"@[0]);
    assert("CommunitiesAttribute"@[1] != "ClusterListAttribute"@[1]);
    assert forall|a: Seq<char>, b: Seq<char>| #[trigger] (p + a) == #[trigger] (p + b) implies a
        == b by {
        lemma_url_injective(a, b);
    }
}

} // verus!
