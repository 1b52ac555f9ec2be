//! How the management interface shows routes and authorizations.
use vstd::prelude::*;
use patricia_tree::PatriciaMap;
use crate::addr;
use crate::addr::{IpAddr, IpNet, SocketAddr};
use crate::api;
use crate::bgp;
use crate::bgp::{
    Attribute, AttributeView, Capability, CapabilityView, Family, Nlri, Segment, SegmentView,
};
use crate::counter::MessageCounter;
use crate::lists;
use crate::path::Path;
use crate::roa;
use crate::roa::Roa;
use crate::rtr;
use crate::rtr::RtrSession;

verus! {

impl Roa {
    /// How the authorization is shown for the prefix `net`.
    pub open spec fn spec_to_api(self, net: IpNet) -> api::Roa {
        api::Roa {
            as_number: self.as_number,
            prefixlen: net.mask as u32,
            maxlen: self.max_length as u32,
            prefix: net.addr,
            conf: api::RpkiConf { address: self.source.address, remote_port: 0 },
        }
    }

    /// How the authorization is shown for the prefix `net`.
    pub fn to_api(&self, net: IpNet) -> (r: api::Roa)
        ensures
            r == self.spec_to_api(net),
    {
        api::Roa {
            as_number: self.as_number,
            prefixlen: net.mask as u32,
            maxlen: self.max_length as u32,
            prefix: net.addr,
            conf: api::RpkiConf { address: self.source.address, remote_port: 0 },
        }
    }
}

/// The AS that a route with the AS path `attr` originates from: the last one of the path, or the
/// own AS `local_as` where the path does not end in a sequence.
pub open spec fn origin_as(attr: Option<AttributeView>, local_as: u32) -> u32 {
    match attr {
        Some(AttributeView::AsPath { segments }) => {
            let seg = segments.last();
            if seg.segment_type == bgp::SEGMENT_SEQ && seg.number.len() > 0 {
                seg.number.last()
            } else {
                local_as
            }
        },
        _ => local_as,
    }
}

/// Whether the attribute is not an AS path without segments.
pub open spec fn has_segments(attr: Option<AttributeView>) -> bool {
    match attr {
        Some(AttributeView::AsPath { segments }) => segments.len() > 0,
        _ => true,
    }
}

/// The octets that the prefix `net` reaches into.
pub open spec fn prefix_octets(net: IpNet) -> Seq<u8> {
    net.addr.spec_octets().take((net.mask + 7) / 8)
}

/// The authorizations in the lists `s`, one list after the other.
pub open spec fn all_roas(s: Seq<(Seq<u8>, Seq<Roa>)>) -> Seq<Roa>
    decreases s.len(),
{
    if s.len() == 0 {
        Seq::empty()
    } else {
        all_roas(s.drop_last()) + s.last().1
    }
}

/// The authorizations that a route to `net` is held against: those of all prefixes whose addresses
/// start with the octets that `net` reaches into.
pub open spec fn roas_for(m: Map<Seq<u8>, Seq<Roa>>, net: IpNet) -> Seq<Roa> {
    all_roas(roa::sorted_entries(m, prefix_octets(net)))
}

/// The authorizations that allow a prefix of length `mask` from the AS `origin`.
pub open spec fn allows(mask: u8, origin: u32) -> spec_fn(Roa) -> bool {
    |r: Roa| mask <= r.max_length && r.as_number != 0 && r.as_number == origin
}

/// The authorizations that allow a prefix of length `mask`, but not from the AS `origin`.
pub open spec fn allows_others(mask: u8, origin: u32) -> spec_fn(Roa) -> bool {
    |r: Roa| mask <= r.max_length && (r.as_number == 0 || r.as_number != origin)
}

/// The authorizations that do not allow a prefix of length `mask`.
pub open spec fn too_long(mask: u8) -> spec_fn(Roa) -> bool {
    |r: Roa| mask > r.max_length
}

/// How those of the authorizations `s` that `pred` picks are shown for `net`.
pub open spec fn shown_roas(s: Seq<Roa>, pred: spec_fn(Roa) -> bool, net: IpNet) -> Seq<api::Roa> {
    s.filter(pred).map_values(|r: Roa| r.spec_to_api(net))
}

/// How a route to `net` from the AS `origin` stands to the authorizations `s`.
pub open spec fn verdict(s: Seq<Roa>, net: IpNet, origin: u32) -> api::ValidationView {
    let matched = shown_roas(s, allows(net.mask, origin), net);
    let unmatched_as = shown_roas(s, allows_others(net.mask, origin), net);
    let unmatched_length = shown_roas(s, too_long(net.mask), net);
    api::ValidationView {
        state: if matched.len() > 0 {
            api::ValidationState::Valid
        } else if unmatched_as.len() > 0 || unmatched_length.len() > 0 {
            api::ValidationState::Invalid
        } else {
            api::ValidationState::NotFound
        },
        reason: if matched.len() > 0 {
            api::ValidationReason::NoReason
        } else if unmatched_as.len() > 0 {
            api::ValidationReason::As
        } else if unmatched_length.len() > 0 {
            api::ValidationReason::Length
        } else {
            api::ValidationReason::NoReason
        },
        matched,
        unmatched_as,
        unmatched_length,
    }
}

proof fn lemma_shown_push(s: Seq<Roa>, pred: spec_fn(Roa) -> bool, net: IpNet, i: int)
    requires
        0 <= i < s.len(),
    ensures
        shown_roas(s.take(i + 1), pred, net) == if pred(s[i]) {
            shown_roas(s.take(i), pred, net).push(s[i].spec_to_api(net))
        } else {
            shown_roas(s.take(i), pred, net)
        },
{
    lists::lemma_filter_take(s, pred, i);
    if pred(s[i]) {
        assert(shown_roas(s.take(i + 1), pred, net) =~= shown_roas(s.take(i), pred, net).push(
            s[i].spec_to_api(net),
        ));
    }
}

proof fn lemma_shown_add(s: Seq<Roa>, t: Seq<Roa>, pred: spec_fn(Roa) -> bool, net: IpNet)
    ensures
        shown_roas(s + t, pred, net) == shown_roas(s, pred, net) + shown_roas(t, pred, net),
{
    Seq::filter_distributes_over_add(s, t, pred);
    assert(shown_roas(s + t, pred, net) =~= shown_roas(s, pred, net) + shown_roas(t, pred, net));
}

/// Adds the authorizations in `entry` to the three lists of `v`.
fn classify(v: &mut api::Validation, entry: &Vec<Roa>, net: IpNet, origin: u32)
    ensures
        final(v).state == old(v).state,
        final(v).reason == old(v).reason,
        final(v).matched@ == old(v).matched@ + shown_roas(entry@, allows(net.mask, origin), net),
        final(v).unmatched_as@ == old(v).unmatched_as@ + shown_roas(
            entry@,
            allows_others(net.mask, origin),
            net,
        ),
        final(v).unmatched_length@ == old(v).unmatched_length@ + shown_roas(
            entry@,
            too_long(net.mask),
            net,
        ),
{
    let mut i: usize = 0;
    let ghost a = allows(net.mask, origin);
    let ghost b = allows_others(net.mask, origin);
    let ghost c = too_long(net.mask);
    proof {
        lists::lemma_filter_empty(entry@.take(0), a);
        lists::lemma_filter_empty(entry@.take(0), b);
        lists::lemma_filter_empty(entry@.take(0), c);
        assert(v.matched@ =~= old(v).matched@ + shown_roas(entry@.take(0), a, net));
        assert(v.unmatched_as@ =~= old(v).unmatched_as@ + shown_roas(entry@.take(0), b, net));
        assert(v.unmatched_length@ =~= old(v).unmatched_length@ + shown_roas(
            entry@.take(0),
            c,
            net,
        ));
    }
    while i < entry.len()
        invariant
            i <= entry@.len(),
            a == allows(net.mask, origin),
            b == allows_others(net.mask, origin),
            c == too_long(net.mask),
            v.state == old(v).state,
            v.reason == old(v).reason,
            v.matched@ == old(v).matched@ + shown_roas(entry@.take(i as int), a, net),
            v.unmatched_as@ == old(v).unmatched_as@ + shown_roas(entry@.take(i as int), b, net),
            v.unmatched_length@ == old(v).unmatched_length@ + shown_roas(
                entry@.take(i as int),
                c,
                net,
            ),
        decreases entry@.len() - i,
    {
        let r = &entry[i];
        proof {
            lemma_shown_push(entry@, a, net, i as int);
            lemma_shown_push(entry@, b, net, i as int);
            lemma_shown_push(entry@, c, net, i as int);
        }
        let ghost before = *v;
        if net.mask <= r.max_length {
            if r.as_number != 0 && r.as_number == origin {
                v.matched.push(r.to_api(net));
            } else {
                v.unmatched_as.push(r.to_api(net));
            }
        } else {
            v.unmatched_length.push(r.to_api(net));
        }
        proof {
            assert(v.matched@ =~= old(v).matched@ + shown_roas(entry@.take(i + 1), a, net));
            assert(v.unmatched_as@ =~= old(v).unmatched_as@ + shown_roas(
                entry@.take(i + 1),
                b,
                net,
            ));
            assert(v.unmatched_length@ =~= old(v).unmatched_length@ + shown_roas(
                entry@.take(i + 1),
                c,
                net,
            ));
        }
        i += 1;
    }
    assert(entry@.take(i as int) =~= entry@);
}

/// Every authorization that a route is held against falls into exactly one of the three lists.
pub proof fn law_verdict_partitions(s: Seq<Roa>, net: IpNet, origin: u32)
    ensures
        ({
            let v = verdict(s, net, origin);
            v.matched.len() + v.unmatched_as.len() + v.unmatched_length.len() == s.len()
        }),
    decreases s.len(),
{
    let a = allows(net.mask, origin);
    let b = allows_others(net.mask, origin);
    let c = too_long(net.mask);
    if s.len() == 0 {
        lists::lemma_filter_empty(s, a);
        lists::lemma_filter_empty(s, b);
        lists::lemma_filter_empty(s, c);
    } else {
        let n = s.len() - 1;
        law_verdict_partitions(s.take(n), net, origin);
        lemma_shown_push(s, a, net, n);
        lemma_shown_push(s, b, net, n);
        lemma_shown_push(s, c, net, n);
        assert(s.take(n + 1) =~= s);
    }
}

/// A route is valid exactly when one of the authorizations it is held against has room for its
/// length and names its origin, it is not found exactly when it is held against none, and it is
/// invalid otherwise.
pub proof fn law_verdict_state(s: Seq<Roa>, net: IpNet, origin: u32)
    ensures
        (verdict(s, net, origin).state == api::ValidationState::Valid) == (exists|i: int|
            0 <= i < s.len() && (#[trigger] s[i]).max_length >= net.mask && s[i].as_number != 0
                && s[i].as_number == origin),
        (verdict(s, net, origin).state == api::ValidationState::NotFound) == (s.len() == 0),
{
    let a = allows(net.mask, origin);
    let v = verdict(s, net, origin);
    law_verdict_partitions(s, net, origin);
    if v.matched.len() > 0 {
        let x = s.filter(a)[0];
        assert(s.filter(a).contains(x));
        lists::lemma_filter_contains(s, a, x);
        let i = choose|i: int| 0 <= i < s.len() && s[i] == x;
        assert(s[i].max_length >= net.mask);
    }
    if exists|i: int|
        0 <= i < s.len() && (#[trigger] s[i]).max_length >= net.mask && s[i].as_number != 0
            && s[i].as_number == origin {
        let i = choose|i: int|
            0 <= i < s.len() && (#[trigger] s[i]).max_length >= net.mask && s[i].as_number != 0
                && s[i].as_number == origin;
        assert(s.contains(s[i]));
        lists::lemma_filter_contains(s, a, s[i]);
        assert(s.filter(a).len() > 0);
    }
}

/// How an attribute is shown: the next hop and what the interface has no form for is not.
pub open spec fn shown_attribute() -> spec_fn(AttributeView) -> Option<api::PathAttributeView> {
    |a: AttributeView|
        match a {
            AttributeView::Origin { origin } => Some(
                api::PathAttributeView::Origin { origin: origin as u32 },
            ),
            AttributeView::AsPath { segments } => Some(
                api::PathAttributeView::AsPath { segments: shown_segments(segments) },
            ),
            AttributeView::MultiExitDesc { descriptor } => Some(
                api::PathAttributeView::MultiExitDisc { med: descriptor },
            ),
            AttributeView::LocalPref { preference } => Some(
                api::PathAttributeView::LocalPref { local_pref: preference },
            ),
            AttributeView::AtomicAggregate => Some(api::PathAttributeView::AtomicAggregate),
            AttributeView::Aggregator { number, address, .. } => Some(
                api::PathAttributeView::Aggregator { as_number: number, address },
            ),
            AttributeView::Community { communities } => Some(
                api::PathAttributeView::Communities { communities },
            ),
            AttributeView::OriginatorId { address } => Some(
                api::PathAttributeView::OriginatorId { id: address },
            ),
            AttributeView::ClusterList { addresses } => Some(
                api::PathAttributeView::ClusterList { ids: addresses },
            ),
            _ => None,
        }
}

/// How the segments of an AS path are shown.
pub open spec fn shown_segments(s: Seq<SegmentView>) -> Seq<api::AsSegmentView> {
    s.map_values(
        |s: SegmentView|
            api::AsSegmentView { segment_type: s.segment_type as u32, numbers: s.number },
    )
}

/// The last AS path among `s`.
pub open spec fn last_as_path(s: Seq<AttributeView>) -> Option<AttributeView>
    decreases s.len(),
{
    if s.len() == 0 {
        None
    } else if s.last() is AsPath {
        Some(s.last())
    } else {
        last_as_path(s.drop_last())
    }
}

/// Whether a route to `net` with the attributes `s` can be held against the authorizations `m`.
pub open spec fn can_validate(
    net: IpNet,
    s: Seq<AttributeView>,
    m: Map<Seq<u8>, Seq<Roa>>,
) -> bool {
    m != roa::no_roas() ==> net.valid() && has_segments(last_as_path(s))
}

fn show_segments(segments: &Vec<Segment>) -> (r: Vec<api::AsSegment>)
    ensures
        api::as_segment_views(r@) == shown_segments(bgp::segment_views(segments@)),
{
    let mut r: Vec<api::AsSegment> = Vec::new();
    let mut i: usize = 0;
    let ghost all = shown_segments(bgp::segment_views(segments@));
    while i < segments.len()
        invariant
            i <= segments@.len(),
            all == shown_segments(bgp::segment_views(segments@)),
            api::as_segment_views(r@) == all.take(i as int),
        decreases segments@.len() - i,
    {
        let ghost before = r@;
        let s = &segments[i];
        r.push(
            api::AsSegment { segment_type: s.segment_type as u32, numbers: bgp::copied(&s.number) },
        );
        proof {
            assert(r@.last()@ =~= all[i as int]);
            assert(api::as_segment_views(r@) =~= api::as_segment_views(before).push(r@.last()@));
            assert(all.take(i + 1) =~= all.take(i as int).push(all[i as int]));
        }
        i += 1;
    }
    assert(all.take(i as int) =~= all);
    r
}

/// How one attribute is shown.
fn show_attribute(attr: &Attribute) -> (r: Option<api::PathAttribute>)
    ensures
        match r {
            Some(a) => shown_attribute()(attr@) == Some(a@),
            None => shown_attribute()(attr@) is None,
        },
{
    match attr {
        Attribute::Origin { origin } => Some(
            api::PathAttribute::Origin { origin: *origin as u32 },
        ),
        Attribute::AsPath { segments } => Some(
            api::PathAttribute::AsPath { segments: show_segments(segments) },
        ),
        Attribute::MultiExitDesc { descriptor } => Some(
            api::PathAttribute::MultiExitDisc { med: *descriptor },
        ),
        Attribute::LocalPref { preference } => Some(
            api::PathAttribute::LocalPref { local_pref: *preference },
        ),
        Attribute::AtomicAggregate => Some(api::PathAttribute::AtomicAggregate),
        Attribute::Aggregator { four_byte: _, number, address } => Some(
            api::PathAttribute::Aggregator { as_number: *number, address: *address },
        ),
        Attribute::Community { communities } => Some(
            api::PathAttribute::Communities { communities: bgp::copied(communities) },
        ),
        Attribute::OriginatorId { address } => Some(
            api::PathAttribute::OriginatorId { id: *address },
        ),
        Attribute::ClusterList { addresses } => Some(
            api::PathAttribute::ClusterList { ids: bgp::copied(addresses) },
        ),
        _ => None,
    }
}

impl Path {
    /// How the route to `ipnet` with the AS path `attr` stands to the authorizations `rt`.
    pub fn to_validate_api(
        &self,
        ipnet: IpNet,
        rt: &PatriciaMap<Vec<Roa>>,
        attr: Option<&Attribute>,
    ) -> (r: api::Validation)
        requires
            ipnet.valid(),
            attr is Some ==> has_segments(Some(attr->0@)),
        ensures
            roa::lists_prefix(
                roa::sorted_entries(roa::roa_entries(*rt), prefix_octets(ipnet)),
                roa::roa_entries(*rt),
                prefix_octets(ipnet),
            ),
            r@ == verdict(
                roas_for(roa::roa_entries(*rt), ipnet),
                ipnet,
                origin_as(
                    match attr {
                        Some(a) => Some(a@),
                        None => None,
                    },
                    self.source.local_as,
                ),
            ),
    {
        let mut v = api::Validation {
            state: api::ValidationState::NotFound,
            reason: api::ValidationReason::NoReason,
            matched: Vec::new(),
            unmatched_as: Vec::new(),
            unmatched_length: Vec::new(),
        };
        let as_number: u32 = match attr {
            Some(Attribute::AsPath { segments }) => {
                let seg = &segments[segments.len() - 1];
                assert(bgp::segment_views(segments@).last() == seg@);
                if seg.segment_type == bgp::SEGMENT_SEQ {
                    if seg.number.len() == 0 {
                        self.source.local_as
                    } else {
                        seg.number[seg.number.len() - 1]
                    }
                } else {
                    self.source.local_as
                }
            },
            _ => self.source.local_as,
        };
        let mut octets: Vec<u8> = ipnet.addr.octets();
        octets.truncate(((ipnet.mask + 7) / 8) as usize);
        assert(octets@ =~= prefix_octets(ipnet));
        let entries = roa::entries_under(rt, &octets);
        let ghost all = roa::shown(entries@);
        let ghost a = allows(ipnet.mask, as_number);
        let ghost b = allows_others(ipnet.mask, as_number);
        let ghost c = too_long(ipnet.mask);
        let mut i: usize = 0;
        proof {
            let none = Seq::<Roa>::empty();
            assert(all_roas(all.take(0)) == none);
            lists::lemma_filter_empty(none, a);
            lists::lemma_filter_empty(none, b);
            lists::lemma_filter_empty(none, c);
            assert(v.matched@ =~= shown_roas(none, a, ipnet));
            assert(v.unmatched_as@ =~= shown_roas(none, b, ipnet));
            assert(v.unmatched_length@ =~= shown_roas(none, c, ipnet));
        }
        while i < entries.len()
            invariant
                i <= entries@.len(),
                all == roa::shown(entries@),
                a == allows(ipnet.mask, as_number),
                b == allows_others(ipnet.mask, as_number),
                c == too_long(ipnet.mask),
                v.state == api::ValidationState::NotFound,
                v.reason == api::ValidationReason::NoReason,
                v.matched@ == shown_roas(all_roas(all.take(i as int)), a, ipnet),
                v.unmatched_as@ == shown_roas(all_roas(all.take(i as int)), b, ipnet),
                v.unmatched_length@ == shown_roas(all_roas(all.take(i as int)), c, ipnet),
            decreases entries@.len() - i,
        {
            let entry = entries[i].1;
            classify(&mut v, entry, ipnet, as_number);
            proof {
                let t = all_roas(all.take(i as int));
                assert(all.take(i + 1).drop_last() =~= all.take(i as int));
                assert(all_roas(all.take(i + 1)) == t + entry@);
                lemma_shown_add(t, entry@, a, ipnet);
                lemma_shown_add(t, entry@, b, ipnet);
                lemma_shown_add(t, entry@, c, ipnet);
            }
            i += 1;
        }
        assert(all.take(i as int) =~= all);
        if v.matched.len() != 0 {
            v.state = api::ValidationState::Valid;
        } else if v.unmatched_as.len() != 0 {
            v.state = api::ValidationState::Invalid;
            v.reason = api::ValidationReason::As;
        } else if v.unmatched_length.len() != 0 {
            v.state = api::ValidationState::Invalid;
            v.reason = api::ValidationReason::Length;
        } else {
            v.state = api::ValidationState::NotFound;
        }
        v
    }

    /// How the route to `net` is shown with the next hop `nexthop` and the attributes `s`.
    pub open spec fn spec_to_api(
        self,
        net: Nlri,
        nexthop: IpAddr,
        s: Seq<AttributeView>,
        m: Map<Seq<u8>, Seq<Roa>>,
    ) -> api::PathView {
        api::PathView {
            nlri: api::IpAddressPrefix {
                prefix: net.net().addr,
                prefix_len: net.net().mask as u32,
            },
            family: bgp::unicast_family(net.net().addr).spec_to_api(),
            age: self.timestamp.spec_to_api(),
            pattrs: s.filter_map(shown_attribute()).push(
                api::PathAttributeView::NextHop { next_hop: nexthop },
            ),
            validation: if m == roa::no_roas() {
                None
            } else {
                Some(
                    verdict(
                        roas_for(m, net.net()),
                        net.net(),
                        origin_as(last_as_path(s), self.source.local_as),
                    ),
                )
            },
            best: false,
        }
    }

    /// How the route to `net` is shown with the next hop `nexthop` and the attributes `pattrs`.
    pub fn to_api(
        &self,
        net: &Nlri,
        nexthop: IpAddr,
        pattrs: Vec<&Attribute>,
        rt: &PatriciaMap<Vec<Roa>>,
    ) -> (r: api::Path)
        requires
            can_validate(net.net(), bgp::attr_ref_views(pattrs@), roa::roa_entries(*rt)),
            !self.timestamp.spec_is_before_epoch(),
        ensures
            roa::roa_entries(*rt) != roa::no_roas() ==> roa::lists_prefix(
                roa::sorted_entries(roa::roa_entries(*rt), prefix_octets(net.net())),
                roa::roa_entries(*rt),
                prefix_octets(net.net()),
            ),
            r@ == self.spec_to_api(
                *net,
                nexthop,
                bgp::attr_ref_views(pattrs@),
                roa::roa_entries(*rt),
            ),
    {
        let Nlri::Ip(ipnet) = net;
        let ipnet: IpNet = *ipnet;
        let ghost views = bgp::attr_ref_views(pattrs@);
        let mut as_attr: Option<&Attribute> = None;
        let mut attrs: Vec<api::PathAttribute> = Vec::new();
        let mut i: usize = 0;
        proof {
            lists::lemma_filter_map_empty(views.take(0), shown_attribute());
            assert(api::path_attribute_views(attrs@) =~= views.take(0).filter_map(
                shown_attribute(),
            ));
        }
        while i < pattrs.len()
            invariant
                i <= pattrs@.len(),
                views == bgp::attr_ref_views(pattrs@),
                api::path_attribute_views(attrs@) == views.take(i as int).filter_map(
                    shown_attribute(),
                ),
                match as_attr {
                    Some(a) => last_as_path(views.take(i as int)) == Some(a@),
                    None => last_as_path(views.take(i as int)) is None,
                },
            decreases pattrs@.len() - i,
        {
            let attr = pattrs[i];
            let ghost before = attrs@;
            proof {
                lists::lemma_filter_map_take(views, shown_attribute(), i as int);
                assert(views[i as int] == attr@);
                assert(views.take(i + 1).drop_last() =~= views.take(i as int));
                assert(views.take(i + 1).last() == attr@);
            }
            match attr {
                Attribute::AsPath { .. } => {
                    as_attr = Some(attr);
                },
                _ => {},
            }
            match show_attribute(attr) {
                Some(a) => {
                    attrs.push(a);
                    assert(api::path_attribute_views(attrs@) =~= api::path_attribute_views(
                        before,
                    ).push(a@));
                },
                None => {},
            }
            i += 1;
        }
        assert(views.take(i as int) =~= views);
        let ghost before = attrs@;
        attrs.push(api::PathAttribute::NextHop { next_hop: nexthop });
        assert(api::path_attribute_views(attrs@) =~= api::path_attribute_views(before).push(
            api::PathAttributeView::NextHop { next_hop: nexthop },
        ));
        let validation = if roa::no_entries(rt) {
            None
        } else {
            Some(self.to_validate_api(ipnet, rt, as_attr))
        };
        let r = api::Path {
            nlri: api::IpAddressPrefix { prefix: ipnet.addr, prefix_len: ipnet.mask as u32 },
            family: bgp::family_of_addr(&ipnet.addr).to_api(),
            age: self.timestamp.to_api(),
            pattrs: attrs,
            validation,
            best: false,
        };
        assert(r@ =~= self.spec_to_api(*net, nexthop, views, roa::roa_entries(*rt)));
        r
    }
}

impl MessageCounter {
    /// How the counters are shown.
    pub open spec fn spec_to_api(self) -> api::Message {
        api::Message {
            open: self.open,
            update: self.update,
            notification: self.notification,
            keepalive: self.keepalive,
            refresh: self.refresh,
            discarded: self.discarded,
            total: self.total,
            withdraw_update: self.withdraw_update,
            withdraw_prefix: self.withdraw_prefix,
        }
    }

    /// How the counters are shown.
    pub fn to_api(&self) -> (r: api::Message)
        ensures
            r == self.spec_to_api(),
    {
        api::Message {
            open: self.open,
            update: self.update,
            notification: self.notification,
            keepalive: self.keepalive,
            refresh: self.refresh,
            discarded: self.discarded,
            total: self.total,
            withdraw_update: self.withdraw_update,
            withdraw_prefix: self.withdraw_prefix,
        }
    }
}

impl CapabilityView {
    /// How the capability is shown.
    pub open spec fn to_api(self) -> api::CapabilityView {
        match self {
            CapabilityView::MultiProtocol { family } => api::CapabilityView::MultiProtocol {
                family: family.spec_to_api(),
            },
            CapabilityView::RouteRefresh => api::CapabilityView::RouteRefresh,
            CapabilityView::CarryingLabelInfo => api::CapabilityView::CarryingLabelInfo,
            CapabilityView::ExtendedNexthop { values } => api::CapabilityView::ExtendedNexthop {
                tuples: values.map_values(
                    |t: (Family, Family)| (t.0.spec_to_api(), t.1.spec_to_api()),
                ),
            },
            CapabilityView::GracefulRestart { flags, time, values } =>
                api::CapabilityView::GracefulRestart {
                flags: flags as u32,
                time: time as u32,
                tuples: values.map_values(|t: (Family, u8)| (t.0.spec_to_api(), t.1 as u32)),
            },
            CapabilityView::FourOctetAsNumber { as_number } =>
                api::CapabilityView::FourOctetAsNumber { as_number },
            CapabilityView::AddPath { values } => api::CapabilityView::AddPath {
                tuples: values.map_values(|t: (Family, u8)| (t.0.spec_to_api(), t.1 as i32)),
            },
            CapabilityView::EnhanshedRouteRefresh => api::CapabilityView::EnhancedRouteRefresh,
            CapabilityView::LongLivedGracefulRestart { values } =>
                api::CapabilityView::LongLivedGracefulRestart {
                tuples: values.map_values(
                    |t: (Family, u8, u32)| (t.0.spec_to_api(), t.1 as u32, t.2),
                ),
            },
            CapabilityView::RouteRefreshCisco => api::CapabilityView::RouteRefreshCisco,
            CapabilityView::Unknown { .. } => api::CapabilityView::Empty,
        }
    }
}

fn show_family_pairs(values: &Vec<(Family, Family)>) -> (r: Vec<(api::Family, api::Family)>)
    ensures
        r@ == values@.map_values(|t: (Family, Family)| (t.0.spec_to_api(), t.1.spec_to_api())),
{
    let mut r: Vec<(api::Family, api::Family)> = Vec::new();
    let mut i: usize = 0;
    let ghost f = |t: (Family, Family)| (t.0.spec_to_api(), t.1.spec_to_api());
    while i < values.len()
        invariant
            i <= values@.len(),
            f == (|t: (Family, Family)| (t.0.spec_to_api(), t.1.spec_to_api())),
            r@ == values@.map_values(f).take(i as int),
        decreases values@.len() - i,
    {
        r.push((values[i].0.to_api(), values[i].1.to_api()));
        assert(values@.map_values(f).take(i + 1) =~= values@.map_values(f).take(i as int).push(
            f(values@[i as int]),
        ));
        i += 1;
    }
    assert(values@.map_values(f).take(i as int) =~= values@.map_values(f));
    r
}

fn show_family_flags(values: &Vec<(Family, u8)>) -> (r: Vec<(api::Family, u32)>)
    ensures
        r@ == values@.map_values(|t: (Family, u8)| (t.0.spec_to_api(), t.1 as u32)),
{
    let mut r: Vec<(api::Family, u32)> = Vec::new();
    let mut i: usize = 0;
    let ghost f = |t: (Family, u8)| (t.0.spec_to_api(), t.1 as u32);
    while i < values.len()
        invariant
            i <= values@.len(),
            f == (|t: (Family, u8)| (t.0.spec_to_api(), t.1 as u32)),
            r@ == values@.map_values(f).take(i as int),
        decreases values@.len() - i,
    {
        r.push((values[i].0.to_api(), values[i].1 as u32));
        assert(values@.map_values(f).take(i + 1) =~= values@.map_values(f).take(i as int).push(
            f(values@[i as int]),
        ));
        i += 1;
    }
    assert(values@.map_values(f).take(i as int) =~= values@.map_values(f));
    r
}

fn show_family_modes(values: &Vec<(Family, u8)>) -> (r: Vec<(api::Family, i32)>)
    ensures
        r@ == values@.map_values(|t: (Family, u8)| (t.0.spec_to_api(), t.1 as i32)),
{
    let mut r: Vec<(api::Family, i32)> = Vec::new();
    let mut i: usize = 0;
    let ghost f = |t: (Family, u8)| (t.0.spec_to_api(), t.1 as i32);
    while i < values.len()
        invariant
            i <= values@.len(),
            f == (|t: (Family, u8)| (t.0.spec_to_api(), t.1 as i32)),
            r@ == values@.map_values(f).take(i as int),
        decreases values@.len() - i,
    {
        r.push((values[i].0.to_api(), values[i].1 as i32));
        assert(values@.map_values(f).take(i + 1) =~= values@.map_values(f).take(i as int).push(
            f(values@[i as int]),
        ));
        i += 1;
    }
    assert(values@.map_values(f).take(i as int) =~= values@.map_values(f));
    r
}

fn show_family_times(values: &Vec<(Family, u8, u32)>) -> (r: Vec<(api::Family, u32, u32)>)
    ensures
        r@ == values@.map_values(|t: (Family, u8, u32)| (t.0.spec_to_api(), t.1 as u32, t.2)),
{
    let mut r: Vec<(api::Family, u32, u32)> = Vec::new();
    let mut i: usize = 0;
    let ghost f = |t: (Family, u8, u32)| (t.0.spec_to_api(), t.1 as u32, t.2);
    while i < values.len()
        invariant
            i <= values@.len(),
            f == (|t: (Family, u8, u32)| (t.0.spec_to_api(), t.1 as u32, t.2)),
            r@ == values@.map_values(f).take(i as int),
        decreases values@.len() - i,
    {
        r.push((values[i].0.to_api(), values[i].1 as u32, values[i].2));
        assert(values@.map_values(f).take(i + 1) =~= values@.map_values(f).take(i as int).push(
            f(values@[i as int]),
        ));
        i += 1;
    }
    assert(values@.map_values(f).take(i as int) =~= values@.map_values(f));
    r
}

impl Capability {
    /// How the capability is shown.
    pub fn to_api(&self) -> (r: api::Capability)
        ensures
            r@ == self@.to_api(),
    {
        match self {
            Capability::MultiProtocol { family } => api::Capability::MultiProtocol {
                family: family.to_api(),
            },
            Capability::RouteRefresh => api::Capability::RouteRefresh,
            Capability::CarryingLabelInfo => api::Capability::CarryingLabelInfo,
            Capability::ExtendedNexthop { values } => api::Capability::ExtendedNexthop {
                tuples: show_family_pairs(values),
            },
            Capability::GracefulRestart { flags, time, values } =>
                api::Capability::GracefulRestart {
                flags: *flags as u32,
                time: *time as u32,
                tuples: show_family_flags(values),
            },
            Capability::FourOctetAsNumber { as_number } => api::Capability::FourOctetAsNumber {
                as_number: *as_number,
            },
            Capability::AddPath { values } => api::Capability::AddPath {
                tuples: show_family_modes(values),
            },
            Capability::EnhanshedRouteRefresh => api::Capability::EnhancedRouteRefresh,
            Capability::LongLivedGracefulRestart { values } =>
                api::Capability::LongLivedGracefulRestart { tuples: show_family_times(values) },
            Capability::RouteRefreshCisco => api::Capability::RouteRefreshCisco,
            Capability::Unknown { .. } => api::Capability::Empty,
        }
    }
}

/// How capabilities are shown.
pub open spec fn shown_capabilities(s: Seq<CapabilityView>) -> Seq<api::CapabilityView> {
    s.map_values(|c: CapabilityView| c.to_api())
}

/// How capabilities are shown.
pub fn show_capabilities(v: &Vec<Capability>) -> (r: Vec<api::Capability>)
    ensures
        api::capability_views(r@) == shown_capabilities(bgp::cap_views(v@)),
{
    let mut r: Vec<api::Capability> = Vec::new();
    let mut i: usize = 0;
    let ghost all = shown_capabilities(bgp::cap_views(v@));
    while i < v.len()
        invariant
            i <= v@.len(),
            all == shown_capabilities(bgp::cap_views(v@)),
            api::capability_views(r@) == all.take(i as int),
        decreases v@.len() - i,
    {
        let ghost before = r@;
        r.push(v[i].to_api());
        proof {
            assert(api::capability_views(r@) =~= api::capability_views(before).push(all[i as int]));
            assert(all.take(i + 1) =~= all.take(i as int).push(all[i as int]));
        }
        i += 1;
    }
    assert(all.take(i as int) =~= all);
    r
}

impl RtrSession {
    /// How the session with the cache at `sockaddr` is shown.
    pub open spec fn spec_to_api(
        self,
        sockaddr: SocketAddr,
        r_v4: u32,
        r_v6: u32,
        p_v4: u32,
        p_v6: u32,
    ) -> api::Rpki {
        api::Rpki {
            conf: api::RpkiConf { address: sockaddr.ip, remote_port: sockaddr.port as u32 },
            state: api::RpkiState {
                uptime: self.uptime.spec_to_api(),
                downtime: self.downtime.spec_to_api(),
                up: self.local_address is Some,
                record_ipv4: r_v4,
                record_ipv6: r_v6,
                prefix_ipv4: p_v4,
                prefix_ipv6: p_v6,
                serial: 0,
                serial_notify: self.rx_counter.count(rtr::SERIAL_NOTIFY),
                serial_query: self.rx_counter.count(rtr::SERIAL_NOTIFY),
                reset_query: self.rx_counter.count(rtr::RESET_QUERY),
                cache_response: self.rx_counter.count(rtr::CACHE_RESPONSE),
                received_ipv4: self.rx_counter.count(rtr::IPV4_PREFIX),
                received_ipv6: self.rx_counter.count(rtr::IPV6_PREFIX),
                end_of_data: self.rx_counter.count(rtr::END_OF_DATA),
                cache_reset: self.rx_counter.count(rtr::CACHE_RESET),
                error: self.rx_counter.count(rtr::ERROR_REPORT),
            },
        }
    }

    /// Whether the session can be shown: neither of its times lies before the Unix epoch.
    pub open spec fn is_showable(self) -> bool {
        !self.uptime.spec_is_before_epoch() && !self.downtime.spec_is_before_epoch()
    }

    /// Whether the session can be shown.
    pub fn can_show(&self) -> (r: bool)
        ensures
            r == self.is_showable(),
    {
        !self.uptime.is_before_epoch() && !self.downtime.is_before_epoch()
    }

    /// How the session with the cache at `sockaddr` is shown.
    pub fn to_api(
        &self,
        sockaddr: &SocketAddr,
        r_v4: u32,
        r_v6: u32,
        p_v4: u32,
        p_v6: u32,
    ) -> (r: api::Rpki)
        requires
            self.is_showable(),
        ensures
            r == self.spec_to_api(*sockaddr, r_v4, r_v6, p_v4, p_v6),
    {
        api::Rpki {
            conf: api::RpkiConf { address: sockaddr.ip, remote_port: sockaddr.port as u32 },
            state: api::RpkiState {
                uptime: self.uptime.to_api(),
                downtime: self.downtime.to_api(),
                up: self.local_address.is_some(),
                record_ipv4: r_v4,
                record_ipv6: r_v6,
                prefix_ipv4: p_v4,
                prefix_ipv6: p_v6,
                serial: 0,
                serial_notify: self.rx_counter(rtr::SERIAL_NOTIFY),
                serial_query: self.rx_counter(rtr::SERIAL_NOTIFY),
                reset_query: self.rx_counter(rtr::RESET_QUERY),
                cache_response: self.rx_counter(rtr::CACHE_RESPONSE),
                received_ipv4: self.rx_counter(rtr::IPV4_PREFIX),
                received_ipv6: self.rx_counter(rtr::IPV6_PREFIX),
                end_of_data: self.rx_counter(rtr::END_OF_DATA),
                cache_reset: self.rx_counter(rtr::CACHE_RESET),
                error: self.rx_counter(rtr::ERROR_REPORT),
            },
        }
    }
}

/// A route originates from the AS number at the last position of the last segment of its AS path,
/// where that segment is a sequence with any numbers, however many they are, and from the own AS
/// otherwise.
pub proof fn law_origin_as(segments: Seq<SegmentView>, local_as: u32)
    ensures
        ({
            let origin = origin_as(Some(AttributeView::AsPath { segments }), local_as);
            let last = segments[segments.len() - 1];
            &&& segments.len() > 0 && last.segment_type == 2 && last.number.len() > 0 ==> origin
                == last.number[last.number.len() - 1]
            &&& segments.len() > 0 && (last.segment_type != 2 || last.number.len() == 0) ==> origin
                == local_as
            &&& origin_as(None, local_as) == local_as
        }),
{
}

/// A route whose AS path ends in a sequence is valid exactly when one of the authorizations that it
/// is held against has room for its length and names the last AS number of the path. Other numbers
/// on the path do not matter.
pub proof fn law_valid_route(
    s: Seq<Roa>,
    net: IpNet,
    segments: Seq<SegmentView>,
    local_as: u32,
)
    requires
        segments.len() > 0,
        segments.last().segment_type == 2,
        segments.last().number.len() > 0,
    ensures
        ({
            let path = AttributeView::AsPath { segments };
            let v = verdict(s, net, origin_as(Some(path), local_as));
            let last = segments[segments.len() - 1].number;
            (v.state == api::ValidationState::Valid) == (exists|i: int|
                0 <= i < s.len() && (#[trigger] s[i]).max_length >= net.mask && s[i].as_number != 0
                    && s[i].as_number == last[last.len() - 1])
        }),
{
    law_origin_as(segments, local_as);
    law_verdict_state(s, net, origin_as(Some(AttributeView::AsPath { segments }), local_as));
}

/// The authorizations that have room for the length `mask`.
pub open spec fn has_room(mask: u8) -> spec_fn(Roa) -> bool {
    |r: Roa| r.max_length >= mask
}

/// The authorizations that name the AS `origin`. The number zero names none.
pub open spec fn names(origin: u32) -> spec_fn(Roa) -> bool {
    |r: Roa| r.as_number == origin && r.as_number != 0
}

proof fn lemma_sorted_out(
    s: Seq<Roa>,
    p: spec_fn(Roa) -> bool,
    q: spec_fn(Roa) -> bool,
    r: spec_fn(Roa) -> bool,
)
    requires
        forall|x: Roa| #[trigger] r(x) == (p(x) && q(x)),
    ensures
        s.filter(r) == s.filter(p).filter(q),
    decreases s.len(),
{
    if s.len() == 0 {
        lists::lemma_filter_empty(s, r);
        lists::lemma_filter_empty(s, p);
        lists::lemma_filter_empty(s.filter(p), q);
    } else {
        let t = s.drop_last();
        let x = s.last();
        assert(s =~= t.push(x));
        lemma_sorted_out(t, p, q, r);
        lists::lemma_filter_push(t, r, x);
        lists::lemma_filter_push(t, p, x);
        lists::lemma_filter_push(t.filter(p), q, x);
        assert(r(x) == (p(x) && q(x)));
    }
}

/// The authorizations are told apart in three lists: those with room for the length that name the
/// origin, those with room that do not, and those without room, each list in the order in which
/// they are looked at, and each shown with its own AS, length and source for the prefix of the route. The
/// reason is the AS where one has room but none of them names the origin, and the length where
/// none has room.
pub proof fn law_verdict_lists(s: Seq<Roa>, net: IpNet, origin: u32, i: int)
    ensures
        ({
            let v = verdict(s, net, origin);
            let fits = s.filter(has_room(net.mask));
            let matched = fits.filter(names(origin));
            let unmatched = fits.filter(|r: Roa| !names(origin)(r));
            let longer = s.filter(|r: Roa| !has_room(net.mask)(r));
            &&& v.matched.len() == matched.len()
            &&& 0 <= i < matched.len() ==> v.matched[i] == matched[i].spec_to_api(net)
            &&& v.unmatched_as.len() == unmatched.len()
            &&& 0 <= i < unmatched.len() ==> v.unmatched_as[i] == unmatched[i].spec_to_api(net)
            &&& v.unmatched_length.len() == longer.len()
            &&& 0 <= i < longer.len() ==> v.unmatched_length[i] == longer[i].spec_to_api(net)
            &&& (v.reason == api::ValidationReason::As) == (matched.len() == 0 && fits.len() > 0)
            &&& (v.reason == api::ValidationReason::Length) == (s.len() > 0 && fits.len() == 0)
        }),
{
    let p = has_room(net.mask);
    let q = names(origin);
    let nq = |r: Roa| !names(origin)(r);
    let np = |r: Roa| !has_room(net.mask)(r);
    lemma_sorted_out(s, p, q, allows(net.mask, origin));
    lemma_sorted_out(s, p, nq, allows_others(net.mask, origin));
    assert(too_long(net.mask) =~= np);
    law_verdict_partitions(s, net, origin);
    lemma_split(s, p, q, nq);
    lemma_split_in_two(s, p, np);
}

proof fn lemma_split(
    s: Seq<Roa>,
    p: spec_fn(Roa) -> bool,
    q: spec_fn(Roa) -> bool,
    nq: spec_fn(Roa) -> bool,
)
    requires
        forall|x: Roa| #[trigger] nq(x) == !q(x),
    ensures
        s.filter(p).filter(q).len() + s.filter(p).filter(nq).len() == s.filter(p).len(),
{
    lemma_split_in_two(s.filter(p), q, nq);
}

proof fn lemma_split_in_two(s: Seq<Roa>, q: spec_fn(Roa) -> bool, nq: spec_fn(Roa) -> bool)
    requires
        forall|x: Roa| #[trigger] nq(x) == !q(x),
    ensures
        s.filter(q).len() + s.filter(nq).len() == s.len(),
    decreases s.len(),
{
    if s.len() == 0 {
        lists::lemma_filter_empty(s, q);
        lists::lemma_filter_empty(s, nq);
    } else {
        let t = s.drop_last();
        assert(s =~= t.push(s.last()));
        lemma_split_in_two(t, q, nq);
        lists::lemma_filter_push(t, q, s.last());
        lists::lemma_filter_push(t, nq, s.last());
        assert(nq(s.last()) == !q(s.last()));
    }
}

/// An authorization is shown with its own AS number, greatest length and source, and with the
/// prefix that it is shown for.
pub proof fn law_shown_roa(r: Roa, net: IpNet)
    ensures
        ({
            let shown = r.spec_to_api(net);
            &&& shown.as_number == r.as_number
            &&& shown.maxlen == r.max_length
            &&& shown.prefix == net.addr
            &&& shown.prefixlen == net.mask
            &&& shown.conf.address == r.source.address
        }),
{
}

/// A route is held against an authorization exactly when that stands under a key that begins with
/// all the octets of the address that the prefix reaches into.
pub proof fn law_held_against(m: Map<Seq<u8>, Seq<Roa>>, net: IpNet, r: Roa)
    requires
        m.dom().finite(),
        net.valid(),
    ensures
        roas_for(m, net).contains(r) == exists|key: Seq<u8>|
            {
                &&& #[trigger] m.contains_key(key)
                &&& m[key].contains(r)
                &&& key.len() >= (net.mask + 7) / 8
                &&& forall|i: int|
                    0 <= i < (net.mask + 7) / 8 ==> key[i] == net.addr.spec_octets()[i]
            },
{
    let p = prefix_octets(net);
    let n = (net.mask + 7) / 8;
    addr::lemma_octets_len(net.addr.value(), net.addr.width());
    assert(p.len() == n);
    let s = roa::sorted_entries(m, p);
    roa::law_sorted_entries(m, p);
    lemma_all_roas(s, r);
    if roas_for(m, net).contains(r) {
        let i = choose|i: int| 0 <= i < s.len() && (#[trigger] s[i]).1.contains(r);
        let key = s[i].0;
        assert(m.contains_key(key));
        assert(p.is_prefix_of(key));
        assert forall|j: int| 0 <= j < n implies key[j] == net.addr.spec_octets()[j] by {
            assert(p[j] == key.subrange(0, n as int)[j]);
        }
    }
    if exists|key: Seq<u8>|
        {
            &&& #[trigger] m.contains_key(key)
            &&& m[key].contains(r)
            &&& key.len() >= n
            &&& forall|i: int| 0 <= i < n ==> key[i] == net.addr.spec_octets()[i]
        } {
        let key = choose|key: Seq<u8>|
            {
                &&& #[trigger] m.contains_key(key)
                &&& m[key].contains(r)
                &&& key.len() >= n
                &&& forall|i: int| 0 <= i < n ==> key[i] == net.addr.spec_octets()[i]
            };
        assert(p =~= key.subrange(0, n as int));
        assert(p.is_prefix_of(key));
        let i = choose|i: int| 0 <= i < s.len() && (#[trigger] s[i]).0 == key;
        assert(s[i].1 == m[key]);
    }
}

proof fn lemma_all_roas(s: Seq<(Seq<u8>, Seq<Roa>)>, r: Roa)
    ensures
        all_roas(s).contains(r) == exists|i: int|
            0 <= i < s.len() && (#[trigger] s[i]).1.contains(r),
    decreases s.len(),
{
    if s.len() > 0 {
        let t = s.drop_last();
        lemma_all_roas(t, r);
        let a = all_roas(t);
        let b = s.last().1;
        assert(s[s.len() - 1] == s.last());
        if a.contains(r) {
            let i = choose|i: int| 0 <= i < a.len() && a[i] == r;
            assert((a + b)[i] == r);
            let j = choose|j: int| 0 <= j < t.len() && (#[trigger] t[j]).1.contains(r);
            assert(s[j] == t[j]);
        }
        if b.contains(r) {
            let i = choose|i: int| 0 <= i < b.len() && b[i] == r;
            assert((a + b)[a.len() + i] == r);
        }
        if (a + b).contains(r) {
            let i = choose|i: int| 0 <= i < (a + b).len() && (a + b)[i] == r;
            if i < a.len() {
                assert(a[i] == r);
            } else {
                assert(b[i - a.len()] == r);
            }
        }
        if exists|i: int| 0 <= i < s.len() && (#[trigger] s[i]).1.contains(r) {
            let i = choose|i: int| 0 <= i < s.len() && (#[trigger] s[i]).1.contains(r);
            if i < t.len() {
                assert(t[i] == s[i]);
            }
        }
    }
}

/// A route is held against the authorizations with the last AS path among its attributes.
pub proof fn law_last_as_path(s: Seq<AttributeView>, i: int)
    requires
        -1 <= i < s.len(),
        forall|j: int| i < j < s.len() ==> !(#[trigger] s[j] is AsPath),
        i >= 0 ==> s[i] is AsPath,
    ensures
        last_as_path(s) == if i >= 0 {
            Some(s[i])
        } else {
            None
        },
    decreases s.len(),
{
    if s.len() > 0 && i < s.len() - 1 {
        let t = s.drop_last();
        assert(!(s[s.len() - 1] is AsPath));
        assert forall|j: int| i < j < t.len() implies !(#[trigger] t[j] is AsPath) by {
            assert(t[j] == s[j]);
        }
        law_last_as_path(t, i);
    }
}

/// A route is shown for its own destination and family, with the time it came in, the attributes
/// that have a form to be shown in, in their order, and behind them its next hop. It is held
/// against the authorizations exactly when there are any, by its origin and its prefix.
pub proof fn law_shown_route(
    p: Path,
    n: Nlri,
    nexthop: IpAddr,
    s: Seq<AttributeView>,
    m: Map<Seq<u8>, Seq<Roa>>,
)
    ensures
        ({
            let shown = p.spec_to_api(n, nexthop, s, m);
            &&& (match n {
                Nlri::Ip(net) => {
                    &&& shown.nlri.prefix == net.addr
                    &&& shown.nlri.prefix_len == net.mask
                    &&& shown.family.safi == 1
                    &&& shown.family.afi == (match net.addr {
                        IpAddr::V4(_) => 1i32,
                        IpAddr::V6(_) => 2i32,
                    })
                    &&& (shown.validation is None) == (m == Map::<Seq<u8>, Seq<Roa>>::empty())
                    &&& shown.validation is Some ==> shown.validation->0 == verdict(
                        roas_for(m, net),
                        net,
                        origin_as(last_as_path(s), p.source.local_as),
                    )
                },
            })
            &&& !p.timestamp.spec_is_before_epoch() && p.timestamp.secs <= i64::MAX
                && p.timestamp.nanos < 1_000_000_000 ==> shown.age.seconds == p.timestamp.secs
                && shown.age.nanos == p.timestamp.nanos
            &&& shown.pattrs.last() == (api::PathAttributeView::NextHop { next_hop: nexthop })
            &&& shown.pattrs.drop_last() == s.filter_map(shown_attribute())
            &&& !shown.best
        }),
{
    let shown = p.spec_to_api(n, nexthop, s, m);
    assert(shown.pattrs.drop_last() =~= s.filter_map(shown_attribute()));
}

/// Each kind of attribute is shown as what it is, with the values that it holds. Next hops and what
/// has no form of its own is not shown.
pub proof fn law_shown_attributes(a: AttributeView, i: int)
    ensures
        ({
            let shown = shown_attribute()(a);
            match a {
                AttributeView::Origin { origin } => shown is Some
                    && shown->0 is Origin && shown->0->origin == origin,
                AttributeView::AsPath { segments } => {
                    &&& shown is Some
                    &&& shown->0 is AsPath
                    &&& shown->0->segments.len() == segments.len()
                    &&& 0 <= i < segments.len() ==> shown->0->segments[i].segment_type
                        == segments[i].segment_type && shown->0->segments[i].numbers
                        == segments[i].number
                },
                AttributeView::MultiExitDesc { descriptor } => shown == Some(
                    api::PathAttributeView::MultiExitDisc { med: descriptor },
                ),
                AttributeView::LocalPref { preference } => shown == Some(
                    api::PathAttributeView::LocalPref { local_pref: preference },
                ),
                AttributeView::AtomicAggregate => shown == Some(
                    api::PathAttributeView::AtomicAggregate,
                ),
                AttributeView::Aggregator { number, address, .. } => shown == Some(
                    api::PathAttributeView::Aggregator { as_number: number, address },
                ),
                AttributeView::Community { communities } => shown == Some(
                    api::PathAttributeView::Communities { communities },
                ),
                AttributeView::OriginatorId { address } => shown == Some(
                    api::PathAttributeView::OriginatorId { id: address },
                ),
                AttributeView::ClusterList { addresses } => shown == Some(
                    api::PathAttributeView::ClusterList { ids: addresses },
                ),
                _ => shown is None,
            }
        }),
{
}

/// A session with a cache is shown with the numbers of messages of each type that have come in.
/// Serial queries are shown with the number of serial notifications.
pub proof fn law_shown_cache(s: RtrSession, at: SocketAddr, a: u32, b: u32, c: u32, d: u32)
    ensures
        ({
            let shown = s.spec_to_api(at, a, b, c, d);
            &&& shown.conf.address == at.ip
            &&& shown.conf.remote_port == at.port
            &&& shown.state.up == (s.local_address is Some)
            &&& shown.state.record_ipv4 == a
            &&& shown.state.record_ipv6 == b
            &&& shown.state.prefix_ipv4 == c
            &&& shown.state.prefix_ipv6 == d
            &&& shown.state.uptime == s.uptime.spec_to_api()
            &&& shown.state.downtime == s.downtime.spec_to_api()
            &&& shown.state.serial_notify == s.rx_counter.count(0)
            &&& shown.state.serial_query == s.rx_counter.count(0)
            &&& shown.state.reset_query == s.rx_counter.count(2)
            &&& shown.state.cache_response == s.rx_counter.count(3)
            &&& shown.state.received_ipv4 == s.rx_counter.count(4)
            &&& shown.state.received_ipv6 == s.rx_counter.count(6)
            &&& shown.state.end_of_data == s.rx_counter.count(7)
            &&& shown.state.cache_reset == s.rx_counter.count(8)
            &&& shown.state.error == s.rx_counter.count(10)
        }),
{
}

/// The counters of a session are shown as they stand.
pub proof fn law_shown_counters(c: MessageCounter)
    ensures
        ({
            let shown = c.spec_to_api();
            &&& shown.open == c.open
            &&& shown.update == c.update
            &&& shown.notification == c.notification
            &&& shown.keepalive == c.keepalive
            &&& shown.refresh == c.refresh
            &&& shown.discarded == c.discarded
            &&& shown.total == c.total
            &&& shown.withdraw_update == c.withdraw_update
            &&& shown.withdraw_prefix == c.withdraw_prefix
        }),
{
}

/// A capability is shown as the one of its kind, with the same values. One of an unknown kind is
/// shown without any.
pub proof fn law_shown_capabilities(s: Seq<CapabilityView>, i: int)
    requires
        0 <= i < s.len(),
    ensures
        shown_capabilities(s).len() == s.len(),
        match s[i] {
            CapabilityView::MultiProtocol { family } => shown_capabilities(
                s,
            )[i] matches api::CapabilityView::MultiProtocol { family: f } && f
                == family.spec_to_api(),
            CapabilityView::RouteRefresh => shown_capabilities(s)[i] is RouteRefresh,
            CapabilityView::CarryingLabelInfo => shown_capabilities(s)[i] is CarryingLabelInfo,
            CapabilityView::ExtendedNexthop { values } => shown_capabilities(
                s,
            )[i] matches api::CapabilityView::ExtendedNexthop { tuples } && tuples.len()
                == values.len() && forall|j: int|
                0 <= j < values.len() ==> (#[trigger] tuples[j]).0 == values[j].0.spec_to_api()
                    && tuples[j].1 == values[j].1.spec_to_api(),
            CapabilityView::GracefulRestart { flags, time, values } => shown_capabilities(
                s,
            )[i] matches api::CapabilityView::GracefulRestart { flags: x, time: y, tuples } && x
                == flags && y == time && tuples.len() == values.len() && forall|j: int|
                0 <= j < values.len() ==> (#[trigger] tuples[j]).0 == values[j].0.spec_to_api()
                    && tuples[j].1 == values[j].1,
            CapabilityView::FourOctetAsNumber { as_number } => shown_capabilities(
                s,
            )[i] matches api::CapabilityView::FourOctetAsNumber { as_number: n } && n == as_number,
            CapabilityView::AddPath { values } => shown_capabilities(
                s,
            )[i] matches api::CapabilityView::AddPath { tuples } && tuples.len() == values.len()
                && forall|j: int|
                0 <= j < values.len() ==> (#[trigger] tuples[j]).0 == values[j].0.spec_to_api()
                    && tuples[j].1 == values[j].1,
            CapabilityView::EnhanshedRouteRefresh => shown_capabilities(
                s,
            )[i] is EnhancedRouteRefresh,
            CapabilityView::LongLivedGracefulRestart { values } => shown_capabilities(
                s,
            )[i] matches api::CapabilityView::LongLivedGracefulRestart { tuples } && tuples.len()
                == values.len() && forall|j: int|
                0 <= j < values.len() ==> (#[trigger] tuples[j]).0 == values[j].0.spec_to_api()
                    && tuples[j].1 == values[j].1 && tuples[j].2 == values[j].2,
            CapabilityView::RouteRefreshCisco => shown_capabilities(s)[i] is RouteRefreshCisco,
            CapabilityView::Unknown { .. } => shown_capabilities(s)[i] is Empty,
        },
{
}

} // verus!
