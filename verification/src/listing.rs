//! The listing of routes for the management interface.
use std::sync::Arc;
use vstd::prelude::*;
use patricia_tree::PatriciaMap;
use crate::addr::{IpAddr, IpNet};
use crate::api;
use crate::bgp;
use crate::bgp::{Attribute, AttributeView, Family, Nlri};
use crate::lists;
use crate::path::{Destination, Path, Source, TableUpdate};
use crate::rib;
use crate::roa;
use crate::roa::Roa;
use crate::service;
use crate::service::ServiceError;
use crate::show;
use crate::table;
use crate::table::{has_family, Table};
use crate::update;
use crate::vecmap;

verus! {

/// A table that can be asked for.
#[derive(Clone, Copy, PartialEq, Eq, Structural, Debug)]
pub enum TableType {
    Global,
    Local,
    AdjIn,
    AdjOut,
    Vrf,
}

/// What is listed: all routes, all but those that a peer has announced, or those that go out to a
/// peer.
#[derive(Clone, Copy, PartialEq, Eq, Structural, Debug)]
pub enum Listing {
    Global,
    AdjIn(IpAddr),
    AdjOut(IpAddr),
}

/// The request to list routes.
#[derive(PartialEq, Eq, Debug)]
pub struct ListPathRequest {
    /// The table, if its number stands for one.
    pub table_type: Option<TableType>,
    /// The peer, if the name is an address.
    pub name: Option<IpAddr>,
    pub family: Option<api::Family>,
    /// The prefixes that are asked for, as far as their texts are prefixes.
    pub prefixes: Vec<Option<IpNet>>,
}

/// What a request asks to be listed, or why it is turned down.
pub open spec fn listing_of(request: ListPathRequest) -> Result<Listing, ServiceError> {
    match request.table_type {
        None => Err(ServiceError::InvalidTableType),
        Some(TableType::Global) => Ok(Listing::Global),
        Some(TableType::Local) => Err(ServiceError::NotImplemented),
        Some(TableType::Vrf) => Err(ServiceError::NotImplemented),
        Some(TableType::AdjIn) => match request.name {
            Some(addr) => Ok(Listing::AdjIn(addr)),
            None => Err(ServiceError::InvalidNeighborName),
        },
        Some(TableType::AdjOut) => match request.name {
            Some(addr) => Ok(Listing::AdjOut(addr)),
            None => Err(ServiceError::InvalidNeighborName),
        },
    }
}

/// What a request asks to be listed, or why it is turned down.
pub fn to_listing(request: &ListPathRequest) -> (r: Result<Listing, ServiceError>)
    ensures
        r == listing_of(*request),
{
    match request.table_type {
        None => Err(ServiceError::InvalidTableType),
        Some(TableType::Global) => Ok(Listing::Global),
        Some(TableType::Local) | Some(TableType::Vrf) => Err(ServiceError::NotImplemented),
        Some(TableType::AdjIn) => match request.name {
            Some(addr) => Ok(Listing::AdjIn(addr)),
            None => Err(ServiceError::InvalidNeighborName),
        },
        Some(TableType::AdjOut) => match request.name {
            Some(addr) => Ok(Listing::AdjOut(addr)),
            None => Err(ServiceError::InvalidNeighborName),
        },
    }
}

/// The prefix itself, for those that are there.
pub open spec fn readable() -> spec_fn(Option<IpNet>) -> Option<IpNet> {
    |p: Option<IpNet>| p
}

/// Whether routes to `n` are asked for: all are where no readable prefix is named.
pub open spec fn wanted(prefixes: Seq<Option<IpNet>>, n: Nlri) -> bool {
    prefixes.filter_map(readable()).len() == 0 || prefixes.contains(Some(n.net()))
}

proof fn lemma_readable_empty(s: Seq<Option<IpNet>>)
    ensures
        (s.filter_map(readable()).len() == 0) == (forall|i: int|
            0 <= i < s.len() ==> (#[trigger] s[i]) is None),
    decreases s.len(),
{
    if s.len() == 0 {
        lists::lemma_filter_map_empty(s, readable());
    } else {
        let n = s.len() - 1;
        lists::lemma_filter_map_take(s, readable(), n);
        assert(s.take(n + 1) =~= s);
        lemma_readable_empty(s.take(n));
        if forall|i: int| 0 <= i < s.len() ==> (#[trigger] s[i]) is None {
            assert(s[n] is None);
        } else if s.filter_map(readable()).len() == 0 {
            assert forall|i: int| 0 <= i < s.len() implies (#[trigger] s[i]) is None by {
                if i < n {
                    assert(s.take(n)[i] is None);
                }
            }
        }
    }
}

fn is_wanted(prefixes: &Vec<Option<IpNet>>, n: &Nlri) -> (r: bool)
    ensures
        r == wanted(prefixes@, *n),
{
    let Nlri::Ip(net) = n;
    let mut some = false;
    let mut i: usize = 0;
    while i < prefixes.len()
        invariant
            i <= prefixes@.len(),
            *net == n.net(),
            some == exists|j: int| 0 <= j < i && (#[trigger] prefixes@[j]) is Some,
            forall|j: int| 0 <= j < i ==> #[trigger] prefixes@[j] != Some(*net),
        decreases prefixes@.len() - i,
    {
        match prefixes[i] {
            Some(p) => {
                if p == *net {
                    assert(prefixes@[i as int] == Some(*net));
                    return true;
                }
                some = true;
                assert(prefixes@[i as int] is Some);
            },
            None => {},
        }
        i += 1;
    }
    proof {
        lemma_readable_empty(prefixes@);
    }
    !some
}

/// A route in a listing, with the next hop and the attributes it is listed with.
pub struct Listed<'a> {
    pub path: &'a Path,
    pub nexthop: IpAddr,
    /// The attributes, where they are not those of the route itself.
    pub attrs: Option<Vec<Attribute>>,
}

/// What a `Listed` holds.
#[verifier::ext_equal]
pub struct ListedView {
    pub path: Path,
    pub nexthop: IpAddr,
    pub attrs: Seq<AttributeView>,
}

impl<'a> View for Listed<'a> {
    type V = ListedView;

    open spec fn view(&self) -> ListedView {
        ListedView {
            path: *self.path,
            nexthop: self.nexthop,
            attrs: match self.attrs {
                Some(v) => bgp::attr_views(v@),
                None => bgp::attr_views(self.path.attrs.entry@),
            },
        }
    }
}

/// What the routes of a listing hold.
pub open spec fn listed_views(v: Seq<Listed>) -> Seq<ListedView> {
    v.map_values(|l: Listed| l@)
}

/// The route as it is.
pub open spec fn as_it_is() -> spec_fn(Path) -> ListedView {
    |p: Path|
        ListedView { path: p, nexthop: p.nexthop, attrs: bgp::attr_views(p.attrs.entry@) }
}

/// The routes that do not come from `a`.
pub open spec fn from_others(a: IpAddr) -> spec_fn(Path) -> bool {
    |p: Path| p.source.address != a
}

/// The route `p` to `net` as it goes out to the peer at `a`, if it does.
pub open spec fn sent_to(t: Table, family: Family, net: Nlri, p: Path, a: IpAddr) -> Seq<
    ListedView,
> {
    if t.bgp_sessions@.contains_key(a) {
        let session = t.bgp_sessions@[a];
        let to = session.source;
        if update::advertised(p.source.address, p.source.ibgp, to.address, to.ibgp)
            && session.families@.contains(family) {
            seq![
                ListedView {
                    path: p,
                    nexthop: if to.ibgp {
                        p.nexthop
                    } else {
                        to.local_addr
                    },
                    attrs: update::outgoing(
                        to.ibgp,
                        to.local_as,
                        net,
                        p.nexthop,
                        to.local_addr,
                        bgp::attr_views(p.attrs.entry@),
                    ),
                },
            ]
        } else {
            Seq::empty()
        }
    } else {
        Seq::empty()
    }
}

/// The routes to `net` that are listed of the routes `s`. Of those that go out, this is only the
/// best one.
pub open spec fn listed(
    t: Table,
    listing: Listing,
    family: Family,
    net: Nlri,
    s: Seq<Path>,
) -> Seq<ListedView> {
    match listing {
        Listing::Global => s.map_values(as_it_is()),
        Listing::AdjIn(a) => s.filter(from_others(a)).map_values(as_it_is()),
        Listing::AdjOut(a) => if s.len() == 0 {
            Seq::empty()
        } else {
            sent_to(t, family, net, s[0], a)
        },
    }
}

/// How the routes `l` to `net` are shown, the first one as the best.
pub open spec fn shown_paths(net: Nlri, l: Seq<ListedView>, m: Map<Seq<u8>, Seq<Roa>>) -> Seq<
    api::PathView,
> {
    Seq::new(
        l.len(),
        |i: int|
            api::PathView {
                best: i == 0,
                ..l[i].path.spec_to_api(net, l[i].nexthop, l[i].attrs, m)
            },
    )
}

/// The authorizations that the routes of a family are held against.
pub open spec fn roas_of(t: Table, family: Family) -> Map<Seq<u8>, Seq<Roa>> {
    roa::roa_entries(t.roa.spec_t(family))
}

/// How a destination and its routes are shown, if any of the routes is listed.
pub open spec fn shown_destination(
    t: Table,
    listing: Listing,
    family: Family,
    prefixes: Seq<Option<IpNet>>,
) -> spec_fn((Nlri, Seq<Path>)) -> Option<api::DestinationView> {
    |e: (Nlri, Seq<Path>)|
        {
            let l = listed(t, listing, family, e.0, e.1);
            if wanted(prefixes, e.0) && l.len() > 0 {
                Some(
                    api::DestinationView {
                        prefix: e.0,
                        paths: shown_paths(e.0, l, roas_of(t, family)),
                    },
                )
            } else {
                None
            }
        }
}

/// Whether all the routes `l` to `net` can be shown: they can be held against the authorizations
/// `m`, and none came in before the Unix epoch.
pub open spec fn can_show(net: Nlri, l: Seq<ListedView>, m: Map<Seq<u8>, Seq<Roa>>) -> bool {
    forall|i: int|
        0 <= i < l.len() ==> show::can_validate(net.net(), (#[trigger] l[i]).attrs, m)
            && !l[i].path.timestamp.spec_is_before_epoch()
}

/// Whether all routes that a listing shows of the destinations `s` can be shown.
pub open spec fn can_show_all(
    t: Table,
    listing: Listing,
    family: Family,
    prefixes: Seq<Option<IpNet>>,
    s: Seq<(Nlri, Seq<Path>)>,
) -> bool {
    forall|i: int|
        0 <= i < s.len() && wanted(prefixes, (#[trigger] s[i]).0) ==> can_show(
            s[i].0,
            listed(t, listing, family, s[i].0, s[i].1),
            roas_of(t, family),
        )
}

/// Whether the request can be answered: whether all routes that it asks for can be shown.
pub open spec fn can_answer(t: Table, request: ListPathRequest) -> bool {
    match listing_of(request) {
        Ok(listing) => can_show_all(
            t,
            listing,
            service::asked_family(request.family),
            request.prefixes@,
            rib::rib_list(t.walked(service::asked_family(request.family)).entries@),
        ),
        Err(_) => true,
    }
}

/// The answer to the request: an entry for each destination of which a route is listed.
pub open spec fn answer(t: Table, listing: Listing, request: ListPathRequest) -> Seq<
    api::DestinationView,
> {
    let family = service::asked_family(request.family);
    rib::rib_list(t.walked(family).entries@).filter_map(
        shown_destination(t, listing, family, request.prefixes@),
    )
}

/// The routes to `net` that are listed.
fn select<'a>(
    t: &'a Table,
    listing: Listing,
    family: Family,
    net: Nlri,
    dst: &'a Destination,
) -> (r: Vec<Listed<'a>>)
    requires
        t.wf(),
    ensures
        listed_views(r@) == listed(*t, listing, family, net, dst.entry@),
{
    let mut r: Vec<Listed<'a>> = Vec::new();
    match listing {
        Listing::AdjOut(a) => {
            if dst.entry.len() > 0 {
                let p = &dst.entry[0];
                match t.bgp_sessions.get(&a) {
                    Some(session) => {
                        let to = &session.source;
                        if update::need_to_advertise(
                            p.source.address,
                            p.source.ibgp,
                            to.address,
                            to.ibgp,
                        ) && has_family(&session.families, family) {
                            let nexthop = if to.ibgp {
                                p.nexthop
                            } else {
                                to.local_addr
                            };
                            let attrs = update::outgoing_attrs(
                                to.ibgp,
                                to.local_as,
                                net,
                                p.nexthop,
                                to.local_addr,
                                &p.attrs.entry,
                            );
                            r.push(Listed { path: p, nexthop, attrs: Some(attrs) });
                        }
                    },
                    None => {},
                }
            }
            proof {
                assert(listed_views(r@) =~= listed(*t, listing, family, net, dst.entry@));
            }
        },
        Listing::AdjIn(a) => {
            let mut i: usize = 0;
            proof {
                lists::lemma_filter_empty(dst.entry@.take(0), from_others(a));
                assert(listed_views(r@) =~= dst.entry@.take(0).filter(from_others(a)).map_values(
                    as_it_is(),
                ));
            }
            while i < dst.entry.len()
                invariant
                    i <= dst.entry@.len(),
                    listed_views(r@) == dst.entry@.take(i as int).filter(
                        from_others(a),
                    ).map_values(as_it_is()),
                decreases dst.entry@.len() - i,
            {
                let p = &dst.entry[i];
                let ghost before = r@;
                let ghost kept = dst.entry@.take(i as int).filter(from_others(a));
                proof {
                    lists::lemma_filter_take(dst.entry@, from_others(a), i as int);
                }
                if p.source.address != a {
                    r.push(Listed { path: p, nexthop: p.nexthop, attrs: None });
                    proof {
                        assert(listed_views(r@) =~= listed_views(before).push(as_it_is()(*p)));
                        assert(kept.push(*p).map_values(as_it_is()) =~= kept.map_values(
                            as_it_is(),
                        ).push(as_it_is()(*p)));
                    }
                }
                i += 1;
            }
            assert(dst.entry@.take(i as int) =~= dst.entry@);
        },
        Listing::Global => {
            let mut i: usize = 0;
            let ghost all = dst.entry@.map_values(as_it_is());
            while i < dst.entry.len()
                invariant
                    i <= dst.entry@.len(),
                    all == dst.entry@.map_values(as_it_is()),
                    listed_views(r@) == all.take(i as int),
                decreases dst.entry@.len() - i,
            {
                let p = &dst.entry[i];
                let ghost before = r@;
                r.push(Listed { path: p, nexthop: p.nexthop, attrs: None });
                proof {
                    assert(listed_views(r@) =~= listed_views(before).push(all[i as int]));
                    assert(all.take(i + 1) =~= all.take(i as int).push(all[i as int]));
                }
                i += 1;
            }
            assert(all.take(i as int) =~= all);
        },
    }
    r
}

/// The attributes that a route is listed with.
fn listed_attrs<'a>(l: &'a Listed<'a>) -> (r: &'a Vec<Attribute>)
    ensures
        bgp::attr_views(r@) == l@.attrs,
{
    match &l.attrs {
        Some(v) => v,
        None => &l.path.attrs.entry,
    }
}

/// Whether the last AS path among the attributes has segments.
fn ends_in_segments(v: &Vec<Attribute>) -> (r: bool)
    ensures
        r == show::has_segments(show::last_as_path(bgp::attr_views(v@))),
{
    let ghost views = bgp::attr_views(v@);
    let mut i: usize = v.len();
    assert(views.take(i as int) =~= views);
    while i > 0
        invariant
            i <= v@.len(),
            views == bgp::attr_views(v@),
            show::last_as_path(views) == show::last_as_path(views.take(i as int)),
        decreases i,
    {
        i -= 1;
        proof {
            assert(views.take(i + 1).drop_last() =~= views.take(i as int));
            assert(views.take(i + 1).last() == v@[i as int]@);
        }
        match &v[i] {
            Attribute::AsPath { segments } => {
                assert(bgp::segment_views(segments@).len() == segments@.len());
                return segments.len() > 0;
            },
            _ => {},
        }
    }
    true
}

fn can_show_listed(net: &Nlri, l: &Vec<Listed>, rt: &PatriciaMap<Vec<Roa>>) -> (r: bool)
    ensures
        r == can_show(*net, listed_views(l@), roa::roa_entries(*rt)),
{
    let Nlri::Ip(ipnet) = net;
    let ghost views = listed_views(l@);
    let none = roa::no_entries(rt);
    let valid = match ipnet.addr {
        IpAddr::V4(_) => ipnet.mask <= 32,
        IpAddr::V6(_) => ipnet.mask <= 128,
    };
    let mut i: usize = 0;
    while i < l.len()
        invariant
            i <= l@.len(),
            views == listed_views(l@),
            *ipnet == net.net(),
            none == (roa::roa_entries(*rt) == roa::no_roas()),
            valid == ipnet.valid(),
            forall|j: int|
                0 <= j < i ==> show::can_validate(
                    net.net(),
                    (#[trigger] views[j]).attrs,
                    roa::roa_entries(*rt),
                ) && !views[j].path.timestamp.spec_is_before_epoch(),
        decreases l@.len() - i,
    {
        let ok = (none || (valid && ends_in_segments(listed_attrs(&l[i]))))
            && !l[i].path.timestamp.is_before_epoch();
        assert(views[i as int] == l@[i as int]@);
        if !ok {
            return false;
        }
        i += 1;
    }
    true
}

fn show_listed(net: &Nlri, l: &Vec<Listed>, rt: &PatriciaMap<Vec<Roa>>) -> (r: Vec<api::Path>)
    requires
        can_show(*net, listed_views(l@), roa::roa_entries(*rt)),
    ensures
        api::path_views(r@) == shown_paths(*net, listed_views(l@), roa::roa_entries(*rt)),
{
    let mut r: Vec<api::Path> = Vec::new();
    let ghost views = listed_views(l@);
    let ghost m = roa::roa_entries(*rt);
    let ghost all = shown_paths(*net, views, m);
    let mut i: usize = 0;
    while i < l.len()
        invariant
            i <= l@.len(),
            views == listed_views(l@),
            m == roa::roa_entries(*rt),
            all == shown_paths(*net, views, m),
            can_show(*net, views, m),
            api::path_views(r@) == all.take(i as int),
        decreases l@.len() - i,
    {
        let ghost before = r@;
        assert(views[i as int] == l@[i as int]@);
        let refs = update::references(listed_attrs(&l[i]));
        let mut p = l[i].path.to_api(net, l[i].nexthop, refs, rt);
        if i == 0 {
            p.best = true;
        }
        proof {
            assert(p@ =~= all[i as int]);
        }
        r.push(p);
        proof {
            assert(api::path_views(r@) =~= api::path_views(before).push(all[i as int]));
            assert(all.take(i + 1) =~= all.take(i as int).push(all[i as int]));
        }
        i += 1;
    }
    assert(all.take(i as int) =~= all);
    r
}

/// Whether a request to list routes can be answered.
pub fn can_list_path(t: &Table, request: &ListPathRequest) -> (r: bool)
    requires
        t.wf(),
    ensures
        r == can_answer(*t, *request),
{
    let listing = match to_listing(request) {
        Ok(l) => l,
        Err(_) => {
            return true;
        },
    };
    let family: Family = service::family_or_default(&request.family);
    let rt = t.roa.t(family);
    let m = t.master_iter(&family);
    let ghost all = rib::rib_list(m.entries@);
    let mut i: usize = 0;
    while i < m.entries.len()
        invariant
            t.wf(),
            i <= m.entries@.len(),
            all == rib::rib_list(m.entries@),
            listing_of(*request) == Ok::<Listing, ServiceError>(listing),
            family == service::asked_family(request.family),
            *m == t.walked(family),
            roa::roa_entries(*rt) == roas_of(*t, family),
            forall|j: int|
                0 <= j < i && wanted(request.prefixes@, (#[trigger] all[j]).0) ==> can_show(
                    all[j].0,
                    listed(*t, listing, family, all[j].0, all[j].1),
                    roas_of(*t, family),
                ),
        decreases m.entries@.len() - i,
    {
        let e = &m.entries[i];
        assert(all[i as int] == (e.0, e.1.entry@));
        if is_wanted(&request.prefixes, &e.0) {
            let l = select(t, listing, family, e.0, &e.1);
            if !can_show_listed(&e.0, &l, rt) {
                assert(wanted(request.prefixes@, all[i as int].0));
                return false;
            }
        }
        i += 1;
    }
    true
}

/// Lists routes.
pub fn list_path(t: &Table, request: &ListPathRequest) -> (r: Result<
    Vec<api::Destination>,
    ServiceError,
>)
    requires
        t.wf(),
        can_answer(*t, *request),
    ensures
        match listing_of(*request) {
            Ok(listing) => r is Ok && api::destination_views(r->Ok_0@) == answer(
                *t,
                listing,
                *request,
            ),
            Err(e) => r == Err::<Vec<api::Destination>, ServiceError>(e),
        },
{
    let listing = match to_listing(request) {
        Ok(l) => l,
        Err(e) => {
            return Err(e);
        },
    };
    let family: Family = service::family_or_default(&request.family);
    let rt = t.roa.t(family);
    let m = t.master_iter(&family);
    let ghost all = rib::rib_list(m.entries@);
    let ghost f = shown_destination(*t, listing, family, request.prefixes@);
    let mut r: Vec<api::Destination> = Vec::new();
    let mut i: usize = 0;
    proof {
        lists::lemma_filter_map_empty(all.take(0), f);
        assert(api::destination_views(r@) =~= all.take(0).filter_map(f));
    }
    while i < m.entries.len()
        invariant
            t.wf(),
            i <= m.entries@.len(),
            all == rib::rib_list(m.entries@),
            roa::roa_entries(*rt) == roas_of(*t, family),
            can_show_all(*t, listing, family, request.prefixes@, all),
            f == shown_destination(*t, listing, family, request.prefixes@),
            api::destination_views(r@) == all.take(i as int).filter_map(f),
        decreases m.entries@.len() - i,
    {
        let e = &m.entries[i];
        let ghost before = r@;
        proof {
            assert(all[i as int] == (e.0, e.1.entry@));
            lists::lemma_filter_map_take(all, f, i as int);
        }
        if is_wanted(&request.prefixes, &e.0) {
            let l = select(t, listing, family, e.0, &e.1);
            assert(listed_views(l@).len() == l@.len());
            if l.len() != 0 {
                let paths = show_listed(&e.0, &l, rt);
                let d = api::Destination { prefix: e.0, paths };
                r.push(d);
                assert(api::destination_views(r@) =~= api::destination_views(before).push(d@));
            }
        }
        i += 1;
    }
    assert(all.take(i as int) =~= all);
    Ok(r)
}

/// Lists routes, unless one of them cannot be shown.
pub fn try_list_path(t: &Table, request: &ListPathRequest) -> (r: Option<
    Result<Vec<api::Destination>, ServiceError>,
>)
    requires
        t.wf(),
    ensures
        match r {
            None => !can_answer(*t, *request),
            Some(r) => can_answer(*t, *request) && match listing_of(*request) {
                Ok(listing) => r is Ok && api::destination_views(r->Ok_0@) == answer(
                    *t,
                    listing,
                    *request,
                ),
                Err(e) => r == Err::<Vec<api::Destination>, ServiceError>(e),
            },
        },
{
    if can_list_path(t, request) {
        Some(list_path(t, request))
    } else {
        None
    }
}

proof fn lemma_all_selected<A, B>(s: Seq<A>, f: spec_fn(A) -> Option<B>)
    requires
        forall|i: int| 0 <= i < s.len() ==> f(#[trigger] s[i]) is Some,
    ensures
        s.filter_map(f).len() == s.len(),
    decreases s.len(),
{
    if s.len() == 0 {
        lists::lemma_filter_map_empty(s, f);
    } else {
        let n = s.len() - 1;
        lists::lemma_filter_map_take(s, f, n);
        assert(s.take(n + 1) =~= s);
        assert(f(s[n]) is Some);
        assert forall|i: int| 0 <= i < s.take(n).len() implies f(#[trigger] s.take(n)[i]) is Some by {
            assert(s.take(n)[i] == s[i]);
        }
        lemma_all_selected(s.take(n), f);
    }
}

/// A listing of all routes for all prefixes shows every destination of the family.
pub proof fn law_listing_is_complete(t: Table, request: ListPathRequest)
    requires
        t.wf(),
        request.prefixes@.len() == 0,
    ensures
        answer(t, Listing::Global, request).len() == t.walked(
            service::asked_family(request.family),
        ).entries@.len(),
{
    let family = service::asked_family(request.family);
    let entries = t.walked(family).entries@;
    let all = rib::rib_list(entries);
    let f = shown_destination(t, Listing::Global, family, request.prefixes@);
    lists::lemma_filter_map_empty(request.prefixes@, readable());
    table::lemma_walked(t, family);
    assert forall|i: int| 0 <= i < all.len() implies f(#[trigger] all[i]) is Some by {
        vecmap::lemma_entry(entries, i);
        assert(rib::rib_map(entries).contains_key(entries[i].0));
        assert(all[i].1 == rib::rib_map(entries)[entries[i].0]);
    }
    lemma_all_selected(all, f);
}

/// A route is listed as going out to a peer with the attributes that it is sent with.
pub proof fn law_listed_as_sent(
    t: Table,
    family: Family,
    net: Nlri,
    p: Path,
    a: IpAddr,
    source: Arc<Source>,
)
    requires
        sent_to(t, family, net, p, a).len() > 0,
    ensures
        sent_to(t, family, net, p, a)[0].attrs == update::update_pdu(
            *t.bgp_sessions@[a].source,
            TableUpdate::NewBest(net, p.nexthop, p.attrs, source),
        ).attrs,
{
}

/// A request names a table that can be listed, and the peer where that table is one of a peer. It
/// is turned down for the first of these that it lacks.
pub proof fn law_what_is_asked_for(request: ListPathRequest)
    ensures
        request.table_type is None <==> listing_of(request) == Err::<Listing, ServiceError>(
            ServiceError::InvalidTableType,
        ),
        request.table_type == Some(TableType::Global) <==> listing_of(request) == Ok::<
            Listing,
            ServiceError,
        >(Listing::Global),
        request.table_type == Some(TableType::Local) || request.table_type == Some(TableType::Vrf)
            <==> listing_of(request) == Err::<Listing, ServiceError>(ServiceError::NotImplemented),
        request.table_type == Some(TableType::AdjIn) && request.name is Some ==> listing_of(request)
            == Ok::<Listing, ServiceError>(Listing::AdjIn(request.name->0)),
        request.table_type == Some(TableType::AdjOut) && request.name is Some ==> listing_of(
            request,
        ) == Ok::<Listing, ServiceError>(Listing::AdjOut(request.name->0)),
        (request.table_type == Some(TableType::AdjIn) || request.table_type == Some(
            TableType::AdjOut,
        )) && request.name is None <==> listing_of(request) == Err::<Listing, ServiceError>(
            ServiceError::InvalidNeighborName,
        ),
{
}

/// A destination is asked for when one of the prefixes of the request is it, or when none of them
/// can be read.
pub proof fn law_wanted(prefixes: Seq<Option<IpNet>>, net: IpNet)
    ensures
        wanted(prefixes, Nlri::Ip(net)) <==> {
            ||| exists|i: int| 0 <= i < prefixes.len() && #[trigger] prefixes[i] == Some(net)
            ||| forall|i: int| 0 <= i < prefixes.len() ==> (#[trigger] prefixes[i]) is None
        },
{
    lemma_readable_empty(prefixes);
}

/// A listing of all routes shows all routes to a destination, as they are and in the order they
/// have. One of what came in from a peer leaves out those of that peer, and no others.
pub proof fn law_listed_routes(
    t: Table,
    a: IpAddr,
    family: Family,
    net: Nlri,
    s: Seq<Path>,
    i: int,
)
    ensures
        listed(t, Listing::Global, family, net, s).len() == s.len(),
        0 <= i < s.len() ==> {
            let l = listed(t, Listing::Global, family, net, s)[i];
            l.path == s[i] && l.nexthop == s[i].nexthop && l.attrs == bgp::attr_views(
                s[i].attrs.entry@,
            )
        },
        listed(t, Listing::AdjIn(a), family, net, s) == listed(
            t,
            Listing::Global,
            family,
            net,
            s.filter(rib::not_by(a)),
        ),
{
    assert(from_others(a) =~= rib::not_by(a));
    assert(listed(t, Listing::AdjIn(a), family, net, s) =~= listed(
        t,
        Listing::Global,
        family,
        net,
        s.filter(rib::not_by(a)),
    ));
}

/// What goes out to a peer is the first of the routes alone, and only when there is a session with
/// the peer that has the family, the route does not come from there, and not both are of the own
/// AS. Within the AS it keeps its next hop, and towards another AS the next hop is the own address.
pub proof fn law_listed_as_going_out(t: Table, a: IpAddr, family: Family, net: Nlri, s: Seq<Path>)
    ensures
        ({
            let l = listed(t, Listing::AdjOut(a), family, net, s);
            let to = t.bgp_sessions@[a].source;
            &&& l.len() <= 1
            &&& l.len() == 1 <==> s.len() > 0 && t.bgp_sessions@.contains_key(a)
                && t.bgp_sessions@[a].families@.contains(family) && s[0].source.address
                != to.address && !(s[0].source.ibgp && to.ibgp)
            &&& l.len() == 1 ==> l[0].path == s[0]
            &&& l.len() == 1 && to.ibgp ==> l[0].nexthop == s[0].nexthop
            &&& l.len() == 1 && !to.ibgp ==> l[0].nexthop == to.local_addr
        }),
{
}

/// Of the routes to a destination the first is shown as the best and no other is. Each is shown
/// with its own next hop and attributes.
pub proof fn law_best_is_first(
    net: Nlri,
    l: Seq<ListedView>,
    m: Map<Seq<u8>, Seq<Roa>>,
    i: int,
)
    requires
        0 <= i < l.len(),
    ensures
        ({
            let shown = shown_paths(net, l, m);
            let alone = l[i].path.spec_to_api(net, l[i].nexthop, l[i].attrs, m);
            &&& shown.len() == l.len()
            &&& shown[i].best == (i == 0)
            &&& shown[i].nlri == alone.nlri
            &&& shown[i].family == alone.family
            &&& shown[i].age == alone.age
            &&& shown[i].pattrs == alone.pattrs
            &&& shown[i].validation == alone.validation
        }),
{
}

/// The routes of a family are held against the authorizations for its kind of prefixes.
pub proof fn law_roas_of(t: Table, f: Family)
    ensures
        f == Family::Ipv4Uc ==> roas_of(t, f) == roa::roa_entries(t.roa.v4),
        f != Family::Ipv4Uc ==> roas_of(t, f) == roa::roa_entries(t.roa.v6),
{
}

/// A destination is shown exactly when it is in the table of the family, it is asked for, and one
/// of its routes is listed. It is shown with the routes that are listed.
pub proof fn law_shown_destinations(
    t: Table,
    listing: Listing,
    request: ListPathRequest,
    d: api::DestinationView,
)
    requires
        t.wf(),
    ensures
        ({
            let f = service::asked_family(request.family);
            let s = t.walked(f).entries@;
            answer(t, listing, request).contains(d) <==> exists|i: int|
                {
                    &&& 0 <= i < s.len()
                    &&& (#[trigger] s[i]).0 == d.prefix
                    &&& wanted(request.prefixes@, s[i].0)
                    &&& listed(t, listing, f, s[i].0, s[i].1.entry@).len() > 0
                    &&& d.paths == shown_paths(
                        s[i].0,
                        listed(t, listing, f, s[i].0, s[i].1.entry@),
                        roas_of(t, f),
                    )
                }
        }),
{
    let f = service::asked_family(request.family);
    let s = t.walked(f).entries@;
    let all = rib::rib_list(s);
    let pick = shown_destination(t, listing, f, request.prefixes@);
    lists::lemma_filter_map_contains(all, pick, d);
    assert forall|i: int| 0 <= i < s.len() implies #[trigger] all[i] == (s[i].0, s[i].1.entry@) by {
    }
    if exists|i: int| 0 <= i < all.len() && pick(#[trigger] all[i]) == Some(d) {
        let i = choose|i: int| 0 <= i < all.len() && pick(#[trigger] all[i]) == Some(d);
        assert(s[i].0 == d.prefix);
    }
    if exists|i: int|
        {
            &&& 0 <= i < s.len()
            &&& (#[trigger] s[i]).0 == d.prefix
            &&& wanted(request.prefixes@, s[i].0)
            &&& listed(t, listing, f, s[i].0, s[i].1.entry@).len() > 0
            &&& d.paths == shown_paths(
                s[i].0,
                listed(t, listing, f, s[i].0, s[i].1.entry@),
                roas_of(t, f),
            )
        } {
        let i = choose|i: int|
            {
                &&& 0 <= i < s.len()
                &&& (#[trigger] s[i]).0 == d.prefix
                &&& wanted(request.prefixes@, s[i].0)
                &&& listed(t, listing, f, s[i].0, s[i].1.entry@).len() > 0
                &&& d.paths == shown_paths(
                    s[i].0,
                    listed(t, listing, f, s[i].0, s[i].1.entry@),
                    roas_of(t, f),
                )
            };
        assert(pick(all[i]) == Some(d));
    }
}

} // verus!
